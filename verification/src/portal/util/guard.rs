//! Which requests come from inside: from the machine itself or from a private network.
use vstd::prelude::*;

verus! {

/// The address a request comes from.
#[derive(Debug, Clone, Copy)]
pub enum PeerIp {
    V4([u8; 4]),
    V6([u16; 8]),
}

/// Whether an address is internal: an IPv4 loopback (`127.0.0.0/8`) or private
/// (`10.0.0.0/8`, `172.16.0.0/12`, `192.168.0.0/16`) address, or the IPv6 loopback `::1`.
pub open spec fn ip_internal(ip: PeerIp) -> bool {
    match ip {
        PeerIp::V4(o) => o[0] == 127 || o[0] == 10 || (o[0] == 172 && 16 <= o[1] <= 31) || (o[0] == 192
            && o[1] == 168),
        PeerIp::V6(s) => s[0] == 0 && s[1] == 0 && s[2] == 0 && s[3] == 0 && s[4] == 0 && s[5] == 0
            && s[6] == 0 && s[7] == 1,
    }
}

/// Whether a request from `peer` (`None` when its address is unknown) comes from inside.
pub fn is_internal(peer: Option<PeerIp>) -> (r: bool)
    ensures
        r == (match peer {
            Some(ip) => ip_internal(ip),
            None => false,
        }),
{
    match peer {
        Some(PeerIp::V4(o)) => o[0] == 127 || o[0] == 10 || (o[0] == 172 && 16 <= o[1] && o[1] <= 31)
            || (o[0] == 192 && o[1] == 168),
        Some(PeerIp::V6(s)) => s[0] == 0 && s[1] == 0 && s[2] == 0 && s[3] == 0 && s[4] == 0 && s[5] == 0
            && s[6] == 0 && s[7] == 1,
        None => false,
    }
}

} // verus!
