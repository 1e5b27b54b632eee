//! The keys of an application: the session key, and the administration key that is stored
//! in its place as standard Base64.
use vstd::prelude::*;

use crate::text::{base64_standard, base64_standard_decode, standard_base64, standard_base64_decoded};

verus! {

/// The shortest session key that the cookie key accepts, in bytes.
pub const SESSION_KEY_LEN: usize = 64;

/// The session key that a stored administration key stands for: its standard Base64
/// decoded, when it decodes and gives at least [`SESSION_KEY_LEN`] bytes.
pub open spec fn session_key_of(stored: Seq<char>) -> Option<Seq<u8>> {
    match standard_base64_decoded(stored) {
        Some(b) => if b.len() >= SESSION_KEY_LEN {
            Some(b)
        } else {
            None
        },
        None => None,
    }
}

/// The session-key bytes of a stored administration key (see [`session_key_of`]); `None`
/// where it stands for none.
pub fn stored_session_key(stored: &str) -> (r: Option<Vec<u8>>)
    ensures
        r is Some <==> (standard_base64_decoded(stored@) matches Some(b) && b.len() >= SESSION_KEY_LEN),
        r matches Some(b) ==> standard_base64_decoded(stored@) == Some(b@),
        match r {
            Some(b) => session_key_of(stored@) == Some(b@),
            None => session_key_of(stored@) is None,
        },
{
    match base64_standard_decode(stored) {
        Some(b) => {
            if b.len() >= SESSION_KEY_LEN {
                Some(b)
            } else {
                None
            }
        },
        None => None,
    }
}

/// The administration key stored for a new session key: the standard Base64 of its master
/// bytes, which decodes back to them; so a stored key gives back, at the next start, the
/// session key it was made from.
pub fn admin_key_of(master: &[u8]) -> (r: String)
    ensures
        r@ == standard_base64(master@),
        standard_base64_decoded(r@) == Some(master@),
        master@.len() >= SESSION_KEY_LEN ==> session_key_of(r@) == Some(master@),
{
    base64_standard(master)
}

} // verus!
