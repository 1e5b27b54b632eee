//! Random choices, provided by the `rand` crate.
use vstd::prelude::*;

verus! {

/// A random number between `lo` and `hi`, both included (`rand::random_range` over `lo..=hi`,
/// drawn from the thread-local generator).
/// Claimed of the `rand` crate: the result lies in the range. Which number comes is not stated.
#[verifier::external_body]
pub fn random_in(lo: u64, hi: u64) -> (r: u64)
    requires
        lo <= hi,
    ensures
        lo <= r <= hi,
{
    rand::random_range(lo..=hi)
}

/// A random index below `n`.
pub fn random_index(n: usize) -> (r: usize)
    requires
        n > 0,
    ensures
        r < n,
{
    let r = random_in(0, (n - 1) as u64);
    r as usize
}

/// Whether `v` is the code of a character: at most `0x10FFFF` and not a surrogate.
pub open spec fn is_char_code(v: u32) -> bool {
    v <= 0x10FFFF && !(0xD800 <= v <= 0xDFFF)
}

/// The character of the code `v` (`char::from_u32`): `None` where `v` is no character's code.
#[verifier::external_body]
pub fn char_from_u32(v: u32) -> (r: Option<char>)
    ensures
        r is Some <==> is_char_code(v),
        r matches Some(c) ==> c as u32 == v,
{
    char::from_u32(v)
}

/// A random key of `size` characters drawn from `alphabet` (`nanoid::format` with the
/// crate's default source of random bytes). Claimed of the `nanoid` crate: the key has `size`
/// characters, each from the alphabet; which ones is not stated. The alphabet must be ASCII
/// (the crate counts bytes) and hold between 1 and 255 characters, and `size` must be at
/// least 1, or the call does not return.
#[verifier::external_body]
pub fn random_key(alphabet: &[char], size: usize) -> (r: String)
    requires
        1 <= alphabet@.len() <= 255,
        forall|k: int| 0 <= k < alphabet@.len() ==> (#[trigger] alphabet@[k] as u32) < 128,
        size >= 1,
    ensures
        r@.len() == size,
        forall|k: int| 0 <= k < r@.len() ==> alphabet@.contains(#[trigger] r@[k]),
{
    nanoid::format(nanoid::rngs::default, alphabet, size)
}

} // verus!
