//! Places where the characters talk.
use vstd::prelude::*;

use crate::ondyst::util::BASE62;
use crate::random::random_key;
use crate::text::{push_str, string_from_chars};

verus! {

/// A new key for a place: eight characters of [`BASE62`].
pub fn new_location_key() -> (r: String)
    ensures
        r@.len() == 8,
        forall|k: int| 0 <= k < r@.len() ==> BASE62@.contains(#[trigger] r@[k]),
{
    let alphabet: [char; 62] = BASE62;
    proof {
        assert forall|k: int| 0 <= k < alphabet@.len() implies (#[trigger] alphabet@[k] as u32) < 128 by {
            assert(alphabet@[k] == BASE62@[k]);
        }
    }
    random_key(&alphabet, 8)
}

/// The log entry of a new place, with a link to it.
pub fn new_location_message(key: &str) -> (r: String)
    ensures
        r@ == "新しい場所を追加しました<br><a href=\"location/"@ + key@ + "\">移動する</a>"@,
{
    let mut out: Vec<char> = Vec::new();
    push_str(&mut out, "新しい場所を追加しました<br><a href=\"location/");
    push_str(&mut out, key);
    push_str(&mut out, "\">移動する</a>");
    string_from_chars(out)
}

} // verus!
