//! Entry to the site: the names new characters are given, and the codes they sign in with.
use vstd::prelude::*;

use crate::common::error::{char_count, FieldError};
use crate::random::{char_from_u32, is_char_code, random_in};
use crate::text::string_from_chars;

verus! {

/// A random name: a random number of characters between `len_lo` and `len_hi`, each drawn at
/// random from the codes `lo..=hi`; a drawn code that is no character is left out.
pub fn generate_random_unicode(lo: u32, hi: u32, len_lo: usize, len_hi: usize) -> (r: String)
    requires
        lo <= hi,
        len_lo <= len_hi,
    ensures
        r@.len() <= len_hi,
        (forall|v: u32| lo <= v <= hi ==> is_char_code(v)) ==> len_lo <= r@.len(),
        forall|k: int| 0 <= k < r@.len() ==> lo <= #[trigger] (r@[k] as u32) <= hi,
{
    let length = random_in(len_lo as u64, len_hi as u64) as usize;
    let mut out: Vec<char> = Vec::new();
    let mut i: usize = 0;
    while i < length
        invariant
            lo <= hi,
            len_lo <= length <= len_hi,
            0 <= i <= length,
            out@.len() <= i,
            (forall|v: u32| lo <= v <= hi ==> is_char_code(v)) ==> out@.len() == i,
            forall|k: int| 0 <= k < out@.len() ==> lo <= #[trigger] (out@[k] as u32) <= hi,
        decreases length - i,
    {
        let v = random_in(lo as u64, hi as u64) as u32;
        if let Some(c) = char_from_u32(v) {
            out.push(c);
        }
        i = i + 1;
    }
    string_from_chars(out)
}

/// A code sent to sign in or to register.
pub struct Auth {
    pub code: String,
}

impl Auth {
    /// Checks the code: at most 40 characters.
    pub fn validate(&self) -> (r: Result<(), Vec<FieldError>>)
        ensures
            r is Ok <==> self.code@.len() <= 40,
            r matches Err(v) ==> v@ == seq![FieldError { field: "code", message: "length" }],
    {
        if char_count(self.code.as_str()) > 40 {
            let mut v: Vec<FieldError> = Vec::new();
            v.push(FieldError { field: "code", message: "length" });
            Err(v)
        } else {
            Ok(())
        }
    }
}

} // verus!
