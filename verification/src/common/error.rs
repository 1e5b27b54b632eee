//! The refusals that the applications answer requests with.
use vstd::prelude::*;

verus! {

/// A refused request: the HTTP status to answer with and the message shown to the user.
#[derive(Debug, Clone, Copy)]
pub struct HttpError {
    pub status: u16,
    pub message: &'static str,
}

/// 400 Bad Request.
pub const BAD_REQUEST: u16 = 400;
/// 401 Unauthorized.
pub const UNAUTHORIZED: u16 = 401;
/// 410 Gone.
pub const GONE: u16 = 410;
/// 503 Service Unavailable.
pub const SERVICE_UNAVAILABLE: u16 = 503;

/// A field of a submitted form that breaks its rule, and the message that says so.
#[derive(Debug, Clone, Copy)]
pub struct FieldError {
    pub field: &'static str,
    pub message: &'static str,
}

/// The number of characters of `s`, as the length rules count them.
pub fn char_count(s: &str) -> (n: usize)
    ensures
        n == s@.len(),
{
    crate::text::str_chars(s).len()
}

} // verus!
