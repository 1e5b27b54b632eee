//! One-time codes with which the sites confirm who a portal user is.
use vstd::prelude::*;

use crate::common::error::{HttpError, UNAUTHORIZED};

verus! {

/// How long a code stays valid, in seconds.
pub const AUTH_EXPIRY: i64 = 300;

/// The message of a code that has expired.
pub const EXPIRED_MESSAGE: &'static str = "認証コードが期限切れです";
/// The message of a code that was never issued, or was used already.
pub const INVALID_MESSAGE: &'static str = "認証コードが無効です";

/// When a code issued at `now` expires.
pub fn code_expiry(now: i64) -> (r: i64)
    requires
        now <= i64::MAX - AUTH_EXPIRY,
    ensures
        r == now + AUTH_EXPIRY,
{
    now + AUTH_EXPIRY
}

/// Whether a code found with the expiry `found` (`None` when no such code was stored) is
/// accepted at `now`: it must exist and expire after `now`.
pub fn check_code(found: Option<i64>, now: i64) -> (r: Result<(), HttpError>)
    ensures
        r is Ok <==> (found matches Some(t) && t > now),
        (found matches Some(t) && t <= now) ==> r == Err::<(), HttpError>(
            HttpError { status: UNAUTHORIZED, message: EXPIRED_MESSAGE },
        ),
        found is None ==> r == Err::<(), HttpError>(
            HttpError { status: UNAUTHORIZED, message: INVALID_MESSAGE },
        ),
{
    match found {
        Some(t) => if t > now {
            Ok(())
        } else {
            Err(HttpError { status: UNAUTHORIZED, message: EXPIRED_MESSAGE })
        },
        None => Err(HttpError { status: UNAUTHORIZED, message: INVALID_MESSAGE }),
    }
}

} // verus!
