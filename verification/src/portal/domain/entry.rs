//! Entry to the portal: the passwords users sign in with, and the record of a new user.
use argon2::{PasswordHasher, PasswordVerifier};
use vstd::prelude::*;

use crate::common::error::{HttpError, UNAUTHORIZED};

verus! {

/// The message of a refused login.
pub const WRONG_LOGIN_MESSAGE: &'static str = "ユーザー名またはパスワードが異なります";

/// Whether `password` matches the Argon2 hash `stored` (a PHC string); `None` where `stored`
/// is no PHC string.
pub uninterp spec fn argon2_verified(password: Seq<char>, stored: Seq<char>) -> Option<bool>;

/// The Argon2 hash (as a PHC string, default parameters) of `password` with the salt whose
/// bytes are `salt`; `None` where the crate refuses.
pub uninterp spec fn argon2_hash(password: Seq<char>, salt: Seq<u8>) -> Option<Seq<char>>;

/// The bytes of a list of texts archived by `rkyv`; `None` where the crate refuses.
pub uninterp spec fn rkyv_strings(list: Seq<Seq<char>>) -> Option<Seq<u8>>;

/// Whether `password` matches `stored` (`argon2::PasswordHash::new`, then
/// `Argon2::default().verify_password`): `None` where `PasswordHash::new` refuses `stored`.
/// Claimed of the `argon2` crate: the answer depends on the two texts alone.
#[verifier::external_body]
fn argon2_verify(password: &str, stored: &str) -> (r: Option<bool>)
    ensures
        r == argon2_verified(password@, stored@),
{
    match argon2::PasswordHash::new(stored) {
        Ok(h) => Some(argon2::Argon2::default().verify_password(password.as_bytes(), &h).is_ok()),
        Err(_) => None,
    }
}

/// The hash of `password` with the salt `salt` (`SaltString::encode_b64`, then
/// `Argon2::default().hash_password`, as a PHC string). Claimed of the `argon2` crate: the
/// hash depends on the password and the salt alone, and it verifies with the same password
/// (as the crate's documentation shows: a hash so made, read back with `PasswordHash::new`,
/// passes `verify_password`).
#[verifier::external_body]
fn argon2_hash_password(password: &str, salt: &[u8; 16]) -> (r: Option<String>)
    ensures
        match r {
            Some(h) => argon2_hash(password@, salt@) == Some(h@) && argon2_verified(password@, h@)
                == Some(true),
            None => argon2_hash(password@, salt@) is None,
        },
{
    let salt = match argon2::password_hash::SaltString::encode_b64(salt) {
        Ok(s) => s,
        Err(_) => return None,
    };
    match argon2::Argon2::default().hash_password(password.as_bytes(), &salt) {
        Ok(h) => Some(h.to_string()),
        Err(_) => None,
    }
}

/// The bytes of `list` archived (`rkyv::to_bytes`). Claimed of the `rkyv` crate: the bytes
/// depend on the texts alone.
#[verifier::external_body]
fn rkyv_archive_strings(list: &Vec<String>) -> (r: Option<Vec<u8>>)
    ensures
        match r {
            Some(b) => rkyv_strings(list@.map_values(|s: String| s@)) == Some(b@),
            None => rkyv_strings(list@.map_values(|s: String| s@)) is None,
        },
{
    match rkyv::to_bytes::<rkyv::rancor::Error>(list) {
        Ok(b) => Some(b.to_vec()),
        Err(_) => None,
    }
}

/// Checks a login: `Ok` where `password` matches the stored hash; a 401 refusal where it
/// does not; `Err(None)` where the stored hash cannot be read, a fault of the server.
pub fn check_login(password: &str, stored: &str) -> (r: Result<(), Option<HttpError>>)
    ensures
        r is Ok <==> argon2_verified(password@, stored@) == Some(true),
        argon2_verified(password@, stored@) == Some(false) ==> r == Err::<(), Option<HttpError>>(
            Some(HttpError { status: UNAUTHORIZED, message: WRONG_LOGIN_MESSAGE }),
        ),
        argon2_verified(password@, stored@) is None ==> r == Err::<(), Option<HttpError>>(None),
{
    match argon2_verify(password, stored) {
        Some(true) => Ok(()),
        Some(false) => Err(Some(HttpError { status: UNAUTHORIZED, message: WRONG_LOGIN_MESSAGE })),
        None => Err(None),
    }
}

/// The hash stored for a new user's `password`, made with the random `salt`; it passes
/// [`check_login`] with the same password. `None` where the crate refuses.
pub fn new_password_hash(password: &str, salt: &[u8; 16]) -> (r: Option<String>)
    ensures
        match r {
            Some(h) => argon2_hash(password@, salt@) == Some(h@) && argon2_verified(password@, h@)
                == Some(true),
            None => argon2_hash(password@, salt@) is None,
        },
{
    argon2_hash_password(password, salt)
}

/// The mutes stored for a new user: an empty list, archived. `None` where the crate refuses.
pub fn new_mutes() -> (r: Option<Vec<u8>>)
    ensures
        match r {
            Some(b) => rkyv_strings(Seq::empty()) == Some(b@),
            None => rkyv_strings(Seq::empty()) is None,
        },
{
    let list: Vec<String> = Vec::new();
    let r = rkyv_archive_strings(&list);
    assert(list@.map_values(|s: String| s@) =~= Seq::<Seq<char>>::empty());
    r
}

} // verus!
