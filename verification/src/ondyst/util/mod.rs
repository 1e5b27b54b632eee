//! Types and helpers used across the site.
pub mod page;
pub mod state;
pub mod tag_parse;
pub mod webhook;

use vstd::prelude::*;

verus! {

/// The characters of the keys of places: digits, lower-case and upper-case letters.
pub const BASE62: [char; 62] = [
    '0', '1', '2', '3', '4', '5', '6', '7', '8', '9', 'a', 'b', 'c', 'd', 'e', 'f', 'g', 'h', 'i',
    'j', 'k', 'l', 'm', 'n', 'o', 'p', 'q', 'r', 's', 't', 'u', 'v', 'w', 'x', 'y', 'z', 'A', 'B',
    'C', 'D', 'E', 'F', 'G', 'H', 'I', 'J', 'K', 'L', 'M', 'N', 'O', 'P', 'Q', 'R', 'S', 'T', 'U',
    'V', 'W', 'X', 'Y', 'Z',
];

/// The path of `path` under the application's directory `root`.
pub fn app(root: &str, path: &str) -> (r: String)
    ensures
        r@ == root@ + "/"@ + path@,
{
    let mut r = root.to_owned();
    r.append("/");
    r.append(path);
    r
}

/// The path of the resource `path`: under `root/resource` in a debug build, under the
/// deployed directory otherwise.
pub fn resource(root: &str, debug: bool, path: &str) -> (r: String)
    ensures
        debug ==> r@ == root@ + "/"@ + "resource"@ + "/"@ + path@,
        !debug ==> r@ == "/app/app/ondyst/"@ + path@,
{
    if debug {
        let mut r = root.to_owned();
        r.append("/");
        r.append("resource");
        r.append("/");
        r.append(path);
        r
    } else {
        let mut r = "/app/app/ondyst/".to_owned();
        r.append(path);
        r
    }
}

/// A handout: its title and its text.
#[derive(Debug, Clone)]
pub struct Handout {
    pub title: String,
    pub body: String,
}

} // verus!
