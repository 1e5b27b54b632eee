//! Types and helpers used across the portal.
pub mod guard;
pub mod state;

use vstd::prelude::*;

verus! {

/// The path of `path` under the application's directory `root`.
pub fn app(root: &str, path: &str) -> (r: String)
    ensures
        r@ == root@ + "/"@ + path@,
{
    let mut r = root.to_owned();
    r.append("/");
    r.append(path);
    r
}

/// The path of the resource `path`: under `root/resource` in a debug build, under the
/// deployed directory otherwise.
pub fn resource(root: &str, debug: bool, path: &str) -> (r: String)
    ensures
        debug ==> r@ == root@ + "/"@ + "resource"@ + "/"@ + path@,
        !debug ==> r@ == "/app/app/portal/"@ + path@,
{
    if debug {
        let mut r = root.to_owned();
        r.append("/");
        r.append("resource");
        r.append("/");
        r.append(path);
        r
    } else {
        let mut r = "/app/app/portal/".to_owned();
        r.append(path);
        r
    }
}

} // verus!
