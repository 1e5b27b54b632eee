//! Types and helpers of the earlier layout of the site, kept for the pages that still use it.
pub mod page;


pub use crate::ondyst::util::state;
pub use crate::ondyst::util::state::State;
pub use page::{ActorData, Page};
pub mod tag_parse;

use vstd::prelude::*;

verus! {

/// The path of `path` under the application's directory `root`.
pub fn app(root: &str, path: &str) -> (r: String)
    ensures
        r@ == root@ + "/"@ + path@,
{
    let mut r = root.to_owned();
    r.append("/");
    r.append(path);
    r
}

/// The path of the resource `path`, under `root/resource`.
pub fn resource(root: &str, path: &str) -> (r: String)
    ensures
        r@ == root@ + "/"@ + ("resource/"@ + path@),
{
    let mut sub = "resource/".to_owned();
    sub.append(path);
    app(root, sub.as_str())
}

} // verus!
