//! What a request's `Sec-Fetch-Dest` header says the response is for.
use vstd::prelude::*;

use crate::text::str_eq;

verus! {

/// The destination of a request.
#[derive(Debug, Clone, Copy, PartialEq, Eq, Structural)]
pub enum ReqType {
    Document,
    Iframe,
    Image,
    Script,
    Style,
    Empty,
}

/// The destination named by the header value `dest` (`None` when the header is absent);
/// an unknown value is [`ReqType::Empty`].
pub open spec fn req_type_of(dest: Option<Seq<char>>) -> ReqType {
    match dest {
        Some(d) => if d == "document"@ {
            ReqType::Document
        } else if d == "iframe"@ {
            ReqType::Iframe
        } else if d == "image"@ {
            ReqType::Image
        } else if d == "script"@ {
            ReqType::Script
        } else if d == "style"@ {
            ReqType::Style
        } else {
            ReqType::Empty
        },
        None => ReqType::Empty,
    }
}

impl ReqType {
    /// The destination named by the value of the `Sec-Fetch-Dest` header.
    pub fn from_dest(dest: Option<&str>) -> (r: ReqType)
        ensures
            r == req_type_of(
                match dest {
                    Some(d) => Some(d@),
                    None => None,
                },
            ),
    {
        match dest {
            Some(d) => if str_eq(d, "document") {
                ReqType::Document
            } else if str_eq(d, "iframe") {
                ReqType::Iframe
            } else if str_eq(d, "image") {
                ReqType::Image
            } else if str_eq(d, "script") {
                ReqType::Script
            } else if str_eq(d, "style") {
                ReqType::Style
            } else {
                ReqType::Empty
            },
            None => ReqType::Empty,
        }
    }
}

} // verus!
