//! Regular-expression matching, provided by the `regex` crate.
use vstd::prelude::*;

use crate::text::on_boundary;

verus! {

/// One match of a pattern: its byte range in the searched text and the byte range of
/// each capture group (group 0 is the whole match), `None` for a group that did not take part.
pub struct RegexCapture {
    pub start: usize,
    pub end: usize,
    pub groups: Vec<Option<(usize, usize)>>,
}

/// The byte range of capture group `g`, if the group took part in the match.
pub open spec fn group_of(c: RegexCapture, g: int) -> Option<(usize, usize)> {
    if 0 <= g < c.groups@.len() {
        c.groups@[g]
    } else {
        None
    }
}

/// What the `regex` crate reports for every successive match of `pattern` in `text`:
/// `None` when the pattern does not compile.
pub uninterp spec fn regex_captures_of(pattern: Seq<char>, text: Seq<char>) -> Option<Seq<RegexCapture>>;

/// The matches lie within `text`, on character boundaries, and come in order without overlapping.
pub open spec fn captures_in_order(text: Seq<char>, caps: Seq<RegexCapture>) -> bool {
    &&& forall|k: int|
        #![trigger caps[k]]
        0 <= k < caps.len() ==> {
            &&& caps[k].start <= caps[k].end
            &&& on_boundary(text, caps[k].start as int)
            &&& on_boundary(text, caps[k].end as int)
        }
    &&& forall|k: int| #![trigger caps[k]] 0 < k < caps.len() ==> caps[k - 1].end <= caps[k].start
    &&& forall|k: int, g: int|
        #![trigger group_of(caps[k], g)]
        0 <= k < caps.len() && group_of(caps[k], g) is Some ==> {
            let (a, b) = group_of(caps[k], g)->0;
            &&& a <= b
            &&& on_boundary(text, a as int)
            &&& on_boundary(text, b as int)
        }
}

/// All successive non-overlapping matches of `pattern` in `text` (`Regex::new`, then
/// `Regex::captures_iter`), or `None` when the pattern does not compile.
/// Claimed of the `regex` crate: the result is a function of the pattern and the text alone;
/// every match and group offset is a byte offset on a UTF-8 character boundary with
/// start not after end, and each match starts at or after the end of the previous one.
/// Which groups match where is not stated.
#[verifier::external_body]
pub fn regex_captures(pattern: &str, text: &str) -> (res: Option<Vec<RegexCapture>>)
    ensures
        match res {
            Some(caps) => regex_captures_of(pattern@, text@) == Some(caps@) && captures_in_order(
                text@,
                caps@,
            ),
            None => regex_captures_of(pattern@, text@) is None,
        },
{
    match regex::Regex::new(pattern) {
        Ok(re) => Some(
            re.captures_iter(text).map(|caps| RegexCapture {
                start: caps.get_match().start(),
                end: caps.get_match().end(),
                groups: caps.iter().map(|g| g.map(|m| (m.start(), m.end()))).collect(),
            }).collect(),
        ),
        Err(_) => None,
    }
}

} // verus!
