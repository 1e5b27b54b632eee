//! The pages of the characters.
use vstd::prelude::*;

use crate::random::random_index;
use crate::text::{split_chars, split_on, str_chars, string_from_chars, push_all};

verus! {

/// A line without the carriage return that ended it, if one did.
pub open spec fn strip_cr(l: Seq<char>) -> Seq<char> {
    if l.len() > 0 && l.last() == '\r' {
        l.drop_last()
    } else {
        l
    }
}

/// The lines of a text (`str::lines`): split at each line feed, and a carriage return just
/// before a line feed dropped with it; a last line that no line feed ends is kept as it is
/// (a carriage return at its end included), and there is no empty line after a final line
/// feed.
pub open spec fn text_lines(s: Seq<char>) -> Seq<Seq<char>> {
    let parts = split_on(s, '\n');
    let ended = parts.drop_last().map_values(|l: Seq<char>| strip_cr(l));
    if parts.last().len() == 0 {
        ended
    } else {
        ended.push(parts.last())
    }
}

/// A random portrait from a list written one per line; `None` when the list has no line.
pub fn random_portrait(list: &str) -> (r: Option<String>)
    ensures
        r is None <==> text_lines(list@).len() == 0,
        r matches Some(p) ==> text_lines(list@).contains(p@),
{
    let chars = str_chars(list);
    let parts = split_chars(&chars, '\n');
    proof { crate::text::lemma_split_on(list@, '\n'); }
    let ghost all = split_on(list@, '\n');
    let last: usize = parts.len() - 1;
    let n: usize = if parts[last].len() == 0 {
        last
    } else {
        parts.len()
    };
    assert(text_lines(list@).len() == n);
    if n == 0 {
        return None;
    }
    let k: usize = random_index(n);
    let line = &parts[k];
    assert(line@ == all[k as int]);
    let mut out: Vec<char> = Vec::new();
    let m = line.len();
    if k < last && m > 0 && line[m - 1] == '\r' {
        crate::text::push_range(&mut out, line, 0, m - 1);
        assert(out@ =~= line@.drop_last());
    } else {
        push_all(&mut out, line);
    }
    let p = string_from_chars(out);
    assert(text_lines(list@)[k as int] == p@);
    Some(p)
}

/// The title of a character's page.
pub fn actor_title(name: &str) -> (r: String)
    ensures
        r@ == name@ + " - one day's' talk"@,
{
    let mut t = name.to_owned();
    t.append(" - one day's' talk");
    t
}

} // verus!
