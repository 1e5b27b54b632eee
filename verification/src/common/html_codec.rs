//! Encoding and decoding of text for HTML: line breaks, escaping, links and tags.
use std::borrow::Cow;

use vstd::prelude::*;
use vstd::string::StringSliceAdditionalSpecFns;
use vstd::utf8::encode_utf8;

use crate::common::html_encode::{anchor_html, lemma_byte_range_full};
use crate::common::link::{link_target, link_target_exec, LINK_PATTERN};
use crate::matcher::{captures_in_order, group_of, regex_captures, regex_captures_of, RegexCapture};
use crate::text::{
    byte_range, byte_slice, on_boundary, push_all, push_str, str_chars, string_from_chars,
};

verus! {

// ---------------------------------------------------------------------------
// Line breaks
// ---------------------------------------------------------------------------

/// Whether `s` holds a line feed or a carriage return.
pub open spec fn has_line_break(s: Seq<char>) -> bool {
    exists|i: int| 0 <= i < s.len() && (s[i] == '\n' || s[i] == '\r')
}

/// `s` with each `\n`, `\r\n` and `\r` written as `<br>`.
pub open spec fn spec_br(s: Seq<char>) -> Seq<char>
    decreases s.len(),
{
    if s.len() == 0 {
        Seq::empty()
    } else if s[0] == '\n' {
        seq!['<', 'b', 'r', '>'] + spec_br(s.drop_first())
    } else if s[0] == '\r' {
        if s.len() > 1 && s[1] == '\n' {
            seq!['<', 'b', 'r', '>'] + spec_br(s.subrange(2, s.len() as int))
        } else {
            seq!['<', 'b', 'r', '>'] + spec_br(s.drop_first())
        }
    } else {
        seq![s[0]] + spec_br(s.drop_first())
    }
}

/// `s` without any `\n` or `\r`.
pub open spec fn spec_rm_br(s: Seq<char>) -> Seq<char>
    decreases s.len(),
{
    if s.len() == 0 {
        Seq::empty()
    } else {
        spec_rm_br(s.drop_last()) + (if s.last() == '\n' || s.last() == '\r' {
            Seq::empty()
        } else {
            seq![s.last()]
        })
    }
}

// ---------------------------------------------------------------------------
// Escaping
// ---------------------------------------------------------------------------

pub open spec fn ent_lt() -> Seq<char> {
    seq!['&', 'l', 't', ';']
}

pub open spec fn ent_gt() -> Seq<char> {
    seq!['&', 'g', 't', ';']
}

pub open spec fn ent_amp() -> Seq<char> {
    seq!['&', 'a', 'm', 'p', ';']
}

pub open spec fn ent_quot() -> Seq<char> {
    seq!['&', 'q', 'u', 'o', 't', ';']
}

pub open spec fn ent_apos() -> Seq<char> {
    seq!['&', 'a', 'p', 'o', 's', ';']
}

pub open spec fn ent_39() -> Seq<char> {
    seq!['&', '#', '3', '9', ';']
}

pub open spec fn ent_nbsp() -> Seq<char> {
    seq!['&', 'n', 'b', 's', 'p', ';']
}

/// What one character becomes when escaped; quotes only when `quot` holds.
pub open spec fn escape_char(c: char, quot: bool) -> Seq<char> {
    if c == '<' {
        ent_lt()
    } else if c == '>' {
        ent_gt()
    } else if c == '&' {
        ent_amp()
    } else if c == '"' && quot {
        ent_quot()
    } else if c == '\'' && quot {
        ent_apos()
    } else {
        seq![c]
    }
}

/// Whether `c` is changed by escaping.
pub open spec fn is_escaped(c: char, quot: bool) -> bool {
    c == '<' || c == '>' || c == '&' || (quot && (c == '"' || c == '\''))
}

/// `s` with `< > &` (and, when `quot` holds, `" '`) written as entities.
pub open spec fn spec_escape(s: Seq<char>, quot: bool) -> Seq<char>
    decreases s.len(),
{
    if s.len() == 0 {
        Seq::empty()
    } else {
        escape_char(s[0], quot) + spec_escape(s.drop_first(), quot)
    }
}

/// The entity that `s` starts with, as the character it stands for and its length:
/// `&lt; &gt; &amp; &quot; &apos; &#39; &nbsp;`, tried in this order.
pub open spec fn entity_at(s: Seq<char>) -> Option<(char, int)> {
    if s.len() >= 4 && s.subrange(0, 4) == ent_lt() {
        Some(('<', 4))
    } else if s.len() >= 4 && s.subrange(0, 4) == ent_gt() {
        Some(('>', 4))
    } else if s.len() >= 5 && s.subrange(0, 5) == ent_amp() {
        Some(('&', 5))
    } else if s.len() >= 6 && s.subrange(0, 6) == ent_quot() {
        Some(('"', 6))
    } else if s.len() >= 6 && s.subrange(0, 6) == ent_apos() {
        Some(('\'', 6))
    } else if s.len() >= 5 && s.subrange(0, 5) == ent_39() {
        Some(('\'', 5))
    } else if s.len() >= 6 && s.subrange(0, 6) == ent_nbsp() {
        Some((' ', 6))
    } else {
        None
    }
}

/// `s` with its entities turned back into characters; an `&` that opens no known entity stays.
pub open spec fn spec_unescape(s: Seq<char>) -> Seq<char>
    decreases s.len(),
{
    if s.len() == 0 {
        Seq::empty()
    } else if s[0] == '&' && entity_at(s) is Some {
        let (c, n) = entity_at(s)->0;
        seq![c] + spec_unescape(s.subrange(n, s.len() as int))
    } else {
        seq![s[0]] + spec_unescape(s.drop_first())
    }
}

fn push_escape_char(c: char, quot: bool, out: &mut Vec<char>)
    ensures
        final(out)@ == old(out)@ + escape_char(c, quot),
{
    if c == '<' {
        push_str(out, "&lt;");
        proof { reveal_strlit("&lt;"); }
    } else if c == '>' {
        push_str(out, "&gt;");
        proof { reveal_strlit("&gt;"); }
    } else if c == '&' {
        push_str(out, "&amp;");
        proof { reveal_strlit("&amp;"); }
    } else if c == '"' && quot {
        push_str(out, "&quot;");
        proof { reveal_strlit("&quot;"); }
    } else if c == '\'' && quot {
        push_str(out, "&apos;");
        proof { reveal_strlit("&apos;"); }
    } else {
        out.push(c);
    }
}

/// Appends the escaped form of `src` to `out`.
pub fn escape_chars(src: &[char], quot: bool, out: &mut Vec<char>)
    ensures
        final(out)@ == old(out)@ + spec_escape(src@, quot),
{
    let mut i: usize = 0;
    assert(src@.subrange(0, src@.len() as int) =~= src@);
    while i < src.len()
        invariant
            0 <= i <= src@.len(),
            old(out)@ + spec_escape(src@, quot) == out@ + spec_escape(
                src@.subrange(i as int, src@.len() as int),
                quot,
            ),
        decreases src.len() - i,
    {
        let ghost rest = src@.subrange(i as int, src@.len() as int);
        push_escape_char(src[i], quot, out);
        i = i + 1;
        assert(rest.drop_first() =~= src@.subrange(i as int, src@.len() as int));
    }
    assert(src@.subrange(i as int, src@.len() as int) =~= Seq::<char>::empty());
}

/// Escaping changes nothing in a text without the characters it replaces.
pub proof fn lemma_escape_unchanged(s: Seq<char>, quot: bool)
    requires
        forall|i: int| 0 <= i < s.len() ==> !is_escaped(#[trigger] s[i], quot),
    ensures
        spec_escape(s, quot) == s,
    decreases s.len(),
{
    if s.len() > 0 {
        assert forall|i: int| 0 <= i < s.drop_first().len() implies !is_escaped(
            #[trigger] s.drop_first()[i],
            quot,
        ) by {
            assert(s.drop_first()[i] == s[i + 1]);
        }
        lemma_escape_unchanged(s.drop_first(), quot);
        assert(seq![s[0]] + s.drop_first() =~= s);
    }
}

/// The characters of `s` (a `Cow` over a string slice or a string).
pub open spec fn cow_view(c: Cow<'_, str>) -> Seq<char> {
    match c {
        Cow::Borrowed(b) => b@,
        Cow::Owned(o) => o@,
    }
}

/// `text` with its line breaks written as `<br>`; `text` itself when it has none.
pub fn br<'a>(text: &'a str) -> (r: Cow<'a, str>)
    ensures
        cow_view(r) == spec_br(text@),
        !has_line_break(text@) ==> r is Borrowed,
{
    let src = str_chars(text);
    let mut out: Vec<char> = Vec::new();
    let mut changed = false;
    let mut i: usize = 0;
    assert(src@.subrange(0, src@.len() as int) =~= src@);
    while i < src.len()
        invariant
            src@ == text@,
            0 <= i <= src@.len(),
            changed ==> has_line_break(src@),
            spec_br(src@) == out@ + spec_br(src@.subrange(i as int, src@.len() as int)),
            !changed ==> forall|j: int| 0 <= j < i ==> src@[j] != '\n' && src@[j] != '\r',
        decreases src.len() - i,
    {
        let ghost rest = src@.subrange(i as int, src@.len() as int);
        let c = src[i];
        if c == '\n' || c == '\r' {
            assert(src@[i as int] == c);
            assert(has_line_break(src@));
            changed = true;
            out.push('<');
            out.push('b');
            out.push('r');
            out.push('>');
            i = i + 1;
            if c == '\r' && i < src.len() && src[i] == '\n' {
                i = i + 1;
                assert(rest.subrange(2, rest.len() as int) =~= src@.subrange(i as int, src@.len() as int));
            } else {
                assert(rest.drop_first() =~= src@.subrange(i as int, src@.len() as int));
            }
        } else {
            out.push(c);
            i = i + 1;
            assert(rest.drop_first() =~= src@.subrange(i as int, src@.len() as int));
        }
    }
    assert(src@.subrange(i as int, src@.len() as int) =~= Seq::<char>::empty());
    if changed {
        Cow::Owned(string_from_chars(out))
    } else {
        proof { lemma_br_unchanged(src@); }
        assert(out@ =~= text@) by {
            assert(out@ == spec_br(src@));
        }
        Cow::Borrowed(text)
    }
}

/// Line-break conversion changes nothing in a text without line breaks.
pub proof fn lemma_br_unchanged(s: Seq<char>)
    requires
        forall|j: int| 0 <= j < s.len() ==> s[j] != '\n' && s[j] != '\r',
    ensures
        spec_br(s) == s,
    decreases s.len(),
{
    if s.len() > 0 {
        assert forall|j: int| 0 <= j < s.drop_first().len() implies s.drop_first()[j] != '\n'
            && s.drop_first()[j] != '\r' by {
            assert(s.drop_first()[j] == s[j + 1]);
        }
        lemma_br_unchanged(s.drop_first());
        assert(seq![s[0]] + s.drop_first() =~= s);
    }
}

/// `text` escaped (quotes too when `quot` holds); `text` itself when nothing needs escaping.
pub fn escape<'a>(text: &'a str, quot: bool) -> (r: Cow<'a, str>)
    ensures
        cow_view(r) == spec_escape(text@, quot),
        (forall|i: int| 0 <= i < text@.len() ==> !is_escaped(#[trigger] text@[i], quot)) ==> r is Borrowed,
{
    let src = str_chars(text);
    let mut i: usize = 0;
    while i < src.len()
        invariant
            src@ == text@,
            0 <= i <= src@.len(),
            forall|j: int| 0 <= j < i ==> !is_escaped(#[trigger] src@[j], quot),
        decreases src.len() - i,
    {
        let c = src[i];
        if c == '<' || c == '>' || c == '&' || (quot && (c == '"' || c == '\'')) {
            let mut out: Vec<char> = Vec::new();
            escape_chars(&src, quot, &mut out);
            return Cow::Owned(string_from_chars(out));
        }
        i = i + 1;
    }
    proof { lemma_escape_unchanged(text@, quot); }
    Cow::Borrowed(text)
}

// ---------------------------------------------------------------------------
// Laws of line breaks and escaping
// ---------------------------------------------------------------------------

/// What line-break conversion gives has no line break left.
pub proof fn lemma_br_has_no_break(s: Seq<char>)
    ensures
        forall|j: int| 0 <= j < spec_br(s).len() ==> spec_br(s)[j] != '\n' && spec_br(s)[j] != '\r',
    decreases s.len(),
{
    if s.len() > 0 {
        let r = if s[0] == '\r' && s.len() > 1 && s[1] == '\n' {
            s.subrange(2, s.len() as int)
        } else {
            s.drop_first()
        };
        let pre = if s[0] == '\n' || s[0] == '\r' {
            seq!['<', 'b', 'r', '>']
        } else {
            seq![s[0]]
        };
        lemma_br_has_no_break(r);
        assert(spec_br(s) == pre + spec_br(r));
        assert forall|j: int| 0 <= j < spec_br(s).len() implies spec_br(s)[j] != '\n' && spec_br(
            s,
        )[j] != '\r' by {
            if j >= pre.len() {
                assert(spec_br(s)[j] == spec_br(r)[j - pre.len()]);
            }
        }
    }
}

/// Converting line breaks twice is converting them once.
pub proof fn lemma_br_idempotent(s: Seq<char>)
    ensures
        spec_br(spec_br(s)) == spec_br(s),
{
    lemma_br_has_no_break(s);
    lemma_br_unchanged(spec_br(s));
}

/// Removing line breaks leaves none.
pub proof fn lemma_rm_br_has_no_break(s: Seq<char>)
    ensures
        forall|j: int| 0 <= j < spec_rm_br(s).len() ==> spec_rm_br(s)[j] != '\n' && spec_rm_br(s)[j] != '\r',
    decreases s.len(),
{
    if s.len() > 0 {
        let r = spec_rm_br(s.drop_last());
        lemma_rm_br_has_no_break(s.drop_last());
        let post = if s.last() == '\n' || s.last() == '\r' {
            Seq::<char>::empty()
        } else {
            seq![s.last()]
        };
        assert(spec_rm_br(s) == r + post);
        assert forall|j: int| 0 <= j < spec_rm_br(s).len() implies spec_rm_br(s)[j] != '\n'
            && spec_rm_br(s)[j] != '\r' by {
            if j < r.len() {
                assert(spec_rm_br(s)[j] == r[j]);
            }
        }
    }
}

/// Removing line breaks changes nothing in a text without them.
pub proof fn lemma_rm_br_unchanged(s: Seq<char>)
    requires
        forall|j: int| 0 <= j < s.len() ==> s[j] != '\n' && s[j] != '\r',
    ensures
        spec_rm_br(s) == s,
    decreases s.len(),
{
    if s.len() > 0 {
        assert forall|j: int| 0 <= j < s.drop_last().len() implies s.drop_last()[j] != '\n'
            && s.drop_last()[j] != '\r' by {
            assert(s.drop_last()[j] == s[j]);
        }
        lemma_rm_br_unchanged(s.drop_last());
        assert(s.drop_last().push(s.last()) =~= s);
    }
}

/// Removing line breaks twice is removing them once, and it undoes nothing that line-break
/// conversion did: a converted text has none to remove.
pub proof fn lemma_rm_br_laws(s: Seq<char>)
    ensures
        spec_rm_br(spec_rm_br(s)) == spec_rm_br(s),
        spec_rm_br(spec_br(s)) == spec_br(s),
{
    lemma_rm_br_has_no_break(s);
    lemma_rm_br_unchanged(spec_rm_br(s));
    lemma_br_has_no_break(s);
    lemma_rm_br_unchanged(spec_br(s));
}

/// Unescaping undoes escaping, with or without quotes.
pub proof fn lemma_unescape_escape(s: Seq<char>, quot: bool)
    ensures
        spec_unescape(spec_escape(s, quot)) == s,
    decreases s.len(),
{
    if s.len() > 0 {
        let c = s[0];
        let e = spec_escape(s.drop_first(), quot);
        let t = escape_char(c, quot) + e;
        assert(spec_escape(s, quot) == t);
        lemma_unescape_escape(s.drop_first(), quot);
        if is_escaped(c, quot) {
            let n = escape_char(c, quot).len();
            assert(t.subrange(0, n as int) =~= escape_char(c, quot));
            assert(t.subrange(n as int, t.len() as int) =~= e);
            assert(t[0] == '&');
            if c == '<' {
                assert(t.subrange(0, 4) =~= ent_lt());
            } else if c == '>' {
                assert(t.subrange(0, 4) =~= ent_gt());
                assert(t.subrange(0, 4) != ent_lt()) by {
                    assert(t.subrange(0, 4)[1] != ent_lt()[1]);
                }
            } else if c == '&' {
                assert(t.subrange(0, 5) =~= ent_amp());
                assert(t.subrange(0, 4) != ent_lt()) by {
                    assert(t.subrange(0, 4)[1] != ent_lt()[1]);
                }
                assert(t.subrange(0, 4) != ent_gt()) by {
                    assert(t.subrange(0, 4)[1] != ent_gt()[1]);
                }
            } else if c == '"' {
                assert(t.subrange(0, 6) =~= ent_quot());
                assert(t.subrange(0, 4) != ent_lt()) by {
                    assert(t.subrange(0, 4)[1] != ent_lt()[1]);
                }
                assert(t.subrange(0, 4) != ent_gt()) by {
                    assert(t.subrange(0, 4)[1] != ent_gt()[1]);
                }
                assert(t.subrange(0, 5) != ent_amp()) by {
                    assert(t.subrange(0, 5)[1] != ent_amp()[1]);
                }
            } else {
                assert(t.subrange(0, 6) =~= ent_apos());
                assert(t.subrange(0, 4) != ent_lt()) by {
                    assert(t.subrange(0, 4)[1] != ent_lt()[1]);
                }
                assert(t.subrange(0, 4) != ent_gt()) by {
                    assert(t.subrange(0, 4)[1] != ent_gt()[1]);
                }
                assert(t.subrange(0, 5) != ent_amp()) by {
                    assert(t.subrange(0, 5)[2] != ent_amp()[2]);
                }
                assert(t.subrange(0, 6) != ent_quot()) by {
                    assert(t.subrange(0, 6)[1] != ent_quot()[1]);
                }
            }
        } else {
            assert(t[0] == c);
            assert(t.drop_first() =~= e);
        }
        assert(seq![c] + s.drop_first() =~= s);
    }
}

/// Escaped text holds no `<` or `>`: whatever it is made of, it opens no element.
pub proof fn lemma_escape_no_angle(s: Seq<char>, quot: bool)
    ensures
        forall|j: int| 0 <= j < spec_escape(s, quot).len() ==> spec_escape(s, quot)[j] != '<' && spec_escape(s, quot)[j] != '>',
    decreases s.len(),
{
    if s.len() > 0 {
        lemma_escape_no_angle(s.drop_first(), quot);
        let e = escape_char(s[0], quot);
        let rest = spec_escape(s.drop_first(), quot);
        assert(spec_escape(s, quot) == e + rest);
        assert forall|j: int| 0 <= j < spec_escape(s, quot).len() implies spec_escape(s, quot)[j] != '<'
            && spec_escape(s, quot)[j] != '>' by {
            if j >= e.len() {
                assert(spec_escape(s, quot)[j] == rest[j - e.len()]);
            }
        }
    }
}

// ---------------------------------------------------------------------------
// Decoding
// ---------------------------------------------------------------------------

/// Whether `rest` starts with the characters of `lit`.
fn starts_with_lit(src: &[char], i: usize, lit: &str) -> (r: bool)
    requires
        i <= src@.len(),
    ensures
        r == ({
            let rest = src@.subrange(i as int, src@.len() as int);
            rest.len() >= lit@.len() && rest.subrange(0, lit@.len() as int) == lit@
        }),
{
    let ghost rest = src@.subrange(i as int, src@.len() as int);
    let l = str_chars(lit);
    if src.len() - i < l.len() {
        return false;
    }
    let mut j: usize = 0;
    while j < l.len()
        invariant
            i <= src@.len(),
            src@.len() == src.len(),
            l@.len() == l.len(),
            i + l@.len() <= src@.len(),
            l@ == lit@,
            rest == src@.subrange(i as int, src@.len() as int),
            0 <= j <= l@.len(),
            forall|k: int| 0 <= k < j ==> src@[i + k] == l@[k],
        decreases l.len() - j,
    {
        assert(j < l@.len());
        assert(i + j < src@.len());
        if src[i + j] != l[j] {
            assert(rest.subrange(0, l@.len() as int)[j as int] != l@[j as int]);
            return false;
        }
        j = j + 1;
    }
    assert(rest.subrange(0, l@.len() as int) =~= l@);
    true
}

/// The entity at position `i` of `src` (see [`entity_at`]).
fn entity_at_exec(src: &[char], i: usize) -> (r: Option<(char, usize)>)
    requires
        i <= src@.len(),
    ensures
        match r {
            Some((c, n)) => entity_at(src@.subrange(i as int, src@.len() as int)) == Some((c, n as int)),
            None => entity_at(src@.subrange(i as int, src@.len() as int)) is None,
        },
{
    proof {
        reveal_strlit("&lt;");
        reveal_strlit("&gt;");
        reveal_strlit("&amp;");
        reveal_strlit("&quot;");
        reveal_strlit("&apos;");
        reveal_strlit("&#39;");
        reveal_strlit("&nbsp;");
        assert("&lt;"@ =~= ent_lt());
        assert("&gt;"@ =~= ent_gt());
        assert("&amp;"@ =~= ent_amp());
        assert("&quot;"@ =~= ent_quot());
        assert("&apos;"@ =~= ent_apos());
        assert("&#39;"@ =~= ent_39());
        assert("&nbsp;"@ =~= ent_nbsp());
    }
    if starts_with_lit(src, i, "&lt;") {
        Some(('<', 4))
    } else if starts_with_lit(src, i, "&gt;") {
        Some(('>', 4))
    } else if starts_with_lit(src, i, "&amp;") {
        Some(('&', 5))
    } else if starts_with_lit(src, i, "&quot;") {
        Some(('"', 6))
    } else if starts_with_lit(src, i, "&apos;") {
        Some(('\'', 6))
    } else if starts_with_lit(src, i, "&#39;") {
        Some(('\'', 5))
    } else if starts_with_lit(src, i, "&nbsp;") {
        Some((' ', 6))
    } else {
        None
    }
}

/// Unescaping changes nothing in a text without `&`.
pub proof fn lemma_unescape_unchanged(s: Seq<char>)
    requires
        !s.contains('&'),
    ensures
        spec_unescape(s) == s,
    decreases s.len(),
{
    if s.len() > 0 {
        assert(s[0] != '&') by {
            assert(s.contains(s[0]));
        }
        assert(!s.drop_first().contains('&')) by {
            if s.drop_first().contains('&') {
                let j = choose|j: int| 0 <= j < s.drop_first().len() && s.drop_first()[j] == '&';
                assert(s[j + 1] == '&');
            }
        }
        lemma_unescape_unchanged(s.drop_first());
        assert(seq![s[0]] + s.drop_first() =~= s);
    }
}

/// `text` with its entities turned back into characters; `text` itself when it holds no `&`.
pub fn unescape<'a>(text: &'a str) -> (r: Cow<'a, str>)
    ensures
        cow_view(r) == spec_unescape(text@),
        !text@.contains('&') ==> r is Borrowed,
{
    let src = str_chars(text);
    let mut k: usize = 0;
    let mut found = false;
    while k < src.len()
        invariant
            src@ == text@,
            0 <= k <= src@.len(),
            found ==> text@.contains('&'),
            !found ==> forall|j: int| 0 <= j < k ==> src@[j] != '&',
        decreases src.len() - k,
    {
        if src[k] == '&' {
            assert(src@[k as int] == '&');
            found = true;
        }
        k = k + 1;
    }
    if !found {
        assert(!text@.contains('&')) by {
            if text@.contains('&') {
                let j = choose|j: int| 0 <= j < text@.len() && text@[j] == '&';
                assert(src@[j] == '&');
            }
        }
        proof { lemma_unescape_unchanged(text@); }
        return Cow::Borrowed(text);
    }
    let mut out: Vec<char> = Vec::new();
    let mut i: usize = 0;
    assert(src@.subrange(0, src@.len() as int) =~= src@);
    while i < src.len()
        invariant
            src@ == text@,
            0 <= i <= src@.len(),
            spec_unescape(src@) == out@ + spec_unescape(src@.subrange(i as int, src@.len() as int)),
        decreases src.len() - i,
    {
        let ghost rest = src@.subrange(i as int, src@.len() as int);
        if src[i] == '&' {
            match entity_at_exec(&src, i) {
                Some((c, n)) => {
                    out.push(c);
                    i = i + n;
                    assert(rest.subrange(n as int, rest.len() as int) =~= src@.subrange(
                        i as int,
                        src@.len() as int,
                    ));
                },
                None => {
                    out.push('&');
                    i = i + 1;
                    assert(rest.drop_first() =~= src@.subrange(i as int, src@.len() as int));
                },
            }
        } else {
            out.push(src[i]);
            i = i + 1;
            assert(rest.drop_first() =~= src@.subrange(i as int, src@.len() as int));
        }
    }
    assert(src@.subrange(i as int, src@.len() as int) =~= Seq::<char>::empty());
    Cow::Owned(string_from_chars(out))
}

/// `text` without its line breaks; `text` itself when it has none.
pub fn rm_br<'a>(text: &'a str) -> (r: Cow<'a, str>)
    ensures
        cow_view(r) == spec_rm_br(text@),
        !has_line_break(text@) ==> r is Borrowed,
{
    let src = str_chars(text);
    let mut out: Vec<char> = Vec::new();
    let mut changed = false;
    let mut i: usize = 0;
    while i < src.len()
        invariant
            src@ == text@,
            0 <= i <= src@.len(),
            out@ == spec_rm_br(src@.subrange(0, i as int)),
            changed ==> has_line_break(src@),
            !changed ==> forall|j: int| 0 <= j < i ==> src@[j] != '\n' && src@[j] != '\r',
        decreases src.len() - i,
    {
        assert(src@.subrange(0, i + 1).drop_last() =~= src@.subrange(0, i as int));
        let c = src[i];
        if c == '\n' || c == '\r' {
            assert(src@[i as int] == c);
            changed = true;
        } else {
            out.push(c);
        }
        i = i + 1;
    }
    assert(src@.subrange(0, src@.len() as int) =~= src@);
    if changed {
        Cow::Owned(string_from_chars(out))
    } else {
        proof { lemma_rm_br_unchanged(text@); }
        Cow::Borrowed(text)
    }
}

// ---------------------------------------------------------------------------
// Links
// ---------------------------------------------------------------------------

/// The markup of one link match: an anchor to its address around its escaped text.
pub open spec fn codec_link_html(text: Seq<char>, c: RegexCapture) -> Seq<char> {
    match link_target(text, c) {
        Some((href, m)) => anchor_html(href, spec_escape(m, false)),
        None => Seq::empty(),
    }
}

/// The rendering of `text` from match `k` on, `end` being the byte offset where the previous
/// match ended: the text before each match escaped, the white space that opens it as it is,
/// the match as a link, and the text after the last match escaped.
pub open spec fn codec_links_from(text: Seq<char>, caps: Seq<RegexCapture>, k: int, end: int) -> Seq<char>
    decreases caps.len() - k,
{
    if k < 0 || k >= caps.len() {
        spec_escape(byte_range(text, end, encode_utf8(text).len() as int), false)
    } else {
        let c = caps[k];
        spec_escape(byte_range(text, end, c.start as int), false) + (match group_of(c, 1) {
            Some((a, b)) => byte_range(text, a as int, b as int),
            None => Seq::empty(),
        }) + codec_link_html(text, c) + codec_links_from(text, caps, k + 1, c.end as int)
    }
}

/// Text with its links turned into anchors and the rest escaped (quotes aside). The matches
/// are those that the `regex` crate reports for [`LINK_PATTERN`]; when there is none, or the
/// last one ends at offset 0, the text is only escaped.
pub open spec fn spec_escape_and_link(text: Seq<char>) -> Seq<char> {
    match regex_captures_of(LINK_PATTERN@, text) {
        Some(caps) => if caps.len() > 0 && caps.last().end > 0 {
            codec_links_from(text, caps, 0, 0)
        } else {
            spec_escape(text, false)
        },
        None => spec_escape(text, false),
    }
}

fn push_escaped(s: &str, out: &mut Vec<char>)
    ensures
        final(out)@ == old(out)@ + spec_escape(s@, false),
{
    let src = str_chars(s);
    escape_chars(&src, false, out);
}

fn push_anchor(href: &[char], m: &[char], out: &mut Vec<char>)
    ensures
        final(out)@ == old(out)@ + anchor_html(href@, spec_escape(m@, false)),
{
    push_str(out, "<a target=\"_blank\" href=\"");
    push_all(out, href);
    push_str(out, "\">");
    escape_chars(m, false, out);
    push_str(out, "</a>");
}

/// `text` with its links turned into anchors and the rest escaped.
#[verifier::rlimit(80)]
pub fn escape_and_link<'a>(text: &'a str) -> (r: Cow<'a, str>)
    ensures
        cow_view(r) == spec_escape_and_link(text@),
{
    match regex_captures(LINK_PATTERN, text) {
        None => escape(text, false),
        Some(caps) => {
            if caps.len() == 0 {
                return escape(text, false);
            }
            let ghost t = text@;
            proof { lemma_byte_range_full(t); }
            let mut out: Vec<char> = Vec::new();
            let mut end: usize = 0;
            let mut k: usize = 0;
            while k < caps.len()
                invariant
                    t == text@,
                    captures_in_order(t, caps@),
                    0 <= k <= caps@.len(),
                    on_boundary(t, end as int),
                    k == 0 ==> end == 0,
                    k > 0 ==> end == caps@[k - 1].end,
                    codec_links_from(t, caps@, 0, 0) == out@ + codec_links_from(
                        t,
                        caps@,
                        k as int,
                        end as int,
                    ),
                decreases caps@.len() - k,
            {
                let c = &caps[k];
                assert(caps@[k as int] == *c);
                push_escaped(byte_slice(text, end, c.start), &mut out);
                if k + 1 < caps.len() {
                    assert(caps@[k + 1] == caps@[k + 1]);
                }
                let space = if c.groups.len() > 1 {
                    c.groups[1]
                } else {
                    None
                };
                assert(space == group_of(*c, 1));
                if let Some((a, b)) = space {
                    assert(group_of(caps@[k as int], 1) is Some);
                    push_str(&mut out, byte_slice(text, a, b));
                }
                assert forall|g: int|
                    #![trigger group_of(*c, g)]
                    group_of(*c, g) is Some implies {
                        let (a, b) = group_of(*c, g)->0;
                        &&& a <= b
                        &&& on_boundary(t, a as int)
                        &&& on_boundary(t, b as int)
                    } by {
                    assert(group_of(caps@[k as int], g) is Some);
                }
                match link_target_exec(text, c) {
                    Some((h, m)) => push_anchor(&h, &m, &mut out),
                    None => {},
                }
                end = c.end;
                k = k + 1;
            }
            if end > 0 {
                assert(text.spec_bytes() == encode_utf8(text@));
                let n = text.as_bytes().len();
                push_escaped(byte_slice(text, end, n), &mut out);
                Cow::Owned(string_from_chars(out))
            } else {
                escape(text, false)
            }
        },
    }
}

// ---------------------------------------------------------------------------
// Tags
// ---------------------------------------------------------------------------

/// A site's own tag syntax, rendered into HTML.
pub trait TagFormat: Sized {
    /// Whether rendering `raw` succeeds.
    spec fn parse_ok(&self, raw: Seq<char>) -> bool;

    /// Whether `out` is a rendering of `raw`.
    spec fn parse_rel(&self, raw: Seq<char>, out: Seq<char>) -> bool;

    /// The rendering of the tags in `raw`.
    fn parse<'a>(self, raw: &'a str) -> (r: Cow<'a, str>)
        requires
            self.parse_ok(raw@),
        ensures
            self.parse_rel(raw@, cow_view(r)),
    ;
}

/// The rendering of the tags in `text` under `format`.
pub fn tag<'a, F: TagFormat>(text: &'a str, format: F) -> (r: Cow<'a, str>)
    requires
        format.parse_ok(text@),
    ensures
        format.parse_rel(text@, cow_view(r)),
{
    format.parse(text)
}

// ---------------------------------------------------------------------------
// The encoding and decoding traits
// ---------------------------------------------------------------------------

/// Encoding of a text for HTML.
pub trait HTMLEncode<'a>: Sized {
    /// The text, as characters.
    spec fn text_view(&self) -> Seq<char>;

    /// The text with its line breaks written as `<br>`.
    fn br(self) -> (r: Cow<'a, str>)
        ensures
            cow_view(r) == spec_br(self.text_view()),
    ;

    /// The text escaped, quotes too when `quot` holds.
    fn escape(self, quot: bool) -> (r: Cow<'a, str>)
        ensures
            cow_view(r) == spec_escape(self.text_view(), quot),
    ;

    /// The text with its links turned into anchors and the rest escaped.
    fn escape_and_link(self) -> (r: Cow<'a, str>)
        ensures
            cow_view(r) == spec_escape_and_link(self.text_view()),
    ;

    /// The text with the tags of `format` rendered.
    fn tag<F: TagFormat>(self, format: F) -> (r: Cow<'a, str>)
        requires
            format.parse_ok(self.text_view()),
        ensures
            format.parse_rel(self.text_view(), cow_view(r)),
    ;
}

impl<'a> HTMLEncode<'a> for &'a str {
    open spec fn text_view(&self) -> Seq<char> {
        (*self)@
    }

    fn br(self) -> (r: Cow<'a, str>) {
        br(self)
    }

    fn escape(self, quot: bool) -> (r: Cow<'a, str>) {
        escape(self, quot)
    }

    fn escape_and_link(self) -> (r: Cow<'a, str>) {
        escape_and_link(self)
    }

    fn tag<F: TagFormat>(self, format: F) -> (r: Cow<'a, str>) {
        tag(self, format)
    }
}

/// Decoding of a text written for HTML.
pub trait HTMLDecode<'a>: Sized {
    /// The text, as characters.
    spec fn text_view(&self) -> Seq<char>;

    /// The text with its entities turned back into characters.
    fn unescape(self) -> (r: Cow<'a, str>)
        ensures
            cow_view(r) == spec_unescape(self.text_view()),
    ;

    /// The text without its line breaks.
    fn rm_br(self) -> (r: Cow<'a, str>)
        ensures
            cow_view(r) == spec_rm_br(self.text_view()),
    ;
}

impl<'a> HTMLDecode<'a> for &'a str {
    open spec fn text_view(&self) -> Seq<char> {
        (*self)@
    }

    fn unescape(self) -> (r: Cow<'a, str>) {
        unescape(self)
    }

    fn rm_br(self) -> (r: Cow<'a, str>) {
        rm_br(self)
    }
}

} // verus!
