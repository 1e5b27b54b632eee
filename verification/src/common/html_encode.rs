//! HTML rendering of user-written text: escaping, line breaks, link detection and
//! the bracketed tag syntax `[name/content/name]`.
use vstd::prelude::*;

use vstd::string::StringSliceAdditionalSpecFns;
use vstd::utf8::encode_utf8;

use crate::common::link::{link_target, link_target_exec, LINK_PATTERN};
use crate::matcher::{captures_in_order, group_of, regex_captures, regex_captures_of, RegexCapture};
use crate::text::{
    byte_range, byte_slice, concat_all, lemma_concat_all_push, on_boundary, push_all, push_range,
    lemma_encode_utf8_add, lemma_encode_utf8_ascii, push_str, str_chars, string_from_chars,
};

verus! {

// ---------------------------------------------------------------------------
// Escaping with line breaks
// ---------------------------------------------------------------------------

/// The markup that stands for a line break.
pub open spec fn br_mark() -> Seq<char> {
    seq!['<', 'b', 'r', '>']
}

/// What one character becomes in escaped text (line breaks aside).
pub open spec fn escape_char_br(c: char) -> Seq<char> {
    if c == '"' {
        seq!['&', 'q', 'u', 'o', 't', ';']
    } else if c == '&' {
        seq!['&', 'a', 'm', 'p', ';']
    } else if c == '\'' {
        seq!['&', 'a', 'p', 'o', 's', ';']
    } else if c == '<' {
        seq!['&', 'l', 't', ';']
    } else if c == '>' {
        seq!['&', 'g', 't', ';']
    } else if c == '/' {
        seq!['&', 'f', 'r', 'a', 's', 'l', ';']
    } else {
        seq![c]
    }
}

/// Escaped text: every `\n`, `\r` and `\r\n` becomes `<br>`, and the characters
/// `" & ' < > /` become entities.
pub open spec fn spec_escape_and_br(s: Seq<char>) -> Seq<char>
    decreases s.len(),
{
    if s.len() == 0 {
        Seq::empty()
    } else if s[0] == '\n' {
        br_mark() + spec_escape_and_br(s.drop_first())
    } else if s[0] == '\r' {
        if s.len() > 1 && s[1] == '\n' {
            br_mark() + spec_escape_and_br(s.subrange(2, s.len() as int))
        } else {
            br_mark() + spec_escape_and_br(s.drop_first())
        }
    } else {
        escape_char_br(s[0]) + spec_escape_and_br(s.drop_first())
    }
}

fn push_escaped_char(c: char, out: &mut Vec<char>)
    ensures
        final(out)@ == old(out)@ + escape_char_br(c),
{
    if c == '"' {
        push_str(out, "&quot;");
        proof { reveal_strlit("&quot;"); }
    } else if c == '&' {
        push_str(out, "&amp;");
        proof { reveal_strlit("&amp;"); }
    } else if c == '\'' {
        push_str(out, "&apos;");
        proof { reveal_strlit("&apos;"); }
    } else if c == '<' {
        push_str(out, "&lt;");
        proof { reveal_strlit("&lt;"); }
    } else if c == '>' {
        push_str(out, "&gt;");
        proof { reveal_strlit("&gt;"); }
    } else if c == '/' {
        push_str(out, "&frasl;");
        proof { reveal_strlit("&frasl;"); }
    } else {
        out.push(c);
    }
}

fn push_br(out: &mut Vec<char>)
    ensures
        final(out)@ == old(out)@ + br_mark(),
{
    push_str(out, "<br>");
    proof { reveal_strlit("<br>"); }
}

/// Appends the escaped form of `src[from..to]` to `out`.
pub fn escape_and_br_chars(src: &[char], from: usize, to: usize, out: &mut Vec<char>)
    requires
        from <= to <= src@.len(),
    ensures
        final(out)@ == old(out)@ + spec_escape_and_br(src@.subrange(from as int, to as int)),
{
    let ghost s = src@.subrange(from as int, to as int);
    let mut i: usize = from;
    while i < to
        invariant
            from <= i <= to <= src@.len(),
            s == src@.subrange(from as int, to as int),
            old(out)@ + spec_escape_and_br(s) == out@ + spec_escape_and_br(
                src@.subrange(i as int, to as int),
            ),
        decreases to - i,
    {
        let ghost rest = src@.subrange(i as int, to as int);
        let c = src[i];
        if c == '\n' {
            push_br(out);
            i = i + 1;
            assert(rest.drop_first() =~= src@.subrange(i as int, to as int));
        } else if c == '\r' {
            push_br(out);
            i = i + 1;
            if i < to && src[i] == '\n' {
                i = i + 1;
                assert(rest.subrange(2, rest.len() as int) =~= src@.subrange(i as int, to as int));
            } else {
                assert(rest.drop_first() =~= src@.subrange(i as int, to as int));
            }
        } else {
            push_escaped_char(c, out);
            i = i + 1;
            assert(rest.drop_first() =~= src@.subrange(i as int, to as int));
        }
    }
    assert(src@.subrange(i as int, to as int) =~= Seq::<char>::empty());
}

/// Escapes `text` and turns its line breaks into `<br>`, appending the result to `output`.
pub fn escape_and_br(text: &str, output: &mut String)
    ensures
        final(output)@ == old(output)@ + spec_escape_and_br(text@),
{
    let src = str_chars(text);
    let mut out: Vec<char> = Vec::new();
    escape_and_br_chars(&src, 0, src.len(), &mut out);
    assert(src@.subrange(0, src@.len() as int) =~= src@);
    let piece = string_from_chars(out);
    output.append(piece.as_str());
}

/// The escaped form of `text`, line breaks included.
pub fn escape_str(text: &str) -> (out: String)
    ensures
        out@ == spec_escape_and_br(text@),
{
    let mut out = String::new();
    escape_and_br(text, &mut out);
    out
}

// ---------------------------------------------------------------------------
// Links in plain text
// ---------------------------------------------------------------------------

/// A link that opens in a new tab.
pub open spec fn anchor_html(href: Seq<char>, body: Seq<char>) -> Seq<char> {
    "<a target=\"_blank\" href=\""@ + href + "\">"@ + body + "</a>"@
}

/// The markup of one link match: an anchor to its address around its escaped text.
pub open spec fn link_html_br(text: Seq<char>, c: RegexCapture) -> Seq<char> {
    match link_target(text, c) {
        Some((href, m)) => anchor_html(href, spec_escape_and_br(m)),
        None => Seq::empty(),
    }
}

/// The rendering of `text` from match `k` on, `end` being the byte offset where the
/// previous match ended: the text before each match and the white space that opens it
/// are escaped, the match itself becomes a link, and the text after the last match is escaped.
pub open spec fn plain_links_from(text: Seq<char>, caps: Seq<RegexCapture>, k: int, end: int) -> Seq<char>
    decreases caps.len() - k,
{
    if k < 0 || k >= caps.len() {
        if end < encode_utf8(text).len() {
            spec_escape_and_br(byte_range(text, end, encode_utf8(text).len() as int))
        } else {
            Seq::empty()
        }
    } else {
        let c = caps[k];
        spec_escape_and_br(byte_range(text, end, c.start as int)) + (match group_of(c, 1) {
            Some((a, b)) => spec_escape_and_br(byte_range(text, a as int, b as int)),
            None => Seq::empty(),
        }) + link_html_br(text, c) + plain_links_from(text, caps, k + 1, c.end as int)
    }
}

/// Plain text with its links turned into anchors and the rest escaped, line breaks
/// included. The matches are those that the `regex` crate reports for [`LINK_PATTERN`];
/// were the pattern not to compile, the whole text would be escaped. The empty text holds
/// no link (every link the pattern finds has at least one character), and gives nothing.
pub open spec fn spec_process_plain_text(text: Seq<char>) -> Seq<char> {
    if text.len() == 0 {
        Seq::empty()
    } else {
        match regex_captures_of(LINK_PATTERN@, text) {
            Some(caps) => plain_links_from(text, caps, 0, 0),
            None => spec_escape_and_br(text),
        }
    }
}

pub proof fn lemma_byte_range_full(s: Seq<char>)
    ensures
        byte_range(s, 0, encode_utf8(s).len() as int) == s,
        on_boundary(s, 0),
        on_boundary(s, encode_utf8(s).len() as int),
{
    vstd::utf8::encode_utf8_valid_utf8(s);
    vstd::utf8::encode_utf8_decode_utf8(s);
    vstd::utf8::is_char_boundary_start_end_of_seq(encode_utf8(s));
    assert(encode_utf8(s).subrange(0, encode_utf8(s).len() as int) =~= encode_utf8(s));
}

fn push_anchor_br(href: &[char], m: &[char], out: &mut Vec<char>)
    ensures
        final(out)@ == old(out)@ + anchor_html(href@, spec_escape_and_br(m@)),
{
    push_str(out, "<a target=\"_blank\" href=\"");
    push_all(out, href);
    push_str(out, "\">");
    escape_and_br_chars(m, 0, m.len(), out);
    assert(m@.subrange(0, m@.len() as int) =~= m@);
    push_str(out, "</a>");
}

/// Turns the links of `chunk` into anchors and escapes the rest, appending to `output`.
#[verifier::rlimit(80)]
pub fn process_plain_text(chunk: &str, output: &mut String)
    ensures
        final(output)@ == old(output)@ + spec_process_plain_text(chunk@),
{
    if chunk.is_empty() {
        assert(old(output)@ + Seq::<char>::empty() =~= old(output)@);
        return;
    }
    match regex_captures(LINK_PATTERN, chunk) {
        None => escape_and_br(chunk, output),
        Some(caps) => {
            let ghost text = chunk@;
            proof { lemma_byte_range_full(text); }
            let mut end: usize = 0;
            let mut k: usize = 0;
            while k < caps.len()
                invariant
                    text == chunk@,
                    captures_in_order(text, caps@),
                    0 <= k <= caps@.len(),
                    on_boundary(text, end as int),
                    k == 0 ==> end == 0,
                    k > 0 ==> end == caps@[k - 1].end,
                    old(output)@ + plain_links_from(text, caps@, 0, 0) == output@
                        + plain_links_from(text, caps@, k as int, end as int),
                decreases caps@.len() - k,
            {
                let c = &caps[k];
                assert(caps@[k as int] == *c);
                let gap = byte_slice(chunk, end, c.start);
                escape_and_br(gap, output);
                if k + 1 < caps.len() {
                    assert(caps@[k + 1] == caps@[k + 1]);
                }
                let space = if c.groups.len() > 1 {
                    c.groups[1]
                } else {
                    None
                };
                assert(space == group_of(*c, 1));
                if let Some((a, b)) = space {
                    assert(group_of(caps@[k as int], 1) is Some);
                    escape_and_br(byte_slice(chunk, a, b), output);
                }
                assert forall|g: int|
                    #![trigger group_of(*c, g)]
                    group_of(*c, g) is Some implies {
                        let (a, b) = group_of(*c, g)->0;
                        &&& a <= b
                        &&& on_boundary(text, a as int)
                        &&& on_boundary(text, b as int)
                    } by {
                    assert(group_of(caps@[k as int], g) is Some);
                }
                match link_target_exec(chunk, c) {
                    Some((h, m)) => {
                        let mut a: Vec<char> = Vec::new();
                        push_anchor_br(&h, &m, &mut a);
                        let piece = string_from_chars(a);
                        output.append(piece.as_str());
                    },
                    None => {},
                }
                end = c.end;
                k = k + 1;
            }
            assert(chunk.spec_bytes() == encode_utf8(chunk@));
            let n = chunk.as_bytes().len();
            if end < n {
                escape_and_br(byte_slice(chunk, end, n), output);
            }
        },
    }
}

// ---------------------------------------------------------------------------
// Bracketed tags
// ---------------------------------------------------------------------------

/// A tag `[name/content/name]` found at the start of a text; `size` is its length in UTF-8
/// bytes.
pub struct Tag<'a> {
    pub name: &'a str,
    pub content: &'a str,
    pub size: usize,
}

/// The index of the first `c` in `s` at or after `from`.
pub open spec fn first_index_from(s: Seq<char>, c: char, from: int) -> Option<int>
    decreases s.len() - from,
{
    if from < 0 || from >= s.len() {
        None
    } else if s[from] == c {
        Some(from)
    } else {
        first_index_from(s, c, from + 1)
    }
}

/// Whether `/name]` stands in `rest` at `pos`.
pub open spec fn closes_at(rest: Seq<char>, name: Seq<char>, pos: int) -> bool {
    &&& 0 <= pos
    &&& pos + name.len() + 1 < rest.len()
    &&& rest[pos] == '/'
    &&& rest.subrange(pos + 1, pos + 1 + name.len()) == name
    &&& rest[pos + 1 + name.len()] == ']'
}

/// The first position at or after `from` where `/name]` stands in `rest`.
pub open spec fn first_close_from(rest: Seq<char>, name: Seq<char>, from: int) -> Option<int>
    decreases rest.len() - from,
{
    if from < 0 || from >= rest.len() {
        None
    } else if closes_at(rest, name, from) {
        Some(from)
    } else {
        first_close_from(rest, name, from + 1)
    }
}

/// The tag at the start of `text`, as (name, content, length in characters): `text` starts
/// with `[`, the name runs to the first `/`, and the content runs to the first `/name]` after
/// it.
pub open spec fn parse_tag_spec(text: Seq<char>) -> Option<(Seq<char>, Seq<char>, int)> {
    if text.len() == 0 || text[0] != '[' {
        None
    } else {
        match first_index_from(text, '/', 0) {
            None => None,
            Some(fs) => {
                let name = text.subrange(1, fs);
                let rest = text.subrange(fs + 1, text.len() as int);
                match first_close_from(rest, name, 0) {
                    None => None,
                    Some(e) => Some((name, rest.subrange(0, e), fs + 1 + e + name.len() + 2)),
                }
            },
        }
    }
}

/// The tag at the start of `text`, as (name, content, size), its size counted in UTF-8 bytes:
/// the bytes of `[name/content/name]`.
pub open spec fn parse_tag_bytes(text: Seq<char>) -> Option<(Seq<char>, Seq<char>, int)> {
    match parse_tag_spec(text) {
        Some((n, c, k)) => Some((n, c, encode_utf8(text.subrange(0, k)).len() as int)),
        None => None,
    }
}

/// What a parsed tag is, in terms of character sequences.
pub open spec fn tag_view(t: Option<Tag<'_>>) -> Option<(Seq<char>, Seq<char>, int)> {
    match t {
        Some(tag) => Some((tag.name@, tag.content@, tag.size as int)),
        None => None,
    }
}

pub proof fn lemma_first_index_from(s: Seq<char>, c: char, from: int)
    ensures
        first_index_from(s, c, from) matches Some(k) ==> from <= k < s.len() && s[k] == c
            && forall|j: int| from <= j < k ==> s[j] != c,
        first_index_from(s, c, from) is None ==> forall|j: int|
            0 <= from <= j < s.len() ==> s[j] != c,
    decreases s.len() - from,
{
    if 0 <= from < s.len() && s[from] != c {
        lemma_first_index_from(s, c, from + 1);
    }
}

pub proof fn lemma_first_close_from(rest: Seq<char>, name: Seq<char>, from: int)
    ensures
        first_close_from(rest, name, from) matches Some(k) ==> from <= k && closes_at(
            rest,
            name,
            k,
        ),
    decreases rest.len() - from,
{
    if 0 <= from < rest.len() && !closes_at(rest, name, from) {
        lemma_first_close_from(rest, name, from + 1);
    }
}

/// A parsed tag spans at least four characters, lies within the text, and its content is
/// shorter than it.
pub proof fn lemma_parse_tag_size(text: Seq<char>)
    ensures
        parse_tag_spec(text) matches Some((n, c, size)) ==> 4 <= size <= text.len()
            && c.len() + 4 <= size && n.len() + 4 <= size,
{
    if text.len() > 0 && text[0] == '[' {
        lemma_first_index_from(text, '/', 0);
        if let Some(fs) = first_index_from(text, '/', 0) {
            let name = text.subrange(1, fs);
            let rest = text.subrange(fs + 1, text.len() as int);
            lemma_first_close_from(rest, name, 0);
        }
    }
}

/// A parsed tag is `[name/content/name]` at the start of the text: it spans
/// `2 * name + content + 4` characters, and as many UTF-8 bytes counted over the bytes of the
/// name and the content, no more than the whole text has.
pub proof fn lemma_tag_shape(text: Seq<char>)
    ensures
        parse_tag_spec(text) matches Some((n, c, k)) ==> {
            &&& k == 2 * n.len() + c.len() + 4
            &&& text.subrange(0, k) == seq!['['] + n + seq!['/'] + c + seq!['/'] + n + seq![']']
        },
        parse_tag_bytes(text) matches Some((n, c, size)) ==> {
            &&& size == 2 * encode_utf8(n).len() + encode_utf8(c).len() + 4
            &&& size <= encode_utf8(text).len()
        },
{
    lemma_parse_tag_size(text);
    if text.len() > 0 && text[0] == '[' {
        lemma_first_index_from(text, '/', 0);
        if let Some(fs) = first_index_from(text, '/', 0) {
            let name = text.subrange(1, fs);
            let rest = text.subrange(fs + 1, text.len() as int);
            lemma_first_close_from(rest, name, 0);
            if let Some(e) = first_close_from(rest, name, 0) {
                let k = fs + 1 + e + name.len() + 2;
                let c = rest.subrange(0, e);
                let lb = seq!['['];
                let sl = seq!['/'];
                let rb = seq![']'];
                assert(rest.subrange(e + 1, e + 1 + name.len()) == name);
                assert(text.subrange(0, k) =~= lb + name + sl + c + sl + name + rb);
                lemma_encode_utf8_ascii('[');
                lemma_encode_utf8_ascii('/');
                lemma_encode_utf8_ascii(']');
                lemma_encode_utf8_add(lb, name);
                lemma_encode_utf8_add(lb + name, sl);
                lemma_encode_utf8_add(lb + name + sl, c);
                lemma_encode_utf8_add(lb + name + sl + c, sl);
                lemma_encode_utf8_add(lb + name + sl + c + sl, name);
                lemma_encode_utf8_add(lb + name + sl + c + sl + name, rb);
                assert(text =~= text.subrange(0, k) + text.subrange(k, text.len() as int));
                lemma_encode_utf8_add(text.subrange(0, k), text.subrange(k, text.len() as int));
            }
        }
    }
}

/// Finds the tag at the start of `text`.
pub fn parse_tag<'a>(text: &'a str) -> (r: Option<Tag<'a>>)
    ensures
        tag_view(r) == parse_tag_bytes(text@),
{
    let t = str_chars(text);
    let len = t.len();
    if len == 0 || t[0] != '[' {
        return None;
    }
    proof { lemma_first_index_from(t@, '/', 0); }
    let mut fs: usize = 0;
    while fs < len && t[fs] != '/'
        invariant
            0 <= fs <= len == t@.len(),
            t@[0] == '[',
            forall|j: int| 0 <= j < fs ==> t@[j] != '/',
            first_index_from(t@, '/', 0) == first_index_from(t@, '/', fs as int),
        decreases len - fs,
    {
        fs = fs + 1;
    }
    if fs == len {
        return None;
    }
    assert(first_index_from(t@, '/', 0) == Some(fs as int));
    let ghost name = t@.subrange(1, fs as int);
    let ghost rest = t@.subrange(fs + 1, len as int);
    let name_len = fs - 1;
    let rest_len = len - fs - 1;
    let mut pos: usize = 0;
    while pos < rest_len
        invariant
            0 <= pos <= rest_len,
            1 <= fs < len == t@.len(),
            name_len == fs - 1,
            rest_len == len - fs - 1,
            name == t@.subrange(1, fs as int),
            rest == t@.subrange(fs + 1, len as int),
            first_close_from(rest, name, 0) == first_close_from(rest, name, pos as int),
            first_index_from(t@, '/', 0) == Some(fs as int),
            t@[0] == '[',
            t@ == text@,
        decreases rest_len - pos,
    {
        let mut ok = pos + name_len + 1 < rest_len && t[fs + 1 + pos] == '/';
        if ok {
            ok = slices_equal(&t, fs + 2 + pos, 1, name_len) && t[fs + 2 + pos + name_len] == ']';
            proof {
                assert(rest.subrange(pos + 1, pos + 1 + name.len()) =~= t@.subrange(
                    fs + 2 + pos,
                    fs + 2 + pos + name_len,
                ));
            }
        }
        assert(ok == closes_at(rest, name, pos as int));
        if ok {
            let name_str = text.substring_char(1, fs);
            let content = text.substring_char(fs + 1, fs + 1 + pos);
            assert(rest.subrange(0, pos as int) =~= t@.subrange(fs + 1, fs + 1 + pos));
            assert(first_close_from(rest, name, 0) == Some(pos as int));
            proof { lemma_tag_shape(text@); }
            // The whole text's bytes fit in a `usize`, and the tag's are among them.
            let total: usize = text.as_bytes().len();
            assert(encode_utf8(text@).len() == total);
            let size: usize = 2 * name_str.len() + content.len() + 4;
            return Some(Tag { name: name_str, content, size });
        }
        pos = pos + 1;
    }
    None
}

/// Whether `t[a..a + n]` and `t[b..b + n]` hold the same characters.
fn slices_equal(t: &[char], a: usize, b: usize, n: usize) -> (r: bool)
    requires
        a + n <= t@.len(),
        b + n <= t@.len(),
    ensures
        r == (t@.subrange(a as int, a + n) == t@.subrange(b as int, b + n)),
{
    let mut j: usize = 0;
    while j < n
        invariant
            0 <= j <= n,
            a + n <= t.len(),
            b + n <= t.len(),
            forall|q: int|
                0 <= q < j ==> #[trigger] t@.subrange(a as int, a + n)[q] == t@.subrange(
                    b as int,
                    b + n,
                )[q],
        decreases n - j,
    {
        if t[a + j] != t[b + j] {
            assert(t@.subrange(a as int, a + n)[j as int] != t@.subrange(b as int, b + n)[j as int]);
            return false;
        }
        j = j + 1;
    }
    assert(t@.subrange(a as int, a + n) =~= t@.subrange(b as int, b + n));
    true
}

// ---------------------------------------------------------------------------
// Tag formats and the rendering of whole texts
// ---------------------------------------------------------------------------

/// A piece of the markup that a tag stands for: literal markup, or a text that is itself
/// rendered (escaped, with its links and tags) in place.
pub enum Piece {
    /// Markup written out as it is.
    Markup(String),
    /// A text rendered in place, as the text around the tag is.
    Text(String),
}

/// A [`Piece`] in terms of character sequences.
pub enum PieceView {
    Markup(Seq<char>),
    Text(Seq<char>),
}

impl View for Piece {
    type V = PieceView;

    open spec fn view(&self) -> PieceView {
        match self {
            Piece::Markup(s) => PieceView::Markup(s@),
            Piece::Text(s) => PieceView::Text(s@),
        }
    }
}

/// The views of a list of pieces.
pub open spec fn pieces_view(pieces: Seq<Piece>) -> Seq<PieceView> {
    pieces.map_values(|p: Piece| p@)
}

/// Every text to be rendered in place is at most `bound` characters long.
pub open spec fn pieces_within(pieces: Seq<PieceView>, bound: nat) -> bool {
    forall|j: int|
        #![trigger pieces[j]]
        0 <= j < pieces.len() ==> (pieces[j] matches PieceView::Text(s) ==> s.len() <= bound)
}

/// The markup that a site gives its tags.
pub trait TagFormat: Sized {
    /// Whether `pieces` is what this format makes of the tag `[name/content/name]`.
    spec fn format_ok(&self, name: Seq<char>, content: Seq<char>, link: bool, pieces: Seq<PieceView>) -> bool;

    /// The tag at the start of `text`, if there is one.
    fn parse<'a>(&self, text: &'a str) -> (r: Option<Tag<'a>>)
        ensures
            tag_view(r) == parse_tag_bytes(text@),
    {
        parse_tag(text)
    }

    /// The markup of a tag, as pieces; the texts to be rendered in place come from its content.
    fn format(&self, tag: Tag<'_>, link: bool) -> (pieces: Vec<Piece>)
        ensures
            self.format_ok(tag.name@, tag.content@, link, pieces_view(pieces@)),
            pieces_within(pieces_view(pieces@), tag.content@.len()),
    ;
}

/// A stretch of a text: plain text, or a tag with its name and content.
pub enum Segment {
    Plain(Seq<char>),
    Tagged(Seq<char>, Seq<char>),
}

/// The segments of `text` from position `i` on, plain text having begun at `p`: at each
/// `[` that opens a tag, the plain text so far and the tag are segments, and the scan
/// resumes after the tag; the plain text left at the end is the last segment.
pub open spec fn scan_segments(text: Seq<char>, p: int, i: int) -> Seq<Segment>
    decreases text.len() - i,
{
    if i < 0 || i >= text.len() {
        if 0 <= p < text.len() {
            seq![Segment::Plain(text.subrange(p, text.len() as int))]
        } else {
            Seq::empty()
        }
    } else if text[i] == '[' && parse_tag_spec(text.subrange(i, text.len() as int)) is Some {
        let (name, content, size) = parse_tag_spec(text.subrange(i, text.len() as int))->0;
        proof {
            lemma_parse_tag_size(text.subrange(i, text.len() as int));
        }
        seq![Segment::Plain(text.subrange(p, i)), Segment::Tagged(name, content)] + scan_segments(
            text,
            i + size,
            i + size,
        )
    } else {
        scan_segments(text, p, i + 1)
    }
}

/// The segments of a whole text.
pub open spec fn segments(text: Seq<char>) -> Seq<Segment> {
    scan_segments(text, 0, 0)
}

/// Plain text rendered: with links turned into anchors when `link` holds, and escaped.
pub open spec fn plain_html(t: Seq<char>, link: bool) -> Seq<char> {
    if link {
        spec_process_plain_text(t)
    } else {
        spec_escape_and_br(t)
    }
}

/// Whether `out` is a rendering of `text` under `fmt`: each segment is rendered in turn,
/// plain text by [`plain_html`] and a tag by its format's pieces, the texts among them
/// rendered the same way.
pub open spec fn html_rel<T: TagFormat>(fmt: T, text: Seq<char>, link: bool, out: Seq<char>) -> bool
    decreases text.len(), 2nat,
{
    let segs = segments(text);
    exists|outs: Seq<Seq<char>>|
        #![trigger concat_all(outs)]
        {
            &&& outs.len() == segs.len()
            &&& out == concat_all(outs)
            &&& forall|k: int|
                0 <= k < segs.len() ==> #[trigger] segment_rel(
                    fmt,
                    text.len(),
                    segs[k],
                    link,
                    outs[k],
                )
        }
}

/// Whether `out` renders the segment `seg` of a text of length `bound`.
pub open spec fn segment_rel<T: TagFormat>(fmt: T, bound: nat, seg: Segment, link: bool, out: Seq<char>) -> bool
    decreases bound, 1nat,
{
    match seg {
        Segment::Plain(t) => out == plain_html(t, link),
        Segment::Tagged(name, content) => exists|pieces: Seq<PieceView>, outs: Seq<Seq<char>>|
            #![trigger fmt.format_ok(name, content, link, pieces), concat_all(outs)]
            {
                &&& fmt.format_ok(name, content, link, pieces)
                &&& pieces_rel(fmt, bound, pieces, link, outs)
                &&& out == concat_all(outs)
            },
    }
}

/// Whether `outs` renders each of `pieces`: literal markup as it is, and each text to be
/// rendered (shorter than `bound`) as a rendering of that text.
pub open spec fn pieces_rel<T: TagFormat>(fmt: T, bound: nat, pieces: Seq<PieceView>, link: bool, outs: Seq<Seq<char>>) -> bool
    decreases bound, 0nat,
{
    &&& outs.len() == pieces.len()
    &&& forall|j: int|
        #![trigger pieces[j]]
        0 <= j < pieces.len() ==> match pieces[j] {
            PieceView::Markup(s) => outs[j] == s,
            PieceView::Text(s) => s.len() < bound && html_rel(fmt, s, link, outs[j]),
        }
}

/// From a point on which a text has no `[`, the scan finds no tag: the plain text from `p`
/// on is its last segment.
pub proof fn lemma_scan_segments_plain(text: Seq<char>, p: int, i: int)
    requires
        0 <= p <= i,
        forall|j: int| i <= j < text.len() ==> text[j] != '[',
    ensures
        scan_segments(text, p, i) == (if p < text.len() {
            seq![Segment::Plain(text.subrange(p, text.len() as int))]
        } else {
            Seq::<Segment>::empty()
        }),
    decreases text.len() - i,
{
    if i < text.len() {
        lemma_scan_segments_plain(text, p, i + 1);
    }
}

/// A text without `[` holds no tag: it renders as plain text does.
pub proof fn lemma_plain_text_html<T: TagFormat>(fmt: T, text: Seq<char>, link: bool)
    requires
        text.len() > 0,
        forall|j: int| 0 <= j < text.len() ==> text[j] != '[',
    ensures
        html_rel(fmt, text, link, plain_html(text, link)),
{
    lemma_scan_segments_plain(text, 0, 0);
    let seg = Segment::Plain(text.subrange(0, text.len() as int));
    assert(text.subrange(0, text.len() as int) =~= text);
    assert(segments(text) == seq![seg]);
    let outs = seq![plain_html(text, link)];
    assert(concat_all(outs) == plain_html(text, link)) by {
        assert(outs.drop_last() =~= Seq::<Seq<char>>::empty());
        assert(concat_all(outs.drop_last()) == Seq::<char>::empty());
        assert(Seq::<char>::empty() + plain_html(text, link) =~= plain_html(text, link));
    }
    assert(segment_rel(fmt, text.len(), seg, link, outs[0]));
    assert(forall|k: int|
        0 <= k < segments(text).len() ==> #[trigger] segment_rel(fmt, text.len(), segments(text)[k], link, outs[k]));
}

/// Whether `text` holds no `[`, and so no tag.
pub open spec fn no_bracket(text: Seq<char>) -> bool {
    forall|j: int| 0 <= j < text.len() ==> text[j] != '['
}

/// Appends the rendering of the plain text `src[from..to]` to `out`.
fn render_plain(src: &[char], from: usize, to: usize, link: bool, out: &mut Vec<char>)
    requires
        from <= to <= src@.len(),
    ensures
        final(out)@ == old(out)@ + plain_html(src@.subrange(from as int, to as int), link),
{
    if link {
        let mut chunk: Vec<char> = Vec::new();
        push_range(&mut chunk, src, from, to);
        let chunk_str = string_from_chars(chunk);
        let mut rendered = String::new();
        process_plain_text(chunk_str.as_str(), &mut rendered);
        let rendered_chars = str_chars(rendered.as_str());
        push_all(out, &rendered_chars);
    } else {
        escape_and_br_chars(src, from, to, out);
    }
}

/// Renders the pieces of a tag of a text of length `bound` and appends them to `out`.
fn render_pieces<T: TagFormat>(
    pieces: &Vec<Piece>,
    fmt: &T,
    link: bool,
    bound: usize,
    content_len: Ghost<nat>,
    out: &mut Vec<char>,
) -> (outs: Ghost<Seq<Seq<char>>>)
    requires
        pieces_within(pieces_view(pieces@), content_len@),
        content_len@ < bound,
    ensures
        pieces_rel(*fmt, bound as nat, pieces_view(pieces@), link, outs@),
        final(out)@ == old(out)@ + concat_all(outs@),
    decreases bound, 0nat,
{
    let ghost pv = pieces_view(pieces@);
    let ghost mut pouts: Seq<Seq<char>> = Seq::empty();
    let ghost start = out@;
    let mut j: usize = 0;
    while j < pieces.len()
        invariant
            pv == pieces_view(pieces@),
            pieces_within(pv, content_len@),
            content_len@ < bound,
            0 <= j <= pieces@.len(),
            pouts.len() == j,
            out@ == start + concat_all(pouts),
            forall|q: int|
                #![trigger pv[q]]
                0 <= q < j ==> match pv[q] {
                    PieceView::Markup(s) => pouts[q] == s,
                    PieceView::Text(s) => s.len() < bound && html_rel(*fmt, s, link, pouts[q]),
                },
        decreases pieces@.len() - j,
    {
        assert(pv[j as int] == pieces@[j as int]@);
        match &pieces[j] {
            Piece::Markup(s) => {
                let mut piece: Vec<char> = Vec::new();
                push_str(&mut piece, s.as_str());
                push_all(out, &piece);
                proof {
                    lemma_concat_all_push(pouts, piece@);
                    pouts = pouts.push(piece@);
                }
            },
            Piece::Text(s) => {
                assert(s@.len() <= content_len@);
                let r = to_html(s.as_str(), fmt, link);
                let piece = str_chars(r.as_str());
                push_all(out, &piece);
                proof {
                    lemma_concat_all_push(pouts, piece@);
                    pouts = pouts.push(piece@);
                }
            },
        }
        j = j + 1;
    }
    Ghost(pouts)
}

/// Renders `text` under `fmt`: tags become their format's markup, and the plain text
/// between them is escaped, with its links turned into anchors when `link` holds.
pub fn to_html<T: TagFormat>(text: &str, fmt: &T, link: bool) -> (out: String)
    ensures
        html_rel(*fmt, text@, link, out@),
        no_bracket(text@) ==> out@ == plain_html(text@, link),
    decreases text@.len(), 1nat,
{
    let src = str_chars(text);
    let len = src.len();
    let mut out: Vec<char> = Vec::new();
    let mut i: usize = 0;
    let mut p: usize = 0;
    let ghost mut done: Seq<Segment> = Seq::empty();
    let ghost mut outs: Seq<Seq<char>> = Seq::empty();
    while i < len
        invariant
            src@ == text@,
            len == src@.len(),
            0 <= p <= i <= len,
            segments(text@) == done + scan_segments(text@, p as int, i as int),
            outs.len() == done.len(),
            out@ == concat_all(outs),
            forall|k: int|
                #![trigger outs[k]]
                0 <= k < done.len() ==> segment_rel(*fmt, text@.len(), done[k], link, outs[k]),
            no_bracket(text@) ==> p == 0 && out@.len() == 0,
        decreases len - i,
    {
        let mut advanced = false;
        if src[i] == '[' {
            let sub = text.substring_char(i, len);
            let parsed = fmt.parse(sub);
            match parsed {
                Some(tag) => {
                    proof {
                        lemma_parse_tag_size(sub@);
                        lemma_tag_shape(sub@);
                    }
                    let size: usize = 2 * tag.name.unicode_len() + tag.content.unicode_len() + 4;
                    let ghost name = tag.name@;
                    let ghost content = tag.content@;
                    let mut plain: Vec<char> = Vec::new();
                    render_plain(&src, p, i, link, &mut plain);
                    let ghost seg1 = Segment::Plain(text@.subrange(p as int, i as int));
                    assert(segment_rel(*fmt, text@.len(), seg1, link, plain@));
                    push_all(&mut out, &plain);
                    proof {
                        lemma_concat_all_push(outs, plain@);
                        outs = outs.push(plain@);
                        done = done.push(seg1);
                    }
                    let pieces = fmt.format(tag, link);
                    let mut tag_out: Vec<char> = Vec::new();
                    let pouts = render_pieces(&pieces, fmt, link, len, Ghost(content.len()), &mut tag_out);
                    let ghost seg2 = Segment::Tagged(name, content);
                    proof {
                        let pv = pieces_view(pieces@);
                        assert(seg2->Tagged_0 == name);
                        assert(seg2->Tagged_1 == content);
                        assert(fmt.format_ok(name, content, link, pv));
                        assert(pieces_rel(*fmt, text@.len(), pv, link, pouts@));
                        assert(tag_out@ == concat_all(pouts@));
                        assert(segment_rel(*fmt, text@.len(), seg2, link, tag_out@));
                    }
                    push_all(&mut out, &tag_out);
                    proof {
                        lemma_concat_all_push(outs, tag_out@);
                        outs = outs.push(tag_out@);
                        done = done.push(seg2);
                        assert(scan_segments(text@, p as int, i as int) =~= seq![seg1, seg2] + scan_segments(
                            text@,
                            i + size,
                            i + size,
                        ));
                        assert(done + scan_segments(text@, i + size, i + size) =~= done.drop_last().drop_last()
                            + scan_segments(text@, p as int, i as int));
                    }
                    i = i + size;
                    p = i;
                    advanced = true;
                },
                None => {},
            }
        }
        if !advanced {
            assert(scan_segments(text@, p as int, i as int) == scan_segments(text@, p as int, i + 1));
            i = i + 1;
        }
    }
    if p < len {
        let mut plain: Vec<char> = Vec::new();
        render_plain(&src, p, len, link, &mut plain);
        let ghost seg = Segment::Plain(text@.subrange(p as int, len as int));
        assert(segment_rel(*fmt, text@.len(), seg, link, plain@));
        let ghost before = out@;
        push_all(&mut out, &plain);
        proof {
            if no_bracket(text@) {
                assert(before =~= Seq::<char>::empty());
                assert(text@.subrange(0, len as int) =~= text@);
                assert(out@ =~= plain@);
            }
        }
        proof {
            lemma_concat_all_push(outs, plain@);
            assert(scan_segments(text@, p as int, i as int) =~= seq![seg]);
            assert(done.push(seg) =~= done + scan_segments(text@, p as int, i as int));
            outs = outs.push(plain@);
            done = done.push(seg);
        }
    } else {
        assert(done =~= done + scan_segments(text@, p as int, i as int));
        proof {
            if no_bracket(text@) {
                assert(out@ =~= plain_html(text@, link));
            }
        }
    }
    assert(segments(text@) == done);
    assert(html_rel(*fmt, text@, link, out@)) by {
        let segs = segments(text@);
        assert(outs.len() == segs.len());
        assert(out@ == concat_all(outs));
        assert(forall|k: int|
            #![trigger outs[k]]
            0 <= k < segs.len() ==> segment_rel(*fmt, text@.len(), segs[k], link, outs[k]));
    }
    string_from_chars(out)
}

/// Rendering of user-written text as HTML.
pub trait HTMLEncode {
    /// The text, as characters.
    spec fn text_view(&self) -> Seq<char>;

    /// Renders the text under `tag_format`, turning links into anchors when `link` holds.
    fn to_html<T: TagFormat>(&self, tag_format: &T, link: bool) -> (out: String)
        ensures
            html_rel(*tag_format, self.text_view(), link, out@),
            no_bracket(self.text_view()) ==> out@ == plain_html(self.text_view(), link),
    ;
}

impl HTMLEncode for str {
    open spec fn text_view(&self) -> Seq<char> {
        self@
    }

    fn to_html<T: TagFormat>(&self, tag_format: &T, link: bool) -> (out: String) {
        to_html(self, tag_format, link)
    }
}

} // verus!
