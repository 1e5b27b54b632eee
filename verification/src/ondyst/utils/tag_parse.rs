//! The site's tags in the bracket syntax of the earlier layout: `[name/content/name]` for a
//! named tag and `[a|b|c]` for a random pick, with `\` escaping the special characters.
//! Unlike the current syntax, tags nest freely and a tag's extent is found by a scan that
//! keeps a stack of open brackets.
use std::borrow::Cow;

use vstd::prelude::*;
use vstd::string::StringSliceAdditionalSpecFns;
use vstd::utf8::encode_utf8;

use crate::common::html_codec::{cow_view, TagFormat};
use crate::common::link::last_index_of;
use crate::ondyst::util::tag_parse::is_style_name;
use crate::random::random_index;
use crate::text::{
    base64_url_safe, chars_eq, chars_eq_lit, concat_all, is_alphanumeric, lemma_concat_all_push,
    push_all, push_range, push_str, str_chars, string_from_chars, unicode_alphanumeric,
    url_safe_base64,
};

verus! {

/// The tag format of the earlier layout.
#[derive(Clone, Copy)]
pub struct Ondyst;

// ---------------------------------------------------------------------------
// The scan
// ---------------------------------------------------------------------------

/// Whether `s` may be a tag name: letters, digits, `-` and `_` only (the empty name too).
pub open spec fn is_tag_name(s: Seq<char>) -> bool {
    forall|k: int| 0 <= k < s.len() ==> unicode_alphanumeric(#[trigger] s[k]) || s[k] == '-' || s[k] == '_'
}

/// Whether a `\` before `c` escapes it.
pub open spec fn is_escapable(c: char) -> bool {
    c == '[' || c == ']' || c == '|' || c == '/' || c == '\\'
}

/// What the scan of a text finds at its top level: text to copy as it is, and tags.
pub enum Event {
    Raw(Seq<char>),
    Tagged(Seq<char>, Seq<char>),
}

/// An open bracket: the name of its tag (empty for a random pick) and where its content starts.
pub type Frame = (Seq<char>, int);

/// One step of the scan at position `i`: the new position, the position up to which the
/// text has been accounted for, the open brackets and the events so far; `None` where the
/// scan fails (a bracket whose closing `/name` is its own opening one, as in `[b/b]`).
pub open spec fn scan_step(text: Seq<char>, i: int, end: int, stack: Seq<Frame>, evs: Seq<Event>)
    -> Option<(int, int, Seq<Frame>, Seq<Event>)>
{
    let c = text[i];
    if c == '[' {
        let start = i + 1;
        let (end2, evs2) = if stack.len() == 0 {
            (start, evs.push(Event::Raw(text.subrange(end, i))))
        } else {
            (end, evs)
        };
        let frame = match crate::common::html_encode::first_index_from(text, '/', start) {
            Some(q) => if is_tag_name(text.subrange(start, q)) {
                (text.subrange(start, q), q + 1)
            } else {
                (Seq::empty(), start)
            },
            None => (Seq::empty(), start),
        };
        Some((i + 1, end2, stack.push(frame), evs2))
    } else if c == ']' && stack.len() > 0 {
        let (p, tag) = match last_index_of(text.subrange(end, i), '/') {
            Some(r) => if is_tag_name(text.subrange(end + r + 1, i)) {
                (end + r, text.subrange(end + r + 1, i))
            } else {
                (i, Seq::empty())
            },
            None => (i, Seq::empty()),
        };
        if stack.last().0 == tag {
            let start = stack.last().1;
            let rest = stack.drop_last();
            if rest.len() == 0 {
                if p < start {
                    None
                } else {
                    Some((i + 1, i + 1, rest, evs.push(Event::Tagged(tag, text.subrange(start, p)))))
                }
            } else {
                Some((i + 1, end, rest, evs))
            }
        } else {
            Some((i + 1, end, stack, evs))
        }
    } else if c == '\\' && i + 1 < text.len() && is_escapable(text[i + 1]) {
        if stack.len() == 0 {
            Some((
                i + 2,
                i + 2,
                stack,
                evs.push(Event::Raw(text.subrange(end, i))).push(Event::Raw(seq![text[i + 1]])),
            ))
        } else {
            Some((i + 2, end, stack, evs))
        }
    } else {
        Some((i + 1, end, stack, evs))
    }
}

/// The scan from position `i` on; at the end, the text not yet accounted for is copied.
pub open spec fn scan_from(text: Seq<char>, i: int, end: int, stack: Seq<Frame>, evs: Seq<Event>)
    -> Option<Seq<Event>>
    decreases text.len() - i,
{
    if i < 0 || i >= text.len() {
        Some(evs.push(Event::Raw(text.subrange(end, text.len() as int))))
    } else {
        match scan_step(text, i, end, stack, evs) {
            None => None,
            Some((i2, end2, stack2, evs2)) => if i2 > i {
                scan_from(text, i2, end2, stack2, evs2)
            } else {
                None
            },
        }
    }
}

/// The top-level events of a text, or `None` where the scan fails.
pub open spec fn scan_events(text: Seq<char>) -> Option<Seq<Event>> {
    scan_from(text, 0, 0, Seq::empty(), Seq::empty())
}

// ---------------------------------------------------------------------------
// Parameters separated by `|`
// ---------------------------------------------------------------------------

/// Whether a `\` before `c` escapes it inside parameters.
pub open spec fn is_part_escapable(c: char) -> bool {
    c == '[' || c == ']' || c == '|' || c == '\\'
}

/// The positions of the `|` that separate parameters: those outside brackets and not
/// escaped, at most `limit` of them (all when `limit` is 0).
pub open spec fn part_cuts(v: Seq<char>, i: int, nest: nat, limit: nat, cuts: Seq<int>) -> Seq<int>
    decreases v.len() - i,
{
    if i < 0 || i >= v.len() {
        cuts
    } else if v[i] == '[' {
        part_cuts(v, i + 1, nest + 1, limit, cuts)
    } else if v[i] == ']' && nest > 0 {
        part_cuts(v, i + 1, (nest - 1) as nat, limit, cuts)
    } else if v[i] == '|' && nest == 0 {
        if limit != 0 && limit <= cuts.len() + 1 {
            cuts.push(i)
        } else {
            part_cuts(v, i + 1, nest, limit, cuts.push(i))
        }
    } else if v[i] == '\\' && i + 1 < v.len() && is_part_escapable(v[i + 1]) {
        part_cuts(v, i + 2, nest, limit, cuts)
    } else {
        part_cuts(v, i + 1, nest, limit, cuts)
    }
}

/// The pieces of `v` between the cuts from the `k`-th on, the current piece starting at `start`.
pub open spec fn part_pieces(v: Seq<char>, cuts: Seq<int>, k: int, start: int) -> Seq<Seq<char>>
    decreases cuts.len() - k,
{
    if k < 0 || k >= cuts.len() {
        seq![v.subrange(start, v.len() as int)]
    } else {
        seq![v.subrange(start, cuts[k])] + part_pieces(v, cuts, k + 1, cuts[k] + 1)
    }
}

/// The parameters of `v`, split at its separating `|` (at most `limit` splits; all when 0).
pub open spec fn part_spec(v: Seq<char>, limit: nat) -> Seq<Seq<char>> {
    part_pieces(v, part_cuts(v, 0, 0, limit, Seq::empty()), 0, 0)
}

// ---------------------------------------------------------------------------
// Rendering
// ---------------------------------------------------------------------------

/// Whether `out` is a rendering of `text`: each top-level event in turn, text as it is and
/// each tag as its format makes it.
pub open spec fn codec_rel(text: Seq<char>, out: Seq<char>) -> bool
    decreases text.len(), 2nat,
{
    match scan_events(text) {
        None => false,
        Some(evs) => exists|outs: Seq<Seq<char>>|
            #![trigger concat_all(outs)]
            {
                &&& outs.len() == evs.len()
                &&& out == concat_all(outs)
                &&& forall|k: int|
                    #![trigger outs[k]]
                    0 <= k < evs.len() ==> event_rel(text.len(), evs[k], outs[k])
            },
    }
}

/// Whether `out` renders the event `ev` of a text of length `bound`.
pub open spec fn event_rel(bound: nat, ev: Event, out: Seq<char>) -> bool
    decreases bound, 1nat,
{
    match ev {
        Event::Raw(s) => out == s,
        Event::Tagged(name, content) => tag_rel(bound, name, content, out),
    }
}

/// Whether `out` starts with `pre` and ends with `post`, apart.
pub open spec fn wraps(out: Seq<char>, pre: Seq<char>, post: Seq<char>) -> bool {
    &&& out.len() >= pre.len() + post.len()
    &&& out.subrange(0, pre.len() as int) == pre
    &&& out.subrange(out.len() - post.len(), out.len() as int) == post
}

/// What `out` holds between `pre` and `post`.
pub open spec fn inner(out: Seq<char>, pre: Seq<char>, post: Seq<char>) -> Seq<char> {
    out.subrange(pre.len() as int, out.len() - post.len())
}

/// The style tags `b`, `i`, `u`, `s`, `large`, `small`, `em` and `rainbow` each render as an
/// element of their own name around a rendering of their content.
pub proof fn lemma_style_tag_render(bound: nat, name: Seq<char>, content: Seq<char>, out: Seq<char>)
    requires
        name == "b"@ || name == "i"@ || name == "u"@ || name == "s"@ || name == "large"@ || name
            == "small"@ || name == "em"@ || name == "rainbow"@,
        tag_rel(bound, name, content, out),
    ensures
        exists|m: Seq<char>|
            #![trigger codec_rel(content, m)]
            out == "<"@ + name + ">"@ + m + "</"@ + name + ">"@ && codec_rel(content, m),
{
    let pre = "<"@ + name + ">"@;
    let post = "</"@ + name + ">"@;
    let m = inner(out, pre, post);
    assert(out =~= pre + m + post);
    assert(codec_rel(content, m));
}

/// Whether `out` renders the tag `[name/content/name]` found in a text of length `bound`:
/// - a style tag: `<name>`, the content rendered, `</name>`;
/// - `ruby`: with a separating `|`, the base and its reading rendered into
///   `<ruby>…<rp>(</rp><rt>…</rt><rp>)</rp></ruby>`; without one, the content in `<em>`;
/// - `image`: `<img src="…">` around the URL-safe Base64 of the content's UTF-8 bytes;
/// - no name: `<br>` for the content `br`, otherwise one of its parameters rendered;
/// - any other name: the tag as it was written, its content rendered.
pub open spec fn tag_rel(bound: nat, name: Seq<char>, content: Seq<char>, out: Seq<char>) -> bool
    decreases bound, 0nat,
{
    if is_style_name(name) {
        content.len() < bound && wraps(out, "<"@ + name + ">"@, "</"@ + name + ">"@) && codec_rel(
            content,
            inner(out, "<"@ + name + ">"@, "</"@ + name + ">"@),
        )
    } else if name == "ruby"@ {
        let ps = part_spec(content, 1);
        if ps.len() == 2 {
            exists|a: Seq<char>, b: Seq<char>|
                #![trigger "<ruby>"@ + a + "<rp>(</rp><rt>"@ + b]
                ps[0].len() < bound && ps[1].len() < bound && codec_rel(ps[0], a) && codec_rel(
                    ps[1],
                    b,
                ) && out == "<ruby>"@ + a + "<rp>(</rp><rt>"@ + b + "</rt><rp>)</rp></ruby>"@
        } else {
            content.len() < bound && wraps(out, "<em>"@, "</em>"@) && codec_rel(
                content,
                inner(out, "<em>"@, "</em>"@),
            )
        }
    } else if name == "image"@ {
        out == "<img src=\""@ + url_safe_base64(encode_utf8(content)) + "\">"@
    } else if name.len() == 0 {
        if content == seq!['b', 'r'] {
            out == "<br>"@
        } else {
            let ps = part_spec(content, 0);
            exists|k: int|
                #![trigger ps[k]]
                0 <= k < ps.len() && ps[k].len() < bound && codec_rel(ps[k], out)
        }
    } else {
        content.len() < bound && wraps(out, "["@ + name + "/"@, "/"@ + name + "]"@) && codec_rel(
            content,
            inner(out, "["@ + name + "/"@, "/"@ + name + "]"@),
        )
    }
}

/// Whether the rendering of `text` never fails, down through every tag's content.
pub open spec fn codec_safe(text: Seq<char>) -> bool
    decreases text.len(), 2nat,
{
    match scan_events(text) {
        None => false,
        Some(evs) => forall|k: int| #![trigger evs[k]] 0 <= k < evs.len() ==> event_safe(text.len(), evs[k]),
    }
}

/// Whether the event `ev` of a text of length `bound` renders without failing.
pub open spec fn event_safe(bound: nat, ev: Event) -> bool
    decreases bound, 1nat,
{
    match ev {
        Event::Raw(_) => true,
        Event::Tagged(name, content) => content.len() < bound && tag_safe(bound, name, content),
    }
}

/// Whether the tag `[name/content/name]` of a text of length `bound` renders without failing.
pub open spec fn tag_safe(bound: nat, name: Seq<char>, content: Seq<char>) -> bool
    decreases bound, 0nat,
{
    if name == "image"@ && !is_style_name(name) {
        true
    } else if name == "ruby"@ && !is_style_name(name) {
        let ps = part_spec(content, 1);
        if ps.len() == 2 {
            ps[0].len() < bound && ps[1].len() < bound && codec_safe(ps[0]) && codec_safe(ps[1])
        } else {
            content.len() < bound && codec_safe(content)
        }
    } else if name.len() == 0 && !is_style_name(name) && content != seq!['b', 'r'] {
        let ps = part_spec(content, 0);
        forall|k: int| #![trigger ps[k]] 0 <= k < ps.len() ==> ps[k].len() < bound && codec_safe(ps[k])
    } else if name.len() == 0 && !is_style_name(name) {
        true
    } else {
        content.len() < bound && codec_safe(content)
    }
}

/// A text made of `pre`, `o` and `post` wraps `o` in them.
pub proof fn lemma_wraps(pre: Seq<char>, o: Seq<char>, post: Seq<char>)
    ensures
        wraps(pre + o + post, pre, post),
        inner(pre + o + post, pre, post) == o,
{
    let t = pre + o + post;
    assert(t.subrange(0, pre.len() as int) =~= pre);
    assert(t.subrange(t.len() - post.len(), t.len() as int) =~= post);
    assert(inner(t, pre, post) =~= o);
}

// ---------------------------------------------------------------------------
// Scan facts
// ---------------------------------------------------------------------------

/// A scan only ever adds events after those it was given.
pub proof fn lemma_scan_prefix(text: Seq<char>, i: int, end: int, stack: Seq<Frame>, evs: Seq<Event>)
    ensures
        scan_from(text, i, end, stack, evs) matches Some(fin) ==> fin.len() > evs.len() && forall|k: int|
            0 <= k < evs.len() ==> #[trigger] fin[k] == evs[k],
    decreases text.len() - i,
{
    if 0 <= i < text.len() {
        if let Some((i2, end2, stack2, evs2)) = scan_step(text, i, end, stack, evs) {
            if i2 > i {
                lemma_scan_prefix(text, i2, end2, stack2, evs2);
                assert forall|k: int| 0 <= k < evs.len() implies evs2[k] == evs[k] by {}
            }
        }
    }
}

/// The number of pieces is one more than the number of cuts.
pub proof fn lemma_part_pieces_len(v: Seq<char>, cuts: Seq<int>, k: int, start: int)
    ensures
        0 <= k <= cuts.len() ==> part_pieces(v, cuts, k, start).len() == cuts.len() - k + 1,
    decreases cuts.len() - k,
{
    if 0 <= k < cuts.len() {
        lemma_part_pieces_len(v, cuts, k + 1, cuts[k] + 1);
    }
}

// ---------------------------------------------------------------------------
// Plain text
// ---------------------------------------------------------------------------

/// From a point on which a text has no `[` and no `\`, the scan with nothing open adds
/// nothing but the rest of the text.
pub proof fn lemma_scan_plain(text: Seq<char>, i: int, end: int, evs: Seq<Event>)
    requires
        0 <= end <= i <= text.len(),
        forall|j: int| i <= j < text.len() ==> text[j] != '[' && text[j] != '\\',
    ensures
        scan_from(text, i, end, Seq::empty(), evs) == Some(evs.push(Event::Raw(text.subrange(end, text.len() as int)))),
    decreases text.len() - i,
{
    if i < text.len() {
        lemma_scan_plain(text, i + 1, end, evs);
    }
}

/// Whether a text holds neither `[` nor `\\`, and so no markup at all.
pub open spec fn no_markup(text: Seq<char>) -> bool {
    forall|j: int| 0 <= j < text.len() ==> text[j] != '[' && text[j] != '\\'
}

/// A text without `[` and `\` renders as itself, and its rendering never fails.
pub proof fn lemma_plain_text_unchanged(text: Seq<char>)
    requires
        forall|j: int| 0 <= j < text.len() ==> text[j] != '[' && text[j] != '\\',
    ensures
        codec_safe(text),
        codec_rel(text, text),
{
    lemma_scan_plain(text, 0, 0, Seq::empty());
    let evs = seq![Event::Raw(text.subrange(0, text.len() as int))];
    assert(Seq::<Event>::empty().push(Event::Raw(text.subrange(0, text.len() as int))) =~= evs);
    assert(text.subrange(0, text.len() as int) =~= text);
    assert(scan_events(text) == Some(evs));
    let outs = seq![text];
    assert(concat_all(outs) == text) by {
        assert(outs.drop_last() =~= Seq::<Seq<char>>::empty());
        assert(concat_all(outs.drop_last()) == Seq::<char>::empty());
        assert(Seq::<char>::empty() + text =~= text);
    }
    assert(event_rel(text.len(), evs[0], outs[0]));
    assert(forall|k: int| #![trigger outs[k]] 0 <= k < evs.len() ==> event_rel(text.len(), evs[k], outs[k]));
    assert(forall|k: int| #![trigger evs[k]] 0 <= k < evs.len() ==> event_safe(text.len(), evs[k]));
}

// ---------------------------------------------------------------------------
// Executable scan
// ---------------------------------------------------------------------------

/// What the scan finds, as executable values.
pub enum Found {
    Raw(Vec<char>),
    Tagged(Vec<char>, Vec<char>),
}

impl View for Found {
    type V = Event;

    open spec fn view(&self) -> Event {
        match self {
            Found::Raw(s) => Event::Raw(s@),
            Found::Tagged(n, c) => Event::Tagged(n@, c@),
        }
    }
}

/// The open brackets, in terms of sequences.
pub open spec fn stack_view(stack: Seq<(Vec<char>, usize)>) -> Seq<Frame> {
    stack.map_values(|f: (Vec<char>, usize)| (f.0@, f.1 as int))
}

/// The events found, in terms of sequences.
pub open spec fn found_view(found: Seq<Found>) -> Seq<Event> {
    found.map_values(|f: Found| f@)
}

fn copy_range(src: &[char], from: usize, to: usize) -> (r: Vec<char>)
    requires
        from <= to <= src@.len(),
    ensures
        r@ == src@.subrange(from as int, to as int),
{
    let mut r: Vec<char> = Vec::new();
    push_range(&mut r, src, from, to);
    r
}

fn is_tag_name_exec(src: &[char], from: usize, to: usize) -> (r: bool)
    requires
        from <= to <= src@.len(),
    ensures
        r == is_tag_name(src@.subrange(from as int, to as int)),
{
    let ghost s = src@.subrange(from as int, to as int);
    let mut k: usize = from;
    while k < to
        invariant
            from <= k <= to <= src@.len(),
            s == src@.subrange(from as int, to as int),
            forall|j: int| 0 <= j < k - from ==> unicode_alphanumeric(#[trigger] s[j]) || s[j] == '-'
                || s[j] == '_',
        decreases to - k,
    {
        let c = src[k];
        assert(s[k - from] == c);
        if !(is_alphanumeric(c) || c == '-' || c == '_') {
            return false;
        }
        k = k + 1;
    }
    true
}

fn first_index_exec(src: &[char], c: char, from: usize) -> (r: Option<usize>)
    ensures
        match r {
            Some(q) => crate::common::html_encode::first_index_from(src@, c, from as int) == Some(q as int),
            None => crate::common::html_encode::first_index_from(src@, c, from as int) is None,
        },
{
    let mut k: usize = from;
    while k < src.len()
        invariant
            from <= k,
            crate::common::html_encode::first_index_from(src@, c, from as int)
                == crate::common::html_encode::first_index_from(src@, c, k as int),
        decreases src.len() - k,
    {
        if src[k] == c {
            return Some(k);
        }
        k = k + 1;
    }
    None
}

fn last_index_in(src: &[char], c: char, from: usize, to: usize) -> (r: Option<usize>)
    requires
        from <= to <= src@.len(),
    ensures
        match r {
            Some(q) => last_index_of(src@.subrange(from as int, to as int), c) == Some(q as int),
            None => last_index_of(src@.subrange(from as int, to as int), c) is None,
        },
        r matches Some(q) ==> from + q < to,
{
    let ghost whole = src@.subrange(from as int, to as int);
    let mut k: usize = to;
    assert(src@.subrange(from as int, k as int) =~= whole);
    while k > from
        invariant
            from <= k <= to <= src@.len(),
            whole == src@.subrange(from as int, to as int),
            last_index_of(whole, c) == last_index_of(src@.subrange(from as int, k as int), c),
        decreases k - from,
    {
        let ghost pre = src@.subrange(from as int, k as int);
        if src[k - 1] == c {
            assert(pre.last() == c);
            return Some(k - 1 - from);
        }
        assert(pre.drop_last() =~= src@.subrange(from as int, k - 1));
        k = k - 1;
    }
    assert(src@.subrange(from as int, k as int) =~= Seq::<char>::empty());
    None
}

fn empty_chars() -> (r: Vec<char>)
    ensures
        r@ == Seq::<char>::empty(),
{
    Vec::new()
}

/// One step of the scan at position `i`, the open brackets held in `stack`: the new position,
/// the new end of the accounted text and the events found, or `None` where the scan fails.
fn scan_step_exec(src: &[char], i: usize, end: usize, stack: &mut Vec<(Vec<char>, usize)>, Ghost(evs): Ghost<Seq<Event>>)
    -> (r: Option<(usize, usize, Vec<Found>)>)
    requires
        end <= i < src@.len(),
    ensures
        match r {
            Some((i2, end2, found)) => scan_step(src@, i as int, end as int, stack_view(old(stack)@), evs)
                == Some((i2 as int, end2 as int, stack_view(final(stack)@), evs + found_view(found@))),
            None => scan_step(src@, i as int, end as int, stack_view(old(stack)@), evs) is None,
        },
{
    let ghost gs = stack_view(stack@);
    let n = src.len();
    let c = src[i];
    let mut found: Vec<Found> = Vec::new();
    if c == '[' {
        let start = i + 1;
        let mut end2 = end;
        if stack.len() == 0 {
            found.push(Found::Raw(copy_range(src, end, i)));
            end2 = start;
        }
        let frame = match first_index_exec(src, '/', start) {
            Some(q) => {
                proof { crate::common::html_encode::lemma_first_index_from(src@, '/', start as int); }
                if is_tag_name_exec(src, start, q) {
                    (copy_range(src, start, q), q + 1)
                } else {
                    (empty_chars(), start)
                }
            },
            None => (empty_chars(), start),
        };
        stack.push(frame);
        assert(stack_view(stack@) =~= gs.push((frame.0@, frame.1 as int)));
        assert(evs + found_view(found@) =~= (if gs.len() == 0 {
            evs.push(Event::Raw(src@.subrange(end as int, i as int)))
        } else {
            evs
        }));
        Some((i + 1, end2, found))
    } else if c == ']' && stack.len() > 0 {
        let (p, tag) = match last_index_in(src, '/', end, i) {
            Some(r) => {
                if is_tag_name_exec(src, end + r + 1, i) {
                    (end + r, copy_range(src, end + r + 1, i))
                } else {
                    (i, empty_chars())
                }
            },
            None => (i, empty_chars()),
        };
        let top = stack.len() - 1;
        assert(gs.last() == (stack@[top as int].0@, stack@[top as int].1 as int));
        if chars_eq(&stack[top].0, &tag) {
            let start = stack[top].1;
            stack.pop();
            assert(stack_view(stack@) =~= gs.drop_last());
            if stack.len() == 0 {
                if p < start {
                    None
                } else {
                    let tagv = tag;
                    found.push(Found::Tagged(tagv, copy_range(src, start, p)));
                    assert(evs + found_view(found@) =~= evs.push(
                        Event::Tagged(tagv@, src@.subrange(start as int, p as int)),
                    ));
                    Some((i + 1, i + 1, found))
                }
            } else {
                assert(evs + found_view(found@) =~= evs);
                Some((i + 1, end, found))
            }
        } else {
            assert(evs + found_view(found@) =~= evs);
            assert(stack_view(stack@) =~= gs);
            Some((i + 1, end, found))
        }
    } else if c == '\\' && i + 1 < n && (src[i + 1] == '[' || src[i + 1] == ']' || src[i + 1] == '|'
        || src[i + 1] == '/' || src[i + 1] == '\\') {
        if stack.len() == 0 {
            found.push(Found::Raw(copy_range(src, end, i)));
            found.push(Found::Raw(copy_range(src, i + 1, i + 2)));
            assert(src@.subrange(i + 1, i + 2) =~= seq![src@[i + 1]]);
            assert(evs + found_view(found@) =~= evs.push(Event::Raw(src@.subrange(end as int, i as int))).push(
                Event::Raw(seq![src@[i + 1]]),
            ));
            assert(stack_view(stack@) =~= gs);
            Some((i + 2, i + 2, found))
        } else {
            assert(evs + found_view(found@) =~= evs);
            assert(stack_view(stack@) =~= gs);
            Some((i + 2, end, found))
        }
    } else {
        assert(evs + found_view(found@) =~= evs);
        assert(stack_view(stack@) =~= gs);
        Some((i + 1, end, found))
    }
}

// ---------------------------------------------------------------------------
// Executable parameters
// ---------------------------------------------------------------------------

/// The parameters of `v` (see [`part_spec`]).
pub fn part(v: &[char], limit: usize) -> (r: Vec<Vec<char>>)
    ensures
        r@.len() == part_spec(v@, limit as nat).len(),
        r@.len() >= 1,
        forall|k: int| 0 <= k < r@.len() ==> #[trigger] r@[k]@ == part_spec(v@, limit as nat)[k],
        forall|k: int| 0 <= k < r@.len() ==> #[trigger] r@[k]@.len() <= v@.len(),
{
    let n = v.len();
    let mut cuts: Vec<usize> = Vec::new();
    let mut nest: usize = 0;
    let mut i: usize = 0;
    let ghost whole = part_cuts(v@, 0, 0, limit as nat, Seq::empty());
    let mut done = false;
    assert(cuts@.map_values(|x: usize| x as int) =~= Seq::<int>::empty());
    while i < n && !done
        invariant
            n == v@.len(),
            0 <= i <= n,
            nest <= i,
            done ==> whole == cuts@.map_values(|x: usize| x as int),
            !done ==> whole == part_cuts(
                v@,
                i as int,
                nest as nat,
                limit as nat,
                cuts@.map_values(|x: usize| x as int),
            ),
            forall|a: int, b: int| 0 <= a < b < cuts@.len() ==> cuts@[a] < cuts@[b],
            forall|a: int| 0 <= a < cuts@.len() ==> cuts@[a] < i,
            cuts@.len() <= i,
        decreases n - i,
    {
        let ghost cv = cuts@.map_values(|x: usize| x as int);
        let c = v[i];
        if c == '[' {
            nest = nest + 1;
            i = i + 1;
        } else if c == ']' && nest > 0 {
            nest = nest - 1;
            i = i + 1;
        } else if c == '|' && nest == 0 {
            cuts.push(i);
            assert(cuts@.map_values(|x: usize| x as int) =~= cv.push(i as int));
            if limit != 0 && limit <= cuts.len() {
                done = true;
            }
            i = i + 1;
        } else if c == '\\' && i + 1 < n && (v[i + 1] == '[' || v[i + 1] == ']' || v[i + 1] == '|'
            || v[i + 1] == '\\') {
            i = i + 2;
        } else {
            i = i + 1;
        }
    }
    let ghost cv = cuts@.map_values(|x: usize| x as int);
    assert(whole == cv);
    let mut r: Vec<Vec<char>> = Vec::new();
    let mut start: usize = 0;
    let mut k: usize = 0;
    proof { lemma_part_pieces_len(v@, cv, 0, 0); }
    while k < cuts.len()
        invariant
            n == v@.len(),
            cv == cuts@.map_values(|x: usize| x as int),
            0 <= k <= cuts@.len(),
            forall|a: int, b: int| 0 <= a < b < cuts@.len() ==> cuts@[a] < cuts@[b],
            forall|a: int| 0 <= a < cuts@.len() ==> cuts@[a] < n,
            k == 0 ==> start == 0,
            k > 0 ==> start == cuts@[k - 1] + 1,
            start <= n,
            r@.len() == k,
            forall|j: int| 0 <= j < k ==> #[trigger] r@[j]@ == part_pieces(v@, cv, 0, 0)[j],
            forall|j: int| 0 <= j < k ==> #[trigger] r@[j]@.len() <= n,
            part_pieces(v@, cv, 0, 0) == r@.map_values(|x: Vec<char>| x@) + part_pieces(
                v@,
                cv,
                k as int,
                start as int,
            ),
        decreases cuts.len() - k,
    {
        let cut = cuts[k];
        if k > 0 {
            assert(cuts@[k - 1] < cuts@[k as int]);
        }
        let piece = copy_range(v, start, cut);
        let ghost before = r@.map_values(|x: Vec<char>| x@);
        r.push(piece);
        assert(r@.map_values(|x: Vec<char>| x@) =~= before.push(v@.subrange(start as int, cut as int)));
        assert(part_pieces(v@, cv, k as int, start as int) == seq![v@.subrange(start as int, cut as int)]
            + part_pieces(v@, cv, k + 1, cut + 1));
        start = cut + 1;
        k = k + 1;
        assert(part_pieces(v@, cv, 0, 0) =~= r@.map_values(|x: Vec<char>| x@) + part_pieces(
            v@,
            cv,
            k as int,
            start as int,
        ));
        assert forall|j: int| 0 <= j < k implies #[trigger] r@[j]@ == part_pieces(v@, cv, 0, 0)[j] by {
            assert(r@.map_values(|x: Vec<char>| x@)[j] == r@[j]@);
        }
    }
    let last = copy_range(v, start, n);
    let ghost before = r@.map_values(|x: Vec<char>| x@);
    r.push(last);
    assert(part_pieces(v@, cv, k as int, start as int) == seq![v@.subrange(start as int, n as int)]);
    assert(part_pieces(v@, cv, 0, 0) =~= r@.map_values(|x: Vec<char>| x@));
    assert forall|j: int| 0 <= j < r@.len() implies #[trigger] r@[j]@ == part_pieces(v@, cv, 0, 0)[j] by {
        assert(r@.map_values(|x: Vec<char>| x@)[j] == r@[j]@);
    }
    r
}

// ---------------------------------------------------------------------------
// Executable rendering
// ---------------------------------------------------------------------------

fn style_name_exec(name: &[char]) -> (r: bool)
    ensures
        r == is_style_name(name@),
{
    chars_eq_lit(name, "b") || chars_eq_lit(name, "i") || chars_eq_lit(name, "u") || chars_eq_lit(
        name,
        "s",
    ) || chars_eq_lit(name, "large") || chars_eq_lit(name, "small") || chars_eq_lit(name, "em")
        || chars_eq_lit(name, "rainbow")
}

/// Renders `src`, returning the rendering and whether anything was changed.
fn render(src: &[char]) -> (r: (Vec<char>, bool))
    requires
        codec_safe(src@),
    ensures
        codec_rel(src@, r.0@),
        !r.1 ==> r.0@ == src@,
        no_markup(src@) ==> !r.1,
    decreases src@.len(), 1nat,
{
    let n = src.len();
    let mut stack: Vec<(Vec<char>, usize)> = Vec::new();
    let mut out: Vec<char> = Vec::new();
    let mut i: usize = 0;
    let mut end: usize = 0;
    let ghost mut evs: Seq<Event> = Seq::empty();
    let ghost mut outs: Seq<Seq<char>> = Seq::empty();
    let ghost fin = scan_events(src@)->0;
    assert(scan_events(src@) == Some(fin));
    assert(forall|k: int| #![trigger fin[k]] 0 <= k < fin.len() ==> event_safe(src@.len(), fin[k]));
    assert(stack_view(stack@) =~= Seq::<Frame>::empty());
    while i < n
        invariant
            n == src@.len(),
            codec_safe(src@),
            scan_events(src@) == Some(fin),
            forall|k: int| #![trigger fin[k]] 0 <= k < fin.len() ==> event_safe(src@.len(), fin[k]),
            end <= i <= n,
            scan_from(src@, i as int, end as int, stack_view(stack@), evs) == Some(fin),
            outs.len() == evs.len(),
            out@ == concat_all(outs),
            forall|k: int| #![trigger outs[k]] 0 <= k < evs.len() ==> event_rel(src@.len(), evs[k], outs[k]),
            end == 0 ==> evs.len() == 0,
            no_markup(src@) ==> end == 0 && stack@.len() == 0,
        decreases n - i,
    {
        let ghost st0 = stack_view(stack@);
        let step = scan_step_exec(src, i, end, &mut stack, Ghost(evs));
        match step {
            None => {
                assert(scan_from(src@, i as int, end as int, st0, evs) is None);
                return (out, true);
            },
            Some((i2, end2, found)) => {
                let ghost fv = found_view(found@);
                let ghost evs2 = evs + fv;
                assert(scan_from(src@, i2 as int, end2 as int, stack_view(stack@), evs2) == Some(fin));
                proof { lemma_scan_prefix(src@, i2 as int, end2 as int, stack_view(stack@), evs2); }
                let mut j: usize = 0;
                while j < found.len()
                    invariant
                        n == src@.len(),
                        fv == found_view(found@),
                        evs2 == evs + fv,
                        fin.len() > evs2.len(),
                        forall|k: int| 0 <= k < evs2.len() ==> #[trigger] fin[k] == evs2[k],
                        forall|k: int| #![trigger fin[k]] 0 <= k < fin.len() ==> event_safe(src@.len(), fin[k]),
                        0 <= j <= found@.len(),
                        outs.len() == evs.len() + j,
                        out@ == concat_all(outs),
                        forall|k: int| #![trigger outs[k]] 0 <= k < evs.len() + j ==> event_rel(src@.len(), evs2[k], outs[k]),
                    decreases found.len() - j,
                {
                    let ghost at = evs.len() + j;
                    assert(fv[j as int] == found@[j as int]@);
                    assert(evs2[at] == fv[j as int]);
                    assert(event_safe(src@.len(), fin[at]));
                    match &found[j] {
                        Found::Raw(t) => {
                            push_all(&mut out, t);
                            proof {
                                lemma_concat_all_push(outs, t@);
                                outs = outs.push(t@);
                            }
                        },
                        Found::Tagged(name, content) => {
                            let o = render_tag(name, content, Ghost(n as nat));
                            push_all(&mut out, &o);
                            proof {
                                lemma_concat_all_push(outs, o@);
                                outs = outs.push(o@);
                            }
                        },
                    }
                    j = j + 1;
                }
                proof {
                    assert(evs2.len() == evs.len() + found@.len());
                    evs = evs2;
                }
                i = i2;
                end = end2;
            },
        }
    }
    push_range(&mut out, src, end, n);
    proof {
        let tail = src@.subrange(end as int, n as int);
        lemma_concat_all_push(outs, tail);
        outs = outs.push(tail);
        evs = evs.push(Event::Raw(tail));
        assert(evs == fin);
        assert(forall|k: int| #![trigger outs[k]] 0 <= k < evs.len() ==> event_rel(src@.len(), evs[k], outs[k]));
        if end == 0 {
            assert(outs =~= seq![src@.subrange(0, n as int)]);
            assert(concat_all(outs) == concat_all(Seq::<Seq<char>>::empty()) + src@.subrange(0, n as int)) by {
                assert(outs.drop_last() =~= Seq::<Seq<char>>::empty());
            }
            assert(src@.subrange(0, n as int) =~= src@);
        }
    }
    (out, end > 0)
}

/// Renders the tag `[name/content/name]` found in a text of length `bound`.
fn render_tag(name: &[char], content: &[char], Ghost(bound): Ghost<nat>) -> (o: Vec<char>)
    requires
        content@.len() < bound,
        tag_safe(bound, name@, content@),
    ensures
        tag_rel(bound, name@, content@, o@),
    decreases content@.len(), 2nat,
{
    proof {
        reveal_strlit("ruby");
        reveal_strlit("image");
        assert("ruby"@.len() == 4 && "image"@.len() == 5);
    }
    let mut out: Vec<char> = Vec::new();
    if style_name_exec(name) {
        let (o, _) = render(content);
        push_str(&mut out, "<");
        push_all(&mut out, name);
        push_str(&mut out, ">");
        push_all(&mut out, &o);
        push_str(&mut out, "</");
        push_all(&mut out, name);
        push_str(&mut out, ">");
        proof {
            let pre = "<"@ + name@ + ">"@;
            let post = "</"@ + name@ + ">"@;
            assert(out@ =~= pre + o@ + post);
            lemma_wraps(pre, o@, post);
        }
    } else if chars_eq_lit(name, "ruby") {
        let ps = part(content, 1);
        if ps.len() == 2 {
            let (a, _) = render(&ps[0]);
            let (b, _) = render(&ps[1]);
            push_str(&mut out, "<ruby>");
            push_all(&mut out, &a);
            push_str(&mut out, "<rp>(</rp><rt>");
            push_all(&mut out, &b);
            push_str(&mut out, "</rt><rp>)</rp></ruby>");
            assert(out@ =~= "<ruby>"@ + a@ + "<rp>(</rp><rt>"@ + b@ + "</rt><rp>)</rp></ruby>"@);
        } else {
            let (o, _) = render(content);
            push_str(&mut out, "<em>");
            push_all(&mut out, &o);
            push_str(&mut out, "</em>");
            proof {
                assert(out@ =~= "<em>"@ + o@ + "</em>"@);
                lemma_wraps("<em>"@, o@, "</em>"@);
            }
        }
    } else if chars_eq_lit(name, "image") {
        let mut c: Vec<char> = Vec::new();
        push_all(&mut c, content);
        let text = string_from_chars(c);
        let tstr = text.as_str();
        let bytes = tstr.as_bytes();
        assert(tstr.spec_bytes() == encode_utf8(content@));
        let b = base64_url_safe(bytes);
        push_str(&mut out, "<img src=\"");
        push_str(&mut out, b.as_str());
        push_str(&mut out, "\">");
        assert(out@ =~= "<img src=\""@ + url_safe_base64(encode_utf8(content@)) + "\">"@);
    } else if name.len() == 0 {
        proof {
            reveal_strlit("br");
            assert("br"@ =~= seq!['b', 'r']);
        }
        if chars_eq_lit(content, "br") {
            push_str(&mut out, "<br>");
        } else {
            let ps = part(content, 0);
            let k = random_index(ps.len());
            let ghost pspec = part_spec(content@, 0);
            assert(pspec[k as int] == ps@[k as int]@);
            assert(pspec[k as int].len() < bound && codec_safe(pspec[k as int]));
            let (o, _) = render(&ps[k]);
            out = o;
            assert(0 <= k < pspec.len() && pspec[k as int].len() < bound && codec_rel(pspec[k as int], out@));
        }
    } else {
        let (o, _) = render(content);
        push_str(&mut out, "[");
        push_all(&mut out, name);
        push_str(&mut out, "/");
        push_all(&mut out, &o);
        push_str(&mut out, "/");
        push_all(&mut out, name);
        push_str(&mut out, "]");
        proof {
            let pre = "["@ + name@ + "/"@;
            let post = "/"@ + name@ + "]"@;
            assert(out@ =~= pre + o@ + post);
            lemma_wraps(pre, o@, post);
        }
    }
    out
}

// ---------------------------------------------------------------------------
// Executable check
// ---------------------------------------------------------------------------

/// Whether rendering `src` succeeds (see [`codec_safe`]).
fn check(src: &[char]) -> (r: bool)
    ensures
        r == codec_safe(src@),
    decreases src@.len(), 1nat,
{
    let n = src.len();
    let mut stack: Vec<(Vec<char>, usize)> = Vec::new();
    let mut i: usize = 0;
    let mut end: usize = 0;
    let ghost mut evs: Seq<Event> = Seq::empty();
    assert(stack_view(stack@) =~= Seq::<Frame>::empty());
    while i < n
        invariant
            n == src@.len(),
            end <= i <= n,
            scan_events(src@) == scan_from(src@, i as int, end as int, stack_view(stack@), evs),
            forall|k: int| #![trigger evs[k]] 0 <= k < evs.len() ==> event_safe(src@.len(), evs[k]),
        decreases n - i,
    {
        let ghost st0 = stack_view(stack@);
        let step = scan_step_exec(src, i, end, &mut stack, Ghost(evs));
        match step {
            None => {
                assert(scan_from(src@, i as int, end as int, st0, evs) is None);
                return false;
            },
            Some((i2, end2, found)) => {
                let ghost fv = found_view(found@);
                let ghost evs2 = evs + fv;
                assert(scan_events(src@) == scan_from(src@, i2 as int, end2 as int, stack_view(stack@), evs2));
                proof { lemma_scan_prefix(src@, i2 as int, end2 as int, stack_view(stack@), evs2); }
                let mut j: usize = 0;
                while j < found.len()
                    invariant
                        n == src@.len(),
                        fv == found_view(found@),
                        evs2 == evs + fv,
                        scan_events(src@) matches Some(fin) ==> fin.len() > evs2.len() && forall|k: int|
                            0 <= k < evs2.len() ==> #[trigger] fin[k] == evs2[k],
                        0 <= j <= found@.len(),
                        forall|k: int| #![trigger evs2[k]] 0 <= k < evs.len() + j ==> event_safe(src@.len(), evs2[k]),
                    decreases found.len() - j,
                {
                    let ghost at = evs.len() + j;
                    assert(fv[j as int] == found@[j as int]@);
                    assert(evs2[at] == fv[j as int]);
                    match &found[j] {
                        Found::Raw(t) => {},
                        Found::Tagged(name, content) => {
                            if content.len() >= n || !check_tag(name, content, Ghost(n as nat)) {
                                proof {
                                    if let Some(fin) = scan_events(src@) {
                                        assert(fin[at] == evs2[at]);
                                        assert(!event_safe(src@.len(), fin[at]));
                                    }
                                }
                                return false;
                            }
                        },
                    }
                    j = j + 1;
                }
                proof {
                    evs = evs2;
                }
                i = i2;
                end = end2;
            },
        }
    }
    proof {
        let tail = src@.subrange(end as int, n as int);
        assert(scan_events(src@) == Some(evs.push(Event::Raw(tail))));
        assert(forall|k: int| #![trigger evs.push(Event::Raw(tail))[k]] 0 <= k < evs.len() + 1 ==> event_safe(
            src@.len(),
            evs.push(Event::Raw(tail))[k],
        ));
    }
    true
}

/// Whether the tag `[name/content/name]` of a text of length `bound` renders (see [`tag_safe`]).
#[verifier::loop_isolation(false)]
fn check_tag(name: &[char], content: &[char], Ghost(bound): Ghost<nat>) -> (r: bool)
    requires
        content@.len() < bound,
    ensures
        r == tag_safe(bound, name@, content@),
    decreases content@.len(), 2nat,
{
    proof {
        reveal_strlit("ruby");
        reveal_strlit("image");
        reveal_strlit("br");
        assert("br"@ =~= seq!['b', 'r']);
    }
    let style = style_name_exec(name);
    let is_br = chars_eq_lit(content, "br");
    if !style && chars_eq_lit(name, "image") {
        true
    } else if !style && chars_eq_lit(name, "ruby") {
        let ps = part(content, 1);
        if ps.len() == 2 {
            check(&ps[0]) && check(&ps[1])
        } else {
            check(content)
        }
    } else if !style && name.len() == 0 && !is_br {
        let ps = part(content, 0);
        let ghost pspec = part_spec(content@, 0);
        let mut k: usize = 0;
        while k < ps.len()
            invariant
                content@.len() < bound,
                ps@.len() == pspec.len(),
                forall|j: int| 0 <= j < ps@.len() ==> #[trigger] ps@[j]@ == pspec[j],
                forall|j: int| 0 <= j < ps@.len() ==> #[trigger] ps@[j]@.len() <= content@.len(),
                0 <= k <= ps@.len(),
                forall|j: int| #![trigger pspec[j]] 0 <= j < k ==> pspec[j].len() < bound && codec_safe(pspec[j]),
            decreases ps.len() - k,
        {
            assert(ps@[k as int]@ == pspec[k as int]);
            if !check(&ps[k]) {
                assert(!codec_safe(pspec[k as int]));
                assert(!tag_safe(bound, name@, content@)) by {
                    assert(!(pspec[k as int].len() < bound && codec_safe(pspec[k as int])));
                }
                return false;
            }
            k = k + 1;
        }
        true
    } else if !style && name.len() == 0 {
        true
    } else {
        check(content)
    }
}

impl TagFormat for Ondyst {
    open spec fn parse_ok(&self, raw: Seq<char>) -> bool {
        codec_safe(raw)
    }

    open spec fn parse_rel(&self, raw: Seq<char>, out: Seq<char>) -> bool {
        codec_rel(raw, out)
    }

    fn parse<'a>(self, raw: &'a str) -> (r: Cow<'a, str>)
        ensures
            no_markup(raw@) ==> r == Cow::<'a, str>::Borrowed(raw),
    {
        let src = str_chars(raw);
        let (out, changed) = render(&src);
        if changed {
            Cow::Owned(string_from_chars(out))
        } else {
            Cow::Borrowed(raw)
        }
    }
}

impl Ondyst {
    /// Whether the tags of `raw` can be rendered: the scan of every text it renders, down
    /// through the contents of its tags, succeeds.
    pub fn can_parse(self, raw: &str) -> (r: bool)
        ensures
            r == codec_safe(raw@),
    {
        let src = str_chars(raw);
        check(&src)
    }

    /// The rendering of the tags of `raw`, or `None` where it cannot be rendered.
    pub fn checked_parse<'a>(self, raw: &'a str) -> (r: Option<Cow<'a, str>>)
        ensures
            r is Some <==> codec_safe(raw@),
            r matches Some(c) ==> codec_rel(raw@, cow_view(c)),
            no_markup(raw@) ==> r == Some(Cow::<'a, str>::Borrowed(raw)),
    {
        proof {
            if no_markup(raw@) {
                lemma_plain_text_unchanged(raw@);
            }
        }
        if self.can_parse(raw) {
            Some(self.parse(raw))
        } else {
            None
        }
    }
}

} // verus!
