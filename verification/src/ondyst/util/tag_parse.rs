//! The site's own tags: text styles, ruby, images and random picks.
use vstd::prelude::*;

use crate::common::html_encode::{
    first_index_from, lemma_first_index_from, pieces_view, pieces_within, Piece, PieceView, Tag,
    TagFormat,
};
use crate::common::link::quote_to_pct;
use crate::random::random_index;
use crate::text::{
    lemma_split_on, push_range, push_str, split_chars, split_on, str_chars, str_eq,
    string_from_chars,
};

verus! {

/// The tag format of the site.
#[derive(Clone, Copy)]
pub struct Ondyst;

/// The tags that wrap their content in an element of the same name.
pub open spec fn is_style_name(name: Seq<char>) -> bool {
    ||| name == "b"@
    ||| name == "i"@
    ||| name == "u"@
    ||| name == "s"@
    ||| name == "large"@
    ||| name == "small"@
    ||| name == "em"@
    ||| name == "rainbow"@
}

/// The markup of a tag `[name/content/name]`:
/// - a style tag: `<name>`, the content rendered, `</name>`;
/// - `ruby`: with a `|`, the base before the first `|` and its reading after it, rendered into
///   `<ruby>…<rp>(</rp><rt>…</rt><rp>)</rp></ruby>`; without one, the content in `<em>`;
/// - `image`: `<img src="…">` around the content with each `"` written `%22`;
/// - `random`: one of the parts between `|`, rendered inside `<random>`;
/// - any other name: the tag as it was written, its content rendered.
pub open spec fn ondyst_pieces_ok(name: Seq<char>, content: Seq<char>, pieces: Seq<PieceView>) -> bool {
    if is_style_name(name) {
        pieces == seq![
            PieceView::Markup("<"@ + name + ">"@),
            PieceView::Text(content),
            PieceView::Markup("</"@ + name + ">"@),
        ]
    } else if name == "ruby"@ {
        match first_index_from(content, '|', 0) {
            Some(k) => pieces == seq![
                PieceView::Markup("<ruby>"@),
                PieceView::Text(content.subrange(0, k)),
                PieceView::Markup("<rp>(</rp><rt>"@),
                PieceView::Text(content.subrange(k + 1, content.len() as int)),
                PieceView::Markup("</rt><rp>)</rp></ruby>"@),
            ],
            None => pieces == seq![
                PieceView::Markup("<em>"@),
                PieceView::Text(content),
                PieceView::Markup("</em>"@),
            ],
        }
    } else if name == "image"@ {
        pieces == seq![PieceView::Markup("<img src=\""@ + quote_to_pct(content) + "\">"@)]
    } else if name == "random"@ {
        exists|k: int|
            0 <= k < split_on(content, '|').len() && pieces == seq![
                PieceView::Markup("<random>"@),
                PieceView::Text(#[trigger] split_on(content, '|')[k]),
                PieceView::Markup("</random>"@),
            ]
    } else {
        pieces == seq![
            PieceView::Markup("["@ + name + "/"@),
            PieceView::Text(content),
            PieceView::Markup("/"@ + name + "]"@),
        ]
    }
}

/// The style tags `b`, `i`, `u`, `s`, `large`, `small`, `em` and `rainbow` each become an
/// element of their own name around their content, which is rendered in place.
pub proof fn lemma_style_tags(name: Seq<char>, content: Seq<char>, link: bool, pieces: Seq<PieceView>)
    requires
        name == "b"@ || name == "i"@ || name == "u"@ || name == "s"@ || name == "large"@ || name
            == "small"@ || name == "em"@ || name == "rainbow"@,
        Ondyst.format_ok(name, content, link, pieces),
    ensures
        pieces == seq![
            PieceView::Markup("<"@ + name + ">"@),
            PieceView::Text(content),
            PieceView::Markup("</"@ + name + ">"@),
        ],
{
}

fn text_piece(v: Vec<char>) -> (p: Piece)
    ensures
        p@ == PieceView::Markup(v@),
{
    Piece::Markup(string_from_chars(v))
}

fn html_piece(v: Vec<char>) -> (p: Piece)
    ensures
        p@ == PieceView::Text(v@),
{
    Piece::Text(string_from_chars(v))
}

fn lit_piece(s: &str) -> (p: Piece)
    ensures
        p@ == PieceView::Markup(s@),
{
    let mut v: Vec<char> = Vec::new();
    push_str(&mut v, s);
    text_piece(v)
}

fn wrap_piece(pre: &str, mid: &str, post: &str) -> (p: Piece)
    ensures
        p@ == PieceView::Markup(pre@ + mid@ + post@),
{
    let mut v: Vec<char> = Vec::new();
    push_str(&mut v, pre);
    push_str(&mut v, mid);
    push_str(&mut v, post);
    text_piece(v)
}

fn three(a: Piece, b: Piece, c: Piece) -> (r: Vec<Piece>)
    ensures
        pieces_view(r@) == seq![a@, b@, c@],
{
    let mut r: Vec<Piece> = Vec::new();
    r.push(a);
    r.push(b);
    r.push(c);
    assert(pieces_view(r@) =~= seq![a@, b@, c@]);
    r
}

fn is_style_name_exec(name: &str) -> (r: bool)
    ensures
        r == is_style_name(name@),
{
    str_eq(name, "b") || str_eq(name, "i") || str_eq(name, "u") || str_eq(name, "s") || str_eq(
        name,
        "large",
    ) || str_eq(name, "small") || str_eq(name, "em") || str_eq(name, "rainbow")
}

fn first_bar(s: &[char]) -> (r: Option<usize>)
    ensures
        match r {
            Some(k) => first_index_from(s@, '|', 0) == Some(k as int),
            None => first_index_from(s@, '|', 0) is None,
        },
        r matches Some(k) ==> k < s@.len(),
{
    proof { lemma_first_index_from(s@, '|', 0); }
    let mut i: usize = 0;
    while i < s.len()
        invariant
            0 <= i <= s@.len(),
            first_index_from(s@, '|', 0) == first_index_from(s@, '|', i as int),
        decreases s.len() - i,
    {
        if s[i] == '|' {
            return Some(i);
        }
        i = i + 1;
    }
    None
}

impl TagFormat for Ondyst {
    open spec fn format_ok(&self, name: Seq<char>, content: Seq<char>, link: bool, pieces: Seq<PieceView>) -> bool {
        ondyst_pieces_ok(name, content, pieces)
    }

    fn format(&self, tag: Tag<'_>, link: bool) -> (pieces: Vec<Piece>) {
        let name = tag.name;
        let content = tag.content;
        if is_style_name_exec(name) {
            let inner = str_chars(content);
            return three(wrap_piece("<", name, ">"), html_piece(inner), wrap_piece("</", name, ">"));
        }
        if str_eq(name, "ruby") {
            let c = str_chars(content);
            match first_bar(&c) {
                Some(k) => {
                    assert(k < c@.len());
                    assert(c@.len() == c.len());
                    let mut base: Vec<char> = Vec::new();
                    push_range(&mut base, &c, 0, k);
                    let mut reading: Vec<char> = Vec::new();
                    push_range(&mut reading, &c, k + 1, c.len());
                    let mut r: Vec<Piece> = Vec::new();
                    r.push(lit_piece("<ruby>"));
                    r.push(html_piece(base));
                    r.push(lit_piece("<rp>(</rp><rt>"));
                    r.push(html_piece(reading));
                    r.push(lit_piece("</rt><rp>)</rp></ruby>"));
                    assert(pieces_view(r@) =~= seq![r@[0]@, r@[1]@, r@[2]@, r@[3]@, r@[4]@]);
                    return r;
                },
                None => {
                    return three(lit_piece("<em>"), html_piece(c), lit_piece("</em>"));
                },
            }
        }
        if str_eq(name, "image") {
            let c = str_chars(content);
            let mut v: Vec<char> = Vec::new();
            push_str(&mut v, "<img src=\"");
            crate::common::link::push_quote_to_pct(&c, &mut v);
            push_str(&mut v, "\">");
            let mut r: Vec<Piece> = Vec::new();
            r.push(text_piece(v));
            assert(pieces_view(r@) =~= seq![r@[0]@]);
            return r;
        }
        if str_eq(name, "random") {
            let c = str_chars(content);
            let parts = split_chars(&c, '|');
            proof { lemma_split_on(c@, '|'); }
            let k = random_index(parts.len());
            let mut pick: Vec<char> = Vec::new();
            crate::text::push_all(&mut pick, &parts[k]);
            let r = three(lit_piece("<random>"), html_piece(pick), lit_piece("</random>"));
            assert(split_on(content@, '|')[k as int] == pick@);
            return r;
        }
        let inner = str_chars(content);
        three(wrap_piece("[", name, "/"), html_piece(inner), wrap_piece("/", name, "]"))
    }
}

} // verus!
