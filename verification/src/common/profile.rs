//! Profiles written in sections: a line `# title` opens a section that runs to the next one.
use vstd::prelude::*;

use crate::common::html_encode::{first_index_from, lemma_first_index_from};
use crate::text::{push_range, str_chars, string_from_chars};

verus! {

/// A section of a profile: its title (none for the text before the first title) and its text.
pub struct Section {
    pub title: Option<String>,
    pub content: String,
}

/// A section in terms of character sequences.
pub open spec fn section_view(s: Section) -> (Option<Seq<char>>, Seq<char>) {
    (
        match s.title {
            Some(t) => Some(t@),
            None => None,
        },
        s.content@,
    )
}

/// Whether the separator `\n# ` stands in `s` at `i`.
pub open spec fn sep_at(s: Seq<char>, i: int) -> bool {
    0 <= i && i + 3 <= s.len() && s[i] == '\n' && s[i + 1] == '#' && s[i + 2] == ' '
}

/// The pieces of `s` between the separators `\n# `, found from the left without overlap
/// (as `str::split` finds them), from position `i`, the current piece starting at `start`.
pub open spec fn sep_pieces(s: Seq<char>, i: int, start: int) -> Seq<Seq<char>>
    decreases s.len() - i,
{
    if i < 0 || i >= s.len() {
        seq![s.subrange(start, s.len() as int)]
    } else if sep_at(s, i) {
        seq![s.subrange(start, i)] + sep_pieces(s, i + 3, i + 3)
    } else {
        sep_pieces(s, i + 1, start)
    }
}

/// A piece split at its first line feed into a title and a text; all of it is the title
/// when it has no line feed.
pub open spec fn titled(p: Seq<char>) -> (Option<Seq<char>>, Seq<char>) {
    match first_index_from(p, '\n', 0) {
        Some(k) => (Some(p.subrange(0, k)), p.subrange(k + 1, p.len() as int)),
        None => (Some(p), Seq::empty()),
    }
}

/// The section a piece stands for: the first piece has a title only when it starts with `# `.
pub open spec fn piece_section(p: Seq<char>, first: bool) -> (Option<Seq<char>>, Seq<char>) {
    if first {
        if p.len() >= 2 && p[0] == '#' && p[1] == ' ' {
            titled(p.subrange(2, p.len() as int))
        } else {
            (None, p)
        }
    } else {
        titled(p)
    }
}

/// The sections of a profile.
pub open spec fn profile_sections_spec(profile: Seq<char>) -> Seq<(Option<Seq<char>>, Seq<char>)> {
    let pieces = sep_pieces(profile, 0, 0);
    Seq::new(pieces.len(), |k: int| piece_section(pieces[k], k == 0))
}

proof fn lemma_sep_pieces_len(s: Seq<char>, i: int, start: int)
    ensures
        sep_pieces(s, i, start).len() >= 1,
    decreases s.len() - i,
{
    if 0 <= i < s.len() {
        if sep_at(s, i) {
            lemma_sep_pieces_len(s, i + 3, i + 3);
        } else {
            lemma_sep_pieces_len(s, i + 1, start);
        }
    }
}

fn section_of(p: &[char], first: bool) -> (r: Section)
    ensures
        section_view(r) == piece_section(p@, first),
{
    let mut from: usize = 0;
    if first {
        if p.len() >= 2 && p[0] == '#' && p[1] == ' ' {
            from = 2;
        } else {
            let mut c: Vec<char> = Vec::new();
            push_range(&mut c, p, 0, p.len());
            assert(p@.subrange(0, p@.len() as int) =~= p@);
            return Section { title: None, content: string_from_chars(c) };
        }
    }
    let ghost q = p@.subrange(from as int, p@.len() as int);
    assert(first ==> piece_section(p@, first) == titled(q));
    assert(!first ==> q =~= p@);
    let mut k: usize = from;
    proof { lemma_first_index_from(q, '\n', 0); }
    while k < p.len() && p[k] != '\n'
        invariant
            from <= k <= p@.len(),
            q == p@.subrange(from as int, p@.len() as int),
            first_index_from(q, '\n', 0) == first_index_from(q, '\n', k - from),
        decreases p.len() - k,
    {
        assert(q[k - from] == p@[k as int]);
        k = k + 1;
    }
    let mut t: Vec<char> = Vec::new();
    let mut c: Vec<char> = Vec::new();
    if k < p.len() {
        assert(q[k - from] == p@[k as int]);
        push_range(&mut t, p, from, k);
        push_range(&mut c, p, k + 1, p.len());
        assert(t@ =~= q.subrange(0, k - from));
        assert(c@ =~= q.subrange(k - from + 1, q.len() as int));
    } else {
        push_range(&mut t, p, from, p.len());
    }
    Section { title: Some(string_from_chars(t)), content: string_from_chars(c) }
}

/// The sections of a profile: split at each `\n# `, the first piece a section without title
/// unless it starts with `# `, each titled piece split at its first line feed.
pub fn profile_sections(profile: &str) -> (r: Vec<Section>)
    ensures
        r@.len() == profile_sections_spec(profile@).len(),
        forall|k: int| 0 <= k < r@.len() ==> #[trigger] section_view(r@[k]) == profile_sections_spec(profile@)[k],
{
    let s = str_chars(profile);
    let n = s.len();
    let ghost all = sep_pieces(s@, 0, 0);
    let mut r: Vec<Section> = Vec::new();
    let mut i: usize = 0;
    let mut start: usize = 0;
    proof { lemma_sep_pieces_len(s@, 0, 0); }
    while i < n
        invariant
            n == s@.len(),
            s@ == profile@,
            all == sep_pieces(s@, 0, 0),
            start <= i <= n,
            r@.len() + sep_pieces(s@, i as int, start as int).len() == all.len(),
            forall|k: int| 0 <= k < r@.len() ==> #[trigger] section_view(r@[k]) == piece_section(all[k], k == 0),
            forall|k: int| 0 <= k < sep_pieces(s@, i as int, start as int).len() ==> #[trigger] sep_pieces(s@, i as int, start as int)[k] == all[r@.len() + k],
        decreases n - i,
    {
        if n - i >= 3 && s[i] == '\n' && s[i + 1] == '#' && s[i + 2] == ' ' {
            let mut piece: Vec<char> = Vec::new();
            push_range(&mut piece, &s, start, i);
            let ghost rest = sep_pieces(s@, i + 3, i + 3);
            assert(sep_pieces(s@, i as int, start as int) == seq![s@.subrange(start as int, i as int)] + rest);
            assert(sep_pieces(s@, i as int, start as int)[0] == piece@);
            let sec = section_of(&piece, r.len() == 0);
            r.push(sec);
            assert forall|k: int| 0 <= k < rest.len() implies #[trigger] rest[k] == all[r@.len() + k] by {
                assert(sep_pieces(s@, i as int, start as int)[k + 1] == rest[k]);
            }
            i = i + 3;
            start = i;
        } else {
            i = i + 1;
        }
    }
    let mut piece: Vec<char> = Vec::new();
    push_range(&mut piece, &s, start, n);
    assert(sep_pieces(s@, i as int, start as int) == seq![s@.subrange(start as int, n as int)]);
    assert(sep_pieces(s@, i as int, start as int)[0] == all[r@.len() as int]);
    let ghost m = r@.len();
    assert(all[m as int] == piece@);
    let sec = section_of(&piece, r.len() == 0);
    r.push(sec);
    assert(section_view(r@[m as int]) == piece_section(all[m as int], m == 0));
    assert(r@.len() == all.len());
    assert forall|k: int| 0 <= k < r@.len() implies #[trigger] section_view(r@[k]) == profile_sections_spec(profile@)[k] by {
        assert(profile_sections_spec(profile@)[k] == piece_section(all[k], k == 0));
    }
    r
}

} // verus!
