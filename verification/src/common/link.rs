//! Recognition of links in plain text: web addresses and account handles
//! (Misskey `@user@host`, Bluesky `@user.host`, X `@user`).
use vstd::prelude::*;

use crate::matcher::{captures_in_order, group_of, RegexCapture};
use crate::text::{byte_range, byte_slice, on_boundary, push_all, push_str, str_chars};

verus! {

/// The pattern of a link: at the start of the text or after a white-space character,
/// a web address (group 2), a Misskey handle (group 3), a Bluesky handle (group 4)
/// or an X handle (group 5). Group 1 holds the white space before it.
pub const LINK_PATTERN: &'static str = "(^|\\s)(?:(?<url>https?://[^\\s<>\"']+)|(?<misskey>@[\\w_\\-]+@[\\w_\\-]+(?:\\.[\\w_\\-]+)+)|(?<bsky>@[\\w_\\-]+(?:\\.[\\w_\\-]+)+)|(?<twitter>@[\\w_\\-]{4,15}))";

/// The index of the last occurrence of `c` in `s`.
pub open spec fn last_index_of(s: Seq<char>, c: char) -> Option<int>
    decreases s.len(),
{
    if s.len() == 0 {
        None
    } else if s.last() == c {
        Some(s.len() - 1)
    } else {
        last_index_of(s.drop_last(), c)
    }
}

pub proof fn lemma_last_index_of(s: Seq<char>, c: char)
    ensures
        last_index_of(s, c) matches Some(k) ==> 0 <= k < s.len() && s[k] == c,
    decreases s.len(),
{
    if s.len() > 0 && s.last() != c {
        lemma_last_index_of(s.drop_last(), c);
    }
}

/// `s` with every `"` written as `%22`.
pub open spec fn quote_to_pct(s: Seq<char>) -> Seq<char>
    decreases s.len(),
{
    if s.len() == 0 {
        Seq::empty()
    } else {
        quote_to_pct(s.drop_last()) + (if s.last() == '"' {
            seq!['%', '2', '2']
        } else {
            seq![s.last()]
        })
    }
}

/// `s` without its first character (the `@` of a handle).
pub open spec fn skip_first(s: Seq<char>) -> Seq<char> {
    if s.len() > 0 {
        s.drop_first()
    } else {
        s
    }
}

/// The address of a Misskey handle `@user@host`: `https://host/@user`, split at the last `@`.
pub open spec fn misskey_href(m: Seq<char>) -> Seq<char> {
    match last_index_of(m, '@') {
        Some(k) => "https://"@ + m.subrange(k + 1, m.len() as int) + "/"@ + m.subrange(0, k),
        None => "https://"@ + "/"@ + m,
    }
}

/// The link a match stands for: its address and the matched text, taken from whichever
/// of the address, Misskey, Bluesky and X groups took part (in that order of preference).
pub open spec fn link_target(text: Seq<char>, c: RegexCapture) -> Option<(Seq<char>, Seq<char>)> {
    match group_of(c, 2) {
        Some((a, b)) => {
            let m = byte_range(text, a as int, b as int);
            Some((quote_to_pct(m), m))
        },
        None => match group_of(c, 3) {
            Some((a, b)) => {
                let m = byte_range(text, a as int, b as int);
                Some((misskey_href(m), m))
            },
            None => match group_of(c, 4) {
                Some((a, b)) => {
                    let m = byte_range(text, a as int, b as int);
                    Some(("https://bsky.app/profile/"@ + skip_first(m), m))
                },
                None => match group_of(c, 5) {
                    Some((a, b)) => {
                        let m = byte_range(text, a as int, b as int);
                        Some(("https://x.com/"@ + skip_first(m), m))
                    },
                    None => None,
                },
            },
        },
    }
}

/// An address with its `"` written as `%22` holds no `"`, so it cannot end the attribute it
/// is written in.
pub proof fn lemma_quote_to_pct_no_quote(s: Seq<char>)
    ensures
        forall|j: int| 0 <= j < quote_to_pct(s).len() ==> quote_to_pct(s)[j] != '"',
    decreases s.len(),
{
    if s.len() > 0 {
        lemma_quote_to_pct_no_quote(s.drop_last());
        let prev = quote_to_pct(s.drop_last());
        let tail = if s.last() == '"' {
            seq!['%', '2', '2']
        } else {
            seq![s.last()]
        };
        assert(quote_to_pct(s) == prev + tail);
        assert forall|j: int| 0 <= j < quote_to_pct(s).len() implies quote_to_pct(s)[j] != '"' by {
            if j < prev.len() {
                assert(quote_to_pct(s)[j] == prev[j]);
            } else {
                assert(quote_to_pct(s)[j] == tail[j - prev.len()]);
            }
        }
    }
}

/// Writing `"` as `%22` goes character by character: over two texts one after the other it
/// is the two written in turn.
pub proof fn lemma_quote_to_pct_add(a: Seq<char>, b: Seq<char>)
    ensures
        quote_to_pct(a + b) == quote_to_pct(a) + quote_to_pct(b),
    decreases b.len(),
{
    if b.len() == 0 {
        assert(a + b =~= a);
        assert(quote_to_pct(a) + quote_to_pct(b) =~= quote_to_pct(a));
    } else {
        assert((a + b).drop_last() =~= a + b.drop_last());
        assert((a + b).last() == b.last());
        lemma_quote_to_pct_add(a, b.drop_last());
        let tail = if b.last() == '"' {
            seq!['%', '2', '2']
        } else {
            seq![b.last()]
        };
        assert(quote_to_pct(a + b) == quote_to_pct(a + b.drop_last()) + tail);
        assert(quote_to_pct(b) == quote_to_pct(b.drop_last()) + tail);
        assert(quote_to_pct(a) + quote_to_pct(b.drop_last()) + tail =~= quote_to_pct(a) + (
        quote_to_pct(b.drop_last()) + tail));
    }
}

/// A text without `"` is its own address: every other character is kept as it is.
pub proof fn lemma_quote_to_pct_plain(s: Seq<char>)
    requires
        forall|j: int| 0 <= j < s.len() ==> s[j] != '"',
    ensures
        quote_to_pct(s) == s,
    decreases s.len(),
{
    if s.len() > 0 {
        lemma_quote_to_pct_plain(s.drop_last());
        assert(s.drop_last().push(s.last()) =~= s);
    }
}

/// A `"` alone is written `%22`.
pub proof fn lemma_quote_to_pct_quote()
    ensures
        quote_to_pct(seq!['"']) == seq!['%', '2', '2'],
{
    let q = seq!['"'];
    assert(q.len() == 1 && q.last() == '"');
    assert(q.drop_last() =~= Seq::<char>::empty());
    assert(quote_to_pct(Seq::<char>::empty()) == Seq::<char>::empty());
    assert(quote_to_pct(q) == quote_to_pct(q.drop_last()) + seq!['%', '2', '2']);
    assert(Seq::<char>::empty() + seq!['%', '2', '2'] =~= seq!['%', '2', '2']);
}

/// The address of a web-address link is the matched address with each `"` written `%22`;
/// an address that holds no `"` is its own address.
pub proof fn lemma_url_link_href(text: Seq<char>, c: RegexCapture)
    requires
        group_of(c, 2) is Some,
    ensures
        link_target(text, c) matches Some((h, m)) && h == quote_to_pct(m),
        link_target(text, c) matches Some((h, m)) && ((forall|j: int| 0 <= j < m.len() ==> m[j] != '"')
            ==> h == m),
{
    let (a, b) = group_of(c, 2)->0;
    let m = byte_range(text, a as int, b as int);
    if forall|j: int| 0 <= j < m.len() ==> m[j] != '"' {
        lemma_quote_to_pct_plain(m);
    }
}

fn group_at(c: &RegexCapture, g: usize) -> (r: Option<(usize, usize)>)
    ensures
        r == group_of(*c, g as int),
{
    if g < c.groups.len() {
        c.groups[g]
    } else {
        None
    }
}

fn last_index_of_exec(s: &[char], c: char) -> (r: Option<usize>)
    ensures
        match r {
            Some(k) => last_index_of(s@, c) == Some(k as int),
            None => last_index_of(s@, c) is None,
        },
        r matches Some(k) ==> k < s@.len(),
{
    proof { lemma_last_index_of(s@, c); }
    let mut i: usize = s.len();
    assert(s@.subrange(0, i as int) =~= s@);
    while i > 0
        invariant
            i <= s@.len(),
            last_index_of(s@, c) == last_index_of(s@.subrange(0, i as int), c),
        decreases i,
    {
        let ghost pre = s@.subrange(0, i as int);
        if s[i - 1] == c {
            return Some(i - 1);
        }
        assert(pre.drop_last() =~= s@.subrange(0, i - 1));
        i = i - 1;
    }
    None
}

/// Appends `quote_to_pct(s[from..])` to `out`.
pub fn push_quote_to_pct(s: &[char], out: &mut Vec<char>)
    ensures
        final(out)@ == old(out)@ + quote_to_pct(s@),
        (forall|j: int| 0 <= j < s@.len() ==> s@[j] != '"') ==> final(out)@ == old(out)@ + s@,
{
    proof {
        if forall|j: int| 0 <= j < s@.len() ==> s@[j] != '"' {
            lemma_quote_to_pct_plain(s@);
        }
    }
    let mut i: usize = 0;
    while i < s.len()
        invariant
            0 <= i <= s@.len(),
            out@ == old(out)@ + quote_to_pct(s@.subrange(0, i as int)),
        decreases s.len() - i,
    {
        let ghost pre = s@.subrange(0, i + 1);
        assert(pre.drop_last() =~= s@.subrange(0, i as int));
        if s[i] == '"' {
            out.push('%');
            out.push('2');
            out.push('2');
        } else {
            out.push(s[i]);
        }
        i = i + 1;
    }
    assert(s@.subrange(0, s@.len() as int) =~= s@);
}

fn skip_first_exec(m: &[char], out: &mut Vec<char>)
    ensures
        final(out)@ == old(out)@ + skip_first(m@),
{
    if m.len() > 0 {
        crate::text::push_range(out, m, 1, m.len());
        assert(m@.subrange(1, m@.len() as int) =~= m@.drop_first());
    }
}

/// The address and matched text of a link match (see [`link_target`]).
pub fn link_target_exec(text: &str, c: &RegexCapture) -> (r: Option<(Vec<char>, Vec<char>)>)
    requires
        forall|g: int|
            #![trigger group_of(*c, g)]
            group_of(*c, g) is Some ==> {
                let (a, b) = group_of(*c, g)->0;
                &&& a <= b
                &&& on_boundary(text@, a as int)
                &&& on_boundary(text@, b as int)
            },
    ensures
        match r {
            Some((h, m)) => link_target(text@, *c) == Some((h@, m@)),
            None => link_target(text@, *c) is None,
        },
{
    let g2 = group_at(c, 2);
    if let Some((a, b)) = g2 {
        assert(group_of(*c, 2) is Some);
        let m = str_chars(byte_slice(text, a, b));
        let mut h: Vec<char> = Vec::new();
        push_quote_to_pct(&m, &mut h);
        return Some((h, m));
    }
    let g3 = group_at(c, 3);
    if let Some((a, b)) = g3 {
        assert(group_of(*c, 3) is Some);
        let m = str_chars(byte_slice(text, a, b));
        let mut h: Vec<char> = Vec::new();
        push_str(&mut h, "https://");
        match last_index_of_exec(&m, '@') {
            Some(k) => {
                assert(k < m@.len());
                assert(m@.len() == m.len());
                crate::text::push_range(&mut h, &m, k + 1, m.len());
                push_str(&mut h, "/");
                crate::text::push_range(&mut h, &m, 0, k);
            },
            None => {
                push_str(&mut h, "/");
                push_all(&mut h, &m);
            },
        }
        return Some((h, m));
    }
    let g4 = group_at(c, 4);
    if let Some((a, b)) = g4 {
        assert(group_of(*c, 4) is Some);
        let m = str_chars(byte_slice(text, a, b));
        let mut h: Vec<char> = Vec::new();
        push_str(&mut h, "https://bsky.app/profile/");
        skip_first_exec(&m, &mut h);
        return Some((h, m));
    }
    let g5 = group_at(c, 5);
    if let Some((a, b)) = g5 {
        assert(group_of(*c, 5) is Some);
        let m = str_chars(byte_slice(text, a, b));
        let mut h: Vec<char> = Vec::new();
        push_str(&mut h, "https://x.com/");
        skip_first_exec(&m, &mut h);
        return Some((h, m));
    }
    None
}

} // verus!
