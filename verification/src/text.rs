//! Character-level helpers shared by the HTML encoders and the domain logic.
use vstd::prelude::*;
use vstd::utf8::*;
use vstd::string::StringSliceAdditionalSpecFns;

verus! {

broadcast use vstd::utf8::encode_utf8_decode_utf8, vstd::utf8::encode_utf8_valid_utf8;

/// Concatenation of a sequence of character sequences, from the left.
pub open spec fn concat_all(parts: Seq<Seq<char>>) -> Seq<char>
    decreases parts.len(),
{
    if parts.len() == 0 {
        Seq::empty()
    } else {
        concat_all(parts.drop_last()) + parts.last()
    }
}

pub proof fn lemma_concat_all_push(parts: Seq<Seq<char>>, x: Seq<char>)
    ensures
        concat_all(parts.push(x)) == concat_all(parts) + x,
{
    assert(parts.push(x).drop_last() =~= parts);
}

/// The characters of `s` between the UTF-8 byte offsets `a` and `b`.
pub open spec fn byte_range(s: Seq<char>, a: int, b: int) -> Seq<char> {
    decode_utf8(encode_utf8(s).subrange(a, b))
}

/// Whether the byte offset `b` falls on a character boundary of `s` (and within it).
pub open spec fn on_boundary(s: Seq<char>, b: int) -> bool {
    0 <= b <= encode_utf8(s).len() && is_char_boundary(encode_utf8(s), b)
}

/// The characters of a string slice, in order.
pub fn str_chars(s: &str) -> (v: Vec<char>)
    ensures
        v@ == s@,
{
    let mut v: Vec<char> = Vec::new();
    for c in it: s.chars()
        invariant
            v@ == it.seq().take(it.index() as int),
    {
        v.push(c);
    }
    v
}

/// Appends the characters of `s` to `out`.
pub fn push_str(out: &mut Vec<char>, s: &str)
    ensures
        final(out)@ == old(out)@ + s@,
{
    for c in it: s.chars()
        invariant
            out@ == old(out)@ + it.seq().take(it.index() as int),
    {
        out.push(c);
        assert(it.seq().take(it.index() + 1) =~= it.seq().take(it.index() as int).push(c));
    }
}

/// Appends `src[from..to]` to `out`.
pub fn push_range(out: &mut Vec<char>, src: &[char], from: usize, to: usize)
    requires
        from <= to <= src@.len(),
    ensures
        final(out)@ == old(out)@ + src@.subrange(from as int, to as int),
{
    let mut i: usize = from;
    while i < to
        invariant
            from <= i <= to <= src@.len(),
            out@ == old(out)@ + src@.subrange(from as int, i as int),
        decreases to - i,
    {
        out.push(src[i]);
        i = i + 1;
        assert(src@.subrange(from as int, i as int) =~= src@.subrange(from as int, i - 1).push(
            src@[i - 1],
        ));
    }
}

/// Appends all of `src` to `out`.
pub fn push_all(out: &mut Vec<char>, src: &[char])
    ensures
        final(out)@ == old(out)@ + src@,
{
    push_range(out, src, 0, src.len());
    assert(src@.subrange(0, src@.len() as int) =~= src@);
}

/// A `String` holding exactly the given characters (`String::from_iter`).
#[verifier::external_body]
pub fn string_from_chars(v: Vec<char>) -> (s: String)
    ensures
        s@ == v@,
{
    String::from_iter(v)
}

/// Whether two string slices hold the same characters.
pub fn str_eq(a: &str, b: &str) -> (r: bool)
    ensures
        r == (a@ == b@),
{
    let va = str_chars(a);
    let vb = str_chars(b);
    chars_eq(&va, &vb)
}

/// Whether two character slices are equal.
pub fn chars_eq(a: &[char], b: &[char]) -> (r: bool)
    ensures
        r == (a@ == b@),
{
    if a.len() != b.len() {
        return false;
    }
    let mut i: usize = 0;
    while i < a.len()
        invariant
            a@.len() == b@.len(),
            0 <= i <= a@.len(),
            forall|j: int| 0 <= j < i ==> a@[j] == b@[j],
        decreases a.len() - i,
    {
        if a[i] != b[i] {
            return false;
        }
        i = i + 1;
    }
    assert(a@ =~= b@);
    true
}

/// Whether `s` starts with the characters of `lit`.
pub fn chars_eq_lit(s: &[char], lit: &str) -> (r: bool)
    ensures
        r == (s@ == lit@),
{
    let v = str_chars(lit);
    chars_eq(s, &v)
}

/// The UTF-8 bytes of two texts one after the other are the bytes of each in turn.
pub proof fn lemma_encode_utf8_add(a: Seq<char>, b: Seq<char>)
    ensures
        encode_utf8(a + b) == encode_utf8(a) + encode_utf8(b),
    decreases a.len(),
{
    if a.len() == 0 {
        assert(a + b =~= b);
        assert(encode_utf8(a) =~= Seq::<u8>::empty());
        assert(encode_utf8(a) + encode_utf8(b) =~= encode_utf8(b));
    } else {
        assert((a + b)[0] == a[0]);
        assert((a + b).drop_first() =~= a.drop_first() + b);
        lemma_encode_utf8_add(a.drop_first(), b);
        assert(encode_utf8(a + b) =~= encode_scalar(a[0] as u32) + (encode_utf8(a.drop_first())
            + encode_utf8(b)));
        assert(encode_utf8(a) + encode_utf8(b) =~= encode_scalar(a[0] as u32) + (encode_utf8(
            a.drop_first(),
        ) + encode_utf8(b)));
    }
}

/// An ASCII character takes one byte in UTF-8.
pub proof fn lemma_encode_utf8_ascii(c: char)
    requires
        (c as u32) < 128,
    ensures
        encode_utf8(seq![c]).len() == 1,
{
    assert(seq![c].drop_first() =~= Seq::<char>::empty());
    assert(encode_utf8(seq![c].drop_first()) =~= Seq::<u8>::empty());
}

proof fn lemma_view_is_decode(s: &str)
    ensures
        s@ == decode_utf8(s.spec_bytes()),
{
}

/// The part of `s` between the byte offsets `a` and `b`, both on character boundaries.
pub fn byte_slice(s: &str, a: usize, b: usize) -> (r: &str)
    requires
        a <= b,
        on_boundary(s@, a as int),
        on_boundary(s@, b as int),
    ensures
        r@ == byte_range(s@, a as int, b as int),
{
    let ghost bytes = s.spec_bytes();
    proof {
        lemma_view_is_decode(s);
        vstd::utf8::valid_utf8_split(bytes, a as int);
    }
    let (_, rest) = s.split_at(a);
    let ghost rb = rest.spec_bytes();
    proof {
        assert(rb =~= bytes.subrange(a as int, bytes.len() as int));
        if b < bytes.len() {
            vstd::utf8::is_char_boundary_iff_is_leading_byte(bytes, b as int);
            vstd::utf8::is_char_boundary_iff_is_leading_byte(rb, (b - a) as int);
            assert(rb[(b - a) as int] == bytes[b as int]);
        } else {
            vstd::utf8::is_char_boundary_start_end_of_seq(rb);
        }
    }
    let (mid, _) = rest.split_at(b - a);
    proof {
        assert(mid.spec_bytes() =~= bytes.subrange(a as int, b as int));
        lemma_view_is_decode(mid);
    }
    mid
}

/// The parts of `s` between the occurrences of `c` (as `str::split` gives them).
pub open spec fn split_on(s: Seq<char>, c: char) -> Seq<Seq<char>>
    decreases s.len(),
{
    if s.len() == 0 {
        seq![Seq::empty()]
    } else {
        let prev = split_on(s.drop_last(), c);
        if s.last() == c {
            prev.push(Seq::empty())
        } else {
            prev.update(prev.len() - 1, prev.last().push(s.last()))
        }
    }
}

/// There is always at least one part, and no part is longer than `s`.
pub proof fn lemma_split_on(s: Seq<char>, c: char)
    ensures
        split_on(s, c).len() >= 1,
        forall|k: int| 0 <= k < split_on(s, c).len() ==> #[trigger] split_on(s, c)[k].len() <= s.len(),
    decreases s.len(),
{
    if s.len() > 0 {
        lemma_split_on(s.drop_last(), c);
    }
}

/// The parts of `s` between the occurrences of `c`.
pub fn split_chars(s: &[char], c: char) -> (parts: Vec<Vec<char>>)
    ensures
        parts@.len() == split_on(s@, c).len(),
        forall|k: int| 0 <= k < parts@.len() ==> #[trigger] parts@[k]@ == split_on(s@, c)[k],
{
    let mut parts: Vec<Vec<char>> = Vec::new();
    let mut cur: Vec<char> = Vec::new();
    let mut i: usize = 0;
    proof { lemma_split_on(s@.subrange(0, 0), c); }
    assert(s@.subrange(0, 0) =~= Seq::<char>::empty());
    while i < s.len()
        invariant
            0 <= i <= s@.len(),
            parts@.len() + 1 == split_on(s@.subrange(0, i as int), c).len(),
            forall|k: int| 0 <= k < parts@.len() ==> #[trigger] parts@[k]@ == split_on(
                s@.subrange(0, i as int),
                c,
            )[k],
            cur@ == split_on(s@.subrange(0, i as int), c).last(),
        decreases s.len() - i,
    {
        let ghost prev = split_on(s@.subrange(0, i as int), c);
        proof { lemma_split_on(s@.subrange(0, i as int), c); }
        assert(s@.subrange(0, i + 1).drop_last() =~= s@.subrange(0, i as int));
        if s[i] == c {
            parts.push(cur);
            cur = Vec::new();
        } else {
            cur.push(s[i]);
        }
        i = i + 1;
    }
    assert(s@.subrange(0, i as int) =~= s@);
    parts.push(cur);
    parts
}

// ---------------------------------------------------------------------------
// Decimal numbers and lists
// ---------------------------------------------------------------------------

/// The digit character of `d` (below ten).
pub open spec fn digit_char(d: int) -> char {
    if d == 0 { '0' }
    else if d == 1 { '1' }
    else if d == 2 { '2' }
    else if d == 3 { '3' }
    else if d == 4 { '4' }
    else if d == 5 { '5' }
    else if d == 6 { '6' }
    else if d == 7 { '7' }
    else if d == 8 { '8' }
    else { '9' }
}

/// The decimal digits of `n`, without leading zeros (`0` for zero).
pub open spec fn nat_digits(n: nat) -> Seq<char>
    decreases n,
{
    if n < 10 {
        seq![digit_char(n as int)]
    } else {
        nat_digits(n / 10).push(digit_char((n % 10) as int))
    }
}

/// The decimal text of `i`, with a `-` before a negative number.
pub open spec fn int_text(i: int) -> Seq<char> {
    if i < 0 {
        seq!['-'] + nat_digits((-i) as nat)
    } else {
        nat_digits(i as nat)
    }
}

/// The parts joined, with `sep` between each two.
pub open spec fn join_with(parts: Seq<Seq<char>>, sep: Seq<char>) -> Seq<char>
    decreases parts.len(),
{
    if parts.len() == 0 {
        Seq::empty()
    } else if parts.len() == 1 {
        parts[0]
    } else {
        join_with(parts.drop_last(), sep) + sep + parts.last()
    }
}

/// The numbers in decimal, separated by commas.
pub open spec fn int_list_text(v: Seq<i64>) -> Seq<char> {
    join_with(v.map_values(|x: i64| int_text(x as int)), seq![','])
}

fn digit_of(d: u64) -> (c: char)
    requires
        d < 10,
    ensures
        c == digit_char(d as int),
{
    if d == 0 { '0' }
    else if d == 1 { '1' }
    else if d == 2 { '2' }
    else if d == 3 { '3' }
    else if d == 4 { '4' }
    else if d == 5 { '5' }
    else if d == 6 { '6' }
    else if d == 7 { '7' }
    else if d == 8 { '8' }
    else { '9' }
}

/// Appends the decimal digits of `n` to `out`.
pub fn push_digits(out: &mut Vec<char>, n: u64)
    ensures
        final(out)@ == old(out)@ + nat_digits(n as nat),
    decreases n,
{
    if n >= 10 {
        push_digits(out, n / 10);
    }
    out.push(digit_of(n % 10));
}

/// Appends the decimal text of `v` to `out`.
pub fn push_int(out: &mut Vec<char>, v: i64)
    ensures
        final(out)@ == old(out)@ + int_text(v as int),
{
    if v < 0 {
        out.push('-');
        let m: u64 = if v == i64::MIN {
            9223372036854775808u64
        } else {
            (-v) as u64
        };
        push_digits(out, m);
        assert(old(out)@.push('-') + nat_digits(m as nat) =~= old(out)@ + (seq!['-'] + nat_digits(m as nat)));
    } else {
        push_digits(out, v as u64);
    }
}

/// The decimal text of `v`.
pub fn int_string(v: i64) -> (s: String)
    ensures
        s@ == int_text(v as int),
{
    let mut out: Vec<char> = Vec::new();
    push_int(&mut out, v);
    string_from_chars(out)
}

/// Appends the numbers of `v` in decimal, separated by commas, to `out`.
pub fn push_int_list(out: &mut Vec<char>, v: &[i64])
    ensures
        final(out)@ == old(out)@ + int_list_text(v@),
{
    let ghost texts = v@.map_values(|x: i64| int_text(x as int));
    let mut i: usize = 0;
    while i < v.len()
        invariant
            0 <= i <= v@.len(),
            texts == v@.map_values(|x: i64| int_text(x as int)),
            out@ == old(out)@ + join_with(texts.subrange(0, i as int), seq![',']),
        decreases v.len() - i,
    {
        let ghost before = out@;
        if i > 0 {
            out.push(',');
        }
        push_int(out, v[i]);
        proof {
            let pre = texts.subrange(0, i as int);
            let cur = texts.subrange(0, i + 1);
            assert(cur.drop_last() =~= pre);
            assert(cur.last() == int_text(v@[i as int] as int));
            if i == 0 {
                assert(out@ =~= old(out)@ + join_with(cur, seq![',']));
            } else {
                assert(out@ =~= old(out)@ + join_with(cur, seq![',']));
            }
        }
        i = i + 1;
    }
    assert(texts.subrange(0, v@.len() as int) =~= texts);
}

// ---------------------------------------------------------------------------
// Outside character classes and encodings
// ---------------------------------------------------------------------------

/// Whether `c` is alphabetic or numeric in the Unicode sense.
pub uninterp spec fn unicode_alphanumeric(c: char) -> bool;

/// Whether `c` is an ASCII letter or digit.
pub open spec fn ascii_alphanumeric(c: char) -> bool {
    ('a' <= c <= 'z') || ('A' <= c <= 'Z') || ('0' <= c <= '9')
}

/// Whether `c` is alphabetic or numeric (`char::is_alphanumeric`, after the Unicode
/// `Alphabetic` and `Numeric` properties). Claimed of std: the answer depends on `c` alone,
/// and among ASCII characters it is yes exactly for the letters and the digits (the only
/// ASCII characters with either property). Outside ASCII the answer is left to the name.
#[verifier::external_body]
pub fn is_alphanumeric(c: char) -> (r: bool)
    ensures
        r == unicode_alphanumeric(c),
        (c as u32) < 128 ==> (r <==> ascii_alphanumeric(c)),
{
    c.is_alphanumeric()
}

/// The URL-safe Base64 text of `data`, padded.
pub uninterp spec fn url_safe_base64(data: Seq<u8>) -> Seq<char>;

/// The URL-safe Base64 text of `data` (`base64::prelude::BASE64_URL_SAFE.encode`).
/// Claimed of the `base64` crate: the text depends on the bytes alone.
#[verifier::external_body]
pub fn base64_url_safe(data: &[u8]) -> (r: String)
    ensures
        r@ == url_safe_base64(data@),
{
    base64::Engine::encode(&base64::prelude::BASE64_URL_SAFE, data)
}

/// The bytes that a standard Base64 text stands for; `None` where it is no canonical,
/// padded standard Base64 text.
pub uninterp spec fn standard_base64_decoded(text: Seq<char>) -> Option<Seq<u8>>;

/// The standard Base64 text of `data`, padded.
pub uninterp spec fn standard_base64(data: Seq<u8>) -> Seq<char>;

/// The bytes of a standard Base64 text (`base64::prelude::BASE64_STANDARD.decode`): `None`
/// where the crate refuses the text. Claimed of the `base64` crate: the answer depends on
/// the text alone.
#[verifier::external_body]
pub fn base64_standard_decode(text: &str) -> (r: Option<Vec<u8>>)
    ensures
        match r {
            Some(b) => standard_base64_decoded(text@) == Some(b@),
            None => standard_base64_decoded(text@) is None,
        },
{
    match base64::Engine::decode(&base64::prelude::BASE64_STANDARD, text) {
        Ok(b) => Some(b),
        Err(_) => None,
    }
}

/// The standard Base64 text of `data` (`base64::prelude::BASE64_STANDARD.encode`).
/// Claimed of the `base64` crate: the text depends on the bytes alone, and decoding it with
/// the same engine gives the bytes back (the encoder writes canonical padding and zero
/// trailing bits, which is what this engine's decoder requires).
#[verifier::external_body]
pub fn base64_standard(data: &[u8]) -> (r: String)
    ensures
        r@ == standard_base64(data@),
        standard_base64_decoded(r@) == Some(data@),
{
    base64::Engine::encode(&base64::prelude::BASE64_STANDARD, data)
}

/// The lower-case hexadecimal digit of `n`, below 16.
pub open spec fn hex_digit(n: int) -> char {
    seq!['0', '1', '2', '3', '4', '5', '6', '7', '8', '9', 'a', 'b', 'c', 'd', 'e', 'f'][n]
}

/// The bytes of `b` in lower-case hexadecimal, two digits each.
pub open spec fn hex_bytes(b: Seq<u8>) -> Seq<char>
    decreases b.len(),
{
    if b.len() == 0 {
        Seq::empty()
    } else {
        hex_bytes(b.drop_last()) + seq![hex_digit((b.last() / 16) as int), hex_digit((b.last() % 16) as int)]
    }
}

/// The text of the UUID made of the 16 bytes `b`: lower-case hexadecimal in groups of 4, 2,
/// 2, 2 and 6 bytes, joined by hyphens (`xxxxxxxx-xxxx-xxxx-xxxx-xxxxxxxxxxxx`).
pub open spec fn uuid_text(b: Seq<u8>) -> Seq<char> {
    hex_bytes(b.subrange(0, 4)) + seq!['-'] + hex_bytes(b.subrange(4, 6)) + seq!['-'] + hex_bytes(
        b.subrange(6, 8),
    ) + seq!['-'] + hex_bytes(b.subrange(8, 10)) + seq!['-'] + hex_bytes(b.subrange(10, 16))
}

/// The text of the UUID made of `bytes` (`uuid::Uuid::from_slice`, then its `Display`, which
/// writes the hyphenated lower-case form): `None` where `bytes` are not 16, which
/// `from_slice` refuses. Claimed of the `uuid` crate: exactly that.
#[verifier::external_body]
pub fn uuid_text_of(bytes: &[u8]) -> (r: Option<String>)
    ensures
        r is Some <==> bytes@.len() == 16,
        r matches Some(t) ==> t@ == uuid_text(bytes@),
{
    match uuid::Uuid::from_slice(bytes) {
        Ok(u) => Some(u.to_string()),
        Err(_) => None,
    }
}

// ---------------------------------------------------------------------------
// Reading decimal numbers
// ---------------------------------------------------------------------------

/// Whether `s` is a non-empty run of ASCII digits.
pub open spec fn is_ascii_digits(s: Seq<char>) -> bool {
    s.len() > 0 && forall|k: int| 0 <= k < s.len() ==> '0' <= #[trigger] s[k] <= '9'
}

/// The value of a run of ASCII digits.
pub open spec fn digits_value(s: Seq<char>) -> int
    decreases s.len(),
{
    if s.len() == 0 {
        0
    } else {
        digits_value(s.drop_last()) * 10 + (s.last() as int - '0' as int)
    }
}

/// The `i64` that a run of ASCII digits reads as (`str::parse::<i64>` on such a run):
/// `None` for anything else and for a value past `i64::MAX`.
pub open spec fn parse_i64(s: Seq<char>) -> Option<i64> {
    if is_ascii_digits(s) && digits_value(s) <= i64::MAX {
        Some(digits_value(s) as i64)
    } else {
        None
    }
}

/// A longer run of digits reads as at least as much as its prefix.
pub proof fn lemma_digits_value_grows(s: Seq<char>, i: int)
    requires
        0 <= i <= s.len(),
        forall|k: int| 0 <= k < s.len() ==> '0' <= #[trigger] s[k] <= '9',
    ensures
        digits_value(s.subrange(0, i)) <= digits_value(s),
        digits_value(s) >= 0,
    decreases s.len(),
{
    if s.len() > 0 {
        assert forall|k: int| 0 <= k < s.drop_last().len() implies '0' <= #[trigger] s.drop_last()[k] <= '9' by {
            assert(s.drop_last()[k] == s[k]);
        }
        if i == s.len() {
            assert(s.subrange(0, i) =~= s);
            lemma_digits_value_grows(s.drop_last(), 0);
        } else {
            lemma_digits_value_grows(s.drop_last(), i);
            assert(s.drop_last().subrange(0, i) =~= s.subrange(0, i));
        }
    } else {
        assert(s.subrange(0, i) =~= s);
    }
}

/// The `i64` that `s[from..to]` reads as (see [`parse_i64`]).
pub fn parse_i64_range(s: &[char], from: usize, to: usize) -> (r: Option<i64>)
    requires
        from <= to <= s@.len(),
    ensures
        r == parse_i64(s@.subrange(from as int, to as int)),
{
    let ghost t = s@.subrange(from as int, to as int);
    if from == to {
        return None;
    }
    let mut k: usize = from;
    while k < to
        invariant
            from <= k <= to <= s@.len(),
            t == s@.subrange(from as int, to as int),
            forall|j: int| 0 <= j < k - from ==> '0' <= #[trigger] t[j] <= '9',
        decreases to - k,
    {
        assert(t[k - from] == s@[k as int]);
        if !('0' <= s[k] && s[k] <= '9') {
            return None;
        }
        k = k + 1;
    }
    let mut acc: i64 = 0;
    let mut i: usize = from;
    assert(t.subrange(0, 0) =~= Seq::<char>::empty());
    while i < to
        invariant
            from <= i <= to <= s@.len(),
            t == s@.subrange(from as int, to as int),
            forall|j: int| 0 <= j < t.len() ==> '0' <= #[trigger] t[j] <= '9',
            acc == digits_value(t.subrange(0, i - from)),
            0 <= acc,
        decreases to - i,
    {
        let ghost pre = t.subrange(0, i - from + 1);
        assert(pre.drop_last() =~= t.subrange(0, i - from));
        assert(pre.last() == s@[i as int]);
        let d = (s[i] as u32 - '0' as u32) as i64;
        proof {
            lemma_digits_value_grows(t, i - from + 1);
        }
        match acc.checked_mul(10) {
            Some(m) => match m.checked_add(d) {
                Some(v) => {
                    acc = v;
                },
                None => {
                    return None;
                },
            },
            None => {
                return None;
            },
        }
        i = i + 1;
    }
    assert(t.subrange(0, t.len() as int) =~= t);
    Some(acc)
}

/// Whether `c` is white space in the Unicode sense: the `White_Space` property of the Unicode
/// Character Database (`PropList.txt`), which holds of these 25 code points: U+0009 to U+000D,
/// U+0020, U+0085, U+00A0, U+1680, U+2000 to U+200A, U+2028, U+2029, U+202F, U+205F and
/// U+3000.
pub open spec fn unicode_whitespace(c: char) -> bool {
    let v = c as u32;
    ||| 0x09 <= v <= 0x0D
    ||| v == 0x20
    ||| v == 0x85
    ||| v == 0xA0
    ||| v == 0x1680
    ||| 0x2000 <= v <= 0x200A
    ||| v == 0x2028
    ||| v == 0x2029
    ||| v == 0x202F
    ||| v == 0x205F
    ||| v == 0x3000
}

/// Whether `c` is white space: whether it has the Unicode `White_Space` property, as
/// [`unicode_whitespace`] lists it (what `char::is_whitespace` answers).
pub fn is_whitespace(c: char) -> (r: bool)
    ensures
        r == unicode_whitespace(c),
{
    let v: u32 = c as u32;
    (0x09 <= v && v <= 0x0D) || v == 0x20 || v == 0x85 || v == 0xA0 || v == 0x1680 || (0x2000 <= v
        && v <= 0x200A) || v == 0x2028 || v == 0x2029 || v == 0x202F || v == 0x205F || v == 0x3000
}

/// `s` without its leading white space.
pub open spec fn trim_start(s: Seq<char>) -> Seq<char>
    decreases s.len(),
{
    if s.len() > 0 && unicode_whitespace(s[0]) {
        trim_start(s.drop_first())
    } else {
        s
    }
}

/// `s` without its trailing white space.
pub open spec fn trim_end(s: Seq<char>) -> Seq<char>
    decreases s.len(),
{
    if s.len() > 0 && unicode_whitespace(s.last()) {
        trim_end(s.drop_last())
    } else {
        s
    }
}

/// `s` without leading or trailing white space (`str::trim`).
pub open spec fn trim(s: Seq<char>) -> Seq<char> {
    trim_end(trim_start(s))
}

/// The part of `s[from..to]` left by trimming, as a range.
pub fn trim_range(s: &[char], from: usize, to: usize) -> (r: (usize, usize))
    requires
        from <= to <= s@.len(),
    ensures
        from <= r.0 <= r.1 <= to,
        s@.subrange(r.0 as int, r.1 as int) == trim(s@.subrange(from as int, to as int)),
{
    let mut a: usize = from;
    while a < to && is_whitespace(s[a])
        invariant
            from <= a <= to <= s@.len(),
            trim_start(s@.subrange(from as int, to as int)) == trim_start(s@.subrange(a as int, to as int)),
        decreases to - a,
    {
        let ghost cur = s@.subrange(a as int, to as int);
        assert(cur.drop_first() =~= s@.subrange(a + 1, to as int));
        a = a + 1;
    }
    let mut b: usize = to;
    assert(s@.subrange(a as int, b as int) == trim_start(s@.subrange(from as int, to as int)));
    while b > a && is_whitespace(s[b - 1])
        invariant
            from <= a <= b <= to <= s@.len(),
            trim(s@.subrange(from as int, to as int)) == trim_end(s@.subrange(a as int, b as int)),
        decreases b - a,
    {
        let ghost cur = s@.subrange(a as int, b as int);
        assert(cur.drop_last() =~= s@.subrange(a as int, b - 1));
        b = b - 1;
    }
    (a, b)
}

// ---------------------------------------------------------------------------
// Facts of splitting, joining and trimming
// ---------------------------------------------------------------------------

/// Appending text without the separator extends the last part.
pub proof fn lemma_split_append_plain(a: Seq<char>, b: Seq<char>, c: char)
    requires
        !b.contains(c),
    ensures
        split_on(a + b, c) == split_on(a, c).update(
            split_on(a, c).len() - 1,
            split_on(a, c).last() + b,
        ),
    decreases b.len(),
{
    lemma_split_on(a, c);
    if b.len() == 0 {
        assert(a + b =~= a);
        assert(split_on(a, c).last() + b =~= split_on(a, c).last());
        assert(split_on(a, c).update(split_on(a, c).len() - 1, split_on(a, c).last()) =~= split_on(a, c));
    } else {
        let b2 = b.drop_last();
        assert(!b2.contains(c)) by {
            if b2.contains(c) {
                let j = choose|j: int| 0 <= j < b2.len() && b2[j] == c;
                assert(b[j] == c);
            }
        }
        assert(b.last() != c) by {
            assert(b.contains(b.last()));
        }
        lemma_split_append_plain(a, b2, c);
        assert((a + b).drop_last() =~= a + b2);
        assert((a + b).last() == b.last());
        let prev = split_on(a + b2, c);
        lemma_split_on(a + b2, c);
        assert(split_on(a + b, c) == prev.update(prev.len() - 1, prev.last().push(b.last())));
        let sa = split_on(a, c);
        assert(prev.len() == sa.len());
        assert(prev.last() == sa.last() + b2);
        assert((sa.last() + b2).push(b.last()) =~= sa.last() + b);
        assert(split_on(a + b, c) =~= split_on(a, c).update(
            split_on(a, c).len() - 1,
            split_on(a, c).last() + b,
        ));
    }
}

/// Splitting joined parts that hold no separator gives the parts back.
pub proof fn lemma_split_join(parts: Seq<Seq<char>>, c: char)
    requires
        parts.len() > 0,
        forall|k: int| 0 <= k < parts.len() ==> !(#[trigger] parts[k]).contains(c),
    ensures
        split_on(join_with(parts, seq![c]), c) == parts,
    decreases parts.len(),
{
    if parts.len() == 1 {
        lemma_split_append_plain(Seq::empty(), parts[0], c);
        assert(Seq::<char>::empty() + parts[0] =~= parts[0]);
        assert(split_on(Seq::<char>::empty(), c).update(0, Seq::<char>::empty() + parts[0]) =~= parts);
    } else {
        let init = parts.drop_last();
        assert forall|k: int| 0 <= k < init.len() implies !(#[trigger] init[k]).contains(c) by {
            assert(init[k] == parts[k]);
        }
        lemma_split_join(init, c);
        let a = join_with(init, seq![c]) + seq![c];
        assert(split_on(a, c) == split_on(join_with(init, seq![c]), c).push(Seq::empty())) by {
            assert(a.drop_last() =~= join_with(init, seq![c]));
        }
        lemma_split_append_plain(a, parts.last(), c);
        assert(a + parts.last() == join_with(parts, seq![c]));
        assert(Seq::<char>::empty() + parts.last() =~= parts.last());
        assert(init.push(Seq::empty()).update(init.len() as int, parts.last()) =~= parts);
    }
}

/// The parts of a split hold no separator.
pub proof fn lemma_split_parts_plain(s: Seq<char>, c: char)
    ensures
        forall|k: int| 0 <= k < split_on(s, c).len() ==> !(#[trigger] split_on(s, c)[k]).contains(c),
    decreases s.len(),
{
    if s.len() > 0 {
        lemma_split_parts_plain(s.drop_last(), c);
        lemma_split_on(s.drop_last(), c);
        let prev = split_on(s.drop_last(), c);
        if s.last() != c {
            assert forall|k: int| 0 <= k < split_on(s, c).len() implies !(#[trigger] split_on(s, c)[k]).contains(c) by {
                if k == prev.len() - 1 {
                    let p = prev.last().push(s.last());
                    assert(split_on(s, c)[k] == p);
                    if p.contains(c) {
                        let j = choose|j: int| 0 <= j < p.len() && p[j] == c;
                        if j < prev.last().len() {
                            assert(prev.last()[j] == c);
                            assert(prev[prev.len() - 1].contains(c));
                        }
                    }
                } else {
                    assert(split_on(s, c)[k] == prev[k]);
                }
            }
        } else {
            assert forall|k: int| 0 <= k < split_on(s, c).len() implies !(#[trigger] split_on(s, c)[k]).contains(c) by {
                if k < prev.len() {
                    assert(split_on(s, c)[k] == prev[k]);
                }
            }
        }
    }
}

/// Trimming the start leaves a suffix that is empty or starts with no white space.
pub proof fn lemma_trim_start_suffix(s: Seq<char>)
    ensures
        exists|i: int| 0 <= i <= s.len() && trim_start(s) == s.subrange(i, s.len() as int),
        trim_start(s).len() > 0 ==> !unicode_whitespace(trim_start(s)[0]),
    decreases s.len(),
{
    if s.len() > 0 && unicode_whitespace(s[0]) {
        lemma_trim_start_suffix(s.drop_first());
        let i = choose|i: int| 0 <= i <= s.drop_first().len() && trim_start(s.drop_first()) == s.drop_first().subrange(i, s.drop_first().len() as int);
        assert(s.drop_first().subrange(i, s.drop_first().len() as int) =~= s.subrange(i + 1, s.len() as int));
    } else {
        assert(s.subrange(0, s.len() as int) =~= s);
    }
}

/// Trimming the end leaves a prefix that is empty or ends with no white space.
pub proof fn lemma_trim_end_prefix(s: Seq<char>)
    ensures
        exists|m: int| 0 <= m <= s.len() && trim_end(s) == s.subrange(0, m),
        trim_end(s).len() > 0 ==> !unicode_whitespace(trim_end(s).last()),
    decreases s.len(),
{
    if s.len() > 0 && unicode_whitespace(s.last()) {
        lemma_trim_end_prefix(s.drop_last());
        let m = choose|m: int| 0 <= m <= s.drop_last().len() && trim_end(s.drop_last()) == s.drop_last().subrange(0, m);
        assert(s.drop_last().subrange(0, m) =~= s.subrange(0, m));
    } else {
        assert(s.subrange(0, s.len() as int) =~= s);
    }
}

/// A trimmed text is a piece of the text, neither starting nor ending with white space, and
/// trimming it again changes nothing.
pub proof fn lemma_trim_facts(s: Seq<char>)
    ensures
        exists|i: int, m: int| 0 <= i <= m <= s.len() && trim(s) == s.subrange(i, m),
        trim(trim(s)) == trim(s),
{
    lemma_trim_start_suffix(s);
    let u = trim_start(s);
    let i = choose|i: int| 0 <= i <= s.len() && trim_start(s) == s.subrange(i, s.len() as int);
    lemma_trim_end_prefix(u);
    let m = choose|m: int| 0 <= m <= u.len() && trim_end(u) == u.subrange(0, m);
    let t = trim(s);
    assert(t == u.subrange(0, m));
    assert(u.subrange(0, m) =~= s.subrange(i, i + m));
    if t.len() > 0 {
        assert(t[0] == u[0]);
        assert(trim_start(t) == t);
        assert(!unicode_whitespace(t.last()));
        assert(trim_end(t) == t);
    } else {
        assert(trim_start(t) == t);
        assert(trim_end(t) == t);
    }
}

} // verus!
