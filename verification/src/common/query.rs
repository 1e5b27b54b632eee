//! SQL queries assembled at run time with `sqlx::QueryBuilder`: fixed fragments of SQL,
//! and a `?` placeholder for every value, which is bound to it apart from the text.
use sqlx::{QueryBuilder, Sqlite};
use vstd::prelude::*;

verus! {

/// A query being assembled: a `sqlx::QueryBuilder` for SQLite that only this module
/// adds to. Verus sees it through [`query_sql`], [`query_args`] and [`query_open`].
#[verifier::external_body]
pub struct SqlQuery {
    pub builder: QueryBuilder<'static, Sqlite>,
}

/// A value bound to a placeholder.
pub enum SqlArg {
    Int(i64),
    Text(Seq<char>),
    Blob(Seq<u8>),
}

/// The SQL text a builder holds so far.
pub uninterp spec fn query_sql(q: SqlQuery) -> Seq<char>;

/// The values a builder has bound so far, in order.
pub uninterp spec fn query_args(q: SqlQuery) -> Seq<SqlArg>;

/// Whether a builder may still be added to (it has not been turned into a query yet).
pub uninterp spec fn query_open(q: SqlQuery) -> bool;

/// A builder holding the SQL text `init` and no values (`QueryBuilder::new`).
#[verifier::external_body]
pub fn query_new(init: &str) -> (q: SqlQuery)
    ensures
        query_sql(q) == init@,
        query_args(q) == Seq::<SqlArg>::empty(),
        query_open(q),
{
    SqlQuery { builder: QueryBuilder::new(init) }
}

/// Appends a fragment of SQL text (`QueryBuilder::push`, which writes it as it is).
#[verifier::external_body]
pub fn query_push(q: &mut SqlQuery, sql: &str)
    requires
        query_open(*old(q)),
    ensures
        query_sql(*final(q)) == query_sql(*old(q)) + sql@,
        query_args(*final(q)) == query_args(*old(q)),
        query_open(*final(q)),
{
    q.builder.push(sql);
}

/// Appends a placeholder and binds an integer to it (`QueryBuilder::push_bind`; SQLite's
/// placeholder is `?`).
#[verifier::external_body]
pub fn query_bind_int(q: &mut SqlQuery, v: i64)
    requires
        query_open(*old(q)),
    ensures
        query_sql(*final(q)) == query_sql(*old(q)) + "?"@,
        query_args(*final(q)) == query_args(*old(q)).push(SqlArg::Int(v)),
        query_open(*final(q)),
{
    q.builder.push_bind(v);
}

/// Appends a placeholder and binds a text to it (`QueryBuilder::push_bind`).
#[verifier::external_body]
pub fn query_bind_text(q: &mut SqlQuery, v: String)
    requires
        query_open(*old(q)),
    ensures
        query_sql(*final(q)) == query_sql(*old(q)) + "?"@,
        query_args(*final(q)) == query_args(*old(q)).push(SqlArg::Text(v@)),
        query_open(*final(q)),
{
    q.builder.push_bind(v);
}

/// Appends a placeholder and binds bytes to it (`QueryBuilder::push_bind`).
#[verifier::external_body]
pub fn query_bind_blob(q: &mut SqlQuery, v: Vec<u8>)
    requires
        query_open(*old(q)),
    ensures
        query_sql(*final(q)) == query_sql(*old(q)) + "?"@,
        query_args(*final(q)) == query_args(*old(q)).push(SqlArg::Blob(v@)),
        query_open(*final(q)),
{
    q.builder.push_bind(v);
}

/// The SQL text a builder holds (`QueryBuilder::sql`).
#[verifier::external_body]
pub fn query_text<'a>(q: &'a SqlQuery) -> (r: &'a str)
    ensures
        r@ == query_sql(*q),
{
    q.builder.sql()
}

/// `n` placeholders separated by commas.
pub open spec fn marks(n: nat) -> Seq<char>
    decreases n,
{
    if n == 0 {
        Seq::empty()
    } else if n == 1 {
        "?"@
    } else {
        marks((n - 1) as nat) + ","@ + "?"@
    }
}

/// The number of `?` placeholders in a text of SQL.
pub open spec fn mark_count(s: Seq<char>) -> nat
    decreases s.len(),
{
    if s.len() == 0 {
        0
    } else {
        mark_count(s.drop_last()) + if s.last() == '?' {
            1nat
        } else {
            0nat
        }
    }
}

/// Placeholders add up over a concatenation.
pub proof fn lemma_mark_count_add(a: Seq<char>, b: Seq<char>)
    ensures
        mark_count(a + b) == mark_count(a) + mark_count(b),
    decreases b.len(),
{
    if b.len() > 0 {
        assert((a + b).drop_last() =~= a + b.drop_last());
        lemma_mark_count_add(a, b.drop_last());
    } else {
        assert(a + b =~= a);
    }
}

/// A text without a `?` holds no placeholder.
pub proof fn lemma_mark_count_none(s: Seq<char>)
    requires
        forall|i: int| 0 <= i < s.len() ==> s[i] != '?',
    ensures
        mark_count(s) == 0,
    decreases s.len(),
{
    if s.len() > 0 {
        lemma_mark_count_none(s.drop_last());
    }
}

/// `n` placeholders separated by commas are `n` placeholders.
pub proof fn lemma_marks_count(n: nat)
    ensures
        mark_count(marks(n)) == n,
    decreases n,
{
    reveal_strlit("?");
    reveal_strlit(",");
    if n == 1 {
        assert(mark_count("?"@.drop_last()) == 0);
    } else if n > 1 {
        lemma_marks_count((n - 1) as nat);
        lemma_mark_count_add(marks((n - 1) as nat) + ","@, "?"@);
        lemma_mark_count_add(marks((n - 1) as nat), ","@);
        assert(mark_count(","@.drop_last()) == 0);
        assert(mark_count("?"@.drop_last()) == 0);
    }
}

/// Integers as bound values.
pub open spec fn int_args(v: Seq<i64>) -> Seq<SqlArg> {
    v.map_values(|x: i64| SqlArg::Int(x))
}

/// Texts as bound values.
pub open spec fn text_args(v: Seq<String>) -> Seq<SqlArg> {
    v.map_values(|s: String| SqlArg::Text(s@))
}

/// Appends a comma-separated placeholder for each integer of `v`, each bound to it
/// (as a list built with `QueryBuilder::separated(',')`).
pub fn query_bind_ints(q: &mut SqlQuery, v: &[i64])
    requires
        query_open(*old(q)),
    ensures
        query_sql(*final(q)) == query_sql(*old(q)) + marks(v@.len()),
        query_args(*final(q)) == query_args(*old(q)) + int_args(v@),
        query_open(*final(q)),
{
    let mut i: usize = 0;
    while i < v.len()
        invariant
            0 <= i <= v@.len(),
            query_open(*q),
            query_sql(*q) == query_sql(*old(q)) + marks(i as nat),
            query_args(*q) == query_args(*old(q)) + int_args(v@.subrange(0, i as int)),
        decreases v.len() - i,
    {
        if i > 0 {
            query_push(q, ",");
        }
        query_bind_int(q, v[i]);
        proof {
            assert(int_args(v@.subrange(0, i + 1)) =~= int_args(v@.subrange(0, i as int)).push(
                SqlArg::Int(v@[i as int]),
            ));
        }
        i = i + 1;
        assert(query_sql(*q) =~= query_sql(*old(q)) + marks(i as nat));
        assert(query_args(*q) =~= query_args(*old(q)) + int_args(v@.subrange(0, i as int)));
    }
    assert(v@.subrange(0, v@.len() as int) =~= v@);
}

/// Appends a comma-separated placeholder for each text of `v`, each bound to it.
pub fn query_bind_texts(q: &mut SqlQuery, v: &Vec<String>)
    requires
        query_open(*old(q)),
    ensures
        query_sql(*final(q)) == query_sql(*old(q)) + marks(v@.len()),
        query_args(*final(q)) == query_args(*old(q)) + text_args(v@),
        query_open(*final(q)),
{
    let mut i: usize = 0;
    while i < v.len()
        invariant
            0 <= i <= v@.len(),
            query_open(*q),
            query_sql(*q) == query_sql(*old(q)) + marks(i as nat),
            query_args(*q) == query_args(*old(q)) + text_args(v@.subrange(0, i as int)),
        decreases v.len() - i,
    {
        if i > 0 {
            query_push(q, ",");
        }
        let s = v[i].clone();
        query_bind_text(q, s);
        proof {
            assert(text_args(v@.subrange(0, i + 1)) =~= text_args(v@.subrange(0, i as int)).push(
                SqlArg::Text(v@[i as int]@),
            ));
        }
        i = i + 1;
        assert(query_sql(*q) =~= query_sql(*old(q)) + marks(i as nat));
        assert(query_args(*q) =~= query_args(*old(q)) + text_args(v@.subrange(0, i as int)));
    }
    assert(v@.subrange(0, v@.len() as int) =~= v@);
}

/// Byte strings as bound values.
pub open spec fn blob_args(v: Seq<[u8; 16]>) -> Seq<SqlArg> {
    v.map_values(|b: [u8; 16]| SqlArg::Blob(b@))
}

/// The bytes of an identifier, as a vector.
pub fn id_bytes(b: &[u8; 16]) -> (r: Vec<u8>)
    ensures
        r@ == b@,
{
    let mut r: Vec<u8> = Vec::new();
    let mut i: usize = 0;
    while i < 16
        invariant
            0 <= i <= 16,
            b@.len() == 16,
            r@ == b@.subrange(0, i as int),
        decreases 16 - i,
    {
        r.push(b[i]);
        i = i + 1;
        assert(r@ =~= b@.subrange(0, i as int));
    }
    assert(b@.subrange(0, 16) =~= b@);
    r
}

/// Appends a comma-separated placeholder for each identifier of `v`, each bound to its bytes.
pub fn query_bind_ids(q: &mut SqlQuery, v: &[[u8; 16]])
    requires
        query_open(*old(q)),
    ensures
        query_sql(*final(q)) == query_sql(*old(q)) + marks(v@.len()),
        query_args(*final(q)) == query_args(*old(q)) + blob_args(v@),
        query_open(*final(q)),
{
    let mut i: usize = 0;
    while i < v.len()
        invariant
            0 <= i <= v@.len(),
            query_open(*q),
            query_sql(*q) == query_sql(*old(q)) + marks(i as nat),
            query_args(*q) == query_args(*old(q)) + blob_args(v@.subrange(0, i as int)),
        decreases v.len() - i,
    {
        if i > 0 {
            query_push(q, ",");
        }
        let b = id_bytes(&v[i]);
        query_bind_blob(q, b);
        proof {
            assert(blob_args(v@.subrange(0, i + 1)) =~= blob_args(v@.subrange(0, i as int)).push(
                SqlArg::Blob(v@[i as int]@),
            ));
        }
        i = i + 1;
        assert(query_sql(*q) =~= query_sql(*old(q)) + marks(i as nat));
        assert(query_args(*q) =~= query_args(*old(q)) + blob_args(v@.subrange(0, i as int)));
    }
    assert(v@.subrange(0, v@.len() as int) =~= v@);
}

} // verus!
