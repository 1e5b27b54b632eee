//! The settings of a portal user.
use vstd::prelude::*;

use crate::common::query::{
    lemma_mark_count_add, lemma_mark_count_none, lemma_marks_count, mark_count, query_args, query_bind_blob, query_bind_text, query_new, query_open, query_push, query_sql, SqlArg,
    SqlQuery,
};
use crate::ondyst::domain::home::{
    assign_args, assign_sql, columns_free, lemma_assign_marks, lemma_columns_free_add, opt_pair,
};

verus! {

/// A change of a user's settings: the fields given are changed.
pub struct Settings {
    pub profile: Option<String>,
    pub webhook: Option<String>,
}

/// The columns a change sets, with their values.
pub open spec fn settings_pairs(v: Settings) -> Seq<(Seq<char>, Seq<char>)> {
    opt_pair("profile="@, v.profile) + opt_pair("webhook="@, v.webhook)
}

/// The update of the user `id`; `None` when the change gives no field, and nothing changes.
pub fn settings_update(info: &Settings, id: &[u8]) -> (r: Option<SqlQuery>)
    ensures
        r is None <==> (info.profile is None && info.webhook is None),
        r matches Some(q) ==> query_open(q) && query_sql(q) == "UPDATE user SET "@ + assign_sql(
            settings_pairs(*info),
        ) + " WHERE id="@ + "?"@ && query_args(q) == assign_args(settings_pairs(*info)).push(
            SqlArg::Blob(id@),
        ),
{
    if info.profile.is_none() && info.webhook.is_none() {
        return None;
    }
    let mut q = query_new("UPDATE user SET ");
    let ghost mut pairs: Seq<(Seq<char>, Seq<char>)> = Seq::empty();
    if let Some(v) = &info.profile {
        query_push(&mut q, "profile=");
        query_bind_text(&mut q, v.clone());
        proof { pairs = pairs.push(("profile="@, v@)); }
        assert(query_sql(q) =~= "UPDATE user SET "@ + assign_sql(pairs));
    }
    assert(pairs =~= opt_pair("profile="@, info.profile));
    if let Some(v) = &info.webhook {
        let ghost np = pairs.push(("webhook="@, v@));
        if info.profile.is_some() {
            query_push(&mut q, ",");
        }
        query_push(&mut q, "webhook=");
        query_bind_text(&mut q, v.clone());
        assert(np.drop_last() =~= pairs);
        proof { pairs = np; }
        assert(query_sql(q) =~= "UPDATE user SET "@ + assign_sql(pairs));
    }
    assert(pairs =~= settings_pairs(*info));
    assert(query_args(q) =~= assign_args(pairs));
    query_push(&mut q, " WHERE id=");
    let mut idv: Vec<u8> = Vec::new();
    let mut i: usize = 0;
    while i < id.len()
        invariant
            0 <= i <= id@.len(),
            idv@ == id@.subrange(0, i as int),
        decreases id.len() - i,
    {
        idv.push(id[i]);
        i = i + 1;
        assert(idv@ =~= id@.subrange(0, i as int));
    }
    assert(id@.subrange(0, id@.len() as int) =~= id@);
    query_bind_blob(&mut q, idv);
    Some(q)
}

/// Every value an update of a user's settings binds has its placeholder, whichever fields the
/// change gives.
pub proof fn lemma_settings_placeholders(v: Settings, id: Seq<u8>)
    ensures
        mark_count("UPDATE user SET "@ + assign_sql(settings_pairs(v)) + " WHERE id="@ + "?"@)
            == assign_args(settings_pairs(v)).push(SqlArg::Blob(id)).len(),
{
    reveal_strlit("profile=");
    reveal_strlit("webhook=");
    reveal_strlit("UPDATE user SET ");
    reveal_strlit(" WHERE id=");
    lemma_mark_count_none("profile="@);
    lemma_mark_count_none("webhook="@);
    lemma_mark_count_none("UPDATE user SET "@);
    lemma_mark_count_none(" WHERE id="@);
    lemma_marks_count(1);
    let a1 = opt_pair("profile="@, v.profile);
    let a2 = opt_pair("webhook="@, v.webhook);
    assert(columns_free(a1));
    assert(columns_free(a2));
    lemma_columns_free_add(a1, a2);
    let pairs = settings_pairs(v);
    lemma_assign_marks(pairs);
    let head = "UPDATE user SET "@;
    let body = assign_sql(pairs);
    lemma_mark_count_add(head, body);
    lemma_mark_count_add(head + body, " WHERE id="@);
    lemma_mark_count_add(head + body + " WHERE id="@, "?"@);
}

} // verus!
