//! Webhook messages that the sites ask the portal to deliver to their users.
use vstd::prelude::*;

use crate::common::query::{
    blob_args, lemma_mark_count_add, lemma_mark_count_none, lemma_marks_count, mark_count, marks, query_args, query_bind_ids, query_new, query_open, query_push, query_sql, SqlQuery,
};

verus! {

/// A message to deliver, and the users (by the bytes of their identifiers) to deliver it to.
pub struct Webhook {
    pub target: Vec<[u8; 16]>,
    pub content: Content,
}

/// What is posted to a webhook: the text, and the name and avatar it is shown under.
pub struct Content {
    pub content: String,
    pub username: Option<String>,
    pub avatar_url: Option<String>,
}

impl Default for Content {
    fn default() -> (c: Self)
        ensures
            c.content@ == Seq::<char>::empty(),
            c.username is None,
            c.avatar_url is None,
    {
        Content { content: String::new(), username: None, avatar_url: None }
    }
}

impl Content {
    /// The message addressed to the given users.
    pub fn target(self, target: Vec<[u8; 16]>) -> (w: Webhook)
        ensures
            w.target == target,
            w.content == self,
    {
        Webhook { target, content: self }
    }
}

impl Webhook {
    /// The query of the webhooks of the addressed users that have one; `None` when the
    /// message is addressed to nobody, and there is nothing to send.
    pub fn webhook_query(&self) -> (r: Option<SqlQuery>)
        ensures
            r is None <==> self.target@.len() == 0,
            r matches Some(q) ==> query_open(q) && query_sql(q) == "SELECT webhook FROM user WHERE id IN ("@
                + marks(self.target@.len()) + ") AND webhook IS NOT NULL"@ && query_args(q) == blob_args(
                self.target@,
            ),
    {
        if self.target.len() == 0 {
            return None;
        }
        let mut q = query_new("SELECT webhook FROM user WHERE id IN (");
        query_bind_ids(&mut q, self.target.as_slice());
        query_push(&mut q, ") AND webhook IS NOT NULL");
        assert(query_args(q) =~= blob_args(self.target@));
        Some(q)
    }
}

/// The query of the webhooks binds a value to each of its placeholders.
pub proof fn lemma_webhook_placeholders(target: Seq<[u8; 16]>)
    ensures
        mark_count("SELECT webhook FROM user WHERE id IN ("@ + marks(target.len())
            + ") AND webhook IS NOT NULL"@) == blob_args(target).len(),
{
    let head = "SELECT webhook FROM user WHERE id IN ("@;
    let tail = ") AND webhook IS NOT NULL"@;
    reveal_strlit("SELECT webhook FROM user WHERE id IN (");
    reveal_strlit(") AND webhook IS NOT NULL");
    lemma_mark_count_none(head);
    lemma_mark_count_none(tail);
    lemma_marks_count(target.len());
    lemma_mark_count_add(head, marks(target.len()));
    lemma_mark_count_add(head + marks(target.len()), tail);
}

} // verus!
