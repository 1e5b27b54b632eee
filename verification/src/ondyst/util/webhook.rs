//! Notifications sent to the users' webhooks through the portal.
use vstd::prelude::*;

use crate::text::{int_list_text, push_int_list, string_from_chars, uuid_text, uuid_text_of};

verus! {

/// A message to be posted to webhooks, with the name and avatar it is shown under.
pub struct Webhook {
    pub content: String,
    pub username: Option<String>,
    pub avatar_url: Option<String>,
}

impl Webhook {
    /// A message with the given text, shown under the webhook's own name and avatar.
    pub fn new(content: &str) -> (w: Self)
        ensures
            w.content@ == content@,
            w.username is None,
            w.avatar_url is None,
    {
        Webhook { content: content.to_owned(), username: None, avatar_url: None }
    }

    /// The message shown under the given name.
    pub fn username(self, username: &str) -> (w: Self)
        ensures
            w.content == self.content,
            w.username matches Some(u) && u@ == username@,
            w.avatar_url == self.avatar_url,
    {
        Webhook { username: Some(username.to_owned()), ..self }
    }

    /// The message shown with the given avatar.
    pub fn avatar_url(self, avatar_url: &str) -> (w: Self)
        ensures
            w.content == self.content,
            w.username == self.username,
            w.avatar_url matches Some(u) && u@ == avatar_url@,
    {
        Webhook { avatar_url: Some(avatar_url.to_owned()), ..self }
    }
}

/// The characters to notify, as the comma-separated list of their numbers that the
/// lookup of their users is given.
pub fn target_list(target: &[i64]) -> (r: String)
    ensures
        r@ == int_list_text(target@),
{
    let mut out: Vec<char> = Vec::new();
    push_int_list(&mut out, target);
    string_from_chars(out)
}

/// The users to deliver a message to, as the texts of their UUIDs, from the bytes stored for
/// each; `None` where some stored value is not the 16 bytes of a UUID.
pub fn webhook_targets(users: &[Vec<u8>]) -> (r: Option<Vec<String>>)
    ensures
        r is Some <==> forall|k: int| 0 <= k < users@.len() ==> (#[trigger] users@[k])@.len() == 16,
        r matches Some(v) ==> v@.len() == users@.len() && forall|k: int|
            0 <= k < v@.len() ==> (#[trigger] v@[k])@ == uuid_text(users@[k]@),
{
    let mut out: Vec<String> = Vec::new();
    let mut i: usize = 0;
    while i < users.len()
        invariant
            0 <= i <= users@.len(),
            out@.len() == i,
            forall|k: int| 0 <= k < i ==> (#[trigger] users@[k])@.len() == 16,
            forall|k: int| 0 <= k < i ==> (#[trigger] out@[k])@ == uuid_text(users@[k]@),
        decreases users.len() - i,
    {
        match uuid_text_of(users[i].as_slice()) {
            Some(t) => out.push(t),
            None => {
                assert(users@[i as int]@.len() != 16);
                return None;
            },
        }
        i = i + 1;
    }
    Some(out)
}

} // verus!
