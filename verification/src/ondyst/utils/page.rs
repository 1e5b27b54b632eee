//! What the pages of the earlier layout are rendered with.
use vstd::prelude::*;

pub use crate::ondyst::util::page::ActorData;

verus! {

/// The data a page is rendered with: its title and the character signed in.
pub struct Page {
    pub title: String,
    pub actor_data: Option<ActorData>,
}

impl Default for Page {
    fn default() -> (p: Self)
        ensures
            p.title@ == "untroche.portal"@,
            p.actor_data is None,
    {
        Page { title: "untroche.portal".to_owned(), actor_data: None }
    }
}

impl Page {
    /// The page with the given title.
    pub fn title(self, title: &str) -> (p: Self)
        ensures
            p.title@ == title@,
            p.actor_data == self.actor_data,
    {
        Page { title: title.to_owned(), ..self }
    }

    /// The page with a character signed in.
    pub fn actor_data(self, user_data: ActorData) -> (p: Self)
        ensures
            p.title == self.title,
            p.actor_data == Some(user_data),
    {
        Page { actor_data: Some(user_data), ..self }
    }

    /// The page with the given character signed in, or none.
    pub fn actor_data_opt(self, user_data: Option<ActorData>) -> (p: Self)
        ensures
            p.title == self.title,
            p.actor_data == user_data,
    {
        Page { actor_data: user_data, ..self }
    }
}

} // verus!
