//! What every page of the site is rendered with: its title, the site's stage and the
//! character signed in.
use vstd::prelude::*;

use crate::ondyst::util::state::State;

verus! {

/// The data a page is rendered with.
pub struct Page {
    pub title: String,
    pub state: Option<State>,
    pub actor_data: Option<ActorData>,
}

/// The character signed in: its number, name and icon.
pub struct ActorData {
    pub id: i64,
    pub name: String,
    pub icon: String,
}

impl Default for Page {
    fn default() -> (p: Self)
        ensures
            p.title@ == "one day's' talk"@,
            p.state is None,
            p.actor_data is None,
    {
        Page { title: "one day's' talk".to_owned(), state: None, actor_data: None }
    }
}

impl Page {
    /// The page with the given title.
    pub fn title(self, title: &str) -> (p: Self)
        ensures
            p.title@ == title@,
            p.state == self.state,
            p.actor_data == self.actor_data,
    {
        Page { title: title.to_owned(), ..self }
    }

    /// The page with the given stage of the site.
    pub fn state(self, state: Option<State>) -> (p: Self)
        ensures
            p.title == self.title,
            p.state == state,
            p.actor_data == self.actor_data,
    {
        Page { state, ..self }
    }

    /// The page with a character signed in.
    pub fn actor_data(self, data: ActorData) -> (p: Self)
        ensures
            p.title == self.title,
            p.state == self.state,
            p.actor_data == Some(data),
    {
        Page { actor_data: Some(data), ..self }
    }

    /// The page with the given character signed in, or none.
    pub fn actor_data_opt(self, data: Option<ActorData>) -> (p: Self)
        ensures
            p.title == self.title,
            p.state == self.state,
            p.actor_data == data,
    {
        Page { actor_data: data, ..self }
    }
}

} // verus!
