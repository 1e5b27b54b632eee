//! What the erltod pages are rendered with: a title and either the standard layout, with
//! the user signed in, or the minimal one.
use vstd::prelude::*;

verus! {

/// The data a page is rendered with.
pub struct Page {
    pub title: String,
    pub page_type: PageType,
}

/// The layout of a page.
pub enum PageType {
    /// The standard layout, with the user signed in if there is one.
    Standard { user_data: Option<ActorData> },
    /// The minimal layout.
    Min,
}

/// The user signed in.
pub struct ActorData {
    pub name: String,
}

impl Default for Page {
    fn default() -> (p: Self)
        ensures
            p.title@ == "untroche.portal"@,
            p.page_type matches PageType::Standard { user_data } && user_data is None,
    {
        Page {
            title: "untroche.portal".to_owned(),
            page_type: PageType::Standard { user_data: None },
        }
    }
}

impl Page {
    /// The page with the given title.
    pub fn title(self, title: &str) -> (p: Self)
        ensures
            p.title@ == title@,
            p.page_type == self.page_type,
    {
        Page { title: title.to_owned(), ..self }
    }

    /// The page in the standard layout with the given user signed in.
    pub fn actor_data(self, user_data: ActorData) -> (p: Self)
        ensures
            p.title == self.title,
            p.page_type == (PageType::Standard { user_data: Some(user_data) }),
    {
        Page { page_type: PageType::Standard { user_data: Some(user_data) }, ..self }
    }

    /// The page in the standard layout with the given user signed in, or none.
    pub fn actor_data_opt(self, user_data: Option<ActorData>) -> (p: Self)
        ensures
            p.title == self.title,
            p.page_type == (PageType::Standard { user_data }),
    {
        Page { page_type: PageType::Standard { user_data }, ..self }
    }

    /// The page in the minimal layout.
    pub fn min(self) -> (p: Self)
        ensures
            p.title == self.title,
            p.page_type == PageType::Min,
    {
        Page { page_type: PageType::Min, ..self }
    }
}

} // verus!
