//! The stages of the portal.
use vstd::prelude::*;

use crate::common::error::{HttpError, GONE};
use crate::common::state::IsMaintenance;
use crate::ondyst::util::state::CLOSED_MESSAGE;
use crate::text::str_eq;

verus! {

/// The stage of the portal: running, closed, or under maintenance.
#[derive(Debug, Clone, Copy, PartialEq, Eq, Structural)]
pub enum State {
    Active,
    Closed,
    Maintenance,
}

/// The name of a stage, as it is stored and shown.
pub open spec fn state_name(s: State) -> Seq<char> {
    match s {
        State::Active => "active"@,
        State::Closed => "closed"@,
        State::Maintenance => "maintenance"@,
    }
}

/// The stage of a given name, if there is one.
pub open spec fn state_of_name(n: Seq<char>) -> Option<State> {
    if n == "active"@ {
        Some(State::Active)
    } else if n == "closed"@ {
        Some(State::Closed)
    } else if n == "maintenance"@ {
        Some(State::Maintenance)
    } else {
        None
    }
}

/// A stage is found again from its name, and only its own name gives it.
pub proof fn lemma_state_name_round_trip(s: State, n: Seq<char>)
    ensures
        state_of_name(state_name(s)) == Some(s),
        state_of_name(n) == Some(s) ==> n == state_name(s),
{
    reveal_strlit("active");
    reveal_strlit("closed");
    reveal_strlit("maintenance");
    assert("active"@.len() == 6 && "closed"@.len() == 6 && "maintenance"@.len() == 11);
    assert("active"@[0] != "closed"@[0]);
}

impl State {
    /// The name of the stage.
    pub fn as_str(&self) -> (r: &'static str)
        ensures
            r@ == state_name(*self),
    {
        match self {
            State::Active => "active",
            State::Closed => "closed",
            State::Maintenance => "maintenance",
        }
    }

    /// The name of the stage, as a string.
    pub fn to_string(&self) -> (r: String)
        ensures
            r@ == state_name(*self),
    {
        self.as_str().to_owned()
    }

    /// The stage of a given name; `None` for any other text.
    pub fn from_name(s: &str) -> (r: Option<State>)
        ensures
            r == state_of_name(s@),
    {
        if str_eq(s, "active") {
            Some(State::Active)
        } else if str_eq(s, "closed") {
            Some(State::Closed)
        } else if str_eq(s, "maintenance") {
            Some(State::Maintenance)
        } else {
            None
        }
    }

    /// Allows what only a running portal allows; refused with 410 otherwise.
    pub fn only_active(&self) -> (r: Result<(), HttpError>)
        ensures
            *self == State::Active ==> r is Ok,
            *self != State::Active ==> r == Err::<(), HttpError>(
                HttpError { status: GONE, message: CLOSED_MESSAGE },
            ),
    {
        if *self == State::Active {
            Ok(())
        } else {
            Err(HttpError { status: GONE, message: CLOSED_MESSAGE })
        }
    }
}

/// The stage at start-up from the stored one: the stage it names, or `None` where it names
/// none; with nothing stored, [`State::Maintenance`], which is then to be stored (the flag).
pub fn initial_state(stored: Option<&str>) -> (r: Option<(State, bool)>)
    ensures
        stored is None ==> r == Some((State::Maintenance, true)),
        stored matches Some(s) ==> match state_of_name(s@) {
            Some(st) => r == Some((st, false)),
            None => r is None,
        },
{
    match stored {
        None => Some((State::Maintenance, true)),
        Some(s) => match State::from_name(s) {
            Some(st) => Some((st, false)),
            None => None,
        },
    }
}

impl IsMaintenance for State {
    open spec fn in_maintenance(&self) -> bool {
        *self == State::Maintenance
    }

    fn is_maintenance(&self) -> (r: bool) {
        *self == State::Maintenance
    }
}

impl std::str::FromStr for State {
    type Err = ();

    fn from_str(s: &str) -> (r: Result<Self, Self::Err>)
        ensures
            r == (match state_of_name(s@) {
                Some(v) => Ok(v),
                None => Err(()),
            }),
    {
        match State::from_name(s) {
            Some(v) => Ok(v),
            None => Err(()),
        }
    }
}

} // verus!
