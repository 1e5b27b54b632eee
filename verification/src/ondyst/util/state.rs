//! The stages that the site goes through, and what each stage allows.
use vstd::prelude::*;

use crate::common::error::{HttpError, GONE, SERVICE_UNAVAILABLE};
use crate::common::state::IsMaintenance;
use crate::text::str_eq;

verus! {

/// The stage of the site: in preparation, open for registration, running, closed, or
/// under maintenance.
#[derive(Debug, Clone, Copy, PartialEq, Eq, Structural)]
pub enum State {
    Prepare,
    Register,
    Active,
    Closed,
    Maintenance,
}

/// The message of a refusal before the site opens.
pub const PREPARING_MESSAGE: &'static str = "準備中です。開催までお待ちください";
/// The message of a refusal after the site has closed.
pub const CLOSED_MESSAGE: &'static str = "当サイトの運営は終了しました";

/// The name of a stage, as it is stored and shown.
pub open spec fn state_name(s: State) -> Seq<char> {
    match s {
        State::Prepare => "prepare"@,
        State::Register => "register"@,
        State::Active => "active"@,
        State::Closed => "closed"@,
        State::Maintenance => "maintenance"@,
    }
}

/// The stage of a given name, if there is one.
pub open spec fn state_of_name(n: Seq<char>) -> Option<State> {
    if n == "prepare"@ {
        Some(State::Prepare)
    } else if n == "register"@ {
        Some(State::Register)
    } else if n == "active"@ {
        Some(State::Active)
    } else if n == "closed"@ {
        Some(State::Closed)
    } else if n == "maintenance"@ {
        Some(State::Maintenance)
    } else {
        None
    }
}

/// A stage is found again from its name, and only its own name gives it.
pub proof fn lemma_state_name_round_trip(s: State, n: Seq<char>)
    ensures
        state_of_name(state_name(s)) == Some(s),
        state_of_name(n) == Some(s) ==> n == state_name(s),
{
    reveal_strlit("prepare");
    reveal_strlit("register");
    reveal_strlit("active");
    reveal_strlit("closed");
    reveal_strlit("maintenance");
    assert("prepare"@.len() == 7 && "register"@.len() == 8 && "active"@.len() == 6);
    assert("closed"@.len() == 6 && "maintenance"@.len() == 11);
    assert("active"@[0] != "closed"@[0]);
}

/// What a request for something only a running site allows is answered in stage `s`.
pub open spec fn active_check(s: State) -> Result<(), HttpError> {
    match s {
        State::Active => Ok(()),
        State::Prepare | State::Register => Err(
            HttpError { status: SERVICE_UNAVAILABLE, message: PREPARING_MESSAGE },
        ),
        _ => Err(HttpError { status: GONE, message: CLOSED_MESSAGE }),
    }
}

/// What a request for something an open site allows is answered in stage `s`.
pub open spec fn open_check(s: State) -> Result<(), HttpError> {
    match s {
        State::Register | State::Active => Ok(()),
        State::Prepare => Err(HttpError { status: SERVICE_UNAVAILABLE, message: PREPARING_MESSAGE }),
        _ => Err(HttpError { status: GONE, message: CLOSED_MESSAGE }),
    }
}

impl State {
    /// The name of the stage.
    pub fn as_str(&self) -> (r: &'static str)
        ensures
            r@ == state_name(*self),
    {
        match self {
            State::Prepare => "prepare",
            State::Register => "register",
            State::Active => "active",
            State::Closed => "closed",
            State::Maintenance => "maintenance",
        }
    }

    /// The name of the stage, as a string.
    pub fn to_string(&self) -> (r: String)
        ensures
            r@ == state_name(*self),
    {
        self.as_str().to_owned()
    }

    /// The stage of a given name; `None` for any other text.
    pub fn from_name(s: &str) -> (r: Option<State>)
        ensures
            r == state_of_name(s@),
    {
        if str_eq(s, "prepare") {
            Some(State::Prepare)
        } else if str_eq(s, "register") {
            Some(State::Register)
        } else if str_eq(s, "active") {
            Some(State::Active)
        } else if str_eq(s, "closed") {
            Some(State::Closed)
        } else if str_eq(s, "maintenance") {
            Some(State::Maintenance)
        } else {
            None
        }
    }

    /// Allows what only a running site allows: refused with 503 before it runs and with
    /// 410 once it has closed. Not to be asked under maintenance, which requests never reach.
    pub fn only_active(&self) -> (r: Result<(), HttpError>)
        requires
            *self != State::Maintenance,
        ensures
            r == active_check(*self),
    {
        match self {
            State::Active => Ok(()),
            State::Prepare | State::Register => Err(
                HttpError { status: SERVICE_UNAVAILABLE, message: PREPARING_MESSAGE },
            ),
            _ => Err(HttpError { status: GONE, message: CLOSED_MESSAGE }),
        }
    }

    /// Allows what an open site allows (registration and running): refused with 503 before
    /// registration opens and with 410 once the site has closed. Not to be asked under
    /// maintenance.
    pub fn only_open(&self) -> (r: Result<(), HttpError>)
        requires
            *self != State::Maintenance,
        ensures
            r == open_check(*self),
    {
        match self {
            State::Register | State::Active => Ok(()),
            State::Prepare => Err(
                HttpError { status: SERVICE_UNAVAILABLE, message: PREPARING_MESSAGE },
            ),
            _ => Err(HttpError { status: GONE, message: CLOSED_MESSAGE }),
        }
    }
}

/// The stage at start-up from the stored one: the stage it names, or `None` where it names
/// none; with nothing stored, [`State::Maintenance`], which is then to be stored (the flag).
pub fn initial_state(stored: Option<&str>) -> (r: Option<(State, bool)>)
    ensures
        stored is None ==> r == Some((State::Maintenance, true)),
        stored matches Some(s) ==> match state_of_name(s@) {
            Some(st) => r == Some((st, false)),
            None => r is None,
        },
{
    match stored {
        None => Some((State::Maintenance, true)),
        Some(s) => match State::from_name(s) {
            Some(st) => Some((st, false)),
            None => None,
        },
    }
}

impl IsMaintenance for State {
    open spec fn in_maintenance(&self) -> bool {
        *self == State::Maintenance
    }

    fn is_maintenance(&self) -> (r: bool) {
        *self == State::Maintenance
    }
}

impl std::str::FromStr for State {
    type Err = ();

    fn from_str(s: &str) -> (r: Result<Self, Self::Err>)
        ensures
            r == (match state_of_name(s@) {
                Some(v) => Ok(v),
                None => Err(()),
            }),
    {
        match State::from_name(s) {
            Some(v) => Ok(v),
            None => Err(()),
        }
    }
}

} // verus!
