//! The action named on the command line of the `init` entry point.

use vstd::prelude::*;

use crate::text::{push_str, str_eq};

verus! {

/// An action that can be asked for by name.
#[derive(Clone, Copy, Debug, PartialEq, Eq, Structural)]
pub enum Action {
    Install,
    Load,
}

/// An action name that is not known; it holds the name.
#[derive(Debug)]
pub struct UnknownAction(pub String);

impl UnknownAction {
    /// A message for the user.
    pub fn to_string(&self) -> (r: String)
        ensures
            r@ == "Unknown action: "@ + self.0@,
    {
        let mut r = String::new();
        push_str(&mut r, "Unknown action: ");
        push_str(&mut r, self.0.as_str());
        assert(Seq::<char>::empty() + "Unknown action: "@ =~= "Unknown action: "@);
        r
    }
}

/// The action that a name stands for: `install` or `load`.
pub open spec fn action_named(name: Seq<char>) -> Option<Action> {
    if name == "install"@ {
        Some(Action::Install)
    } else if name == "load"@ {
        Some(Action::Load)
    } else {
        None
    }
}

/// The action that `action` names.
pub fn parse_action(action: &str) -> (r: Result<Action, UnknownAction>)
    ensures
        action_named(action@) matches Some(a) ==> r == Ok::<Action, UnknownAction>(a),
        action_named(action@) is None ==> (r matches Err(e) && e.0@ == action@),
{
    if str_eq(action, "install") {
        Ok(Action::Install)
    } else if str_eq(action, "load") {
        Ok(Action::Load)
    } else {
        let mut name = String::new();
        push_str(&mut name, action);
        assert(Seq::<char>::empty() + action@ =~= action@);
        Err(UnknownAction(name))
    }
}

impl Action {
    /// The action that an optional name asks for: `load` where none is given.
    pub fn from_name(action: Option<&str>) -> (r: Result<Action, UnknownAction>)
        ensures
            action is None ==> r == Ok::<Action, UnknownAction>(Action::Load),
            action matches Some(a) ==> match action_named(a@) {
                Some(x) => r == Ok::<Action, UnknownAction>(x),
                None => r matches Err(e) && e.0@ == a@,
            },
    {
        match action {
            Some(a) => parse_action(a),
            None => Ok(Action::Load),
        }
    }
}

impl<'a> TryFrom<&'a str> for Action {
    type Error = UnknownAction;

    /// The action that a name stands for; see [`parse_action`], whose contract this follows.
    fn try_from(action: &'a str) -> (r: Result<Action, UnknownAction>) {
        parse_action(action)
    }
}

impl<'a> vstd::std_specs::convert::TryFromSpecImpl<&'a str> for Action {
    open spec fn obeys_try_from_spec() -> bool {
        false
    }

    open spec fn try_from_spec(action: &'a str) -> Result<Action, UnknownAction> {
        arbitrary()
    }
}

impl<'a> TryFrom<Option<&'a str>> for Action {
    type Error = UnknownAction;

    /// The action that an optional name asks for; see [`Action::from_name`], whose contract this follows.
    fn try_from(action: Option<&'a str>) -> (r: Result<Action, UnknownAction>) {
        Action::from_name(action)
    }
}

impl<'a> vstd::std_specs::convert::TryFromSpecImpl<Option<&'a str>> for Action {
    open spec fn obeys_try_from_spec() -> bool {
        false
    }

    open spec fn try_from_spec(action: Option<&'a str>) -> Result<Action, UnknownAction> {
        arbitrary()
    }
}

} // verus!
