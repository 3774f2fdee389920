//! The keys that a plugin declaration may carry as attributes.

use vstd::prelude::*;

use crate::text::str_eq;

verus! {

/// A recognised attribute key.
#[derive(Clone, Copy, Debug, PartialEq, Eq, Hash, Structural)]
pub enum Attribute {
    /// `alias`: renames the plugin's local directory and identity.
    Alias,
    /// `parallel`: whether the plugin joins the parallel group of an action.
    Parallel,
}

/// The attribute that a key names, if the key is recognised.
pub open spec fn attribute_named(key: Seq<char>) -> Option<Attribute> {
    if key == "alias"@ {
        Some(Attribute::Alias)
    } else if key == "parallel"@ {
        Some(Attribute::Parallel)
    } else {
        None
    }
}

impl Attribute {
    /// The key as it is written in a declaration.
    pub open spec fn spec_key(self) -> Seq<char> {
        match self {
            Attribute::Alias => "alias"@,
            Attribute::Parallel => "parallel"@,
        }
    }

    /// The key as it is written in a declaration.
    pub fn key(&self) -> (r: &'static str)
        ensures
            r@ == self.spec_key(),
    {
        match self {
            Attribute::Alias => "alias",
            Attribute::Parallel => "parallel",
        }
    }

    /// The attribute that `key` names; `None` for a key that is not recognised.
    pub fn from_key(key: &str) -> (r: Option<Attribute>)
        ensures
            r == attribute_named(key@),
    {
        if str_eq(key, "alias") {
            Some(Attribute::Alias)
        } else if str_eq(key, "parallel") {
            Some(Attribute::Parallel)
        } else {
            None
        }
    }
}

} // verus!
