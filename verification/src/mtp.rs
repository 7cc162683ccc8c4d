//! The schema document's key vocabulary.
use vstd::prelude::*;

use crate::headers::Types;
use crate::util::str_eq;

verus! {

/// The schema key a schema part renders as.
pub open spec fn spec_types_str(t: Types) -> Seq<char> {
    match t {
        Types::Name => "_name"@,
        Types::Key => "_key"@,
        Types::Fields => "_fields"@,
        Types::InMemory => "_in_memory"@,
        Types::Declare => "_declare"@,
    }
}

impl Types {
    /// Resolves a schema key; anything else falls back to `Name`.
    pub fn from_string(value: String) -> (r: Types)
        ensures
            r == if value@ == "_key"@ {
                Types::Key
            } else if value@ == "_fields"@ {
                Types::Fields
            } else if value@ == "_in_memory"@ {
                Types::InMemory
            } else if value@ == "_declare"@ {
                Types::Declare
            } else {
                Types::Name
            },
    {
        if str_eq(value.as_str(), "_key") {
            Types::Key
        } else if str_eq(value.as_str(), "_fields") {
            Types::Fields
        } else if str_eq(value.as_str(), "_in_memory") {
            Types::InMemory
        } else if str_eq(value.as_str(), "_declare") {
            Types::Declare
        } else {
            Types::Name
        }
    }

    /// The schema key this schema part stands for.
    pub fn as_str(&self) -> (r: &'static str)
        ensures
            r@ == spec_types_str(*self),
    {
        match self {
            Types::Name => "_name",
            Types::Key => "_key",
            Types::Fields => "_fields",
            Types::InMemory => "_in_memory",
            Types::Declare => "_declare",
        }
    }
}

} // verus!
