//! Resolving an action string to its kind, and rendering a kind back.
use vstd::prelude::*;

use crate::headers::ActionType;
use crate::util::str_eq;

verus! {

/// The action kind an action string resolves to. No string defaults to a
/// valid-looking action: anything outside the vocabulary is `Unknown`.
pub open spec fn spec_action_of(s: Seq<char>) -> ActionType {
    if s == "create-db"@ {
        ActionType::CreateDb
    } else if s == "create-collection"@ {
        ActionType::Create
    } else if s == "get"@ {
        ActionType::Get
    } else if s == "upsert"@ {
        ActionType::Upsert
    } else if s == "delete"@ {
        ActionType::Delete
    } else if s == "drop-collection"@ {
        ActionType::Drop
    } else if s == "drop-db"@ {
        ActionType::DropDb
    } else if s == "truncate"@ {
        ActionType::Truncate
    } else if s == "db-*"@ {
        ActionType::DbList
    } else if s == "col-*"@ {
        ActionType::ColList
    } else {
        ActionType::Unknown
    }
}

/// The string an action kind renders as; `Unknown` renders as nothing.
pub open spec fn spec_action_str(a: ActionType) -> Seq<char> {
    match a {
        ActionType::Create => "create-collection"@,
        ActionType::CreateDb => "create-db"@,
        ActionType::Get => "get"@,
        ActionType::Upsert => "upsert"@,
        ActionType::Delete => "delete"@,
        ActionType::Drop => "drop-collection"@,
        ActionType::DropDb => "drop-db"@,
        ActionType::DbList => "db-*"@,
        ActionType::Truncate => "truncate"@,
        ActionType::ColList => "col-*"@,
        ActionType::Unknown => ""@,
    }
}

impl ActionType {
    /// Resolves an action string by exact match against the vocabulary.
    pub fn from_str(value: &str) -> (r: ActionType)
        ensures
            r == spec_action_of(value@),
    {
        if str_eq(value, "create-db") {
            ActionType::CreateDb
        } else if str_eq(value, "create-collection") {
            ActionType::Create
        } else if str_eq(value, "get") {
            ActionType::Get
        } else if str_eq(value, "upsert") {
            ActionType::Upsert
        } else if str_eq(value, "delete") {
            ActionType::Delete
        } else if str_eq(value, "drop-collection") {
            ActionType::Drop
        } else if str_eq(value, "drop-db") {
            ActionType::DropDb
        } else if str_eq(value, "truncate") {
            ActionType::Truncate
        } else if str_eq(value, "db-*") {
            ActionType::DbList
        } else if str_eq(value, "col-*") {
            ActionType::ColList
        } else {
            ActionType::Unknown
        }
    }

    /// Renders the action kind as its vocabulary string.
    pub fn to_string(&self) -> (r: String)
        ensures
            r@ == spec_action_str(*self),
    {
        match self {
            ActionType::Create => "create-collection".to_owned(),
            ActionType::CreateDb => "create-db".to_owned(),
            ActionType::Get => "get".to_owned(),
            ActionType::Upsert => "upsert".to_owned(),
            ActionType::Delete => "delete".to_owned(),
            ActionType::Drop => "drop-collection".to_owned(),
            ActionType::DropDb => "drop-db".to_owned(),
            ActionType::DbList => "db-*".to_owned(),
            ActionType::Truncate => "truncate".to_owned(),
            ActionType::ColList => "col-*".to_owned(),
            ActionType::Unknown => "".to_owned(),
        }
    }
}

} // verus!
