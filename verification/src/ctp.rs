//! The command envelope's key vocabulary.
use vstd::prelude::*;

use crate::headers::CommandType;
use crate::util::str_eq;

verus! {

/// The envelope key a command part renders as.
pub open spec fn spec_command_str(c: CommandType) -> Seq<char> {
    match c {
        CommandType::Action => "_action"@,
        CommandType::Body => "_body"@,
        CommandType::Database => "_database"@,
        CommandType::Store => "_collection"@,
    }
}

impl CommandType {
    /// Resolves an envelope key; anything else falls back to `Action`.
    pub fn from_string(value: String) -> (r: CommandType)
        ensures
            r == if value@ == "_body"@ {
                CommandType::Body
            } else if value@ == "_database"@ {
                CommandType::Database
            } else if value@ == "_collection"@ {
                CommandType::Store
            } else {
                CommandType::Action
            },
    {
        if str_eq(value.as_str(), "_body") {
            CommandType::Body
        } else if str_eq(value.as_str(), "_database") {
            CommandType::Database
        } else if str_eq(value.as_str(), "_collection") {
            CommandType::Store
        } else {
            CommandType::Action
        }
    }

    /// The envelope key this command part stands for.
    pub fn as_str(&self) -> (r: &'static str)
        ensures
            r@ == spec_command_str(*self),
    {
        match self {
            CommandType::Action => "_action",
            CommandType::Body => "_body",
            CommandType::Database => "_database",
            CommandType::Store => "_collection",
        }
    }
}

} // verus!
