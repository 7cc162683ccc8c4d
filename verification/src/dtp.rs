//! The field type vocabulary: resolving a declared type tag and rendering
//! one back.
use vstd::prelude::*;

use crate::headers::DataTypes;
use crate::util::str_eq;

verus! {

/// The tag a field type renders as.
pub open spec fn spec_type_str(d: DataTypes) -> Seq<char> {
    match d {
        DataTypes::Int => "int"@,
        DataTypes::Uint => "uint"@,
        DataTypes::Float => "float"@,
        DataTypes::String => "string"@,
        DataTypes::Boolean => "boolean"@,
        DataTypes::Date => "date"@,
        DataTypes::Time => "time"@,
        DataTypes::DateTime => "datetime"@,
        DataTypes::ArrayOfString => "string[]"@,
        DataTypes::ArrayOfInt => "int[]"@,
        DataTypes::ArrayOfUint => "uint[]"@,
        DataTypes::ArrayOfFloat => "float[]"@,
        DataTypes::ArrayOfBoolean => "boolean[]"@,
    }
}

/// The field type a tag resolves to; a tag outside the vocabulary falls back
/// to `String`.
pub open spec fn spec_type_of(s: Seq<char>) -> DataTypes {
    if s == "int"@ {
        DataTypes::Int
    } else if s == "uint"@ {
        DataTypes::Uint
    } else if s == "float"@ {
        DataTypes::Float
    } else if s == "boolean"@ {
        DataTypes::Boolean
    } else if s == "date"@ {
        DataTypes::Date
    } else if s == "time"@ {
        DataTypes::Time
    } else if s == "datetime"@ {
        DataTypes::DateTime
    } else if s == "int[]"@ {
        DataTypes::ArrayOfInt
    } else if s == "uint[]"@ {
        DataTypes::ArrayOfUint
    } else if s == "float[]"@ {
        DataTypes::ArrayOfFloat
    } else if s == "string[]"@ {
        DataTypes::ArrayOfString
    } else if s == "boolean[]"@ {
        DataTypes::ArrayOfBoolean
    } else {
        DataTypes::String
    }
}

/// Whether a string is a member of the type vocabulary. Schema validation
/// accepts exactly these tags; it never falls back.
pub open spec fn is_type_tag(s: Seq<char>) -> bool {
    ||| s == "int"@
    ||| s == "uint"@
    ||| s == "float"@
    ||| s == "string"@
    ||| s == "boolean"@
    ||| s == "date"@
    ||| s == "time"@
    ||| s == "datetime"@
    ||| s == "int[]"@
    ||| s == "uint[]"@
    ||| s == "float[]"@
    ||| s == "string[]"@
    ||| s == "boolean[]"@
}

/// Checks a declared tag against the type vocabulary.
pub fn str_is_type_tag(s: &str) -> (r: bool)
    ensures
        r == is_type_tag(s@),
{
    str_eq(s, "int") || str_eq(s, "uint") || str_eq(s, "float") || str_eq(s, "string") || str_eq(
        s,
        "boolean",
    ) || str_eq(s, "date") || str_eq(s, "time") || str_eq(s, "datetime") || str_eq(s, "int[]")
        || str_eq(s, "uint[]") || str_eq(s, "float[]") || str_eq(s, "string[]") || str_eq(
        s,
        "boolean[]",
    )
}

impl DataTypes {
    /// Resolves a type tag; a tag outside the vocabulary falls back to
    /// `String`.
    pub fn from_string(value: String) -> (r: DataTypes)
        ensures
            r == spec_type_of(value@),
    {
        let s = value.as_str();
        if str_eq(s, "int") {
            DataTypes::Int
        } else if str_eq(s, "uint") {
            DataTypes::Uint
        } else if str_eq(s, "float") {
            DataTypes::Float
        } else if str_eq(s, "boolean") {
            DataTypes::Boolean
        } else if str_eq(s, "date") {
            DataTypes::Date
        } else if str_eq(s, "time") {
            DataTypes::Time
        } else if str_eq(s, "datetime") {
            DataTypes::DateTime
        } else if str_eq(s, "int[]") {
            DataTypes::ArrayOfInt
        } else if str_eq(s, "uint[]") {
            DataTypes::ArrayOfUint
        } else if str_eq(s, "float[]") {
            DataTypes::ArrayOfFloat
        } else if str_eq(s, "string[]") {
            DataTypes::ArrayOfString
        } else if str_eq(s, "boolean[]") {
            DataTypes::ArrayOfBoolean
        } else {
            DataTypes::String
        }
    }

    /// Renders the field type as its vocabulary tag.
    pub fn to_string(&self) -> (r: String)
        ensures
            r@ == spec_type_str(*self),
    {
        match self {
            DataTypes::Int => "int".to_owned(),
            DataTypes::Uint => "uint".to_owned(),
            DataTypes::Float => "float".to_owned(),
            DataTypes::String => "string".to_owned(),
            DataTypes::Boolean => "boolean".to_owned(),
            DataTypes::Date => "date".to_owned(),
            DataTypes::Time => "time".to_owned(),
            DataTypes::DateTime => "datetime".to_owned(),
            DataTypes::ArrayOfString => "string[]".to_owned(),
            DataTypes::ArrayOfInt => "int[]".to_owned(),
            DataTypes::ArrayOfUint => "uint[]".to_owned(),
            DataTypes::ArrayOfFloat => "float[]".to_owned(),
            DataTypes::ArrayOfBoolean => "boolean[]".to_owned(),
        }
    }
}

} // verus!
