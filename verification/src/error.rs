//! The error taxonomy: command errors the client caused, catalog and storage
//! errors, and the native storage conditions the catalog recognizes.
//! Every error renders a fixed, human-readable message.
use vstd::prelude::*;

use crate::util::{spec_contains_sub, str_contains};

verus! {

/// A command error: the statement itself is unacceptable. These never touch
/// storage.
#[derive(Clone, Debug)]
pub enum JqlError {
    DocumentPropertyDataTypeError(String),
    DocumentParseError,
    NoFieldsProvided(String),
    MalformedSchema,
    SchemaPropertyTypeError(String),
    NoDatabaseProvided,
    NoCollectionProvided,
    NoSchemaProvided,
    UnknownQuery,
}

impl JqlError {
    pub open spec fn spec_message(&self) -> Seq<char> {
        jql_err_msg(self@)
    }

    /// The message this error renders as.
    pub fn message(&self) -> (r: String)
        ensures
            r@ == self.spec_message(),
    {
        match self {
            JqlError::DocumentPropertyDataTypeError(s) => {
                let p: String = "document property data type check error `".to_owned();
                p.concat(s.as_str()).concat("`")
            },
            JqlError::DocumentParseError => "document is not a json".to_owned(),
            JqlError::NoFieldsProvided(s) => {
                let p: String = "no fields provided in the schema `".to_owned();
                p.concat(s.as_str()).concat("`")
            },
            JqlError::MalformedSchema => "malformed schema".to_owned(),
            JqlError::SchemaPropertyTypeError(s) => {
                let p: String = "schema property value error `".to_owned();
                p.concat(s.as_str()).concat("`")
            },
            JqlError::NoDatabaseProvided => "no database name provided".to_owned(),
            JqlError::NoCollectionProvided => "no collection or malformed name provided".to_owned(),
            JqlError::NoSchemaProvided => "no schema or malformed provided".to_owned(),
            JqlError::UnknownQuery => "unknown query".to_owned(),
        }
    }
}

/// A failure while reading the process configuration.
#[derive(Clone, Debug)]
pub enum EnvReadError {
    NoContent(String),
    InvalidToml(String),
    LogPathNotValid(String),
    DbPathNotValid(String),
}

impl EnvReadError {
    pub open spec fn spec_message(&self) -> Seq<char> {
        match self {
            EnvReadError::NoContent(s) => "failed to read config file `"@ + s@ + "`"@,
            EnvReadError::InvalidToml(s) => "invalid toml format `"@ + s@ + "`"@,
            EnvReadError::LogPathNotValid(s) => "log path is not valid `"@ + s@ + "`"@,
            EnvReadError::DbPathNotValid(s) => "database path is not valid `"@ + s@ + "`"@,
        }
    }

    /// The message this error renders as.
    pub fn message(&self) -> (r: String)
        ensures
            r@ == self.spec_message(),
    {
        match self {
            EnvReadError::NoContent(s) => {
                let p: String = "failed to read config file `".to_owned();
                p.concat(s.as_str()).concat("`")
            },
            EnvReadError::InvalidToml(s) => {
                let p: String = "invalid toml format `".to_owned();
                p.concat(s.as_str()).concat("`")
            },
            EnvReadError::LogPathNotValid(s) => {
                let p: String = "log path is not valid `".to_owned();
                p.concat(s.as_str()).concat("`")
            },
            EnvReadError::DbPathNotValid(s) => {
                let p: String = "database path is not valid `".to_owned();
                p.concat(s.as_str()).concat("`")
            },
        }
    }
}

/// A statement-level failure: an unacceptable query, a catalog operation
/// that failed, or an action that is declared but not implemented.
#[derive(Clone, Debug)]
pub enum MoeDbError {
    CfError(String),
    CfCreateError(String),
    BigEndianError(String),
    GetError,
    QueryError(String),
    TransactionError(String),
    NotImplementedError(String),
}

impl MoeDbError {
    pub open spec fn spec_message(&self) -> Seq<char> {
        match self {
            MoeDbError::CfError(s) => "cf error `"@ + s@ + "`"@,
            MoeDbError::CfCreateError(s) => "cf creating error `"@ + s@ + "`"@,
            MoeDbError::BigEndianError(s) => "big endian error `"@ + s@ + "`"@,
            MoeDbError::GetError => "error while getting key from db"@,
            MoeDbError::QueryError(s) => "invalid query `"@ + s@ + "`"@,
            MoeDbError::TransactionError(s) => "transaction error `"@ + s@ + "`"@,
            MoeDbError::NotImplementedError(s) => "not implemented `"@ + s@ + "`"@,
        }
    }

    /// The message this error renders as.
    pub fn message(&self) -> (r: String)
        ensures
            r@ == self.spec_message(),
    {
        match self {
            MoeDbError::CfError(s) => {
                let p: String = "cf error `".to_owned();
                p.concat(s.as_str()).concat("`")
            },
            MoeDbError::CfCreateError(s) => {
                let p: String = "cf creating error `".to_owned();
                p.concat(s.as_str()).concat("`")
            },
            MoeDbError::BigEndianError(s) => {
                let p: String = "big endian error `".to_owned();
                p.concat(s.as_str()).concat("`")
            },
            MoeDbError::GetError => "error while getting key from db".to_owned(),
            MoeDbError::QueryError(s) => {
                let p: String = "invalid query `".to_owned();
                p.concat(s.as_str()).concat("`")
            },
            MoeDbError::TransactionError(s) => {
                let p: String = "transaction error `".to_owned();
                p.concat(s.as_str()).concat("`")
            },
            MoeDbError::NotImplementedError(s) => {
                let p: String = "not implemented `".to_owned();
                p.concat(s.as_str()).concat("`")
            },
        }
    }
}

/// A catalog operation failure.
#[derive(Clone, Debug)]
pub enum TrxError {
    CreateDbError(String),
    CreateCollectionError(String),
    TruncateCollectionError(String),
    DropCollectionError(String),
    UnknownError,
}

impl TrxError {
    pub open spec fn spec_message(&self) -> Seq<char> {
        trx_err_msg(self@)
    }

    /// The message this error renders as.
    pub fn message(&self) -> (r: String)
        ensures
            r@ == self.spec_message(),
    {
        match self {
            TrxError::CreateDbError(s) => {
                let p: String = "error creating db `".to_owned();
                p.concat(s.as_str()).concat("`")
            },
            TrxError::CreateCollectionError(s) => {
                let p: String = "error creating collection `".to_owned();
                p.concat(s.as_str()).concat("`")
            },
            TrxError::TruncateCollectionError(s) => {
                let p: String = "error truncating collection `".to_owned();
                p.concat(s.as_str()).concat("`")
            },
            TrxError::DropCollectionError(s) => {
                let p: String = "error dropping collection `".to_owned();
                p.concat(s.as_str()).concat("`")
            },
            TrxError::UnknownError => "unknown error".to_owned(),
        }
    }
}

/// A condition of the underlying storage that the catalog recognizes from
/// an error's text.
pub enum NativeError {
    CfAlreadyExists,
    CfDoesNotExists,
}

/// Recognizes a missing-partition condition from a native error message.
pub fn from_native_error(err: String) -> (r: Option<NativeError>)
    ensures
        match r {
            Some(n) => n is CfDoesNotExists && spec_contains_sub(
                err@,
                "Invalid column family"@,
            ),
            None => !spec_contains_sub(err@, "Invalid column family"@),
        },
{
    if str_contains(err.as_str(), "Invalid column family") {
        return Some(NativeError::CfDoesNotExists);
    }
    None
}

/// The mathematical shape of a command error.
pub enum JqlErrModel {
    DocumentPropertyDataTypeError(Seq<char>),
    DocumentParseError,
    NoFieldsProvided(Seq<char>),
    MalformedSchema,
    SchemaPropertyTypeError(Seq<char>),
    NoDatabaseProvided,
    NoCollectionProvided,
    NoSchemaProvided,
    UnknownQuery,
}

impl View for JqlError {
    type V = JqlErrModel;

    open spec fn view(&self) -> JqlErrModel {
        match self {
            JqlError::DocumentPropertyDataTypeError(s) => JqlErrModel::DocumentPropertyDataTypeError(
                s@,
            ),
            JqlError::DocumentParseError => JqlErrModel::DocumentParseError,
            JqlError::NoFieldsProvided(s) => JqlErrModel::NoFieldsProvided(s@),
            JqlError::MalformedSchema => JqlErrModel::MalformedSchema,
            JqlError::SchemaPropertyTypeError(s) => JqlErrModel::SchemaPropertyTypeError(s@),
            JqlError::NoDatabaseProvided => JqlErrModel::NoDatabaseProvided,
            JqlError::NoCollectionProvided => JqlErrModel::NoCollectionProvided,
            JqlError::NoSchemaProvided => JqlErrModel::NoSchemaProvided,
            JqlError::UnknownQuery => JqlErrModel::UnknownQuery,
        }
    }
}

/// The message a command error renders as, over its shape.
pub open spec fn jql_err_msg(e: JqlErrModel) -> Seq<char> {
    match e {
        JqlErrModel::DocumentPropertyDataTypeError(s) => "document property data type check error `"@
            + s + "`"@,
        JqlErrModel::DocumentParseError => "document is not a json"@,
        JqlErrModel::NoFieldsProvided(s) => "no fields provided in the schema `"@ + s + "`"@,
        JqlErrModel::MalformedSchema => "malformed schema"@,
        JqlErrModel::SchemaPropertyTypeError(s) => "schema property value error `"@ + s + "`"@,
        JqlErrModel::NoDatabaseProvided => "no database name provided"@,
        JqlErrModel::NoCollectionProvided => "no collection or malformed name provided"@,
        JqlErrModel::NoSchemaProvided => "no schema or malformed provided"@,
        JqlErrModel::UnknownQuery => "unknown query"@,
    }
}

/// The mathematical shape of a catalog operation failure.
pub enum TrxErrModel {
    CreateDbError(Seq<char>),
    CreateCollectionError(Seq<char>),
    TruncateCollectionError(Seq<char>),
    DropCollectionError(Seq<char>),
    UnknownError,
}

impl View for TrxError {
    type V = TrxErrModel;

    open spec fn view(&self) -> TrxErrModel {
        match self {
            TrxError::CreateDbError(s) => TrxErrModel::CreateDbError(s@),
            TrxError::CreateCollectionError(s) => TrxErrModel::CreateCollectionError(s@),
            TrxError::TruncateCollectionError(s) => TrxErrModel::TruncateCollectionError(s@),
            TrxError::DropCollectionError(s) => TrxErrModel::DropCollectionError(s@),
            TrxError::UnknownError => TrxErrModel::UnknownError,
        }
    }
}

/// The message a catalog failure renders as, over its shape.
pub open spec fn trx_err_msg(e: TrxErrModel) -> Seq<char> {
    match e {
        TrxErrModel::CreateDbError(s) => "error creating db `"@ + s + "`"@,
        TrxErrModel::CreateCollectionError(s) => "error creating collection `"@ + s + "`"@,
        TrxErrModel::TruncateCollectionError(s) => "error truncating collection `"@ + s + "`"@,
        TrxErrModel::DropCollectionError(s) => "error dropping collection `"@ + s + "`"@,
        TrxErrModel::UnknownError => "unknown error"@,
    }
}

} // verus!
