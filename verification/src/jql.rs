//! The command parser: turns a JSON envelope
//! `{_action, _database?, _collection?, _body?}` into a type-checked,
//! precondition-verified command, or the exact command error the statement
//! deserves.
use vstd::prelude::*;

use crate::act::spec_action_of;
use crate::error::{JqlErrModel, JqlError};
use crate::func::{is_naming_ok, valid_name};
use crate::headers::{ActionType, CommandModel, CommandType, Jql, JqlCommand};
use crate::json::{
    json_get, json_kind, json_str, json_text_model, obj_of, parse_json_text, str_of, value_model,
    JsonKind, JsonModel,
};
use crate::jqls::{schema_of_value, spec_schema_check};

verus! {

/// Whether an envelope entry is acceptable for an optional name: absent, a
/// string, or null.
pub open spec fn opt_str_shape_ok(f: Map<Seq<char>, JsonModel>, k: Seq<char>) -> bool {
    f.dom().contains(k) ==> (f[k] is Str || f[k] is Null)
}

/// The name an optional envelope entry carries: a present string; null and
/// absence carry none.
pub open spec fn opt_str_of(f: Map<Seq<char>, JsonModel>, k: Seq<char>) -> Option<Seq<char>> {
    if f.dom().contains(k) && f[k] is Str {
        Some(str_of(f[k]))
    } else {
        None
    }
}

/// The envelope shape: an object whose `_action` is a string and whose
/// `_database` and `_collection`, where present, are strings or null.
/// `_body` may be anything.
pub open spec fn envelope_ok(m: JsonModel) -> bool {
    &&& m is Obj
    &&& obj_of(m).dom().contains("_action"@)
    &&& obj_of(m)["_action"@] is Str
    &&& opt_str_shape_ok(obj_of(m), "_database"@)
    &&& opt_str_shape_ok(obj_of(m), "_collection"@)
}

/// The body an envelope carries; null stands for no body.
pub open spec fn body_of(m: JsonModel) -> Option<JsonModel> {
    if obj_of(m).dom().contains("_body"@) && !(obj_of(m)["_body"@] is Null) {
        Some(obj_of(m)["_body"@])
    } else {
        None
    }
}

/// Whether an optional name is present and passes the naming rule.
pub open spec fn name_ok(n: Option<Seq<char>>) -> bool {
    n matches Some(s) && valid_name(s)
}

/// What parsing a statement yields, per action kind:
/// - text that is not JSON, or an envelope of the wrong shape, is a parse
///   error;
/// - `create-db` and `drop-db` demand a valid database name;
/// - `create-collection` demands a valid database name and a body that
///   passes the schema rules;
/// - `drop-collection` and `truncate` demand valid database and collection
///   names;
/// - listing databases asks nothing; listing collections demands a valid
///   database name;
/// - `get`, `upsert` and `delete` are parsed with no further precondition;
/// - an action outside the vocabulary is an unknown query, never a default.
pub open spec fn spec_parse(t: Option<JsonModel>) -> Result<CommandModel, JqlErrModel> {
    match t {
        None => Err(JqlErrModel::DocumentParseError),
        Some(m) => {
            if !envelope_ok(m) {
                Err(JqlErrModel::DocumentParseError)
            } else {
                let action = str_of(obj_of(m)["_action"@]);
                let db = opt_str_of(obj_of(m), "_database"@);
                let coll = opt_str_of(obj_of(m), "_collection"@);
                let cmd = CommandModel { action, body: None, database: db, collection: coll };
                match spec_action_of(action) {
                    ActionType::CreateDb => if name_ok(db) {
                        Ok(cmd)
                    } else {
                        Err(JqlErrModel::NoDatabaseProvided)
                    },
                    ActionType::DropDb => if name_ok(db) {
                        Ok(cmd)
                    } else {
                        Err(JqlErrModel::NoDatabaseProvided)
                    },
                    ActionType::Create => if !name_ok(db) {
                        Err(JqlErrModel::NoDatabaseProvided)
                    } else {
                        match body_of(m) {
                            None => Err(JqlErrModel::NoSchemaProvided),
                            Some(b) => match spec_schema_check(b) {
                                Ok(s) => Ok(
                                    CommandModel {
                                        action,
                                        body: Some(s),
                                        database: db,
                                        collection: coll,
                                    },
                                ),
                                Err(e) => Err(e),
                            },
                        }
                    },
                    ActionType::Drop => if !name_ok(db) {
                        Err(JqlErrModel::NoDatabaseProvided)
                    } else if !name_ok(coll) {
                        Err(JqlErrModel::NoCollectionProvided)
                    } else {
                        Ok(cmd)
                    },
                    ActionType::Truncate => if !name_ok(db) {
                        Err(JqlErrModel::NoDatabaseProvided)
                    } else if !name_ok(coll) {
                        Err(JqlErrModel::NoCollectionProvided)
                    } else {
                        Ok(cmd)
                    },
                    ActionType::ColList => if name_ok(db) {
                        Ok(cmd)
                    } else {
                        Err(JqlErrModel::NoDatabaseProvided)
                    },
                    ActionType::DbList => Ok(cmd),
                    ActionType::Get => Ok(cmd),
                    ActionType::Upsert => Ok(cmd),
                    ActionType::Delete => Ok(cmd),
                    ActionType::Unknown => Err(JqlErrModel::UnknownQuery),
                }
            }
        },
    }
}

impl Jql {
    /// Parses and precondition-checks a statement.
    pub fn parse(command: &str) -> (r: Result<JqlCommand, JqlError>)
        ensures
            match r {
                Ok(c) => spec_parse(json_text_model(command@)) == Ok::<CommandModel, JqlErrModel>(
                    c@,
                ),
                Err(e) => spec_parse(json_text_model(command@)) == Err::<CommandModel, JqlErrModel>(
                    e@,
                ),
            },
    {
        let parsed = parse_json_text(command);
        match parsed {
            None => Err(JqlError::DocumentParseError),
            Some(v) => Self::parse_with_json(&v),
        }
    }

    /// Parses and precondition-checks an already-deserialized statement.
    pub fn parse_with_json(v: &serde_json::Value) -> (r: Result<JqlCommand, JqlError>)
        ensures
            match r {
                Ok(c) => spec_parse(Some(value_model(*v))) == Ok::<CommandModel, JqlErrModel>(c@),
                Err(e) => spec_parse(Some(value_model(*v))) == Err::<CommandModel, JqlErrModel>(
                    e@,
                ),
            },
    {
        let ghost m = value_model(*v);
        let action_s: String = match json_get(v, CommandType::Action.as_str()) {
            None => {
                return Err(JqlError::DocumentParseError);
            },
            Some(av) => match json_str(av) {
                None => {
                    return Err(JqlError::DocumentParseError);
                },
                Some(s) => s.to_owned(),
            },
        };
        let database: Option<String> = match json_get(v, CommandType::Database.as_str()) {
            None => None,
            Some(dv) => match json_str(dv) {
                Some(s) => Some(s.to_owned()),
                None => {
                    if json_kind(dv) == JsonKind::Null {
                        None
                    } else {
                        return Err(JqlError::DocumentParseError);
                    }
                },
            },
        };
        let collection: Option<String> = match json_get(v, CommandType::Store.as_str()) {
            None => None,
            Some(cv) => match json_str(cv) {
                Some(s) => Some(s.to_owned()),
                None => {
                    if json_kind(cv) == JsonKind::Null {
                        None
                    } else {
                        return Err(JqlError::DocumentParseError);
                    }
                },
            },
        };
        let at = ActionType::from_str(action_s.as_str());
        match at {
            ActionType::CreateDb | ActionType::DropDb => {
                if is_naming_ok(&database).is_none() {
                    return Err(JqlError::NoDatabaseProvided);
                }
                Ok(
                    JqlCommand {
                        _action: action_s,
                        _body: None,
                        _database: database,
                        _collection: collection,
                    },
                )
            },
            ActionType::Create => {
                if is_naming_ok(&database).is_none() {
                    return Err(JqlError::NoDatabaseProvided);
                }
                let bv: &serde_json::Value = match json_get(v, CommandType::Body.as_str()) {
                    None => {
                        return Err(JqlError::NoSchemaProvided);
                    },
                    Some(bv) => bv,
                };
                if json_kind(bv) == JsonKind::Null {
                    return Err(JqlError::NoSchemaProvided);
                }
                match schema_of_value(bv) {
                    Ok(s) => Ok(
                        JqlCommand {
                            _action: action_s,
                            _body: Some(s),
                            _database: database,
                            _collection: collection,
                        },
                    ),
                    Err(e) => Err(e),
                }
            },
            ActionType::Drop | ActionType::Truncate => {
                if is_naming_ok(&database).is_none() {
                    return Err(JqlError::NoDatabaseProvided);
                }
                if is_naming_ok(&collection).is_none() {
                    return Err(JqlError::NoCollectionProvided);
                }
                Ok(
                    JqlCommand {
                        _action: action_s,
                        _body: None,
                        _database: database,
                        _collection: collection,
                    },
                )
            },
            ActionType::ColList => {
                if is_naming_ok(&database).is_none() {
                    return Err(JqlError::NoDatabaseProvided);
                }
                Ok(
                    JqlCommand {
                        _action: action_s,
                        _body: None,
                        _database: database,
                        _collection: collection,
                    },
                )
            },
            ActionType::DbList | ActionType::Get | ActionType::Upsert | ActionType::Delete => Ok(
                JqlCommand {
                    _action: action_s,
                    _body: None,
                    _database: database,
                    _collection: collection,
                },
            ),
            ActionType::Unknown => Err(JqlError::UnknownQuery),
        }
    }
}

} // verus!
