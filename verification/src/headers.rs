//! The shared data types: commands, schemas, results, and the closed
//! vocabularies for actions, envelope keys, schema keys and field types.
use vstd::prelude::*;

use crate::config::DbConfig;
use crate::error::TrxError;
use crate::trx::Trx;

verus! {

/// The closed set of operations a command may request. An unrecognized
/// action string maps to `Unknown`, never to a valid-looking action.
#[derive(Clone, Copy, PartialEq, Eq, Structural, Debug)]
pub enum ActionType {
    Create,
    CreateDb,
    Get,
    Upsert,
    Delete,
    Drop,
    DropDb,
    DbList,
    ColList,
    Truncate,
    Unknown,
}

/// The keys of the command envelope.
#[derive(Clone, Copy, PartialEq, Eq, Structural, Debug)]
pub enum CommandType {
    Action,
    Body,
    Database,
    Store,
}

/// The fixed vocabulary of scalar and array field types a schema may declare.
#[derive(Clone, Copy, PartialEq, Eq, Structural, Debug)]
pub enum DataTypes {
    Int,
    Uint,
    Float,
    String,
    Boolean,
    Date,
    DateTime,
    Time,
    ArrayOfString,
    ArrayOfInt,
    ArrayOfUint,
    ArrayOfFloat,
    ArrayOfBoolean,
}

/// The keys of a schema document.
#[derive(Clone, Copy, PartialEq, Eq, Structural, Debug)]
pub enum Types {
    Name,
    Key,
    Fields,
    InMemory,
    Declare,
}

/// One declared field of a collection schema.
#[derive(Clone, Debug)]
pub struct JqlSchemaFields {
    pub _name: String,
    pub _declare: String,
    pub _optional: Option<String>,
}

/// A validated collection schema: collection name, primary-key field name,
/// and the declared fields.
#[derive(Clone, Debug)]
pub struct JqlSchema {
    pub _name: String,
    pub _key: String,
    pub _fields: Vec<JqlSchemaFields>,
}

/// A parsed, precondition-checked command. For collection creation the body
/// carries the validated schema; every other action carries no body.
#[derive(Clone, Debug)]
pub struct JqlCommand {
    pub _action: String,
    pub _body: Option<JqlSchema>,
    pub _database: Option<String>,
    pub _collection: Option<String>,
}

/// A statement reduced to its action and names.
#[derive(Clone)]
pub struct ParsedStatement {
    pub cmd: Option<ActionType>,
    pub db: String,
    pub store: String,
    pub pbs_data: String,
}

/// What a statement execution reports to the caller: elapsed time, an
/// explicit error flag, a message, and the data rows if the action lists any.
#[derive(Clone, Debug)]
pub struct Response {
    pub time_taken: String,
    pub error: bool,
    pub message: String,
    pub data: Option<Vec<String>>,
}

/// A catalog operation's outcome: listed data, or the error it hit.
#[derive(Clone, Debug)]
pub struct DbRes {
    pub data: Option<Vec<String>>,
    pub error: Option<TrxError>,
}

/// The command parser and schema engine.
pub struct Jql {}

/// The dispatcher: owns the catalog storage and the configuration, runs one
/// parsed statement at a time against the catalog.
pub struct Exec {
    pub env: DbConfig,
    pub trx: Trx,
}

/// The query logger: owns the query-log storage.
pub struct Logging {
    pub trx: Trx,
}

/// The mathematical shape of one schema field.
pub struct FieldModel {
    pub name: Seq<char>,
    pub declare: Seq<char>,
    pub optional: Option<Seq<char>>,
}

/// The mathematical shape of a schema.
pub struct SchemaModel {
    pub name: Seq<char>,
    pub key: Seq<char>,
    pub fields: Seq<FieldModel>,
}

/// The mathematical shape of a parsed command.
pub struct CommandModel {
    pub action: Seq<char>,
    pub body: Option<SchemaModel>,
    pub database: Option<Seq<char>>,
    pub collection: Option<Seq<char>>,
}

impl View for JqlSchemaFields {
    type V = FieldModel;

    open spec fn view(&self) -> FieldModel {
        FieldModel {
            name: self._name@,
            declare: self._declare@,
            optional: self._optional.deep_view(),
        }
    }
}

impl DeepView for JqlSchemaFields {
    type V = FieldModel;

    open spec fn deep_view(&self) -> FieldModel {
        self.view()
    }
}

impl View for JqlSchema {
    type V = SchemaModel;

    open spec fn view(&self) -> SchemaModel {
        SchemaModel { name: self._name@, key: self._key@, fields: self._fields.deep_view() }
    }
}

impl DeepView for JqlSchema {
    type V = SchemaModel;

    open spec fn deep_view(&self) -> SchemaModel {
        self.view()
    }
}

impl View for JqlCommand {
    type V = CommandModel;

    open spec fn view(&self) -> CommandModel {
        CommandModel {
            action: self._action@,
            body: match self._body {
                Some(b) => Some(b@),
                None => None,
            },
            database: self._database.deep_view(),
            collection: self._collection.deep_view(),
        }
    }
}

impl JqlSchemaFields {
    /// A field equal to this one under the view.
    pub fn duplicate(&self) -> (r: Self)
        ensures
            r@ == self@,
    {
        JqlSchemaFields {
            _name: self._name.clone(),
            _declare: self._declare.clone(),
            _optional: match &self._optional {
                Some(s) => Some(s.clone()),
                None => None,
            },
        }
    }
}

impl JqlSchema {
    /// A schema equal to this one under the view.
    pub fn duplicate(&self) -> (r: Self)
        ensures
            r@ == self@,
    {
        let mut fields: Vec<JqlSchemaFields> = Vec::new();
        let mut i: usize = 0;
        while i < self._fields.len()
            invariant
                0 <= i <= self._fields@.len(),
                fields.deep_view() == self._fields.deep_view().take(i as int),
            decreases self._fields@.len() - i,
        {
            let ghost before = fields.deep_view();
            fields.push(self._fields[i].duplicate());
            proof {
                assert(fields.deep_view() =~= before.push(self._fields.deep_view()[i as int]));
                assert(fields.deep_view() =~= self._fields.deep_view().take(i + 1 as int));
            }
            i = i + 1;
        }
        proof {
            assert(self._fields.deep_view().take(self._fields@.len() as int)
                =~= self._fields.deep_view());
        }
        JqlSchema { _name: self._name.clone(), _key: self._key.clone(), _fields: fields }
    }
}

} // verus!
