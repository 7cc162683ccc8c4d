use moedb::config::DbConfig;
use moedb::error::{from_native_error, JqlError, MoeDbError, NativeError, TrxError};
use moedb::headers::{ActionType, CommandType, DataTypes, Logging, ParsedStatement, Response, Types};
use moedb::ops::Ops;
use moedb::trx::{CatVal, Trx};

fn cfg() -> DbConfig {
    DbConfig {
        db_path: "/tmp/moedb-data".to_string(),
        log_path: "/tmp/moedb-logs".to_string(),
        default_auth: vec!["admin".to_string()],
    }
}

#[test]
fn action_vocabulary_round_trips() {
    let pairs = [
        (ActionType::Create, "create-collection"),
        (ActionType::CreateDb, "create-db"),
        (ActionType::Get, "get"),
        (ActionType::Upsert, "upsert"),
        (ActionType::Delete, "delete"),
        (ActionType::Drop, "drop-collection"),
        (ActionType::DropDb, "drop-db"),
        (ActionType::DbList, "db-*"),
        (ActionType::Truncate, "truncate"),
        (ActionType::ColList, "col-*"),
    ];
    for (kind, word) in pairs {
        assert_eq!(kind.to_string(), word);
        assert_eq!(ActionType::from_str(word), kind);
    }
    assert_eq!(ActionType::from_str("anything else"), ActionType::Unknown);
    assert_eq!(ActionType::Unknown.to_string(), "");
}

#[test]
fn data_type_vocabulary_round_trips() {
    let pairs = [
        (DataTypes::Int, "int"),
        (DataTypes::Uint, "uint"),
        (DataTypes::Float, "float"),
        (DataTypes::String, "string"),
        (DataTypes::Boolean, "boolean"),
        (DataTypes::Date, "date"),
        (DataTypes::Time, "time"),
        (DataTypes::DateTime, "datetime"),
        (DataTypes::ArrayOfString, "string[]"),
        (DataTypes::ArrayOfInt, "int[]"),
        (DataTypes::ArrayOfUint, "uint[]"),
        (DataTypes::ArrayOfFloat, "float[]"),
        (DataTypes::ArrayOfBoolean, "boolean[]"),
    ];
    for (kind, word) in pairs {
        assert_eq!(kind.to_string(), word);
        assert_eq!(DataTypes::from_string(word.to_string()), kind);
    }
    assert_eq!(DataTypes::from_string("blob".to_string()), DataTypes::String);
}

#[test]
fn envelope_and_schema_keys() {
    assert_eq!(CommandType::Action.as_str(), "_action");
    assert_eq!(CommandType::Body.as_str(), "_body");
    assert_eq!(CommandType::Database.as_str(), "_database");
    assert_eq!(CommandType::Store.as_str(), "_collection");
    assert_eq!(CommandType::from_string("_body".to_string()), CommandType::Body);
    assert_eq!(CommandType::from_string("anything".to_string()), CommandType::Action);
    assert_eq!(Types::Name.as_str(), "_name");
    assert_eq!(Types::Key.as_str(), "_key");
    assert_eq!(Types::Fields.as_str(), "_fields");
    assert_eq!(Types::InMemory.as_str(), "_in_memory");
    assert_eq!(Types::Declare.as_str(), "_declare");
    assert_eq!(Types::from_string("_declare".to_string()), Types::Declare);
    assert_eq!(Types::from_string("anything".to_string()), Types::Name);
}

#[test]
fn error_messages_render_exactly() {
    assert_eq!(JqlError::DocumentParseError.message(), "document is not a json");
    assert_eq!(
        JqlError::NoFieldsProvided("person".to_string()).message(),
        "no fields provided in the schema `person`",
    );
    assert_eq!(JqlError::UnknownQuery.message(), "unknown query");
    assert_eq!(
        TrxError::CreateDbError("db already exists `moss`".to_string()).message(),
        "error creating db `db already exists `moss``",
    );
    assert_eq!(
        MoeDbError::QueryError("unknown query".to_string()).message(),
        "invalid query `unknown query`",
    );
    assert_eq!(
        MoeDbError::NotImplementedError("get".to_string()).message(),
        "not implemented `get`",
    );
}

#[test]
fn native_error_recognition() {
    let hit = from_native_error("Invalid column family: moss#numbers".to_string());
    assert!(matches!(hit, Some(NativeError::CfDoesNotExists)));
    let miss = from_native_error("io error: disk full".to_string());
    assert!(miss.is_none());
}

#[test]
fn response_wraps_outcomes() {
    let ok = Response::build("3ms".to_string(), Ok(Some(vec!["moss".to_string()])));
    assert!(!ok.error);
    assert_eq!(ok.message, "");
    assert_eq!(ok.data, Some(vec!["moss".to_string()]));
    assert_eq!(ok.describe(), "query executed in 3ms with success status");

    let err = Response::build("2ms".to_string(), Err(MoeDbError::GetError));
    assert!(err.error);
    assert_eq!(err.message, "error while getting key from db");
    assert!(err.data.is_none());
    assert_eq!(
        err.describe(),
        "query executed in 2ms with error. details: error while getting key from db",
    );
}

#[test]
fn storage_handle_basics() {
    let mut trx = Trx::new(cfg(), false).unwrap();
    assert_eq!(trx.cfs(), vec!["credentials".to_string(), "sys".to_string()]);
    assert!(trx.has_partition("sys"));
    assert!(!trx.has_partition("moss#numbers"));
    assert!(trx.put("sys", "database::#moss", CatVal::Marker).is_ok());
    assert!(matches!(trx.get("sys", "database::#moss"), Some(CatVal::Marker)));
    assert!(trx.get("sys", "database::#other").is_none());
    let scan = trx.through("sys", "database::#");
    assert_eq!(scan.len(), 1);
    assert_eq!(scan[0].0, "database::#moss");
    assert!(trx.delete("sys", "database::#moss").is_ok());
    assert!(trx.get("sys", "database::#moss").is_none());
    assert!(trx.create_cf("moss#numbers").is_ok());
    assert!(trx.has_partition("moss#numbers"));
    assert!(trx.create_cf("moss#numbers").is_err());
    assert!(trx.truncate("moss#numbers").is_ok());
    assert!(!trx.has_partition("moss#numbers"));
    assert!(trx.truncate("moss#numbers").is_err());
}

#[test]
fn ops_creates_partitions_once() {
    let trx = Trx::new(cfg(), false).unwrap();
    let mut ops = Ops::new(trx);
    let stmt = ParsedStatement {
        cmd: Some(ActionType::CreateDb),
        db: "moss".to_string(),
        store: "".to_string(),
        pbs_data: "".to_string(),
    };
    assert!(ops.create_db(stmt).is_ok());
    let again = ParsedStatement {
        cmd: Some(ActionType::CreateDb),
        db: "moss".to_string(),
        store: "".to_string(),
        pbs_data: "".to_string(),
    };
    match ops.create_db(again) {
        Err(TrxError::CreateDbError(m)) => assert_eq!(m, "cf already exists `moss`"),
        other => panic!("expected an already-exists error, got {:?}", other),
    }
}

#[test]
fn logging_opens_its_own_store() {
    let log = Logging::new(cfg());
    assert!(log.is_ok());
    let l = log.unwrap();
    assert!(l.trx.has_partition("logs"));
}
