use moedb::config::DbConfig;
use moedb::error::MoeDbError;
use moedb::headers::Exec;

fn fresh_exec() -> Exec {
    let cfg = DbConfig {
        db_path: "/tmp/moedb-data".to_string(),
        log_path: "/tmp/moedb-logs".to_string(),
        default_auth: vec![],
    };
    Exec::new(cfg).unwrap()
}

#[test]
fn create_db_twice_reports_already_exists() {
    let mut exec = fresh_exec();
    let stmt = r#"{"_action":"create-db","_database":"moss"}"#;
    let first = exec.run("q1", stmt);
    assert!(first.is_ok());
    let second = exec.run("q2", stmt);
    match second {
        Err(MoeDbError::TransactionError(m)) => {
            assert_eq!(m, "error creating db `db already exists `moss``");
        },
        other => panic!("expected an already-exists error, got {:?}", other),
    }
}

#[test]
fn create_collection_twice_reports_already_exists() {
    let mut exec = fresh_exec();
    let create_db = r#"{"_action":"create-db","_database":"moss"}"#;
    assert!(exec.run("q1", create_db).is_ok());
    let create_col = r#"
            {
                "_action":"create-collection",
                "_database":"moss",
                "_body":{
                    "_name":"person",
                    "_key":"ids",
                    "_fields":[{"_name":"hello","_declare":"string"}]
                }
            }
        "#;
    let first = exec.run("q2", create_col);
    assert!(first.is_ok());
    // Both the record and the partition exist now: the collection lists.
    let cols = exec.run("q3", r#"{"_action":"col-*","_database":"moss"}"#).unwrap();
    assert_eq!(cols, Some(vec!["person".to_string()]));
    // The loser of a creation race sees exactly this refusal.
    let second = exec.run("q4", create_col);
    match second {
        Err(MoeDbError::TransactionError(m)) => {
            assert_eq!(m, "error creating collection `collection already exists `person``");
        },
        other => panic!("expected an already-exists error, got {:?}", other),
    }
    // The refused creation moved nothing.
    let cols_after = exec.run("q5", r#"{"_action":"col-*","_database":"moss"}"#).unwrap();
    assert_eq!(cols_after, Some(vec!["person".to_string()]));
}

#[test]
fn drop_collection_never_created_reports_does_not_exist() {
    let mut exec = fresh_exec();
    let stmt = r#"{"_action":"drop-collection","_database":"moss","_collection":"ops"}"#;
    match exec.run("q1", stmt) {
        Err(MoeDbError::TransactionError(m)) => {
            assert_eq!(m, "error dropping collection `collection does not exist`");
        },
        other => panic!("expected a does-not-exist error, got {:?}", other),
    }
}

#[test]
fn truncate_never_created_is_a_no_op() {
    let mut exec = fresh_exec();
    let stmt = r#"{"_action":"truncate","_database":"moss","_collection":"ops"}"#;
    let res = exec.run("q1", stmt);
    assert!(res.is_ok());
    assert!(res.unwrap().is_none());
}

#[test]
fn unimplemented_actions_report_not_implemented() {
    let mut exec = fresh_exec();
    let res = exec.run("q1", r#"{"_action":"get","_database":"moss"}"#);
    match res {
        Err(MoeDbError::NotImplementedError(a)) => assert_eq!(a, "get"),
        other => panic!("expected a not-implemented report, got {:?}", other),
    }
    match exec.run("q2", r#"{"_action":"upsert"}"#) {
        Err(MoeDbError::NotImplementedError(a)) => assert_eq!(a, "upsert"),
        other => panic!("expected a not-implemented report, got {:?}", other),
    }
}

#[test]
fn parse_errors_come_back_as_query_errors() {
    let mut exec = fresh_exec();
    match exec.run("q1", "{ bad json") {
        Err(MoeDbError::QueryError(m)) => assert_eq!(m, "document is not a json"),
        other => panic!("expected a query error, got {:?}", other),
    }
    match exec.run("q2", r#"{"_action":"nonsense"}"#) {
        Err(MoeDbError::QueryError(m)) => assert_eq!(m, "unknown query"),
        other => panic!("expected a query error, got {:?}", other),
    }
}

#[test]
fn db_list_orders_names() {
    let mut exec = fresh_exec();
    assert!(exec.run("q1", r#"{"_action":"create-db","_database":"zebra"}"#).is_ok());
    assert!(exec.run("q2", r#"{"_action":"create-db","_database":"apple"}"#).is_ok());
    assert!(exec.run("q3", r#"{"_action":"create-db","_database":"mango"}"#).is_ok());
    let dbs = exec.run("q4", r#"{"_action":"db-*"}"#).unwrap();
    assert_eq!(
        dbs,
        Some(vec!["apple".to_string(), "mango".to_string(), "zebra".to_string()]),
    );
}

#[test]
fn three_records() {
    // The end-to-end scenario: a database and a collection live and die.
    let mut exec = fresh_exec();
    assert!(exec.run("q1", r#"{"_action":"create-db","_database":"random","_body":{}}"#).is_ok());
    let create_col = r#"
            {
                "_action":"create-collection",
                "_database":"random",
                "_body":{
                    "_name":"numbers",
                    "_key":"ids",
                    "_fields":[
                        {"_name":"hello","_declare":"string[]"}
                    ],
                    "_in_memory": false
                }
            }
        "#;
    assert!(exec.run("q2", create_col).is_ok());

    let dbs = exec.run("q3", r#"{"_action":"db-*"}"#).unwrap();
    assert_eq!(dbs, Some(vec!["random".to_string()]));

    let cols = exec.run("q4", r#"{"_action":"col-*","_database":"random"}"#).unwrap();
    assert_eq!(cols, Some(vec!["numbers".to_string()]));

    let trunc = exec.run(
        "q5",
        r#"{"_action":"truncate","_database":"random","_collection":"numbers"}"#,
    );
    assert!(trunc.is_ok());

    let dropped = exec.run(
        "q6",
        r#"{"_action":"drop-collection","_database":"random","_collection":"numbers"}"#,
    );
    assert!(dropped.is_ok());
    let cols_after = exec.run("q7", r#"{"_action":"col-*","_database":"random"}"#).unwrap();
    assert_eq!(cols_after, Some(vec![]));

    let db_dropped = exec.run("q8", r#"{"_action":"drop-db","_database":"random"}"#);
    assert!(db_dropped.is_ok());
    let dbs_after = exec.run("q9", r#"{"_action":"db-*"}"#).unwrap();
    assert_eq!(dbs_after, Some(vec![]));
}

#[test]
fn drop_db_cascades_over_collections() {
    let mut exec = fresh_exec();
    assert!(exec.run("q1", r#"{"_action":"create-db","_database":"moss"}"#).is_ok());
    let mk = |name: &str| {
        format!(
            r#"{{"_action":"create-collection","_database":"moss","_body":{{"_name":"{}","_key":"ids","_fields":[{{"_name":"fff","_declare":"int"}}]}}}}"#,
            name
        )
    };
    assert!(exec.run("q2", &mk("alpha")).is_ok());
    assert!(exec.run("q3", &mk("beta")).is_ok());
    let cols = exec.run("q4", r#"{"_action":"col-*","_database":"moss"}"#).unwrap();
    assert_eq!(cols, Some(vec!["alpha".to_string(), "beta".to_string()]));
    assert!(exec.run("q5", r#"{"_action":"drop-db","_database":"moss"}"#).is_ok());
    let cols_after = exec.run("q6", r#"{"_action":"col-*","_database":"moss"}"#).unwrap();
    assert_eq!(cols_after, Some(vec![]));
    let dbs_after = exec.run("q7", r#"{"_action":"db-*"}"#).unwrap();
    assert_eq!(dbs_after, Some(vec![]));
    // Collections of other databases survive the cascade.
    assert!(exec.run("q8", r#"{"_action":"create-db","_database":"keep"}"#).is_ok());
    let mk_keep = r#"{"_action":"create-collection","_database":"keep","_body":{"_name":"safe","_key":"ids","_fields":[{"_name":"fff","_declare":"int"}]}}"#;
    assert!(exec.run("q9", mk_keep).is_ok());
    assert!(exec.run("q10", r#"{"_action":"drop-db","_database":"nothere"}"#).is_ok());
    let kept = exec.run("q11", r#"{"_action":"col-*","_database":"keep"}"#).unwrap();
    assert_eq!(kept, Some(vec!["safe".to_string()]));
}

#[test]
fn authenticate_always_denies() {
    let exec = fresh_exec();
    assert!(!exec.authenticate("root", "pw"));
}
