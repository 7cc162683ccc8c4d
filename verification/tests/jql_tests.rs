use moedb::error::JqlError;
use moedb::headers::Jql;

#[test]
fn create_collection() {
    let json = r#"
            {
                "_action":"create-collection",
                "_database":"moss",
                "_body":{
                    "_name":"person",
                    "_key":"ids",
                    "_fields":[
                        {
                            "_name":"hello",
                            "_declare":"string[]"
                        },
                        {
                            "_name":"hello1",
                            "_declare":"string[]"
                        }
                    ],
                    "_in_memory": false
                }
            }
        "#;
    let parser = Jql::parse(json);
    assert!(parser.is_ok(), "{}", parser.err().unwrap().message());
}

#[test]
fn jql_create_db() {
    let json = r#"
            {
                "_action":"create-db",
                "_database":"moss",
                "_body":{ }
            }
        "#;
    let parser = Jql::parse(json);
    assert!(parser.is_ok());
}

#[test]
fn drop_db() {
    let json = r#"
            {
                "_action":"drop-db",
                "_database":"moss",
                "_body":{ }
            }
        "#;
    let parser = Jql::parse(json);
    assert!(parser.is_ok());
}

#[test]
fn drop_collection() {
    let json = r#"
            {
                "_action":"drop-collection",
                "_database":"moss",
                "_collection":"ops"
            }
        "#;
    let parser = Jql::parse(json);
    assert!(parser.is_ok());
}

#[test]
fn schema() {
    let schema = r#"
            {
                "_name":"person",
                "_key":"ids",
                "_fields":[
                    {
                        "_name":"hello",
                        "_declare":"string[]"
                    }
                ],
                "_in_memory": false
            }
        "#;
    let jql = Jql::new_schema_parser();
    let res = jql.parse_schema(schema.to_string());
    assert!(!res.is_err(), "{}", res.err().unwrap().message());
}

#[test]
fn parse_carries_names_over() {
    let json = r#"{"_action":"drop-collection","_database":"moss","_collection":"ops"}"#;
    let cmd = Jql::parse(json).unwrap();
    assert_eq!(cmd._action, "drop-collection");
    assert_eq!(cmd._database.as_deref(), Some("moss"));
    assert_eq!(cmd._collection.as_deref(), Some("ops"));
    assert!(cmd._body.is_none());
}

#[test]
fn parse_accepts_whitespace_variants() {
    let compact = r#"{"_action":"create-db","_database":"moss"}"#;
    let spaced = "  {\n  \"_action\" : \"create-db\" ,\n  \"_database\" : \"moss\"\n }  ";
    assert!(Jql::parse(compact).is_ok());
    assert!(Jql::parse(spaced).is_ok());
}

#[test]
fn parse_rejects_bad_json() {
    let res = Jql::parse("{ not json at all");
    assert!(matches!(res, Err(JqlError::DocumentParseError)));
    let not_an_object = Jql::parse("[1,2,3]");
    assert!(matches!(not_an_object, Err(JqlError::DocumentParseError)));
}

#[test]
fn parse_rejects_wrong_envelope_shapes() {
    let missing_action = Jql::parse(r#"{"_database":"moss"}"#);
    assert!(matches!(missing_action, Err(JqlError::DocumentParseError)));
    let numeric_database = Jql::parse(r#"{"_action":"create-db","_database":7}"#);
    assert!(matches!(numeric_database, Err(JqlError::DocumentParseError)));
}

#[test]
fn parse_rejects_unknown_action() {
    let res = Jql::parse(r#"{"_action":"nonsense","_database":"moss"}"#);
    assert!(matches!(res, Err(JqlError::UnknownQuery)));
}

#[test]
fn parse_demands_database_names() {
    let absent = Jql::parse(r#"{"_action":"create-db"}"#);
    assert!(matches!(absent, Err(JqlError::NoDatabaseProvided)));
    let null_name = Jql::parse(r#"{"_action":"drop-db","_database":null}"#);
    assert!(matches!(null_name, Err(JqlError::NoDatabaseProvided)));
    let bad_name = Jql::parse(r#"{"_action":"create-db","_database":"1moss"}"#);
    assert!(matches!(bad_name, Err(JqlError::NoDatabaseProvided)));
    let col_list_needs_db = Jql::parse(r#"{"_action":"col-*"}"#);
    assert!(matches!(col_list_needs_db, Err(JqlError::NoDatabaseProvided)));
}

#[test]
fn parse_demands_collection_names() {
    let res = Jql::parse(r#"{"_action":"drop-collection","_database":"moss"}"#);
    assert!(matches!(res, Err(JqlError::NoCollectionProvided)));
    let short = Jql::parse(r#"{"_action":"truncate","_database":"moss","_collection":"ab"}"#);
    assert!(matches!(short, Err(JqlError::NoCollectionProvided)));
}

#[test]
fn parse_demands_schema_for_create_collection() {
    let res = Jql::parse(r#"{"_action":"create-collection","_database":"moss"}"#);
    assert!(matches!(res, Err(JqlError::NoSchemaProvided)));
    let null_body = Jql::parse(r#"{"_action":"create-collection","_database":"moss","_body":null}"#);
    assert!(matches!(null_body, Err(JqlError::NoSchemaProvided)));
}

#[test]
fn parse_accepts_listing_and_unimplemented_actions() {
    assert!(Jql::parse(r#"{"_action":"db-*"}"#).is_ok());
    assert!(Jql::parse(r#"{"_action":"col-*","_database":"moss"}"#).is_ok());
    assert!(Jql::parse(r#"{"_action":"get","_database":"moss"}"#).is_ok());
    assert!(Jql::parse(r#"{"_action":"upsert"}"#).is_ok());
    assert!(Jql::parse(r#"{"_action":"delete"}"#).is_ok());
}

#[test]
fn empty_fields_list_is_refused() {
    let json = r#"
            {
                "_action":"create-collection",
                "_database":"moss",
                "_body":{
                    "_name":"person",
                    "_key":"ids",
                    "_fields":[]
                }
            }
        "#;
    let res = Jql::parse(json);
    match res {
        Err(JqlError::NoFieldsProvided(name)) => assert_eq!(name, "person"),
        other => panic!("expected a fields-required error, got {:?}", other),
    }
}

#[test]
fn schema_shape_faults_name_the_property() {
    let jql = Jql::new_schema_parser();
    let missing_key = r#"{"_name":"person","_fields":[]}"#;
    match jql.parse_schema(missing_key.to_string()) {
        Err(JqlError::DocumentPropertyDataTypeError(p)) => assert_eq!(p, "_key"),
        other => panic!("expected a property fault, got {:?}", other),
    }
    let fields_not_array = r#"{"_name":"person","_key":"ids","_fields":42}"#;
    match jql.parse_schema(fields_not_array.to_string()) {
        Err(JqlError::DocumentPropertyDataTypeError(p)) => assert_eq!(p, "_fields"),
        other => panic!("expected a property fault, got {:?}", other),
    }
    let bad_declare = r#"{"_name":"person","_key":"ids","_fields":[{"_name":"aaa","_declare":"blob"}]}"#;
    match jql.parse_schema(bad_declare.to_string()) {
        Err(JqlError::DocumentPropertyDataTypeError(p)) => assert_eq!(p, "_fields"),
        other => panic!("expected a property fault, got {:?}", other),
    }
    let in_memory_not_bool = r#"{"_name":"person","_key":"ids","_fields":[{"_name":"aaa","_declare":"int"}],"_in_memory":"yes"}"#;
    match jql.parse_schema(in_memory_not_bool.to_string()) {
        Err(JqlError::DocumentPropertyDataTypeError(p)) => assert_eq!(p, "_in_memory"),
        other => panic!("expected a property fault, got {:?}", other),
    }
    let malformed = jql.parse_schema("not json".to_string());
    assert!(matches!(malformed, Err(JqlError::MalformedSchema)));
}

#[test]
fn schema_is_typed_exactly() {
    let json = r#"
            {
                "_action":"create-collection",
                "_database":"moss",
                "_body":{
                    "_name":"person",
                    "_key":"ids",
                    "_fields":[
                        {"_name":"hello","_declare":"string[]","_optional":"yes"},
                        {"_name":"count","_declare":"uint"}
                    ]
                }
            }
        "#;
    let cmd = Jql::parse(json).unwrap();
    let schema = cmd._body.unwrap();
    assert_eq!(schema._name, "person");
    assert_eq!(schema._key, "ids");
    assert_eq!(schema._fields.len(), 2);
    assert_eq!(schema._fields[0]._name, "hello");
    assert_eq!(schema._fields[0]._declare, "string[]");
    assert_eq!(schema._fields[0]._optional.as_deref(), Some("yes"));
    assert_eq!(schema._fields[1]._name, "count");
    assert_eq!(schema._fields[1]._declare, "uint");
    assert!(schema._fields[1]._optional.is_none());
}
