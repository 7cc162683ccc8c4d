use moedb::func::is_naming_ok;
use moedb::util::{key_merger, key_splitter, ksm_db, query_log_cf_path, str_contains, str_eq, str_has_prefix, str_lt};

#[test]
fn name_check() {
    let chk = is_naming_ok(&Some("abc".to_string()));
    assert!(chk.is_some());
}

#[test]
fn naming_accepts_rule_matches() {
    for name in ["abc", "Moss-123", "A1-", "xyz", "Abcdefghijklmnopqrstu"] {
        let r = is_naming_ok(&Some(name.to_string()));
        assert_eq!(r.as_deref(), Some(name), "expected `{}` accepted", name);
    }
}

#[test]
fn naming_rejects_rule_misses() {
    let absent: Option<String> = None;
    assert!(is_naming_ok(&absent).is_none());
    for name in [
        "",
        "ab",
        "1abc",
        "-abc",
        "ab!",
        "a b c",
        "Abcdefghijklmnopqrstuv",
        "moss#x",
        "data:base",
    ] {
        assert!(is_naming_ok(&Some(name.to_string())).is_none(), "expected `{}` rejected", name);
    }
}

#[test]
fn key_merger_joins_with_delimiter() {
    let merged = key_merger(vec!["moss".to_string(), "numbers".to_string()]);
    assert_eq!(merged, Some("moss#numbers".to_string()));
    let single = key_merger(vec!["moss".to_string()]);
    assert_eq!(single, Some("moss".to_string()));
    assert_eq!(key_merger(vec![]), None);
}

#[test]
fn key_splitter_cuts_at_delimiters() {
    let parts = key_splitter("moss#numbers".to_string());
    assert_eq!(parts, Some(vec!["moss".to_string(), "numbers".to_string()]));
    assert_eq!(key_splitter("plain".to_string()), None);
    let many = key_splitter("a#b#c".to_string());
    assert_eq!(many, Some(vec!["a".to_string(), "b".to_string(), "c".to_string()]));
}

#[test]
fn key_codec_round_trips() {
    for (db, col) in [("moss", "numbers"), ("random", "x-1"), ("A", "")] {
        let merged = key_merger(vec![db.to_string(), col.to_string()]).unwrap();
        let back = key_splitter(merged).unwrap();
        assert_eq!(back, vec![db.to_string(), col.to_string()]);
    }
}

#[test]
fn ksm_db_takes_the_sub_name() {
    assert_eq!(ksm_db("moss#numbers".to_string()), Some("numbers".to_string()));
    assert_eq!(ksm_db("database::#moss".to_string()), Some("moss".to_string()));
    assert_eq!(ksm_db("plain".to_string()), None);
    assert_eq!(ksm_db("a#b#c".to_string()), None);
}

#[test]
fn query_log_path_sits_below_log_dir() {
    assert_eq!(query_log_cf_path("/var/log/moedb"), "/var/log/moedb/query-log");
}

#[test]
fn string_helpers() {
    assert!(str_eq("same", "same"));
    assert!(!str_eq("same", "sane"));
    assert!(!str_eq("same", "sam"));
    assert!(str_lt("apple", "banana"));
    assert!(str_lt("app", "apple"));
    assert!(!str_lt("apple", "apple"));
    assert!(!str_lt("banana", "apple"));
    assert!(str_has_prefix("moss#numbers", "moss#"));
    assert!(!str_has_prefix("moss", "moss#"));
    assert!(str_contains("error: Invalid column family seen", "Invalid column family"));
    assert!(!str_contains("all good", "Invalid column family"));
}
