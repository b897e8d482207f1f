use smrs::schema::{confirm_version, initial_log, latest_version, SchemaEntry, SCHEMA_VERSION};
use smrs::store::{open, str_eq, LinkRecord, LinkStore, StoreError, StoredTable};

fn record(token: &str, session: &str, created_at: i64, deleted_at: Option<i64>) -> LinkRecord {
    LinkRecord {
        token: token.to_string(),
        url: format!("https://{}.example", token),
        session: session.to_string(),
        created_at,
        deleted_at,
    }
}

#[test]
fn create_then_get() {
    let mut s = LinkStore::new();
    assert!(s.create_link("abcde", "https://example.com", "s1", 100).is_ok());
    assert_eq!(s.get_link("abcde"), Some("https://example.com".to_string()));
    assert_eq!(s.get_link("zzzzz"), None);
    assert_eq!(s.records().len(), 1);
    assert_eq!(s.records()[0].created_at, 100);
    assert_eq!(s.records()[0].session, "s1");
    assert!(s.records()[0].deleted_at.is_none());
}

#[test]
fn duplicate_active_token_is_rejected() {
    let mut s = LinkStore::new();
    assert!(s.create_link("abcde", "https://a.example", "s1", 1).is_ok());
    let r = s.create_link("abcde", "https://b.example", "s2", 2);
    assert!(matches!(r, Err(StoreError::UniqueConstraintViolation)));
    assert_eq!(s.records().len(), 1);
    assert_eq!(s.get_link("abcde"), Some("https://a.example".to_string()));
}

#[test]
fn soft_delete_allows_reuse_with_new_time() {
    let mut s = LinkStore::new();
    assert!(s.create_link("abcde", "https://a.example", "s1", 10).is_ok());
    assert_eq!(s.delete_link("abcde", "s1", 20), 1);
    assert!(s.create_link("abcde", "https://b.example", "s2", 30).is_ok());
    assert_eq!(s.records().len(), 2);
    assert_eq!(s.records()[0].deleted_at, Some(20));
    assert_ne!(s.records()[0].created_at, s.records()[1].created_at);
    assert_eq!(s.get_link("abcde"), Some("https://b.example".to_string()));
}

#[test]
fn delete_by_other_session_affects_nothing() {
    let mut s = LinkStore::new();
    assert!(s.create_link("abcde", "https://a.example", "A", 10).is_ok());
    assert_eq!(s.delete_link("abcde", "B", 20), 0);
    assert_eq!(s.get_link("abcde"), Some("https://a.example".to_string()));
    assert!(s.records()[0].deleted_at.is_none());
}

#[test]
fn delete_unknown_or_twice_gives_zero() {
    let mut s = LinkStore::new();
    assert_eq!(s.delete_link("nothere", "A", 5), 0);
    assert!(s.create_link("abcde", "https://a.example", "A", 10).is_ok());
    assert_eq!(s.delete_link("abcde", "A", 20), 1);
    assert_eq!(s.delete_link("abcde", "A", 30), 0);
    assert_eq!(s.records()[0].deleted_at, Some(20));
}

#[test]
fn deleted_token_looks_like_unknown() {
    let mut s = LinkStore::new();
    assert!(s.create_link("abcde", "https://a.example", "A", 10).is_ok());
    assert_eq!(s.delete_link("abcde", "A", 11), 1);
    assert_eq!(s.get_link("abcde"), s.get_link("neverexisted"));
    assert_eq!(s.get_link("abcde"), None);
}

#[test]
fn list_is_newest_first_and_per_session() {
    let mut s = LinkStore::new();
    assert!(s.create_link("first", "https://1.example", "A", 10).is_ok());
    assert!(s.create_link("other", "https://x.example", "B", 11).is_ok());
    assert!(s.create_link("second", "https://2.example", "A", 12).is_ok());
    assert!(s.create_link("third", "https://3.example", "A", 12).is_ok());
    assert_eq!(s.delete_link("second", "A", 13), 1);
    let l = s.list_links("A");
    assert_eq!(l.len(), 2);
    assert_eq!(l[0].token, "third");
    assert_eq!(l[0].created_at, 12);
    assert_eq!(l[1].token, "first");
    assert_eq!(l[1].url, "https://1.example");
    assert_eq!(s.list_links("nobody").len(), 0);
}

#[test]
fn creation_time_never_goes_back() {
    let mut s = LinkStore::new();
    assert!(s.create_link("first", "https://1.example", "A", 50).is_ok());
    assert!(s.create_link("second", "https://2.example", "A", 40).is_ok());
    assert_eq!(s.records()[1].created_at, 50);
}

#[test]
fn from_records_checks_invariant() {
    let ok = LinkStore::from_records(vec![
        record("abcde", "A", 1, Some(2)),
        record("abcde", "B", 3, None),
    ]);
    assert!(ok.is_ok());
    let dup = LinkStore::from_records(vec![record("abcde", "A", 1, None), record("abcde", "B", 3, None)]);
    assert!(matches!(dup, Err(StoreError::Corrupt)));
    let order = LinkStore::from_records(vec![record("abcde", "A", 5, None), record("fghij", "B", 3, None)]);
    assert!(matches!(order, Err(StoreError::Corrupt)));
}

#[test]
fn open_new_store_is_empty() {
    let s = open(None);
    match s {
        Ok(s) => assert_eq!(s.records().len(), 0),
        Err(_) => panic!("a new store opens"),
    }
    let log = initial_log(77);
    assert_eq!(log.len(), 1);
    assert_eq!(log[0].version, SCHEMA_VERSION);
    assert_eq!(log[0].updated_at, 77);
}

#[test]
fn open_rejects_other_schema_version() {
    let t = StoredTable {
        schema_log: vec![SchemaEntry { version: 1, updated_at: 10 }, SchemaEntry { version: 2, updated_at: 20 }],
        records: vec![record("abcde", "A", 1, None)],
    };
    match open(Some(t)) {
        Err(StoreError::SchemaMismatch { expected, found }) => {
            assert_eq!(expected, 1);
            assert_eq!(found, 2);
        }
        _ => panic!("expected a schema mismatch"),
    }
}

#[test]
fn open_existing_store_with_current_schema() {
    let t = StoredTable {
        schema_log: vec![SchemaEntry { version: 1, updated_at: 10 }],
        records: vec![record("abcde", "A", 1, None)],
    };
    match open(Some(t)) {
        Ok(s) => assert_eq!(s.get_link("abcde"), Some("https://abcde.example".to_string())),
        Err(_) => panic!("expected the store to open"),
    }
}

#[test]
fn open_rejects_empty_schema_log() {
    let t = StoredTable { schema_log: vec![], records: vec![] };
    assert!(matches!(open(Some(t)), Err(StoreError::MissingSchema)));
}

#[test]
fn latest_version_by_time_then_position() {
    assert_eq!(latest_version(&vec![]), None);
    let log = vec![
        SchemaEntry { version: 3, updated_at: 30 },
        SchemaEntry { version: 1, updated_at: 10 },
    ];
    assert_eq!(latest_version(&log), Some(3));
    let tie = vec![
        SchemaEntry { version: 2, updated_at: 10 },
        SchemaEntry { version: 1, updated_at: 10 },
    ];
    assert_eq!(latest_version(&tie), Some(1));
    assert!(confirm_version(&tie).is_ok());
    assert!(matches!(confirm_version(&log), Err(StoreError::SchemaMismatch { expected: 1, found: 3 })));
}

#[test]
fn str_eq_compares_characters() {
    assert!(str_eq("abc", "abc"));
    assert!(!str_eq("abc", "abd"));
    assert!(!str_eq("abc", "ab"));
    assert!(str_eq("", ""));
}
