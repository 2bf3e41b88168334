use account_sync::account::{clone_accounts, Account};
use account_sync::store::{names_are_distinct, AccountStore, Document, StoreError, DOCUMENT_NAME};

fn account(name: &str, local: &str, subdirectories: &[&str], last_sync: &str) -> Account {
    Account {
        remote_endpoint_name: name.to_string(),
        local_directory: local.to_string(),
        remote_subdirectories: subdirectories.iter().map(|s| s.to_string()).collect(),
        last_sync_time: last_sync.to_string(),
    }
}

fn names(store: &AccountStore) -> Vec<String> {
    store.records().iter().map(|a| a.remote_endpoint_name.clone()).collect()
}

#[test]
fn new_store_is_empty() {
    let store = AccountStore::new();
    assert!(store.is_empty());
    assert_eq!(store.len(), 0);
    assert!(store.records().is_empty());
}

#[test]
fn load_absent_document_gives_empty_store_to_create() {
    assert!(AccountStore::must_create(&Document::Absent));
    let store = AccountStore::load(Document::Absent).unwrap();
    assert!(store.is_empty());
}

#[test]
fn load_present_document_is_not_created_again() {
    assert!(!AccountStore::must_create(&Document::Records(Vec::new())));
    assert!(!AccountStore::must_create(&Document::Malformed));
}

#[test]
fn load_malformed_document_fails() {
    let loaded = AccountStore::load(Document::Malformed);
    assert_eq!(loaded.unwrap_err(), StoreError::Malformed);
}

#[test]
fn load_keeps_records_and_order() {
    let records = vec![
        account("b", "/data/b", &["x"], ""),
        account("a", "/data/a", &["y", "z"], "2015-05-15T00:00:00+00:00"),
    ];
    let store = AccountStore::load(Document::Records(clone_accounts(&records))).unwrap();
    assert_eq!(store.records(), &records);
    assert_eq!(store.len(), 2);
}

#[test]
fn load_refuses_duplicate_names() {
    let records = vec![
        account("a", "/data/a", &["x"], ""),
        account("b", "/data/b", &["y"], ""),
        account("a", "/data/c", &["z"], ""),
    ];
    assert!(!names_are_distinct(&records));
    let loaded = AccountStore::load(Document::Records(records));
    assert_eq!(loaded.unwrap_err(), StoreError::DuplicateName);
}

#[test]
fn names_are_distinct_on_distinct_names() {
    let records = vec![account("a", "/a", &[], ""), account("b", "/a", &[], "")];
    assert!(names_are_distinct(&records));
    assert!(names_are_distinct(&Vec::new()));
}

#[test]
fn upsert_appends_unseen_names() {
    let mut store = AccountStore::new();
    store.upsert(account("first", "/one", &["a"], ""));
    store.upsert(account("second", "/two", &["b"], ""));
    assert_eq!(names(&store), vec!["first".to_string(), "second".to_string()]);
}

#[test]
fn upsert_replaces_in_place() {
    let mut store = AccountStore::new();
    store.upsert(account("first", "/one", &["a"], ""));
    store.upsert(account("second", "/two", &["b"], ""));
    store.upsert(account("third", "/three", &["c"], ""));
    store.upsert(account("second", "/elsewhere", &["b", "d"], "stamp"));
    assert_eq!(
        store.records(),
        &vec![
            account("first", "/one", &["a"], ""),
            account("second", "/elsewhere", &["b", "d"], "stamp"),
            account("third", "/three", &["c"], ""),
        ]
    );
}

#[test]
fn upsert_then_load_round_trip() {
    let mut store = AccountStore::new();
    store.upsert(account("other", "/o", &["q"], ""));
    let a = account("acct", "/home/u/sync", &["docs", "photos"], "2015-05-15T00:00:00+00:00");
    store.upsert(a.clone());
    let reloaded = AccountStore::load(Document::Records(clone_accounts(store.records()))).unwrap();
    assert_eq!(reloaded.records(), store.records());
    assert_eq!(reloaded.get("acct"), Some(&a));
    let matching = reloaded.records().iter().filter(|r| r.remote_endpoint_name == "acct").count();
    assert_eq!(matching, 1);
}

#[test]
fn find_and_get_by_name() {
    let mut store = AccountStore::new();
    store.upsert(account("first", "/one", &["a"], ""));
    store.upsert(account("second", "/two", &["b"], ""));
    assert_eq!(store.find("first"), Some(0));
    assert_eq!(store.find("second"), Some(1));
    assert_eq!(store.find("third"), None);
    assert_eq!(store.get("second"), Some(&account("second", "/two", &["b"], "")));
    assert_eq!(store.get("Second"), None);
}

#[test]
fn remove_takes_out_the_named_account_only() {
    let mut store = AccountStore::new();
    store.upsert(account("first", "/one", &["a"], ""));
    store.upsert(account("second", "/two", &["b"], ""));
    store.upsert(account("third", "/three", &["c"], ""));
    assert!(store.remove("second"));
    assert_eq!(names(&store), vec!["first".to_string(), "third".to_string()]);
}

#[test]
fn remove_twice_is_idempotent() {
    let mut store = AccountStore::new();
    store.upsert(account("first", "/one", &["a"], ""));
    store.upsert(account("second", "/two", &["b"], ""));
    assert!(store.remove("first"));
    let after_first = clone_accounts(store.records());
    assert!(!store.remove("first"));
    assert_eq!(store.records(), &after_first);
    assert_eq!(store.find("first"), None);
}

#[test]
fn remove_from_empty_store_changes_nothing() {
    let mut store = AccountStore::new();
    assert!(!store.remove("nobody"));
    assert!(store.is_empty());
}

#[test]
fn touch_changes_the_time_and_nothing_else() {
    let mut store = AccountStore::new();
    store.upsert(account("first", "/one", &["a"], "old"));
    store.upsert(account("second", "/two", &["b", "c"], ""));
    assert_eq!(store.touch_last_sync_time("second", "2015-05-15T00:00:00+00:00"), Ok(()));
    assert_eq!(
        store.records(),
        &vec![
            account("first", "/one", &["a"], "old"),
            account("second", "/two", &["b", "c"], "2015-05-15T00:00:00+00:00"),
        ]
    );
}

#[test]
fn touch_of_unknown_account_is_reported() {
    let mut store = AccountStore::new();
    store.upsert(account("first", "/one", &["a"], "old"));
    assert_eq!(store.touch_last_sync_time("gone", "now"), Err(StoreError::UnknownAccount));
    assert_eq!(store.records(), &vec![account("first", "/one", &["a"], "old")]);
}

#[test]
fn document_name_is_fixed() {
    assert_eq!(DOCUMENT_NAME, "config.json");
}

#[test]
fn account_eligibility_and_history() {
    let fresh = Account::new("n".to_string(), "/l".to_string(), vec!["d".to_string()]);
    assert_eq!(fresh, account("n", "/l", &["d"], ""));
    assert!(fresh.is_eligible());
    assert!(!fresh.has_synced());
    let stamped = fresh.stamped("2015-05-15T00:00:00+00:00");
    assert_eq!(stamped, account("n", "/l", &["d"], "2015-05-15T00:00:00+00:00"));
    assert!(stamped.has_synced());
    assert!(!account("n", "/l", &[], "").is_eligible());
}
