use account_sync::account::{clone_accounts, Account};
use account_sync::executor::{Invocation, SyncMode, SyncUnit};
use account_sync::lifecycle::{
    validate_registration, validate_update, NewAccount, AccountUpdate, Field, Lifecycle,
    LifecycleError, LifecycleState, LifecycleStep,
};
use account_sync::store::{AccountStore, Document};

fn strings(items: &[&str]) -> Vec<String> {
    items.iter().map(|s| s.to_string()).collect()
}

fn request() -> NewAccount {
    NewAccount {
        url: "https://dav.example/remote".to_string(),
        username: "me".to_string(),
        password: "secret".to_string(),
        name: "acct1".to_string(),
        local_directory: "/home/u/sync".to_string(),
        remote_subdirectories: strings(&["docs", "photos"]),
    }
}

fn update() -> AccountUpdate {
    AccountUpdate {
        name: "acct1".to_string(),
        local_directory: "/home/u/other".to_string(),
        remote_subdirectories: strings(&["photos", "music", "notes"]),
    }
}

fn initializing(name: &str, local: &str, subdirectory: &str) -> LifecycleStep {
    LifecycleStep::Sync {
        unit: SyncUnit::new(name, local, subdirectory),
        mode: SyncMode::Initializing,
    }
}

#[test]
fn valid_registration_passes() {
    assert_eq!(validate_registration(&request(), true), Ok(()));
}

#[test]
fn registration_needs_a_url_with_a_scheme() {
    let mut s = request();
    s.url = String::new();
    assert_eq!(validate_registration(&s, true), Err(LifecycleError::Validation(Field::Url)));
    s.url = "dav.example/remote".to_string();
    assert_eq!(validate_registration(&s, true), Err(LifecycleError::Validation(Field::Url)));
    s.url = "https:/dav.example".to_string();
    assert_eq!(validate_registration(&s, true), Err(LifecycleError::Validation(Field::Url)));
    s.url = "://".to_string();
    assert_eq!(validate_registration(&s, true), Ok(()));
}

#[test]
fn registration_needs_a_name() {
    let mut s = request();
    s.name = String::new();
    assert_eq!(validate_registration(&s, true), Err(LifecycleError::Validation(Field::Name)));
}

#[test]
fn registration_needs_a_subdirectory() {
    let mut s = request();
    s.remote_subdirectories = Vec::new();
    assert_eq!(
        validate_registration(&s, true),
        Err(LifecycleError::Validation(Field::RemoteSubdirectories))
    );
}

#[test]
fn registration_needs_a_local_directory() {
    let mut s = request();
    s.local_directory = String::new();
    assert_eq!(
        validate_registration(&s, true),
        Err(LifecycleError::Validation(Field::LocalDirectory))
    );
}

#[test]
fn registration_needs_the_local_directory_on_disk() {
    assert_eq!(validate_registration(&request(), false), Err(LifecycleError::Environment));
}

#[test]
fn registration_reports_the_first_fault() {
    let s = NewAccount {
        url: "nowhere".to_string(),
        username: String::new(),
        password: String::new(),
        name: String::new(),
        local_directory: String::new(),
        remote_subdirectories: Vec::new(),
    };
    assert_eq!(validate_registration(&s, false), Err(LifecycleError::Validation(Field::Url)));
    let mut s = request();
    s.name = String::new();
    s.local_directory = String::new();
    assert_eq!(validate_registration(&s, false), Err(LifecycleError::Validation(Field::Name)));
}

#[test]
fn update_is_checked_like_a_registration_without_url_and_name() {
    assert_eq!(validate_update(&update(), true), Ok(()));
    let mut u = update();
    u.remote_subdirectories = Vec::new();
    u.local_directory = String::new();
    assert_eq!(
        validate_update(&u, false),
        Err(LifecycleError::Validation(Field::RemoteSubdirectories))
    );
    let mut u = update();
    u.local_directory = String::new();
    assert_eq!(validate_update(&u, false), Err(LifecycleError::Validation(Field::LocalDirectory)));
    assert_eq!(validate_update(&update(), false), Err(LifecycleError::Environment));
    let mut u = update();
    u.name = String::new();
    assert_eq!(validate_update(&u, true), Ok(()));
}

#[test]
fn faulty_registration_starts_nothing() {
    let mut s = request();
    s.url = "no scheme".to_string();
    assert_eq!(
        Lifecycle::register_and_initialize(&s, true).unwrap_err(),
        LifecycleError::Validation(Field::Url)
    );
    assert_eq!(
        Lifecycle::register_and_initialize(&request(), false).unwrap_err(),
        LifecycleError::Environment
    );
}

#[test]
fn register_and_initialize_then_load_yields_the_account() {
    let (mut machine, step) = Lifecycle::register_and_initialize(&request(), true).unwrap();
    assert_eq!(machine.state(), LifecycleState::Registering);
    assert_eq!(machine.outcome(), None);
    assert_eq!(
        step,
        LifecycleStep::Register(Invocation::register(
            "acct1",
            "https://dav.example/remote",
            "me",
            "secret"
        ))
    );
    let step = machine.advance(true);
    assert_eq!(step, initializing("acct1", "/home/u/sync", "docs"));
    assert_eq!(machine.state(), LifecycleState::Initializing);
    let step = machine.advance(true);
    assert_eq!(step, initializing("acct1", "/home/u/sync", "photos"));
    let step = machine.advance(true);
    let expected = Account::new(
        "acct1".to_string(),
        "/home/u/sync".to_string(),
        strings(&["docs", "photos"]),
    );
    assert_eq!(step, LifecycleStep::Store(expected.clone()));
    assert_eq!(machine.state(), LifecycleState::Initializing);

    let mut store = AccountStore::new();
    if let LifecycleStep::Store(account) = step {
        store.upsert(account);
    }
    let step = machine.advance(true);
    assert_eq!(step, LifecycleStep::Finished(Ok(())));
    assert_eq!(machine.state(), LifecycleState::Steady);
    assert_eq!(machine.outcome(), Some(Ok(())));

    let loaded = AccountStore::load(Document::Records(clone_accounts(store.records()))).unwrap();
    assert_eq!(loaded.len(), 1);
    assert_eq!(loaded.records()[0], expected);
    assert_eq!(loaded.records()[0].last_sync_time, "");
}

#[test]
fn failed_registration_ends_the_operation() {
    let (mut machine, _) = Lifecycle::register_and_initialize(&request(), true).unwrap();
    let step = machine.advance(false);
    assert_eq!(step, LifecycleStep::Finished(Err(LifecycleError::ExternalTool)));
    assert_eq!(machine.state(), LifecycleState::Unregistered);
    assert_eq!(machine.outcome(), Some(Err(LifecycleError::ExternalTool)));
    assert_eq!(machine.advance(true), LifecycleStep::Finished(Err(LifecycleError::ExternalTool)));
}

#[test]
fn failed_first_synchronization_does_not_end_the_operation() {
    let (mut machine, _) = Lifecycle::register_and_initialize(&request(), true).unwrap();
    machine.advance(true);
    let step = machine.advance(false);
    assert_eq!(step, initializing("acct1", "/home/u/sync", "photos"));
    let step = machine.advance(false);
    assert!(matches!(step, LifecycleStep::Store(_)));
    assert_eq!(machine.advance(true), LifecycleStep::Finished(Ok(())));
}

#[test]
fn failed_store_is_a_persistence_error() {
    let (mut machine, _) = Lifecycle::register_and_initialize(&request(), true).unwrap();
    machine.advance(true);
    machine.advance(true);
    machine.advance(true);
    let step = machine.advance(false);
    assert_eq!(step, LifecycleStep::Finished(Err(LifecycleError::Persistence)));
    assert_eq!(machine.state(), LifecycleState::Unregistered);
}

#[test]
fn update_reinitializes_every_subdirectory_and_keeps_the_name() {
    let mut store = AccountStore::new();
    store.upsert(Account::new("acct0".to_string(), "/zero".to_string(), strings(&["a"])));
    store.upsert(Account::new(
        "acct1".to_string(),
        "/home/u/sync".to_string(),
        strings(&["docs", "photos"]),
    ));

    let (mut machine, step) =
        Lifecycle::update(&update(), true, "2015-05-15T00:00:00+00:00").unwrap();
    assert_eq!(machine.state(), LifecycleState::Initializing);
    assert_eq!(step, initializing("acct1", "/home/u/other", "photos"));
    assert_eq!(machine.advance(true), initializing("acct1", "/home/u/other", "music"));
    assert_eq!(machine.advance(false), initializing("acct1", "/home/u/other", "notes"));
    let step = machine.advance(true);
    let expected = Account {
        remote_endpoint_name: "acct1".to_string(),
        local_directory: "/home/u/other".to_string(),
        remote_subdirectories: strings(&["photos", "music", "notes"]),
        last_sync_time: "2015-05-15T00:00:00+00:00".to_string(),
    };
    assert_eq!(step, LifecycleStep::Store(expected.clone()));
    if let LifecycleStep::Store(account) = step {
        store.upsert(account);
    }
    assert_eq!(machine.advance(true), LifecycleStep::Finished(Ok(())));
    assert_eq!(machine.state(), LifecycleState::Steady);

    let names: Vec<&str> =
        store.records().iter().map(|a| a.remote_endpoint_name.as_str()).collect();
    assert_eq!(names, vec!["acct0", "acct1"]);
    assert_eq!(store.get("acct1"), Some(&expected));
}

#[test]
fn faulty_update_starts_nothing() {
    let mut u = update();
    u.remote_subdirectories = Vec::new();
    assert_eq!(
        Lifecycle::update(&u, true, "now").unwrap_err(),
        LifecycleError::Validation(Field::RemoteSubdirectories)
    );
    assert_eq!(Lifecycle::update(&update(), false, "now").unwrap_err(), LifecycleError::Environment);
}

#[test]
fn failed_store_of_an_update_leaves_the_account_steady() {
    let (mut machine, _) = Lifecycle::update(&update(), true, "now").unwrap();
    machine.advance(true);
    machine.advance(true);
    machine.advance(true);
    assert_eq!(machine.advance(false), LifecycleStep::Finished(Err(LifecycleError::Persistence)));
    assert_eq!(machine.state(), LifecycleState::Steady);
}

#[test]
fn delete_twice_succeeds_and_leaves_no_record() {
    let mut store = AccountStore::new();
    store.upsert(Account::new("acct0".to_string(), "/zero".to_string(), strings(&["a"])));
    store.upsert(Account::new("acct1".to_string(), "/one".to_string(), strings(&["b"])));
    for _ in 0..2 {
        let (mut machine, step) = Lifecycle::delete("acct1");
        assert_eq!(machine.state(), LifecycleState::Steady);
        assert_eq!(step, LifecycleStep::Deregister(Invocation::deregister("acct1")));
        let step = machine.advance(true);
        assert_eq!(step, LifecycleStep::Remove("acct1".to_string()));
        if let LifecycleStep::Remove(name) = step {
            store.remove(&name);
        }
        assert_eq!(machine.advance(true), LifecycleStep::Finished(Ok(())));
        assert_eq!(machine.state(), LifecycleState::Unregistered);
        assert_eq!(machine.outcome(), Some(Ok(())));
        assert_eq!(store.find("acct1"), None);
        assert_eq!(store.len(), 1);
    }
}

#[test]
fn failed_deregistration_keeps_the_account() {
    let (mut machine, _) = Lifecycle::delete("acct1");
    assert_eq!(machine.advance(false), LifecycleStep::Finished(Err(LifecycleError::ExternalTool)));
    assert_eq!(machine.state(), LifecycleState::Steady);
}

#[test]
fn failed_removal_is_a_persistence_error() {
    let (mut machine, _) = Lifecycle::delete("acct1");
    machine.advance(true);
    assert_eq!(machine.advance(false), LifecycleStep::Finished(Err(LifecycleError::Persistence)));
    assert_eq!(machine.state(), LifecycleState::Steady);
}

#[test]
fn every_failure_has_its_message() {
    assert_eq!(LifecycleError::Validation(Field::Url).message(), "A URL is required.");
    assert_eq!(LifecycleError::Validation(Field::Name).message(), "An account name is required.");
    assert_eq!(
        LifecycleError::Validation(Field::RemoteSubdirectories).message(),
        "At least one remote directory is required."
    );
    assert_eq!(
        LifecycleError::Validation(Field::LocalDirectory).message(),
        "A local directory is required."
    );
    assert_eq!(LifecycleError::Environment.message(), "An existing local directory is required.");
    assert_eq!(
        LifecycleError::ExternalTool.message(),
        "The synchronization tool reported a failure."
    );
    assert_eq!(LifecycleError::Persistence.message(), "The accounts could not be read or written.");
}
