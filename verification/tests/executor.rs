use account_sync::account::Account;
use account_sync::executor::{
    prepare, sync_units, Execution, Invocation, SyncMode, SyncResult, SyncUnit, SYNC_TOOL,
};

fn strings(items: &[&str]) -> Vec<String> {
    items.iter().map(|s| s.to_string()).collect()
}

#[test]
fn tool_is_named() {
    assert_eq!(SYNC_TOOL, "rclone");
}

#[test]
fn unit_pairs_remote_and_local_subdirectory() {
    let unit = SyncUnit::new("acct1", "/home/u/sync", "docs");
    assert_eq!(unit.remote_path, "acct1:/docs/");
    assert_eq!(unit.local_path, "/home/u/sync/docs/");
}

#[test]
fn units_of_an_account_follow_its_subdirectories() {
    let account = Account::new(
        "acct1".to_string(),
        "/home/u/sync".to_string(),
        strings(&["docs", "photos"]),
    );
    let units = sync_units(&account);
    assert_eq!(
        units,
        vec![
            SyncUnit {
                remote_path: "acct1:/docs/".to_string(),
                local_path: "/home/u/sync/docs/".to_string(),
            },
            SyncUnit {
                remote_path: "acct1:/photos/".to_string(),
                local_path: "/home/u/sync/photos/".to_string(),
            },
        ]
    );
    assert_eq!(SyncUnit::of_account(&account, 1), units[1]);
    let none = Account::new("a".to_string(), "/l".to_string(), Vec::new());
    assert!(sync_units(&none).is_empty());
}

#[test]
fn incremental_invocation_has_no_baseline_flag() {
    let unit = SyncUnit::new("acct1", "/home/u/sync", "docs");
    let invocation = Invocation::sync(&unit, SyncMode::Incremental);
    assert_eq!(invocation.create_directory, None);
    assert_eq!(
        invocation.arguments,
        strings(&["bisync", "-v", "acct1:/docs/", "/home/u/sync/docs/"])
    );
}

#[test]
fn initializing_invocation_makes_the_directory_and_baselines() {
    let unit = SyncUnit::new("acct1", "/home/u/sync", "docs");
    let invocation = Invocation::sync(&unit, SyncMode::Initializing);
    assert_eq!(invocation.create_directory, Some("/home/u/sync/docs/".to_string()));
    assert_eq!(
        invocation.arguments,
        strings(&["bisync", "-v", "acct1:/docs/", "/home/u/sync/docs/", "--resync"])
    );
}

#[test]
fn registration_invocation_lists_endpoint_and_credentials() {
    let invocation = Invocation::register("acct1", "https://dav.example/", "me", "secret");
    assert_eq!(invocation.create_directory, None);
    assert_eq!(
        invocation.arguments,
        strings(&[
            "config",
            "create",
            "acct1",
            "webdav",
            "url=https://dav.example/",
            "user=me",
            "pass=secret",
            "vendor=fastmail",
            "--non-interactive",
            "--obscure",
        ])
    );
}

#[test]
fn deregistration_invocation_names_the_endpoint() {
    let invocation = Invocation::deregister("acct1");
    assert_eq!(invocation.create_directory, None);
    assert_eq!(invocation.arguments, strings(&["config", "delete", "acct1"]));
}

#[test]
fn exit_code_zero_is_success() {
    let result = SyncResult::from_exit(Some(0), "out".to_string(), "err".to_string());
    assert_eq!(
        result,
        SyncResult { succeeded: true, output: "out".to_string(), error_output: "err".to_string() }
    );
}

#[test]
fn other_exit_codes_are_failures() {
    assert!(!SyncResult::from_exit(Some(1), String::new(), String::new()).succeeded);
    assert!(!SyncResult::from_exit(Some(-1), String::new(), String::new()).succeeded);
    let result = SyncResult::from_exit(Some(7), "o".to_string(), "bad".to_string());
    assert_eq!(result.output, "o");
    assert_eq!(result.error_output, "bad");
}

#[test]
fn missing_exit_code_is_a_failure() {
    assert!(!SyncResult::from_exit(None, String::new(), String::new()).succeeded);
}

#[test]
fn incremental_unit_without_local_directory_is_refused() {
    let unit = SyncUnit::new("acct1", "/home/u/sync", "docs");
    assert_eq!(
        prepare(&unit, SyncMode::Incremental, false),
        Execution::Refused(SyncResult {
            succeeded: false,
            output: String::new(),
            error_output: "The local directory does not exist.".to_string(),
        })
    );
}

#[test]
fn incremental_unit_with_local_directory_is_run() {
    let unit = SyncUnit::new("acct1", "/home/u/sync", "docs");
    assert_eq!(
        prepare(&unit, SyncMode::Incremental, true),
        Execution::Run(Invocation::sync(&unit, SyncMode::Incremental))
    );
}

#[test]
fn initializing_unit_is_run_whether_or_not_the_directory_exists() {
    let unit = SyncUnit::new("acct1", "/home/u/sync", "docs");
    let run = Execution::Run(Invocation::sync(&unit, SyncMode::Initializing));
    assert_eq!(prepare(&unit, SyncMode::Initializing, false), run);
    assert_eq!(prepare(&unit, SyncMode::Initializing, true), run);
}
