//! What is handed to the external synchronization tool, and what comes back.
//!
//! The tool itself is run by the caller. This module fixes the command line
//! of every invocation and the reading of the outcome.

use vstd::prelude::*;
use crate::account::{texts, Account, AccountView};

verus! {

/// Name of the external synchronization tool's executable.
pub const SYNC_TOOL: &'static str = "rclone";

/// How two locations are reconciled.
#[derive(Clone, Copy, Debug, PartialEq, Eq, Structural)]
pub enum SyncMode {
    /// First run: both locations are taken as already reconciled.
    Initializing,
    /// Steady state: changes on either side are merged.
    Incremental,
}

/// Mathematical model of a [`SyncUnit`].
pub struct SyncUnitView {
    pub remote_path: Seq<char>,
    pub local_path: Seq<char>,
}

/// The unit of work for one subdirectory of an account: the subdirectory
/// under the remote endpoint, paired with the subdirectory of the same name
/// under the local directory.
pub open spec fn unit_of(
    name: Seq<char>,
    local_directory: Seq<char>,
    subdirectory: Seq<char>,
) -> SyncUnitView {
    SyncUnitView {
        remote_path: name + ":/"@ + subdirectory + "/"@,
        local_path: local_directory + "/"@ + subdirectory + "/"@,
    }
}

/// The unit of work for the subdirectory of index `index` of an account.
pub open spec fn account_unit(account: AccountView, index: int) -> SyncUnitView {
    unit_of(account.name, account.local_directory, account.subdirectories[index])
}

/// The units of work of an account, in the order of its subdirectories.
pub open spec fn account_units(account: AccountView) -> Seq<SyncUnitView> {
    Seq::new(account.subdirectories.len(), |index: int| account_unit(account, index))
}

/// One remote subdirectory with its local counterpart.
#[derive(Debug, PartialEq, Eq)]
pub struct SyncUnit {
    pub remote_path: String,
    pub local_path: String,
}

impl View for SyncUnit {
    type V = SyncUnitView;

    open spec fn view(&self) -> SyncUnitView {
        SyncUnitView { remote_path: self.remote_path@, local_path: self.local_path@ }
    }
}

impl SyncUnit {
    /// The unit of work for `subdirectory` of the account `name` kept in
    /// `local_directory`.
    pub fn new(name: &str, local_directory: &str, subdirectory: &str) -> (unit: SyncUnit)
        ensures
            unit@ == unit_of(name@, local_directory@, subdirectory@),
    {
        let mut remote_path = String::from_str(name);
        remote_path.append(":/");
        remote_path.append(subdirectory);
        remote_path.append("/");
        let mut local_path = String::from_str(local_directory);
        local_path.append("/");
        local_path.append(subdirectory);
        local_path.append("/");
        SyncUnit { remote_path, local_path }
    }

    /// The unit of work for the subdirectory of index `index` of `account`.
    pub fn of_account(account: &Account, index: usize) -> (unit: SyncUnit)
        requires
            index < account@.subdirectories.len(),
        ensures
            unit@ == account_unit(account@, index as int),
    {
        SyncUnit::new(
            account.remote_endpoint_name.as_str(),
            account.local_directory.as_str(),
            account.remote_subdirectories[index].as_str(),
        )
    }
}

/// The models of a list of units, in order.
pub open spec fn unit_views(units: Seq<SyncUnit>) -> Seq<SyncUnitView> {
    units.map_values(|unit: SyncUnit| unit@)
}

/// The units of work of `account`, in the order of its subdirectories.
pub fn sync_units(account: &Account) -> (units: Vec<SyncUnit>)
    ensures
        unit_views(units@) == account_units(account@),
{
    let mut units: Vec<SyncUnit> = Vec::new();
    let mut index: usize = 0;
    while index < account.remote_subdirectories.len()
        invariant
            index <= account.remote_subdirectories.len(),
            units.len() == index,
            forall|k: int| 0 <= k < index ==> units@[k]@ == account_unit(account@, k),
        decreases account.remote_subdirectories.len() - index,
    {
        units.push(SyncUnit::of_account(account, index));
        index += 1;
    }
    assert(unit_views(units@) =~= account_units(account@));
    units
}

/// Mathematical model of an [`Invocation`].
pub struct InvocationView {
    pub create_directory: Option<Seq<char>>,
    pub arguments: Seq<Seq<char>>,
}

/// One run of the external tool.
#[derive(Debug, PartialEq, Eq)]
pub struct Invocation {
    /// A directory to create, with its parents, before the tool runs.
    pub create_directory: Option<String>,
    /// The arguments after the tool's name.
    pub arguments: Vec<String>,
}

impl View for Invocation {
    type V = InvocationView;

    open spec fn view(&self) -> InvocationView {
        InvocationView {
            create_directory: match self.create_directory {
                Some(directory) => Some(directory@),
                None => None,
            },
            arguments: texts(self.arguments@),
        }
    }
}

/// The invocation that synchronizes one unit. The initializing mode adds the
/// flag that takes both sides as a baseline, and has the local directory
/// made first, because the tool refuses a local path that does not exist.
pub open spec fn sync_invocation(unit: SyncUnitView, mode: SyncMode) -> InvocationView {
    match mode {
        SyncMode::Initializing => InvocationView {
            create_directory: Some(unit.local_path),
            arguments: seq![
                "bisync"@,
                "-v"@,
                unit.remote_path,
                unit.local_path,
                "--resync"@,
            ],
        },
        SyncMode::Incremental => InvocationView {
            create_directory: None,
            arguments: seq!["bisync"@, "-v"@, unit.remote_path, unit.local_path],
        },
    }
}

/// The invocation that registers a remote endpoint with the tool.
pub open spec fn registration_invocation(
    name: Seq<char>,
    url: Seq<char>,
    username: Seq<char>,
    password: Seq<char>,
) -> InvocationView {
    InvocationView {
        create_directory: None,
        arguments: seq![
            "config"@,
            "create"@,
            name,
            "webdav"@,
            "url="@ + url,
            "user="@ + username,
            "pass="@ + password,
            "vendor=fastmail"@,
            "--non-interactive"@,
            "--obscure"@,
        ],
    }
}

/// The invocation that removes a remote endpoint from the tool.
pub open spec fn deregistration_invocation(name: Seq<char>) -> InvocationView {
    InvocationView { create_directory: None, arguments: seq!["config"@, "delete"@, name] }
}

fn prefixed(prefix: &str, value: &str) -> (text: String)
    ensures
        text@ == prefix@ + value@,
{
    let mut text = String::from_str(prefix);
    text.append(value);
    text
}

impl Invocation {
    /// The invocation that synchronizes `unit` in `mode`.
    pub fn sync(unit: &SyncUnit, mode: SyncMode) -> (invocation: Invocation)
        ensures
            invocation@ == sync_invocation(unit@, mode),
    {
        let mut arguments: Vec<String> = Vec::new();
        arguments.push(String::from_str("bisync"));
        arguments.push(String::from_str("-v"));
        arguments.push(unit.remote_path.clone());
        arguments.push(unit.local_path.clone());
        match mode {
            SyncMode::Initializing => {
                arguments.push(String::from_str("--resync"));
                let invocation = Invocation {
                    create_directory: Some(unit.local_path.clone()),
                    arguments,
                };
                assert(invocation@.arguments =~= sync_invocation(unit@, mode).arguments);
                invocation
            },
            SyncMode::Incremental => {
                let invocation = Invocation { create_directory: None, arguments };
                assert(invocation@.arguments =~= sync_invocation(unit@, mode).arguments);
                invocation
            },
        }
    }

    /// The invocation that registers the endpoint `name` at `url` with the
    /// given credentials.
    pub fn register(name: &str, url: &str, username: &str, password: &str) -> (invocation:
        Invocation)
        ensures
            invocation@ == registration_invocation(name@, url@, username@, password@),
    {
        let mut arguments: Vec<String> = Vec::new();
        arguments.push(String::from_str("config"));
        arguments.push(String::from_str("create"));
        arguments.push(String::from_str(name));
        arguments.push(String::from_str("webdav"));
        arguments.push(prefixed("url=", url));
        arguments.push(prefixed("user=", username));
        arguments.push(prefixed("pass=", password));
        arguments.push(String::from_str("vendor=fastmail"));
        arguments.push(String::from_str("--non-interactive"));
        arguments.push(String::from_str("--obscure"));
        let invocation = Invocation { create_directory: None, arguments };
        assert(invocation@.arguments =~= registration_invocation(
            name@,
            url@,
            username@,
            password@,
        ).arguments);
        invocation
    }

    /// The invocation that removes the endpoint `name`.
    pub fn deregister(name: &str) -> (invocation: Invocation)
        ensures
            invocation@ == deregistration_invocation(name@),
    {
        let mut arguments: Vec<String> = Vec::new();
        arguments.push(String::from_str("config"));
        arguments.push(String::from_str("delete"));
        arguments.push(String::from_str(name));
        let invocation = Invocation { create_directory: None, arguments };
        assert(invocation@.arguments =~= deregistration_invocation(name@).arguments);
        invocation
    }
}

/// Mathematical model of a [`SyncResult`].
pub struct SyncResultView {
    pub succeeded: bool,
    pub output: Seq<char>,
    pub error_output: Seq<char>,
}

/// What one run of the external tool came to.
#[derive(Debug, PartialEq, Eq)]
pub struct SyncResult {
    pub succeeded: bool,
    pub output: String,
    pub error_output: String,
}

impl View for SyncResult {
    type V = SyncResultView;

    open spec fn view(&self) -> SyncResultView {
        SyncResultView {
            succeeded: self.succeeded,
            output: self.output@,
            error_output: self.error_output@,
        }
    }
}

impl SyncResult {
    /// Reads the outcome of a run. The run succeeded exactly when the tool
    /// exited with code 0; a run that ended without an exit code failed.
    pub fn from_exit(exit_code: Option<i32>, output: String, error_output: String) -> (result:
        SyncResult)
        ensures
            result@ == (SyncResultView {
                succeeded: exit_code == Some(0i32),
                output: output@,
                error_output: error_output@,
            }),
    {
        let succeeded = match exit_code {
            Some(code) => code == 0,
            None => false,
        };
        SyncResult { succeeded, output, error_output }
    }
}

/// What is to become of one unit: a run of the tool, or a result without
/// a run.
#[derive(Debug, PartialEq, Eq)]
pub enum Execution {
    /// The tool is run with this invocation.
    Run(Invocation),
    /// The tool is not run, and the unit counts as failed with this result.
    Refused(SyncResult),
}

/// Mathematical model of an [`Execution`].
pub enum ExecutionView {
    Run(InvocationView),
    Refused(SyncResultView),
}

impl View for Execution {
    type V = ExecutionView;

    open spec fn view(&self) -> ExecutionView {
        match self {
            Execution::Run(invocation) => ExecutionView::Run(invocation@),
            Execution::Refused(result) => ExecutionView::Refused(result@),
        }
    }
}

/// What becomes of a unit. The local directory of the unit must exist. The
/// initializing mode makes it; the incremental mode does not, and a unit
/// whose local directory is missing fails there without a run of the tool.
pub open spec fn prepared(
    unit: SyncUnitView,
    mode: SyncMode,
    local_path_exists: bool,
) -> ExecutionView {
    if mode == SyncMode::Incremental && !local_path_exists {
        ExecutionView::Refused(
            SyncResultView {
                succeeded: false,
                output: Seq::empty(),
                error_output: "The local directory does not exist."@,
            },
        )
    } else {
        ExecutionView::Run(sync_invocation(unit, mode))
    }
}

/// Decides what becomes of `unit` in `mode`. The caller says whether the
/// local directory of the unit exists.
pub fn prepare(unit: &SyncUnit, mode: SyncMode, local_path_exists: bool) -> (execution: Execution)
    ensures
        execution@ == prepared(unit@, mode, local_path_exists),
{
    match mode {
        SyncMode::Incremental => {
            if local_path_exists {
                Execution::Run(Invocation::sync(unit, mode))
            } else {
                Execution::Refused(
                    SyncResult {
                        succeeded: false,
                        output: String::new(),
                        error_output: String::from_str("The local directory does not exist."),
                    },
                )
            }
        },
        SyncMode::Initializing => Execution::Run(Invocation::sync(unit, mode)),
    }
}

} // verus!
