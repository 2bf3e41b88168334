//! The life of one account: registration, first synchronization, update
//! and deletion.
//!
//! Every operation is a small machine. The machine names the next step; the
//! caller carries the step out, with the external tool or the store, and
//! reports whether it succeeded.

use vstd::prelude::*;
use crate::account::{clone_texts, texts, Account, AccountView};
use crate::executor::{
    account_unit,
    account_units,
    deregistration_invocation,
    registration_invocation,
    Invocation,
    InvocationView,
    SyncMode,
    SyncUnit,
    SyncUnitView,
};
use crate::store::{
    distinct_names,
    has_name,
    lemma_remove_idempotent,
    lemma_upsert_then_load,
    loaded,
    lookup,
    removed,
    upserted,
    DocumentView,
    StoreError,
};
use crate::text::{contains_text, occurs_in};

verus! {

/// What is asked for when an account is registered.
#[derive(Debug, PartialEq, Eq)]
pub struct NewAccount {
    pub url: String,
    pub username: String,
    pub password: String,
    pub name: String,
    pub local_directory: String,
    pub remote_subdirectories: Vec<String>,
}

/// Mathematical model of an [`NewAccount`].
pub struct NewAccountView {
    pub url: Seq<char>,
    pub username: Seq<char>,
    pub password: Seq<char>,
    pub name: Seq<char>,
    pub local_directory: Seq<char>,
    pub remote_subdirectories: Seq<Seq<char>>,
}

impl View for NewAccount {
    type V = NewAccountView;

    open spec fn view(&self) -> NewAccountView {
        NewAccountView {
            url: self.url@,
            username: self.username@,
            password: self.password@,
            name: self.name@,
            local_directory: self.local_directory@,
            remote_subdirectories: texts(self.remote_subdirectories@),
        }
    }
}

/// What is asked for when an account is updated. The name tells which
/// account is meant and is not itself changed.
#[derive(Debug, PartialEq, Eq)]
pub struct AccountUpdate {
    pub name: String,
    pub local_directory: String,
    pub remote_subdirectories: Vec<String>,
}

/// Mathematical model of an [`AccountUpdate`].
pub struct AccountUpdateView {
    pub name: Seq<char>,
    pub local_directory: Seq<char>,
    pub remote_subdirectories: Seq<Seq<char>>,
}

impl View for AccountUpdate {
    type V = AccountUpdateView;

    open spec fn view(&self) -> AccountUpdateView {
        AccountUpdateView {
            name: self.name@,
            local_directory: self.local_directory@,
            remote_subdirectories: texts(self.remote_subdirectories@),
        }
    }
}

/// A field of a request.
#[derive(Clone, Copy, Debug, PartialEq, Eq, Structural)]
pub enum Field {
    Url,
    Name,
    RemoteSubdirectories,
    LocalDirectory,
}

/// Why an operation on an account failed.
#[derive(Clone, Copy, Debug, PartialEq, Eq, Structural)]
pub enum LifecycleError {
    /// A field of the request is missing or malformed.
    Validation(Field),
    /// The local directory does not exist.
    Environment,
    /// The external tool refused to register or to forget the endpoint.
    ExternalTool,
    /// The store could not be read or written.
    Persistence,
}

impl LifecycleError {
    /// What the user is told of the failure.
    pub open spec fn message_text(self) -> Seq<char> {
        match self {
            LifecycleError::Validation(Field::Url) => "A URL is required."@,
            LifecycleError::Validation(Field::Name) => "An account name is required."@,
            LifecycleError::Validation(Field::RemoteSubdirectories) =>
                "At least one remote directory is required."@,
            LifecycleError::Validation(Field::LocalDirectory) => "A local directory is required."@,
            LifecycleError::Environment => "An existing local directory is required."@,
            LifecycleError::ExternalTool => "The synchronization tool reported a failure."@,
            LifecycleError::Persistence => "The accounts could not be read or written."@,
        }
    }

    /// What the user is told of the failure.
    pub fn message(&self) -> (text: &'static str)
        ensures
            text@ == self.message_text(),
    {
        match self {
            LifecycleError::Validation(Field::Url) => "A URL is required.",
            LifecycleError::Validation(Field::Name) => "An account name is required.",
            LifecycleError::Validation(Field::RemoteSubdirectories) => {
                "At least one remote directory is required."
            },
            LifecycleError::Validation(Field::LocalDirectory) => "A local directory is required.",
            LifecycleError::Environment => "An existing local directory is required.",
            LifecycleError::ExternalTool => "The synchronization tool reported a failure.",
            LifecycleError::Persistence => "The accounts could not be read or written.",
        }
    }
}

/// Where an account stands.
#[derive(Clone, Copy, Debug, PartialEq, Eq, Structural)]
pub enum LifecycleState {
    Unregistered,
    Registering,
    Initializing,
    Steady,
}

/// The operation that a machine carries out.
#[derive(Clone, Copy, Debug, PartialEq, Eq, Structural)]
pub enum Operation {
    Register,
    Update,
    Delete,
}

/// The step that a machine waits for, or the outcome it came to.
#[derive(Clone, Copy, Debug, PartialEq, Eq)]
pub enum Stage {
    /// The external tool is registering the endpoint.
    Registering,
    /// The subdirectory of this index is synchronized for the first time.
    Initializing(usize),
    /// The store is taking the account.
    Storing,
    /// The external tool is forgetting the endpoint.
    Deregistering,
    /// The store is dropping the account.
    Removing,
    /// The operation is over.
    Finished(Result<(), LifecycleError>),
}

/// A URL is taken as well formed if it names a scheme.
pub open spec fn well_formed_url(url: Seq<char>) -> bool {
    url.len() > 0 && occurs_in(url, "://"@)
}

/// The first fault of a registration request, if it has one.
pub open spec fn registration_check(request: NewAccountView, local_directory_exists: bool) -> Result<
    (),
    LifecycleError,
> {
    if !well_formed_url(request.url) {
        Err(LifecycleError::Validation(Field::Url))
    } else if request.name.len() == 0 {
        Err(LifecycleError::Validation(Field::Name))
    } else if request.remote_subdirectories.len() == 0 {
        Err(LifecycleError::Validation(Field::RemoteSubdirectories))
    } else if request.local_directory.len() == 0 {
        Err(LifecycleError::Validation(Field::LocalDirectory))
    } else if !local_directory_exists {
        Err(LifecycleError::Environment)
    } else {
        Ok(())
    }
}

/// The first fault of an update request, if it has one.
pub open spec fn update_check(update: AccountUpdateView, local_directory_exists: bool) -> Result<
    (),
    LifecycleError,
> {
    if update.remote_subdirectories.len() == 0 {
        Err(LifecycleError::Validation(Field::RemoteSubdirectories))
    } else if update.local_directory.len() == 0 {
        Err(LifecycleError::Validation(Field::LocalDirectory))
    } else if !local_directory_exists {
        Err(LifecycleError::Environment)
    } else {
        Ok(())
    }
}

/// The record of a newly registered account. It has not been synchronized
/// by the scheduler yet.
pub open spec fn registered_account(request: NewAccountView) -> AccountView {
    AccountView {
        name: request.name,
        local_directory: request.local_directory,
        subdirectories: request.remote_subdirectories,
        last_sync_time: Seq::empty(),
    }
}

/// The record of an updated account. The update itself counts as its last
/// synchronization.
pub open spec fn updated_account(update: AccountUpdateView, now: Seq<char>) -> AccountView {
    AccountView {
        name: update.name,
        local_directory: update.local_directory,
        subdirectories: update.remote_subdirectories,
        last_sync_time: now,
    }
}

/// The record that stands for an account about to be deleted.
pub open spec fn departing_account(name: Seq<char>) -> AccountView {
    AccountView {
        name,
        local_directory: Seq::empty(),
        subdirectories: Seq::empty(),
        last_sync_time: Seq::empty(),
    }
}

/// Checks a registration request. The caller says whether the local
/// directory exists.
pub fn validate_registration(request: &NewAccount, local_directory_exists: bool) -> (checked: Result<
    (),
    LifecycleError,
>)
    ensures
        checked == registration_check(request@, local_directory_exists),
{
    if request.url.as_str().is_empty() || !contains_text(request.url.as_str(), "://") {
        Err(LifecycleError::Validation(Field::Url))
    } else if request.name.as_str().is_empty() {
        Err(LifecycleError::Validation(Field::Name))
    } else if request.remote_subdirectories.len() == 0 {
        Err(LifecycleError::Validation(Field::RemoteSubdirectories))
    } else if request.local_directory.as_str().is_empty() {
        Err(LifecycleError::Validation(Field::LocalDirectory))
    } else if !local_directory_exists {
        Err(LifecycleError::Environment)
    } else {
        Ok(())
    }
}

/// Checks an update request. The caller says whether the local directory
/// exists.
pub fn validate_update(update: &AccountUpdate, local_directory_exists: bool) -> (checked: Result<
    (),
    LifecycleError,
>)
    ensures
        checked == update_check(update@, local_directory_exists),
{
    if update.remote_subdirectories.len() == 0 {
        Err(LifecycleError::Validation(Field::RemoteSubdirectories))
    } else if update.local_directory.as_str().is_empty() {
        Err(LifecycleError::Validation(Field::LocalDirectory))
    } else if !local_directory_exists {
        Err(LifecycleError::Environment)
    } else {
        Ok(())
    }
}

/// What the caller is to do next.
#[derive(Debug, PartialEq, Eq)]
pub enum LifecycleStep {
    /// Run the external tool to register the endpoint.
    Register(Invocation),
    /// Synchronize one unit.
    Sync { unit: SyncUnit, mode: SyncMode },
    /// Put the account into the store and persist the store.
    Store(Account),
    /// Run the external tool to forget the endpoint.
    Deregister(Invocation),
    /// Take the account of this name out of the store and persist the store.
    Remove(String),
    /// Nothing: the operation is over, with this outcome.
    Finished(Result<(), LifecycleError>),
}

/// Mathematical model of a [`LifecycleStep`].
pub enum LifecycleStepView {
    Register(InvocationView),
    Sync { unit: SyncUnitView, mode: SyncMode },
    Store(AccountView),
    Deregister(InvocationView),
    Remove(Seq<char>),
    Finished(Result<(), LifecycleError>),
}

impl View for LifecycleStep {
    type V = LifecycleStepView;

    open spec fn view(&self) -> LifecycleStepView {
        match self {
            LifecycleStep::Register(invocation) => LifecycleStepView::Register(invocation@),
            LifecycleStep::Sync { unit, mode } => LifecycleStepView::Sync {
                unit: unit@,
                mode: *mode,
            },
            LifecycleStep::Store(account) => LifecycleStepView::Store(account@),
            LifecycleStep::Deregister(invocation) => LifecycleStepView::Deregister(invocation@),
            LifecycleStep::Remove(name) => LifecycleStepView::Remove(name@),
            LifecycleStep::Finished(outcome) => LifecycleStepView::Finished(*outcome),
        }
    }
}

/// Mathematical model of a [`Lifecycle`].
pub struct LifecycleView {
    pub operation: Operation,
    pub stage: Stage,
    pub account: AccountView,
}

impl LifecycleView {
    /// Where the account stands while the machine is at its stage.
    pub open spec fn state(self) -> LifecycleState {
        match self.stage {
            Stage::Registering => LifecycleState::Registering,
            Stage::Initializing(_) => LifecycleState::Initializing,
            Stage::Storing => LifecycleState::Initializing,
            Stage::Deregistering => LifecycleState::Steady,
            Stage::Removing => LifecycleState::Steady,
            Stage::Finished(Ok(_)) => if self.operation == Operation::Delete {
                LifecycleState::Unregistered
            } else {
                LifecycleState::Steady
            },
            Stage::Finished(Err(_)) => if self.operation == Operation::Register {
                LifecycleState::Unregistered
            } else {
                LifecycleState::Steady
            },
        }
    }

    /// The machine at another stage.
    pub open spec fn at(self, stage: Stage) -> LifecycleView {
        LifecycleView { stage, ..self }
    }

    /// The machine once the operation is over.
    pub open spec fn finished(self, outcome: Result<(), LifecycleError>) -> (
        LifecycleView,
        LifecycleStepView,
    ) {
        (self.at(Stage::Finished(outcome)), LifecycleStepView::Finished(outcome))
    }

    /// The machine about to initialize the subdirectory of index `next`, or
    /// about to store the account if there is no such subdirectory.
    pub open spec fn initializing(self, next: int) -> (LifecycleView, LifecycleStepView) {
        if 0 <= next < self.account.subdirectories.len() {
            (
                self.at(Stage::Initializing(next as usize)),
                LifecycleStepView::Sync {
                    unit: account_unit(self.account, next),
                    mode: SyncMode::Initializing,
                },
            )
        } else {
            (self.at(Stage::Storing), LifecycleStepView::Store(self.account))
        }
    }

    /// The machine after the caller reported on the step it waited for, and
    /// the step it names next.
    ///
    /// A failed registration or deregistration ends the operation. A failed
    /// first synchronization of one subdirectory does not: the next
    /// subdirectory follows whatever the report says.
    pub open spec fn advanced(self, succeeded: bool) -> (LifecycleView, LifecycleStepView) {
        match self.stage {
            Stage::Registering => if succeeded {
                self.initializing(0)
            } else {
                self.finished(Err(LifecycleError::ExternalTool))
            },
            Stage::Initializing(current) => self.initializing(current + 1),
            Stage::Storing => if succeeded {
                self.finished(Ok(()))
            } else {
                self.finished(Err(LifecycleError::Persistence))
            },
            Stage::Deregistering => if succeeded {
                (self.at(Stage::Removing), LifecycleStepView::Remove(self.account.name))
            } else {
                self.finished(Err(LifecycleError::ExternalTool))
            },
            Stage::Removing => if succeeded {
                self.finished(Ok(()))
            } else {
                self.finished(Err(LifecycleError::Persistence))
            },
            Stage::Finished(outcome) => (self, LifecycleStepView::Finished(outcome)),
        }
    }

    /// The machine after the caller reported on one step after another, in
    /// the order of `reports`, and the steps it named on the way.
    pub open spec fn run(self, reports: Seq<bool>) -> (LifecycleView, Seq<LifecycleStepView>)
        decreases reports.len(),
    {
        if reports.len() == 0 {
            (self, Seq::empty())
        } else {
            let (next, step) = self.advanced(reports.first());
            let (last, steps) = next.run(reports.drop_first());
            (last, seq![step] + steps)
        }
    }
}

/// The steps that bring an account into the store: the first
/// synchronization of each of its subdirectories, in order and in the
/// initializing mode, and then the storing of its record.
pub open spec fn initialization_script(account: AccountView) -> Seq<LifecycleStepView> {
    account_units(account).map_values(
        |unit: SyncUnitView| LifecycleStepView::Sync { unit, mode: SyncMode::Initializing },
    ).push(LifecycleStepView::Store(account))
}

/// The machine at the start of a registration.
pub open spec fn registration(request: NewAccountView) -> (LifecycleView, LifecycleStepView) {
    (
        LifecycleView {
            operation: Operation::Register,
            stage: Stage::Registering,
            account: registered_account(request),
        },
        LifecycleStepView::Register(
            registration_invocation(request.name, request.url, request.username, request.password),
        ),
    )
}

/// The machine at the start of an update.
pub open spec fn renewal(update: AccountUpdateView, now: Seq<char>) -> (
    LifecycleView,
    LifecycleStepView,
) {
    LifecycleView {
        operation: Operation::Update,
        stage: Stage::Storing,
        account: updated_account(update, now),
    }.initializing(0)
}

/// The machine at the start of a deletion.
pub open spec fn deletion(name: Seq<char>) -> (LifecycleView, LifecycleStepView) {
    (
        LifecycleView {
            operation: Operation::Delete,
            stage: Stage::Deregistering,
            account: departing_account(name),
        },
        LifecycleStepView::Deregister(deregistration_invocation(name)),
    )
}

/// One operation on one account, under way.
#[derive(Debug)]
pub struct Lifecycle {
    operation: Operation,
    stage: Stage,
    account: Account,
}

impl View for Lifecycle {
    type V = LifecycleView;

    closed spec fn view(&self) -> LifecycleView {
        LifecycleView { operation: self.operation, stage: self.stage, account: self.account@ }
    }
}

impl Lifecycle {
    /// Starts the registration of an account.
    ///
    /// A faulty request is refused with its first fault, and nothing is to
    /// be done. Otherwise the machine asks for the endpoint to be registered
    /// with the external tool.
    pub fn register_and_initialize(request: &NewAccount, local_directory_exists: bool) -> (started:
        Result<(Lifecycle, LifecycleStep), LifecycleError>)
        ensures
            match registration_check(request@, local_directory_exists) {
                Ok(_) => started matches Ok((machine, step)) && (machine@, step@) == registration(
                    request@,
                ),
                Err(fault) => started matches Err(e) && e == fault,
            },
    {
        match validate_registration(request, local_directory_exists) {
            Err(fault) => Err(fault),
            Ok(_) => {
                let account = Account::new(
                    request.name.clone(),
                    request.local_directory.clone(),
                    clone_texts(&request.remote_subdirectories),
                );
                let invocation = Invocation::register(
                    request.name.as_str(),
                    request.url.as_str(),
                    request.username.as_str(),
                    request.password.as_str(),
                );
                let machine = Lifecycle {
                    operation: Operation::Register,
                    stage: Stage::Registering,
                    account,
                };
                Ok((machine, LifecycleStep::Register(invocation)))
            },
        }
    }

    /// Starts the update of an account. `now` is the time of the update in
    /// its written form.
    ///
    /// A faulty request is refused with its first fault, and nothing is to
    /// be done. Otherwise every subdirectory of the request is synchronized
    /// afresh in the initializing mode, whether or not it was configured
    /// before.
    pub fn update(update: &AccountUpdate, local_directory_exists: bool, now: &str) -> (started:
        Result<(Lifecycle, LifecycleStep), LifecycleError>)
        ensures
            match update_check(update@, local_directory_exists) {
                Ok(_) => started matches Ok((machine, step)) && (machine@, step@) == renewal(
                    update@,
                    now@,
                ),
                Err(fault) => started matches Err(e) && e == fault,
            },
    {
        match validate_update(update, local_directory_exists) {
            Err(fault) => Err(fault),
            Ok(_) => {
                let account = Account {
                    remote_endpoint_name: update.name.clone(),
                    local_directory: update.local_directory.clone(),
                    remote_subdirectories: clone_texts(&update.remote_subdirectories),
                    last_sync_time: String::from_str(now),
                };
                let mut machine = Lifecycle {
                    operation: Operation::Update,
                    stage: Stage::Storing,
                    account,
                };
                let step = machine.initialize(0);
                Ok((machine, step))
            },
        }
    }

    /// Starts the deletion of the account that carries `name`. The machine
    /// asks for the endpoint to be forgotten by the external tool. Local
    /// files are never touched.
    pub fn delete(name: &str) -> (started: (Lifecycle, LifecycleStep))
        ensures
            (started.0@, started.1@) == deletion(name@),
    {
        let account = Account::new(String::from_str(name), String::new(), Vec::new());
        assert(account@.subdirectories =~= Seq::<Seq<char>>::empty());
        let machine = Lifecycle {
            operation: Operation::Delete,
            stage: Stage::Deregistering,
            account,
        };
        (machine, LifecycleStep::Deregister(Invocation::deregister(name)))
    }

    fn initialize(&mut self, next: usize) -> (step: LifecycleStep)
        ensures
            (final(self)@, step@) == old(self)@.initializing(next as int),
    {
        if next < self.account.remote_subdirectories.len() {
            self.stage = Stage::Initializing(next);
            LifecycleStep::Sync {
                unit: SyncUnit::of_account(&self.account, next),
                mode: SyncMode::Initializing,
            }
        } else {
            self.stage = Stage::Storing;
            LifecycleStep::Store(self.account.clone())
        }
    }

    fn finish(&mut self, outcome: Result<(), LifecycleError>) -> (step: LifecycleStep)
        ensures
            (final(self)@, step@) == old(self)@.finished(outcome),
    {
        self.stage = Stage::Finished(outcome);
        LifecycleStep::Finished(outcome)
    }

    /// Takes the report on the step that the machine waited for, and names
    /// the next step.
    pub fn advance(&mut self, succeeded: bool) -> (step: LifecycleStep)
        ensures
            (final(self)@, step@) == old(self)@.advanced(succeeded),
    {
        match self.stage {
            Stage::Registering => {
                if succeeded {
                    self.initialize(0)
                } else {
                    self.finish(Err(LifecycleError::ExternalTool))
                }
            },
            Stage::Initializing(current) => {
                let count = self.account.remote_subdirectories.len();
                if count > 0 && current < count - 1 {
                    self.initialize(current + 1)
                } else {
                    self.stage = Stage::Storing;
                    LifecycleStep::Store(self.account.clone())
                }
            },
            Stage::Storing => {
                if succeeded {
                    self.finish(Ok(()))
                } else {
                    self.finish(Err(LifecycleError::Persistence))
                }
            },
            Stage::Deregistering => {
                if succeeded {
                    self.stage = Stage::Removing;
                    LifecycleStep::Remove(self.account.remote_endpoint_name.clone())
                } else {
                    self.finish(Err(LifecycleError::ExternalTool))
                }
            },
            Stage::Removing => {
                if succeeded {
                    self.finish(Ok(()))
                } else {
                    self.finish(Err(LifecycleError::Persistence))
                }
            },
            Stage::Finished(outcome) => LifecycleStep::Finished(outcome),
        }
    }

    /// Where the account stands.
    pub fn state(&self) -> (state: LifecycleState)
        ensures
            state == self@.state(),
    {
        match self.stage {
            Stage::Registering => LifecycleState::Registering,
            Stage::Initializing(_) => LifecycleState::Initializing,
            Stage::Storing => LifecycleState::Initializing,
            Stage::Deregistering => LifecycleState::Steady,
            Stage::Removing => LifecycleState::Steady,
            Stage::Finished(Ok(_)) => match self.operation {
                Operation::Delete => LifecycleState::Unregistered,
                _ => LifecycleState::Steady,
            },
            Stage::Finished(Err(_)) => match self.operation {
                Operation::Register => LifecycleState::Unregistered,
                _ => LifecycleState::Steady,
            },
        }
    }

    /// The outcome of the operation, once it is over.
    pub fn outcome(&self) -> (outcome: Option<Result<(), LifecycleError>>)
        ensures
            outcome == match self@.stage {
                Stage::Finished(result) => Some(result),
                _ => None,
            },
    {
        match self.stage {
            Stage::Finished(result) => Some(result),
            _ => None,
        }
    }
}

/// One report moves the machine by one step.
pub proof fn lemma_run_one(machine: LifecycleView, report: bool)
    ensures
        machine.run(seq![report]) == (
            machine.advanced(report).0,
            seq![machine.advanced(report).1],
        ),
{
    let reports = seq![report];
    let (next, step) = machine.advanced(report);
    assert(reports.first() == report);
    assert(reports.drop_first().len() == 0);
    assert(next.run(reports.drop_first()) == (next, Seq::<LifecycleStepView>::empty()));
    assert(seq![step] + Seq::<LifecycleStepView>::empty() =~= seq![step]);
}

/// Reports taken one list after another are taken as one list.
pub proof fn lemma_run_split(machine: LifecycleView, first: Seq<bool>, second: Seq<bool>)
    ensures
        machine.run(first + second) == ({
            let (between, steps) = machine.run(first);
            let (last, more) = between.run(second);
            (last, steps + more)
        }),
    decreases first.len(),
{
    let (between, steps) = machine.run(first);
    let (last, more) = between.run(second);
    if first.len() == 0 {
        assert(first + second =~= second);
        assert(steps + more =~= more);
    } else {
        let (next, step) = machine.advanced(first.first());
        assert((first + second).first() == first.first());
        assert((first + second).drop_first() =~= first.drop_first() + second);
        lemma_run_split(next, first.drop_first(), second);
        let (_, tail) = next.run(first.drop_first());
        assert(seq![step] + (tail + more) =~= (seq![step] + tail) + more);
    }
}

/// Once the first subdirectory is at work, one report for each subdirectory
/// that is left, whatever it says, brings the machine to the storing of the
/// account, through the rest of the script.
pub proof fn lemma_initializing_runs(machine: LifecycleView, reports: Seq<bool>)
    requires
        machine.account.subdirectories.len() <= usize::MAX,
        machine.stage matches Stage::Initializing(current) && current
            < machine.account.subdirectories.len() && reports.len()
            == machine.account.subdirectories.len() - current,
    ensures
        machine.run(reports) == (
            machine.at(Stage::Storing),
            initialization_script(machine.account).skip(machine.stage->Initializing_0 + 1),
        ),
    decreases reports.len(),
{
    let current = machine.stage->Initializing_0 as int;
    let script = initialization_script(machine.account);
    let count = machine.account.subdirectories.len() as int;
    let (next, step) = machine.advanced(reports.first());
    let (last, steps) = next.run(reports.drop_first());
    assert(step == script[current + 1]);
    assert(machine.run(reports) == (last, seq![step] + steps));
    if current + 1 < count {
        assert(next.stage == Stage::Initializing((current + 1) as usize));
        lemma_initializing_runs(next, reports.drop_first());
        assert(next.at(Stage::Storing) == machine.at(Stage::Storing));
        assert(seq![step] + script.skip(current + 2) =~= script.skip(current + 1));
    } else {
        assert(reports.drop_first().len() == 0);
        assert(next == machine.at(Stage::Storing));
        assert(seq![step] + Seq::<LifecycleStepView>::empty() =~= script.skip(current + 1));
    }
}

/// Registration, from request to store.
///
/// Take a request without fault. If the external tool registers the
/// endpoint and the store takes the record, then, whatever the first
/// synchronizations come to, the machine names exactly the script of the
/// requested account and ends in success with the account in steady state.
/// The record it stores has the fields of the request and no time of last
/// synchronization. A store that takes it holds, under the name, that
/// record and no other, and so does the store that is read back.
pub proof fn lemma_register_then_load(
    records: Seq<AccountView>,
    request: NewAccountView,
    local_directory_exists: bool,
    synced: Seq<bool>,
)
    requires
        distinct_names(records),
        registration_check(request, local_directory_exists) is Ok,
        synced.len() == request.remote_subdirectories.len() <= usize::MAX,
    ensures
        ({
            let (machine, first) = registration(request);
            let account = registered_account(request);
            let (last, steps) = machine.run(seq![true] + synced + seq![true]);
            let stored = upserted(records, account);
            &&& first is Register
            &&& steps == initialization_script(account) + seq![
                LifecycleStepView::Finished(Ok(())),
            ]
            &&& last.state() == LifecycleState::Steady
            &&& account.name == request.name
            &&& account.local_directory == request.local_directory
            &&& account.subdirectories == request.remote_subdirectories
            &&& account.last_sync_time.len() == 0
            &&& loaded(DocumentView::Records(stored)) == Ok::<Seq<AccountView>, StoreError>(stored)
            &&& lookup(stored, request.name) == Some(account)
            &&& stored.filter(|record: AccountView| record.name == account.name) == seq![account]
        }),
{
    let (machine, first) = registration(request);
    let account = registered_account(request);
    let script = initialization_script(account);
    let (next, step) = machine.advanced(true);
    assert(step == script[0]);
    lemma_run_split(machine, seq![true] + synced, seq![true]);
    lemma_run_split(machine, seq![true], synced);
    lemma_run_one(machine, true);
    lemma_initializing_runs(next, synced);
    lemma_run_one(next.at(Stage::Storing), true);
    assert(seq![step] + script.skip(1) =~= script);
    lemma_upsert_then_load(records, account);
}

/// Update, from request to store.
///
/// Take a request without fault. Whatever the synchronizations come to,
/// the machine names the first synchronization, in the initializing mode,
/// of every subdirectory of the request, in order, then the storing of the
/// record of the request; if the store takes it, the update ends in
/// success. The record carries the name of the request, and storing it
/// changes the name of no record.
pub proof fn lemma_update_reinitializes(
    records: Seq<AccountView>,
    update: AccountUpdateView,
    local_directory_exists: bool,
    now: Seq<char>,
    synced: Seq<bool>,
)
    requires
        update_check(update, local_directory_exists) is Ok,
        synced.len() == update.remote_subdirectories.len() <= usize::MAX,
    ensures
        ({
            let (machine, first) = renewal(update, now);
            let account = updated_account(update, now);
            let (last, steps) = machine.run(synced + seq![true]);
            let stored = upserted(records, account);
            &&& seq![first] + steps == initialization_script(account) + seq![
                LifecycleStepView::Finished(Ok(())),
            ]
            &&& initialization_script(account).len() == update.remote_subdirectories.len() + 1
            &&& last.state() == LifecycleState::Steady
            &&& account.name == update.name
            &&& account.subdirectories == update.remote_subdirectories
            &&& forall|i: int|
                0 <= i < records.len() ==> (#[trigger] stored[i]).name == records[i].name
        }),
{
    let (machine, first) = renewal(update, now);
    let account = updated_account(update, now);
    let script = initialization_script(account);
    assert(first == script[0]);
    lemma_run_split(machine, synced, seq![true]);
    lemma_initializing_runs(machine, synced);
    lemma_run_one(machine.at(Stage::Storing), true);
    assert(seq![first] + (script.skip(1) + seq![LifecycleStepView::Finished(Ok(()))]) =~= script
        + seq![LifecycleStepView::Finished(Ok(()))]);
}

/// Deletion is idempotent.
///
/// Whatever the store holds, a deletion in which the external tool forgets
/// the endpoint and the store drops the account ends in success and leaves
/// no record of the name. The machine does not ask whether the account is
/// there, so a second deletion of the same name runs and ends in the same
/// way, and leaves the store as the first left it.
pub proof fn lemma_delete_twice(records: Seq<AccountView>, name: Seq<char>)
    ensures
        ({
            let (machine, first) = deletion(name);
            let (last, steps) = machine.run(seq![true, true]);
            let once = removed(records, name);
            let twice = removed(once, name);
            &&& first is Deregister
            &&& steps == seq![
                LifecycleStepView::Remove(name),
                LifecycleStepView::Finished(Ok(())),
            ]
            &&& last.state() == LifecycleState::Unregistered
            &&& !has_name(once, name)
            &&& twice == once
        }),
{
    let (machine, first) = deletion(name);
    let (next, step) = machine.advanced(true);
    let (after, then) = next.advanced(true);
    assert(seq![true, true] =~= seq![true] + seq![true]);
    lemma_run_split(machine, seq![true], seq![true]);
    lemma_run_one(machine, true);
    lemma_run_one(next, true);
    assert(seq![step] + seq![then] =~= seq![step, then]);
    lemma_remove_idempotent(records, name);
}

} // verus!
