//! The scheduler: one cycle after another over all accounts.
//!
//! The scheduler is a machine that the caller drives. It names the next
//! thing to do as a [`Directive`]; the caller does it and reports back. The
//! machine holds the guard that keeps a second cycle from starting while
//! one is under way, and the status shown to the user.

use vstd::prelude::*;
use crate::account::{account_views, Account, AccountView};
use crate::executor::{
    account_unit,
    account_units,
    SyncMode,
    SyncResult,
    SyncUnit,
    SyncUnitView,
};
use crate::sequences::{lemma_filter_drops_all, lemma_filter_keeps_all};
use crate::store::{distinct_names, touched};

verus! {

/// Seconds between the end of one cycle and the start of the next, unless
/// the caller chooses otherwise.
pub const DEFAULT_INTERVAL_SECONDS: u64 = 60;

/// The signal shown to the user.
#[derive(Clone, Copy, Debug, PartialEq, Eq, Structural)]
pub enum Status {
    /// There is nothing to synchronize.
    Unset,
    /// A cycle is under way.
    Running,
    /// The last cycle is over and the next has not begun.
    Idle,
}

/// What the scheduler waits for.
#[derive(Clone, Copy, Debug, PartialEq, Eq, Structural)]
pub enum Phase {
    /// The loop does not run.
    Stopped,
    /// A cycle has begun and waits for the accounts and the time.
    Loading,
    /// A cycle waits for the synchronization of one unit.
    Syncing,
    /// A cycle waits for the store to record the time of an account.
    Touching,
    /// The loop waits for the next cycle.
    Sleeping,
}

/// What the caller is to do next.
#[derive(Debug, PartialEq, Eq)]
pub enum Directive {
    /// Read the accounts from the store and the time from the clock.
    Load,
    /// Synchronize one unit.
    Sync { unit: SyncUnit, mode: SyncMode },
    /// Record the time of the last synchronization of an account.
    Touch { name: String, timestamp: String },
    /// Wait this long, then report a tick.
    Sleep { seconds: u64 },
    /// Leave the loop: there is no account to synchronize.
    Halt,
    /// Nothing new: go on with what is under way.
    Nothing,
}

/// Mathematical model of a [`Directive`].
pub enum DirectiveView {
    Load,
    Sync { unit: SyncUnitView, mode: SyncMode },
    Touch { name: Seq<char>, timestamp: Seq<char> },
    Sleep { seconds: u64 },
    Halt,
    Nothing,
}

impl View for Directive {
    type V = DirectiveView;

    open spec fn view(&self) -> DirectiveView {
        match self {
            Directive::Load => DirectiveView::Load,
            Directive::Sync { unit, mode } => DirectiveView::Sync { unit: unit@, mode: *mode },
            Directive::Touch { name, timestamp } => DirectiveView::Touch {
                name: name@,
                timestamp: timestamp@,
            },
            Directive::Sleep { seconds } => DirectiveView::Sleep { seconds: *seconds },
            Directive::Halt => DirectiveView::Halt,
            Directive::Nothing => DirectiveView::Nothing,
        }
    }
}

/// Holds of the accounts that take part in scheduled cycles.
pub open spec fn is_eligible() -> spec_fn(AccountView) -> bool {
    |account: AccountView| account.eligible()
}

/// The accounts that take part in scheduled cycles, in their order.
pub open spec fn eligible_accounts(accounts: Seq<AccountView>) -> Seq<AccountView> {
    accounts.filter(is_eligible())
}

/// Mathematical model of a [`Scheduler`].
pub struct SchedulerView {
    /// What the scheduler waits for.
    pub phase: Phase,
    /// Whether the loop has been started and has not seen the accounts yet.
    pub starting: bool,
    /// Seconds between two cycles.
    pub interval_seconds: u64,
    /// The accounts of the cycle, as they were read at its start.
    pub accounts: Seq<AccountView>,
    /// The time at which the cycle started, in its written form.
    pub started_at: Seq<char>,
    /// The index of the account at work.
    pub account: int,
    /// The index of the subdirectory at work.
    pub unit: int,
    /// How many steps of the cycle have failed so far.
    pub failures: usize,
}

/// A count kept in a machine word: it stops at the largest one.
pub open spec fn saturated(count: int) -> usize {
    if count <= usize::MAX {
        count as usize
    } else {
        usize::MAX
    }
}

/// How many of the outcomes are failures.
pub open spec fn failed(outcomes: Seq<bool>) -> nat
    decreases outcomes.len(),
{
    if outcomes.len() == 0 {
        0
    } else if outcomes.first() {
        failed(outcomes.drop_first())
    } else {
        1 + failed(outcomes.drop_first())
    }
}

impl SchedulerView {
    /// The invariant of the machine: a cycle works on eligible accounts
    /// only, and what it waits for exists.
    pub open spec fn wf(self) -> bool {
        &&& forall|i: int| 0 <= i < self.accounts.len() ==> (#[trigger] self.accounts[i]).eligible()
        &&& self.phase == Phase::Syncing ==> 0 <= self.account < self.accounts.len() && 0
            <= self.unit < self.accounts[self.account].subdirectories.len()
        &&& self.phase == Phase::Touching ==> 0 <= self.account < self.accounts.len()
    }

    /// Whether a cycle is under way.
    pub open spec fn in_cycle(self) -> bool {
        self.phase == Phase::Loading || self.phase == Phase::Syncing || self.phase
            == Phase::Touching
    }

    /// The signal shown to the user.
    pub open spec fn status(self) -> Status {
        match self.phase {
            Phase::Stopped => Status::Unset,
            Phase::Sleeping => Status::Idle,
            _ => Status::Running,
        }
    }

    /// The machine as a request for a new cycle leaves it.
    pub open spec fn begun(self, starting: bool) -> (SchedulerView, DirectiveView) {
        (SchedulerView { phase: Phase::Loading, starting, ..self }, DirectiveView::Load)
    }

    /// The machine as it goes to sleep.
    pub open spec fn asleep(self) -> (SchedulerView, DirectiveView) {
        (
            SchedulerView { phase: Phase::Sleeping, starting: false, ..self },
            DirectiveView::Sleep { seconds: self.interval_seconds },
        )
    }

    /// Starting the loop. A loop that runs is not started again.
    pub open spec fn started(self) -> (SchedulerView, DirectiveView) {
        if self.phase == Phase::Stopped {
            self.begun(true)
        } else {
            (self, DirectiveView::Nothing)
        }
    }

    /// The end of the wait between two cycles.
    pub open spec fn ticked(self) -> (SchedulerView, DirectiveView) {
        if self.phase == Phase::Sleeping {
            self.begun(false)
        } else {
            (self, DirectiveView::Nothing)
        }
    }

    /// A request for a cycle at once. While a cycle is under way the
    /// request changes nothing.
    pub open spec fn forced(self) -> (SchedulerView, DirectiveView) {
        match self.phase {
            Phase::Stopped => self.begun(true),
            Phase::Sleeping => self.begun(false),
            _ => (self, DirectiveView::Nothing),
        }
    }

    /// A request to end the loop. A sleeping loop ends at once. A cycle
    /// under way is never cut short: the request changes nothing then, and
    /// is to be made again once the cycle is over.
    pub open spec fn halted(self) -> (SchedulerView, DirectiveView) {
        if self.phase == Phase::Sleeping {
            (
                SchedulerView { phase: Phase::Stopped, starting: false, ..self },
                DirectiveView::Halt,
            )
        } else {
            (self, DirectiveView::Nothing)
        }
    }

    /// The accounts and the time have been read.
    ///
    /// A loop that finds no account when it is started stops at once. In
    /// every other case the cycle takes up the eligible accounts in their
    /// order, and sleeps if there are none.
    pub open spec fn loaded(self, accounts: Seq<AccountView>, now: Seq<char>) -> (
        SchedulerView,
        DirectiveView,
    ) {
        if self.phase != Phase::Loading {
            (self, DirectiveView::Nothing)
        } else if self.starting && accounts.len() == 0 {
            (
                SchedulerView { phase: Phase::Stopped, starting: false, ..self },
                DirectiveView::Halt,
            )
        } else {
            let cycle = SchedulerView {
                phase: Phase::Syncing,
                starting: false,
                accounts: eligible_accounts(accounts),
                started_at: now,
                account: 0,
                unit: 0,
                failures: 0,
                ..self
            };
            if cycle.accounts.len() == 0 {
                cycle.asleep()
            } else {
                (cycle, cycle.sync_directive())
            }
        }
    }

    /// The accounts could not be read. The cycle is given up and the next
    /// one tries again.
    pub open spec fn load_failed(self) -> (SchedulerView, DirectiveView) {
        if self.phase == Phase::Loading {
            self.asleep()
        } else {
            (self, DirectiveView::Nothing)
        }
    }

    /// The directive to synchronize the unit at work.
    pub open spec fn sync_directive(self) -> DirectiveView {
        DirectiveView::Sync {
            unit: account_unit(self.accounts[self.account], self.unit),
            mode: SyncMode::Incremental,
        }
    }

    /// The directive to record the time of the account at work.
    pub open spec fn touch_directive(self) -> DirectiveView {
        DirectiveView::Touch {
            name: self.accounts[self.account].name,
            timestamp: self.started_at,
        }
    }

    /// The machine with the outcome of a step taken note of.
    pub open spec fn noted(self, succeeded: bool) -> SchedulerView {
        if succeeded {
            self
        } else {
            SchedulerView { failures: saturated(self.failures + 1), ..self }
        }
    }

    /// A unit has been synchronized. A failure is counted and makes no
    /// difference to what follows: the next unit of the account, or the
    /// recording of the account's time after its last unit.
    pub open spec fn synced(self, succeeded: bool) -> (SchedulerView, DirectiveView) {
        if self.phase != Phase::Syncing {
            (self, DirectiveView::Nothing)
        } else if self.unit + 1 < self.accounts[self.account].subdirectories.len() {
            let next = SchedulerView { unit: self.unit + 1, ..self.noted(succeeded) };
            (next, next.sync_directive())
        } else {
            let next = SchedulerView { phase: Phase::Touching, ..self.noted(succeeded) };
            (next, next.touch_directive())
        }
    }

    /// The time of an account has been recorded, or could not be. A failure
    /// is counted and makes no difference to what follows: the next
    /// account, and after the last one the end of the cycle.
    pub open spec fn touched(self, recorded: bool) -> (SchedulerView, DirectiveView) {
        if self.phase != Phase::Touching {
            (self, DirectiveView::Nothing)
        } else if self.account + 1 < self.accounts.len() {
            let next = SchedulerView {
                phase: Phase::Syncing,
                account: self.account + 1,
                unit: 0,
                ..self.noted(recorded)
            };
            (next, next.sync_directive())
        } else {
            self.noted(recorded).asleep()
        }
    }
}

impl SchedulerView {
    /// The directive that the caller is carrying out while a cycle waits
    /// for a unit or for the store.
    pub open spec fn at_hand(self) -> DirectiveView {
        if self.phase == Phase::Touching {
            self.touch_directive()
        } else {
            self.sync_directive()
        }
    }

    /// The machine after the caller carried out the directive at hand and
    /// told whether it succeeded, and the directive that follows.
    pub open spec fn answered(self, succeeded: bool) -> (SchedulerView, DirectiveView) {
        match self.phase {
            Phase::Syncing => self.synced(succeeded),
            Phase::Touching => self.touched(succeeded),
            _ => (self, DirectiveView::Nothing),
        }
    }

    /// The machine after the caller carried out one directive after
    /// another, with the given outcomes, and the directives that followed.
    pub open spec fn run(self, outcomes: Seq<bool>) -> (SchedulerView, Seq<DirectiveView>)
        decreases outcomes.len(),
    {
        if outcomes.len() == 0 {
            (self, Seq::empty())
        } else {
            let (next, directive) = self.answered(outcomes.first());
            let (last, directives) = next.run(outcomes.drop_first());
            (last, seq![directive] + directives)
        }
    }

    /// What is left of the cycle's script, from the directive at hand on.
    pub open spec fn remaining(self) -> Seq<DirectiveView> {
        let account = self.accounts[self.account];
        let done = if self.phase == Phase::Touching {
            account.subdirectories.len() as int
        } else {
            self.unit
        };
        account_script(account, self.started_at).skip(done) + cycle_script(
            self.accounts.skip(self.account + 1),
            self.started_at,
            self.interval_seconds,
        )
    }
}

/// What a cycle does for one account: it synchronizes every subdirectory,
/// in order and in the incremental mode, and then records the time at which
/// the cycle started.
pub open spec fn account_script(account: AccountView, timestamp: Seq<char>) -> Seq<
    DirectiveView,
> {
    account_units(account).map_values(
        |unit: SyncUnitView| DirectiveView::Sync { unit, mode: SyncMode::Incremental },
    ).push(DirectiveView::Touch { name: account.name, timestamp })
}

/// What a cycle does: the script of each account, in the order of the
/// accounts, and then the wait for the next cycle.
pub open spec fn cycle_script(
    accounts: Seq<AccountView>,
    timestamp: Seq<char>,
    interval_seconds: u64,
) -> Seq<DirectiveView>
    decreases accounts.len(),
{
    if accounts.len() == 0 {
        seq![DirectiveView::Sleep { seconds: interval_seconds }]
    } else {
        account_script(accounts.first(), timestamp) + cycle_script(
            accounts.drop_first(),
            timestamp,
            interval_seconds,
        )
    }
}

/// The number of units of work of the accounts.
pub open spec fn unit_count(accounts: Seq<AccountView>) -> nat
    decreases accounts.len(),
{
    if accounts.len() == 0 {
        0
    } else {
        accounts.first().subdirectories.len() + unit_count(accounts.drop_first())
    }
}

/// Holds of the directives that record a time.
pub open spec fn is_touch() -> spec_fn(DirectiveView) -> bool {
    |directive: DirectiveView| directive is Touch
}

/// Holds of the directives that synchronize a unit.
pub open spec fn is_sync() -> spec_fn(DirectiveView) -> bool {
    |directive: DirectiveView| directive is Sync
}

/// The directive that records `timestamp` for an account.
pub open spec fn touch_of(timestamp: Seq<char>) -> spec_fn(AccountView) -> DirectiveView {
    |account: AccountView| DirectiveView::Touch { name: account.name, timestamp }
}

/// A script has one directive for each unit, one for each account, and the
/// wait at its end.
pub proof fn lemma_cycle_script_len(
    accounts: Seq<AccountView>,
    timestamp: Seq<char>,
    interval_seconds: u64,
)
    ensures
        cycle_script(accounts, timestamp, interval_seconds).len() == unit_count(accounts)
            + accounts.len() + 1,
        cycle_script(accounts, timestamp, interval_seconds).last() == (DirectiveView::Sleep {
            seconds: interval_seconds,
        }),
    decreases accounts.len(),
{
    if accounts.len() > 0 {
        lemma_cycle_script_len(accounts.drop_first(), timestamp, interval_seconds);
    }
}

/// What the script of one account records and synchronizes: the time once,
/// and every unit.
pub proof fn lemma_account_script_parts(account: AccountView, timestamp: Seq<char>)
    ensures
        account_script(account, timestamp).filter(is_touch()) == seq![
            touch_of(timestamp)(account),
        ],
        account_script(account, timestamp).filter(is_sync()).len()
            == account.subdirectories.len(),
{
    let syncs = account_units(account).map_values(
        |unit: SyncUnitView| DirectiveView::Sync { unit, mode: SyncMode::Incremental },
    );
    let touch = DirectiveView::Touch { name: account.name, timestamp };
    assert(account_script(account, timestamp) == syncs.push(touch));
    assert forall|i: int| 0 <= i < syncs.len() implies !is_touch()(#[trigger] syncs[i]) by {}
    assert forall|i: int| 0 <= i < syncs.len() implies is_sync()(#[trigger] syncs[i]) by {}
    lemma_filter_drops_all(syncs, is_touch());
    lemma_filter_keeps_all(syncs, is_sync());
    syncs.lemma_filter_push(touch, is_touch());
    syncs.lemma_filter_push(touch, is_sync());
    assert(Seq::<DirectiveView>::empty().push(touch) =~= seq![touch]);
}

/// The times recorded in a script: one for each account, in the order of
/// the accounts, each the time at which the cycle started.
pub proof fn lemma_cycle_script_touches(
    accounts: Seq<AccountView>,
    timestamp: Seq<char>,
    interval_seconds: u64,
)
    ensures
        cycle_script(accounts, timestamp, interval_seconds).filter(is_touch())
            == accounts.map_values(touch_of(timestamp)),
    decreases accounts.len(),
{
    let script = cycle_script(accounts, timestamp, interval_seconds);
    let touches = accounts.map_values(touch_of(timestamp));
    if accounts.len() == 0 {
        assert forall|i: int| 0 <= i < script.len() implies !is_touch()(#[trigger] script[i]) by {}
        lemma_filter_drops_all(script, is_touch());
        assert(touches =~= Seq::<DirectiveView>::empty());
    } else {
        let mine = account_script(accounts.first(), timestamp);
        let rest = cycle_script(accounts.drop_first(), timestamp, interval_seconds);
        assert(script == mine + rest);
        lemma_cycle_script_touches(accounts.drop_first(), timestamp, interval_seconds);
        lemma_account_script_parts(accounts.first(), timestamp);
        Seq::filter_distributes_over_add(mine, rest, is_touch());
        assert(seq![touch_of(timestamp)(accounts.first())] + accounts.drop_first().map_values(
            touch_of(timestamp),
        ) =~= touches);
    }
}

/// The units synchronized in a script: every unit of every account.
pub proof fn lemma_cycle_script_syncs(
    accounts: Seq<AccountView>,
    timestamp: Seq<char>,
    interval_seconds: u64,
)
    ensures
        cycle_script(accounts, timestamp, interval_seconds).filter(is_sync()).len() == unit_count(
            accounts,
        ),
    decreases accounts.len(),
{
    let script = cycle_script(accounts, timestamp, interval_seconds);
    if accounts.len() == 0 {
        assert forall|i: int| 0 <= i < script.len() implies !is_sync()(#[trigger] script[i]) by {}
        lemma_filter_drops_all(script, is_sync());
    } else {
        let mine = account_script(accounts.first(), timestamp);
        let rest = cycle_script(accounts.drop_first(), timestamp, interval_seconds);
        assert(script == mine + rest);
        lemma_cycle_script_syncs(accounts.drop_first(), timestamp, interval_seconds);
        lemma_account_script_parts(accounts.first(), timestamp);
        Seq::filter_distributes_over_add(mine, rest, is_sync());
    }
}

/// From any point of a cycle, one outcome after another, whatever they
/// are, brings the machine through the rest of the script to its sleep.
pub proof fn lemma_run_remaining(s: SchedulerView, outcomes: Seq<bool>)
    requires
        s.wf(),
        s.phase == Phase::Syncing || s.phase == Phase::Touching,
        outcomes.len() == s.remaining().len() - 1,
    ensures
        ({
            let rest = s.remaining();
            let (last, directives) = s.run(outcomes);
            &&& rest.len() >= 2
            &&& rest[0] == s.at_hand()
            &&& directives == rest.skip(1)
            &&& last.phase == Phase::Sleeping
            &&& last.accounts == s.accounts
            &&& last.started_at == s.started_at
            &&& last.interval_seconds == s.interval_seconds
            &&& last.failures == saturated(s.failures + failed(outcomes))
        }),
    decreases s.remaining().len(),
{
    let account = s.accounts[s.account];
    let count = account.subdirectories.len() as int;
    let mine = account_script(account, s.started_at);
    let later = s.accounts.skip(s.account + 1);
    let tail = cycle_script(later, s.started_at, s.interval_seconds);
    let rest = s.remaining();
    lemma_cycle_script_len(later, s.started_at, s.interval_seconds);
    assert(mine.len() == count + 1);
    assert(outcomes.len() >= 1);
    let (next, directive) = s.answered(outcomes.first());
    let (last, directives) = next.run(outcomes.drop_first());
    assert(s.run(outcomes) == (last, seq![directive] + directives));
    assert(next.accounts == s.accounts);
    if s.phase == Phase::Syncing {
        assert(rest[0] == mine[s.unit]);
        assert(rest.skip(1) =~= next.remaining());
        lemma_run_remaining(next, outcomes.drop_first());
        assert(seq![directive] + next.remaining().skip(1) =~= next.remaining());
    } else if s.account + 1 < s.accounts.len() {
        assert(rest[0] == mine[count]);
        assert(later.first() == s.accounts[s.account + 1]);
        assert(later.drop_first() =~= s.accounts.skip(s.account + 2));
        let theirs = account_script(s.accounts[s.account + 1], s.started_at);
        assert(theirs.skip(0) =~= theirs);
        assert(tail == next.remaining());
        assert(rest.skip(1) =~= tail);
        lemma_run_remaining(next, outcomes.drop_first());
        assert(seq![directive] + next.remaining().skip(1) =~= next.remaining());
    } else {
        assert(rest[0] == mine[count]);
        assert(later.len() == 0);
        assert(rest =~= seq![mine[count], directive]);
        assert(outcomes.drop_first().len() == 0);
        assert(failed(outcomes.drop_first()) == 0);
        assert(next.run(outcomes.drop_first()) == (next, Seq::<DirectiveView>::empty()));
        assert(seq![directive] + Seq::<DirectiveView>::empty() =~= rest.skip(1));
    }
}

/// A cycle runs to its end whatever fails on the way.
///
/// Take a scheduler that waits for the accounts of a cycle, any accounts
/// and time, and any outcomes of the steps of the cycle, as many of them
/// failures as one likes. The cycle follows the script of the eligible
/// accounts, directive for directive. The script records the time of the
/// cycle once for every eligible account, after the units of that account.
/// When it ends the scheduler sleeps, shows the idle status, and has
/// counted the failures.
pub proof fn lemma_cycle_completes(
    s: SchedulerView,
    accounts: Seq<AccountView>,
    now: Seq<char>,
    outcomes: Seq<bool>,
)
    requires
        s.phase == Phase::Loading,
        !(s.starting && accounts.len() == 0),
        outcomes.len() == unit_count(eligible_accounts(accounts)) + eligible_accounts(
            accounts,
        ).len(),
    ensures
        ({
            let (cycle, first) = s.loaded(accounts, now);
            let eligible = eligible_accounts(accounts);
            let script = cycle_script(eligible, now, s.interval_seconds);
            let (last, directives) = cycle.run(outcomes);
            &&& cycle.wf()
            &&& last.failures == saturated(failed(outcomes) as int)
            &&& seq![first] + directives == script
            &&& script.len() == unit_count(eligible) + eligible.len() + 1
            &&& script.filter(is_touch()) == eligible.map_values(touch_of(now))
            &&& script.filter(is_sync()).len() == unit_count(eligible)
            &&& last.phase == Phase::Sleeping
            &&& last.status() == Status::Idle
        }),
{
    let (cycle, first) = s.loaded(accounts, now);
    let eligible = eligible_accounts(accounts);
    let script = cycle_script(eligible, now, s.interval_seconds);
    lemma_cycle_script_len(eligible, now, s.interval_seconds);
    lemma_cycle_script_touches(eligible, now, s.interval_seconds);
    lemma_cycle_script_syncs(eligible, now, s.interval_seconds);
    assert forall|i: int| 0 <= i < eligible.len() implies (#[trigger] eligible[i]).eligible() by {
        accounts.lemma_filter_pred(is_eligible(), i);
    }
    if eligible.len() == 0 {
        assert(cycle.run(outcomes) == (cycle, Seq::<DirectiveView>::empty()));
        assert(seq![first] + Seq::<DirectiveView>::empty() =~= script);
    } else {
        let mine = account_script(eligible[0], now);
        assert(mine.skip(0) =~= mine);
        assert(eligible.skip(1) =~= eligible.drop_first());
        assert(cycle.remaining() == script);
        lemma_run_remaining(cycle, outcomes);
        assert(seq![first] + script.skip(1) =~= script);
    }
}

/// The names of the accounts, in their order.
pub open spec fn names_of(accounts: Seq<AccountView>) -> Seq<Seq<char>> {
    accounts.map_values(|account: AccountView| account.name)
}

/// The records after the times of the accounts of `names` were recorded,
/// one after another.
pub open spec fn touched_all(
    records: Seq<AccountView>,
    names: Seq<Seq<char>>,
    timestamp: Seq<char>,
) -> Seq<AccountView>
    decreases names.len(),
{
    if names.len() == 0 {
        records
    } else {
        touched(touched_all(records, names.drop_last(), timestamp), names.last(), timestamp)
    }
}

/// The records after a cycle: every eligible account carries the time of
/// the cycle, and nothing else has changed.
pub open spec fn after_cycle(records: Seq<AccountView>, timestamp: Seq<char>) -> Seq<
    AccountView,
> {
    records.map_values(
        |record: AccountView|
            if record.eligible() {
                record.stamped(timestamp)
            } else {
                record
            },
    )
}

/// Recording a time for one name after another stamps the records of those
/// names.
pub proof fn lemma_touched_all(
    records: Seq<AccountView>,
    names: Seq<Seq<char>>,
    timestamp: Seq<char>,
)
    ensures
        touched_all(records, names, timestamp) == records.map_values(
            |record: AccountView|
                if names.contains(record.name) {
                    record.stamped(timestamp)
                } else {
                    record
                },
        ),
    decreases names.len(),
{
    let stamped = records.map_values(
        |record: AccountView|
            if names.contains(record.name) {
                record.stamped(timestamp)
            } else {
                record
            },
    );
    if names.len() == 0 {
        assert(stamped =~= records);
    } else {
        let front = names.drop_last();
        lemma_touched_all(records, front, timestamp);
        let before = touched_all(records, front, timestamp);
        assert forall|i: int| 0 <= i < records.len() implies touched(
            before,
            names.last(),
            timestamp,
        )[i] == #[trigger] stamped[i] by {
            let name = records[i].name;
            assert(names[names.len() - 1] == names.last());
            if front.contains(name) {
                let k = choose|k: int| 0 <= k < front.len() && front[k] == name;
                assert(names[k] == name);
            }
            if names.contains(name) && name != names.last() {
                let k = choose|k: int| 0 <= k < names.len() && names[k] == name;
                assert(front[k] == name);
            }
        }
        assert(touched(before, names.last(), timestamp) =~= stamped);
    }
}

/// What a cycle leaves in the store.
///
/// Take a store and the time of a cycle. When the caller has recorded the
/// times that the script of the cycle names, in its order, every account
/// that is eligible carries the time of the cycle, however many of its
/// units failed, and no other field of any record has changed.
pub proof fn lemma_cycle_stamps_every_account(records: Seq<AccountView>, timestamp: Seq<char>)
    requires
        distinct_names(records),
    ensures
        touched_all(records, names_of(eligible_accounts(records)), timestamp) == after_cycle(
            records,
            timestamp,
        ),
{
    let eligible = eligible_accounts(records);
    let names = names_of(eligible);
    lemma_touched_all(records, names, timestamp);
    assert forall|i: int| 0 <= i < records.len() implies (names.contains(
        (#[trigger] records[i]).name,
    ) <==> records[i].eligible()) by {
        if records[i].eligible() {
            records.lemma_filter_contains(is_eligible(), i);
            let k = choose|k: int| 0 <= k < eligible.len() && eligible[k] == records[i];
            assert(names[k] == records[i].name);
        }
        if names.contains(records[i].name) {
            let k = choose|k: int| 0 <= k < names.len() && names[k] == records[i].name;
            records.lemma_filter_pred(is_eligible(), k);
            assert(eligible.contains(eligible[k]));
            records.lemma_filter_contains_rev(is_eligible(), eligible[k]);
            let j = choose|j: int| 0 <= j < records.len() && records[j] == eligible[k];
            if j < i {
                assert(records[j].name != records[i].name);
            } else if i < j {
                assert(records[i].name != records[j].name);
            }
        }
    }
    assert(touched_all(records, names, timestamp) =~= after_cycle(records, timestamp));
}

/// A request for a cycle that arrives while a cycle is under way starts
/// nothing: the machine is left as it is, with the one directive at hand.
pub proof fn lemma_force_sync_coalesced(s: SchedulerView)
    requires
        s.in_cycle(),
    ensures
        s.forced() == (s, DirectiveView::Nothing),
        s.started() == (s, DirectiveView::Nothing),
        s.ticked() == (s, DirectiveView::Nothing),
{
}

/// The scheduler of the periodic cycles.
#[derive(Debug)]
pub struct Scheduler {
    phase: Phase,
    starting: bool,
    interval_seconds: u64,
    accounts: Vec<Account>,
    started_at: String,
    account: usize,
    unit: usize,
    failures: usize,
}

impl View for Scheduler {
    type V = SchedulerView;

    closed spec fn view(&self) -> SchedulerView {
        SchedulerView {
            phase: self.phase,
            starting: self.starting,
            interval_seconds: self.interval_seconds,
            accounts: account_views(self.accounts@),
            started_at: self.started_at@,
            account: self.account as int,
            unit: self.unit as int,
            failures: self.failures,
        }
    }
}

/// The eligible ones among `accounts`, in their order.
pub fn keep_eligible(accounts: &Vec<Account>) -> (kept: Vec<Account>)
    ensures
        account_views(kept@) == eligible_accounts(account_views(accounts@)),
{
    let ghost all = account_views(accounts@);
    let mut kept: Vec<Account> = Vec::new();
    let mut i: usize = 0;
    proof {
        reveal(Seq::filter);
        assert(all.take(0) =~= Seq::<AccountView>::empty());
        assert(account_views(kept@) =~= all.take(0).filter(is_eligible()));
    }
    while i < accounts.len()
        invariant
            i <= accounts.len(),
            all == account_views(accounts@),
            account_views(kept@) == all.take(i as int).filter(is_eligible()),
        decreases accounts.len() - i,
    {
        let ghost before = account_views(kept@);
        proof {
            assert(all.take(i + 1) =~= all.take(i as int).push(all[i as int]));
            all.take(i as int).lemma_filter_push(all[i as int], is_eligible());
            assert(all[i as int] == accounts@[i as int]@);
        }
        if accounts[i].is_eligible() {
            let copy = accounts[i].clone();
            kept.push(copy);
            assert(account_views(kept@) =~= before.push(copy@));
        }
        i += 1;
    }
    assert(all.take(i as int) =~= all);
    kept
}

impl Scheduler {
    /// The invariant of the machine.
    pub open spec fn wf(&self) -> bool {
        self@.wf()
    }

    /// A scheduler whose loop does not run yet, with the given wait between
    /// two cycles.
    pub fn new(interval_seconds: u64) -> (scheduler: Scheduler)
        ensures
            scheduler.wf(),
            scheduler@ == (SchedulerView {
                phase: Phase::Stopped,
                starting: false,
                interval_seconds,
                accounts: Seq::empty(),
                started_at: Seq::empty(),
                account: 0,
                unit: 0,
                failures: 0,
            }),
    {
        let accounts: Vec<Account> = Vec::new();
        assert(account_views(accounts@) =~= Seq::<AccountView>::empty());
        Scheduler {
            phase: Phase::Stopped,
            starting: false,
            interval_seconds,
            accounts,
            started_at: String::new(),
            account: 0,
            unit: 0,
            failures: 0,
        }
    }

    /// The signal shown to the user.
    pub fn status(&self) -> (status: Status)
        ensures
            status == self@.status(),
    {
        match self.phase {
            Phase::Stopped => Status::Unset,
            Phase::Sleeping => Status::Idle,
            _ => Status::Running,
        }
    }

    /// What the scheduler waits for.
    pub fn phase(&self) -> (phase: Phase)
        ensures
            phase == self@.phase,
    {
        self.phase
    }

    /// Whether a cycle is under way.
    pub fn cycle_in_progress(&self) -> (running: bool)
        ensures
            running == self@.in_cycle(),
    {
        match self.phase {
            Phase::Loading => true,
            Phase::Syncing => true,
            Phase::Touching => true,
            _ => false,
        }
    }

    /// Seconds between two cycles.
    pub fn interval_seconds(&self) -> (seconds: u64)
        ensures
            seconds == self@.interval_seconds,
    {
        self.interval_seconds
    }

    /// How many steps have failed in the cycle under way, or in the last
    /// one if none is under way.
    pub fn failures(&self) -> (failures: usize)
        ensures
            failures == self@.failures,
    {
        self.failures
    }

    fn note(&mut self, succeeded: bool)
        requires
            old(self).wf(),
        ensures
            final(self).wf(),
            final(self)@ == old(self)@.noted(succeeded),
    {
        if !succeeded && self.failures < usize::MAX {
            self.failures = self.failures + 1;
        }
        assert(self@.accounts == old(self)@.accounts);
    }

    fn begin(&mut self, starting: bool) -> (directive: Directive)
        requires
            old(self).wf(),
            !old(self)@.in_cycle(),
        ensures
            final(self).wf(),
            (final(self)@, directive@) == old(self)@.begun(starting),
    {
        self.phase = Phase::Loading;
        self.starting = starting;
        assert(self@.accounts == old(self)@.accounts);
        Directive::Load
    }

    fn sleep(&mut self) -> (directive: Directive)
        requires
            old(self).wf(),
        ensures
            final(self).wf(),
            (final(self)@, directive@) == old(self)@.asleep(),
    {
        self.phase = Phase::Sleeping;
        self.starting = false;
        assert(self@.accounts == old(self)@.accounts);
        Directive::Sleep { seconds: self.interval_seconds }
    }

    fn sync_current(&self) -> (directive: Directive)
        requires
            self.wf(),
            self@.phase == Phase::Syncing,
        ensures
            directive@ == self@.sync_directive(),
    {
        assert(account_views(self.accounts@)[self.account as int]
            == self.accounts@[self.account as int]@);
        Directive::Sync {
            unit: SyncUnit::of_account(&self.accounts[self.account], self.unit),
            mode: SyncMode::Incremental,
        }
    }

    /// Starts the loop. A loop that runs already is left alone.
    pub fn start(&mut self) -> (directive: Directive)
        requires
            old(self).wf(),
        ensures
            final(self).wf(),
            (final(self)@, directive@) == old(self)@.started(),
    {
        match self.phase {
            Phase::Stopped => self.begin(true),
            _ => Directive::Nothing,
        }
    }

    /// Reports that the wait between two cycles is over.
    pub fn tick(&mut self) -> (directive: Directive)
        requires
            old(self).wf(),
        ensures
            final(self).wf(),
            (final(self)@, directive@) == old(self)@.ticked(),
    {
        match self.phase {
            Phase::Sleeping => self.begin(false),
            _ => Directive::Nothing,
        }
    }

    /// Asks for a cycle at once.
    ///
    /// While a cycle is under way the request is dropped: the machine stays
    /// exactly as it is and names nothing to do, so that no second cycle
    /// runs beside the first. Otherwise a cycle begins now, and the wait
    /// starts afresh when it ends.
    pub fn force_sync(&mut self) -> (directive: Directive)
        requires
            old(self).wf(),
        ensures
            final(self).wf(),
            (final(self)@, directive@) == old(self)@.forced(),
            old(self)@.in_cycle() ==> final(self)@ == old(self)@ && directive@
                == DirectiveView::Nothing,
            !old(self)@.in_cycle() ==> final(self)@.phase == Phase::Loading && directive@
                == DirectiveView::Load,
    {
        match self.phase {
            Phase::Stopped => self.begin(true),
            Phase::Sleeping => self.begin(false),
            _ => Directive::Nothing,
        }
    }

    /// Asks for the loop to end.
    ///
    /// A sleeping loop ends at once. A cycle under way runs to its end: the
    /// request changes nothing then, and is to be made again once the
    /// scheduler sleeps.
    pub fn stop(&mut self) -> (directive: Directive)
        requires
            old(self).wf(),
        ensures
            final(self).wf(),
            (final(self)@, directive@) == old(self)@.halted(),
    {
        match self.phase {
            Phase::Sleeping => {
                self.phase = Phase::Stopped;
                self.starting = false;
                assert(self@.accounts == old(self)@.accounts);
                Directive::Halt
            },
            _ => Directive::Nothing,
        }
    }

    /// Reports the accounts of the store and the time of the clock, in its
    /// written form, at the start of a cycle.
    pub fn loaded(&mut self, accounts: &Vec<Account>, now: &str) -> (directive: Directive)
        requires
            old(self).wf(),
        ensures
            final(self).wf(),
            (final(self)@, directive@) == old(self)@.loaded(account_views(accounts@), now@),
    {
        match self.phase {
            Phase::Loading => {
                if self.starting && accounts.len() == 0 {
                    self.phase = Phase::Stopped;
                    self.starting = false;
                    Directive::Halt
                } else {
                    let kept = keep_eligible(accounts);
                    proof {
                        let all = account_views(accounts@);
                        assert forall|i: int| 0 <= i < account_views(kept@).len() implies (
                        #[trigger] account_views(kept@)[i]).eligible() by {
                            all.lemma_filter_pred(is_eligible(), i);
                        }
                    }
                    self.accounts = kept;
                    self.started_at = String::from_str(now);
                    self.account = 0;
                    self.unit = 0;
                    self.failures = 0;
                    self.starting = false;
                    if self.accounts.len() == 0 {
                        self.sleep()
                    } else {
                        self.phase = Phase::Syncing;
                        self.sync_current()
                    }
                }
            },
            _ => Directive::Nothing,
        }
    }

    /// Reports that the accounts could not be read at the start of a cycle.
    pub fn load_failed(&mut self) -> (directive: Directive)
        requires
            old(self).wf(),
        ensures
            final(self).wf(),
            (final(self)@, directive@) == old(self)@.load_failed(),
    {
        match self.phase {
            Phase::Loading => self.sleep(),
            _ => Directive::Nothing,
        }
    }

    /// Reports what the synchronization of the unit at work came to.
    ///
    /// A failure is counted. It neither ends the cycle nor skips anything:
    /// the directive that follows does not depend on `result`.
    pub fn sync_finished(&mut self, result: &SyncResult) -> (directive: Directive)
        requires
            old(self).wf(),
        ensures
            final(self).wf(),
            (final(self)@, directive@) == old(self)@.synced(result@.succeeded),
            directive@ == old(self)@.synced(true).1,
    {
        match self.phase {
            Phase::Syncing => {
                self.note(result.succeeded);
                assert(account_views(self.accounts@)[self.account as int]
                    == self.accounts@[self.account as int]@);
                let units = self.accounts[self.account].remote_subdirectories.len();
                if self.unit + 1 < units {
                    self.unit = self.unit + 1;
                    self.sync_current()
                } else {
                    self.phase = Phase::Touching;
                    Directive::Touch {
                        name: self.accounts[self.account].remote_endpoint_name.clone(),
                        timestamp: self.started_at.clone(),
                    }
                }
            },
            _ => Directive::Nothing,
        }
    }

    /// Reports whether the time of the account at work was recorded.
    ///
    /// A failure is counted. It neither ends the cycle nor skips anything:
    /// the directive that follows does not depend on `recorded`.
    pub fn touch_finished(&mut self, recorded: bool) -> (directive: Directive)
        requires
            old(self).wf(),
        ensures
            final(self).wf(),
            (final(self)@, directive@) == old(self)@.touched(recorded),
            directive@ == old(self)@.touched(true).1,
    {
        match self.phase {
            Phase::Touching => {
                self.note(recorded);
                let count = self.accounts.len();
                if self.account + 1 < count {
                    self.account = self.account + 1;
                    self.unit = 0;
                    self.phase = Phase::Syncing;
                    self.sync_current()
                } else {
                    self.sleep()
                }
            },
            _ => Directive::Nothing,
        }
    }
}

} // verus!
