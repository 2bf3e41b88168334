//! The set of configured accounts.
//!
//! The store is the in-memory form of the persisted document. The caller
//! reads the document before an operation and writes the store's records
//! back, whole, after every change.

use vstd::prelude::*;
use crate::account::{account_views, Account, AccountView};
use crate::sequences::{lemma_filter_drops_all, lemma_filter_drops_one, lemma_filter_keeps_all};
use crate::text::same_text;

verus! {

/// Whether some record carries the name.
pub open spec fn has_name(records: Seq<AccountView>, name: Seq<char>) -> bool {
    exists|i: int| 0 <= i < records.len() && (#[trigger] records[i]).name == name
}

/// No two records carry the same name.
pub open spec fn distinct_names(records: Seq<AccountView>) -> bool {
    forall|i: int, j: int|
        0 <= i < j < records.len() ==> (#[trigger] records[i]).name != (#[trigger] records[j]).name
}

/// The place of a record that carries the name.
pub open spec fn position(records: Seq<AccountView>, name: Seq<char>) -> int {
    choose|i: int| 0 <= i < records.len() && (#[trigger] records[i]).name == name
}

/// The record that carries the name, if there is one.
pub open spec fn lookup(records: Seq<AccountView>, name: Seq<char>) -> Option<AccountView> {
    if has_name(records, name) {
        Some(records[position(records, name)])
    } else {
        None
    }
}

/// Holds of the records that carry another name.
pub open spec fn named_otherwise(name: Seq<char>) -> spec_fn(AccountView) -> bool {
    |record: AccountView| record.name != name
}

/// The records after `account` was put in: in the place of the record of
/// its name if there is one, at the end otherwise.
pub open spec fn upserted(records: Seq<AccountView>, account: AccountView) -> Seq<AccountView> {
    if has_name(records, account.name) {
        records.map_values(
            |record: AccountView|
                if record.name == account.name {
                    account
                } else {
                    record
                },
        )
    } else {
        records.push(account)
    }
}

/// The records that carry another name, in their order.
pub open spec fn removed(records: Seq<AccountView>, name: Seq<char>) -> Seq<AccountView> {
    records.filter(named_otherwise(name))
}

/// The records after the one that carries the name got a new time of last
/// synchronization.
pub open spec fn touched(
    records: Seq<AccountView>,
    name: Seq<char>,
    timestamp: Seq<char>,
) -> Seq<AccountView> {
    records.map_values(
        |record: AccountView|
            if record.name == name {
                record.stamped(timestamp)
            } else {
                record
            },
    )
}

/// The name of the file that holds the document, in the directory that the
/// system gives the application for its data.
pub const DOCUMENT_NAME: &'static str = "config.json";

/// What the caller found where the document is kept.
#[derive(Debug, PartialEq, Eq)]
pub enum Document {
    /// There is no document yet.
    Absent,
    /// There is one, and it cannot be read as a list of accounts.
    Malformed,
    /// The accounts that the document lists, in its order.
    Records(Vec<Account>),
}

/// Mathematical model of a [`Document`].
pub enum DocumentView {
    Absent,
    Malformed,
    Records(Seq<AccountView>),
}

impl View for Document {
    type V = DocumentView;

    open spec fn view(&self) -> DocumentView {
        match self {
            Document::Absent => DocumentView::Absent,
            Document::Malformed => DocumentView::Malformed,
            Document::Records(records) => DocumentView::Records(account_views(records@)),
        }
    }
}

/// Why an operation of the store failed.
#[derive(Clone, Copy, Debug, PartialEq, Eq, Structural)]
pub enum StoreError {
    /// The document cannot be read as a list of accounts.
    Malformed,
    /// The document lists two accounts of one name.
    DuplicateName,
    /// No account carries the name.
    UnknownAccount,
}

/// The records that a document stands for. A missing document stands for
/// no accounts; one that lists a name twice is refused, not repaired.
pub open spec fn loaded(document: DocumentView) -> Result<Seq<AccountView>, StoreError> {
    match document {
        DocumentView::Absent => Ok(Seq::empty()),
        DocumentView::Malformed => Err(StoreError::Malformed),
        DocumentView::Records(records) => if distinct_names(records) {
            Ok(records)
        } else {
            Err(StoreError::DuplicateName)
        },
    }
}

/// In a list of distinct names, a record is found at its only place.
pub proof fn lemma_position(records: Seq<AccountView>, name: Seq<char>, i: int)
    requires
        distinct_names(records),
        0 <= i < records.len(),
        records[i].name == name,
    ensures
        has_name(records, name),
        position(records, name) == i,
        lookup(records, name) == Some(records[i]),
{
    let p = position(records, name);
    assert(0 <= p < records.len() && records[p].name == name);
    if p < i {
        assert(records[p].name != records[i].name);
    } else if i < p {
        assert(records[i].name != records[p].name);
    }
}

/// Removing a name that no record carries changes nothing.
pub proof fn lemma_removed_absent(records: Seq<AccountView>, name: Seq<char>)
    requires
        !has_name(records, name),
    ensures
        removed(records, name) == records,
{
    lemma_filter_keeps_all(records, named_otherwise(name));
}

/// In a list of distinct names, removing a name takes out the one record
/// that carries it.
pub proof fn lemma_removed_at(records: Seq<AccountView>, name: Seq<char>, i: int)
    requires
        distinct_names(records),
        0 <= i < records.len(),
        records[i].name == name,
    ensures
        removed(records, name) == records.remove(i),
{
    assert forall|j: int| 0 <= j < records.len() && j != i implies named_otherwise(name)(
        #[trigger] records[j],
    ) by {
        if j < i {
            assert(records[j].name != records[i].name);
        } else {
            assert(records[i].name != records[j].name);
        }
    }
    lemma_filter_drops_one(records, named_otherwise(name), i);
}

/// After a removal no record carries the name, and every other record is
/// still there.
pub proof fn lemma_removed_has_name(records: Seq<AccountView>, name: Seq<char>, other: Seq<char>)
    ensures
        has_name(removed(records, name), other) <==> other != name && has_name(records, other),
{
    let kept = removed(records, name);
    let keep = named_otherwise(name);
    if has_name(kept, other) {
        let k = choose|k: int| 0 <= k < kept.len() && (#[trigger] kept[k]).name == other;
        records.lemma_filter_pred(keep, k);
        assert(kept.contains(kept[k]));
        records.lemma_filter_contains_rev(keep, kept[k]);
        let i = choose|i: int| 0 <= i < records.len() && records[i] == kept[k];
        assert(records[i].name == other);
    }
    if other != name && has_name(records, other) {
        let i = choose|i: int| 0 <= i < records.len() && (#[trigger] records[i]).name == other;
        records.lemma_filter_contains(keep, i);
        let k = choose|k: int| 0 <= k < kept.len() && kept[k] == records[i];
        assert(kept[k].name == other);
    }
}

/// The accounts, each under a name of its own.
#[derive(Debug)]
pub struct AccountStore {
    accounts: Vec<Account>,
}

impl View for AccountStore {
    type V = Seq<AccountView>;

    closed spec fn view(&self) -> Seq<AccountView> {
        account_views(self.accounts@)
    }
}

/// The first place in `accounts` of a record that carries `name`.
fn first_named(accounts: &Vec<Account>, name: &str) -> (found: Option<usize>)
    ensures
        match found {
            Some(i) => i < accounts.len() && accounts@[i as int]@.name == name@,
            None => !has_name(account_views(accounts@), name@),
        },
{
    let mut i: usize = 0;
    while i < accounts.len()
        invariant
            i <= accounts.len(),
            forall|j: int| 0 <= j < i ==> accounts@[j]@.name != name@,
        decreases accounts.len() - i,
    {
        if same_text(accounts[i].remote_endpoint_name.as_str(), name) {
            return Some(i);
        }
        i += 1;
    }
    assert forall|j: int| 0 <= j < account_views(accounts@).len() implies (
    #[trigger] account_views(accounts@)[j]).name != name@ by {
        assert(account_views(accounts@)[j] == accounts@[j]@);
    }
    None
}

/// Whether no two of `accounts` carry the same name.
pub fn names_are_distinct(accounts: &Vec<Account>) -> (distinct: bool)
    ensures
        distinct == distinct_names(account_views(accounts@)),
{
    let ghost records = account_views(accounts@);
    let mut j: usize = 0;
    while j < accounts.len()
        invariant
            j <= accounts.len(),
            records == account_views(accounts@),
            forall|a: int, b: int|
                0 <= a < b < j ==> (#[trigger] records[a]).name != (#[trigger] records[b]).name,
        decreases accounts.len() - j,
    {
        let mut i: usize = 0;
        while i < j
            invariant
                i <= j < accounts.len(),
                records == account_views(accounts@),
                forall|a: int| 0 <= a < i ==> (#[trigger] records[a]).name != records[j as int].name,
            decreases j - i,
        {
            if same_text(
                accounts[i].remote_endpoint_name.as_str(),
                accounts[j].remote_endpoint_name.as_str(),
            ) {
                assert(records[i as int].name == records[j as int].name);
                return false;
            }
            i += 1;
        }
        j += 1;
    }
    true
}

impl AccountStore {
    /// The store's invariant: no two accounts carry the same name.
    pub open spec fn wf(&self) -> bool {
        distinct_names(self@)
    }

    /// A store without accounts.
    pub fn new() -> (store: AccountStore)
        ensures
            store.wf(),
            store@ == Seq::<AccountView>::empty(),
    {
        let accounts: Vec<Account> = Vec::new();
        assert(account_views(accounts@) =~= Seq::<AccountView>::empty());
        AccountStore { accounts }
    }

    /// The store that a document stands for.
    ///
    /// A missing document gives the empty store, which the caller then
    /// persists. A document that cannot be read, or that lists a name twice,
    /// is an error: nothing is dropped to make it fit.
    pub fn load(document: Document) -> (store: Result<AccountStore, StoreError>)
        ensures
            match loaded(document@) {
                Ok(records) => store matches Ok(s) && s.wf() && s@ == records,
                Err(e) => store == Err::<AccountStore, StoreError>(e),
            },
    {
        match document {
            Document::Absent => Ok(AccountStore::new()),
            Document::Malformed => Err(StoreError::Malformed),
            Document::Records(accounts) => {
                if names_are_distinct(&accounts) {
                    Ok(AccountStore { accounts })
                } else {
                    Err(StoreError::DuplicateName)
                }
            },
        }
    }

    /// Whether the caller must write the document after loading it: a
    /// missing document is created empty on first access.
    pub fn must_create(document: &Document) -> (create: bool)
        ensures
            create == (document@ is Absent),
    {
        match document {
            Document::Absent => true,
            _ => false,
        }
    }

    /// The records in their order, as they are to be persisted.
    pub fn records(&self) -> (records: &Vec<Account>)
        ensures
            account_views(records@) == self@,
    {
        &self.accounts
    }

    /// The number of accounts.
    pub fn len(&self) -> (len: usize)
        ensures
            len == self@.len(),
    {
        self.accounts.len()
    }

    /// Whether the store holds no account.
    pub fn is_empty(&self) -> (empty: bool)
        ensures
            empty == (self@.len() == 0),
    {
        self.accounts.len() == 0
    }

    /// The place of the account that carries `name`.
    pub fn find(&self, name: &str) -> (found: Option<usize>)
        requires
            self.wf(),
        ensures
            found is Some <==> has_name(self@, name@),
            found matches Some(i) ==> i < self@.len() && i == position(self@, name@),
    {
        let found = first_named(&self.accounts, name);
        proof {
            if let Some(i) = found {
                assert(self@[i as int] == self.accounts@[i as int]@);
                lemma_position(self@, name@, i as int);
            }
        }
        found
    }

    /// The account that carries `name`.
    pub fn get(&self, name: &str) -> (found: Option<&Account>)
        requires
            self.wf(),
        ensures
            match found {
                Some(account) => lookup(self@, name@) == Some(account@),
                None => lookup(self@, name@) is None,
            },
    {
        match self.find(name) {
            Some(i) => {
                assert(self@[i as int] == self.accounts@[i as int]@);
                Some(&self.accounts[i])
            },
            None => None,
        }
    }

    /// Puts `account` into the store: in the place of the account of its
    /// name if there is one, at the end otherwise. The other accounts keep
    /// their places.
    pub fn upsert(&mut self, account: Account)
        requires
            old(self).wf(),
        ensures
            final(self).wf(),
            final(self)@ == upserted(old(self)@, account@),
    {
        let ghost before = self@;
        let found = first_named(&self.accounts, account.remote_endpoint_name.as_str());
        match found {
            Some(i) => {
                proof {
                    let after = account_views(self.accounts@.update(i as int, account));
                    assert(before[i as int] == self.accounts@[i as int]@);
                    lemma_position(before, account@.name, i as int);
                    assert forall|j: int| 0 <= j < before.len() implies #[trigger] after[j]
                        == upserted(before, account@)[j] by {
                        if j != i {
                            lemma_distinct_apart(before, i as int, j);
                        }
                    }
                    assert(after =~= upserted(before, account@));
                    lemma_upserted_distinct(before, account@);
                }
                self.accounts.set(i, account);
            },
            None => {
                proof {
                    let after = account_views(self.accounts@.push(account));
                    assert(after =~= upserted(before, account@));
                    lemma_upserted_distinct(before, account@);
                }
                self.accounts.push(account);
            },
        }
    }

    /// Takes the account that carries `name` out of the store. Where there
    /// is none the store stays as it is, which is no failure. Tells whether
    /// an account was taken out.
    pub fn remove(&mut self, name: &str) -> (was_present: bool)
        requires
            old(self).wf(),
        ensures
            final(self).wf(),
            final(self)@ == removed(old(self)@, name@),
            was_present == has_name(old(self)@, name@),
            !has_name(final(self)@, name@),
    {
        proof {
            lemma_removed_has_name(self@, name@, name@);
            lemma_removed_distinct(self@, name@);
        }
        let ghost before = self@;
        match first_named(&self.accounts, name) {
            Some(i) => {
                proof {
                    let after = account_views(self.accounts@.remove(i as int));
                    assert(before[i as int] == self.accounts@[i as int]@);
                    lemma_removed_at(before, name@, i as int);
                    assert(after =~= before.remove(i as int));
                    lemma_removed_distinct(before, name@);
                }
                self.accounts.remove(i);
                true
            },
            None => {
                proof {
                    lemma_removed_absent(before, name@);
                }
                false
            },
        }
    }

    /// Records `timestamp` as the time of the last synchronization of the
    /// account that carries `name`, and changes nothing else. Where no
    /// account carries the name the store stays as it is and the failure is
    /// reported.
    pub fn touch_last_sync_time(&mut self, name: &str, timestamp: &str) -> (outcome: Result<
        (),
        StoreError,
    >)
        requires
            old(self).wf(),
        ensures
            final(self).wf(),
            has_name(old(self)@, name@) ==> outcome is Ok && final(self)@ == touched(
                old(self)@,
                name@,
                timestamp@,
            ),
            !has_name(old(self)@, name@) ==> outcome == Err::<(), StoreError>(
                StoreError::UnknownAccount,
            ) && final(self)@ == old(self)@,
    {
        let ghost before = self@;
        match first_named(&self.accounts, name) {
            Some(i) => {
                let stamped = self.accounts[i].stamped(timestamp);
                proof {
                    let after = account_views(self.accounts@.update(i as int, stamped));
                    assert(before[i as int] == self.accounts@[i as int]@);
                    lemma_position(before, name@, i as int);
                    assert forall|j: int| 0 <= j < before.len() implies #[trigger] after[j]
                        == touched(before, name@, timestamp@)[j] by {
                        if j != i {
                            lemma_distinct_apart(before, i as int, j);
                        }
                    }
                    assert(after =~= touched(before, name@, timestamp@));
                    lemma_touched_distinct(before, name@, timestamp@);
                }
                self.accounts.set(i, stamped);
                Ok(())
            },
            None => Err(StoreError::UnknownAccount),
        }
    }
}

proof fn lemma_distinct_apart(records: Seq<AccountView>, i: int, j: int)
    requires
        distinct_names(records),
        0 <= i < records.len(),
        0 <= j < records.len(),
        i != j,
    ensures
        records[i].name != records[j].name,
{
    if i < j {
        assert(records[i].name != records[j].name);
    } else {
        assert(records[j].name != records[i].name);
    }
}

/// Putting an account in keeps the names distinct.
pub proof fn lemma_upserted_distinct(records: Seq<AccountView>, account: AccountView)
    requires
        distinct_names(records),
    ensures
        distinct_names(upserted(records, account)),
{
    let after = upserted(records, account);
    assert forall|i: int, j: int| 0 <= i < j < after.len() implies (#[trigger] after[i]).name != (
    #[trigger] after[j]).name by {
        if has_name(records, account.name) {
            assert(after[i].name == records[i].name);
            assert(after[j].name == records[j].name);
        } else if j == records.len() {
            assert(after[i] == records[i]);
        } else {
            assert(after[i] == records[i]);
            assert(after[j] == records[j]);
        }
    }
}

/// Taking an account out keeps the names distinct.
pub proof fn lemma_removed_distinct(records: Seq<AccountView>, name: Seq<char>)
    requires
        distinct_names(records),
    ensures
        distinct_names(removed(records, name)),
{
    if has_name(records, name) {
        let i = position(records, name);
        lemma_removed_at(records, name, i);
        let after = records.remove(i);
        assert forall|a: int, b: int| 0 <= a < b < after.len() implies (#[trigger] after[a]).name
            != (#[trigger] after[b]).name by {
            let a0 = if a < i { a } else { a + 1 };
            let b0 = if b < i { b } else { b + 1 };
            assert(after[a] == records[a0]);
            assert(after[b] == records[b0]);
        }
    } else {
        lemma_removed_absent(records, name);
    }
}

/// Recording a time of last synchronization keeps the names distinct.
pub proof fn lemma_touched_distinct(
    records: Seq<AccountView>,
    name: Seq<char>,
    timestamp: Seq<char>,
)
    requires
        distinct_names(records),
    ensures
        distinct_names(touched(records, name, timestamp)),
{
    let after = touched(records, name, timestamp);
    assert forall|i: int, j: int| 0 <= i < j < after.len() implies (#[trigger] after[i]).name != (
    #[trigger] after[j]).name by {
        assert(after[i].name == records[i].name);
        assert(after[j].name == records[j].name);
    }
}

/// Putting an account in changes no name: every record that was there
/// keeps its place and its name.
pub proof fn lemma_upserted_names(records: Seq<AccountView>, account: AccountView, i: int)
    requires
        0 <= i < records.len(),
    ensures
        upserted(records, account).len() >= records.len(),
        upserted(records, account)[i].name == records[i].name,
        records[i].name != account.name ==> upserted(records, account)[i] == records[i],
{
}

/// Round trip: once an account is put in, the store holds it under its
/// name, unchanged in every field, and holds no other account of that
/// name; and the document written from the store is read back as the same
/// store.
pub proof fn lemma_upsert_then_load(records: Seq<AccountView>, account: AccountView)
    requires
        distinct_names(records),
    ensures
        loaded(DocumentView::Records(upserted(records, account))) == Ok::<
            Seq<AccountView>,
            StoreError,
        >(upserted(records, account)),
        lookup(upserted(records, account), account.name) == Some(account),
        upserted(records, account).filter(|record: AccountView| record.name == account.name)
            == seq![account],
{
    let after = upserted(records, account);
    lemma_upserted_distinct(records, account);
    let i = if has_name(records, account.name) {
        position(records, account.name)
    } else {
        records.len() as int
    };
    assert(after[i] == account);
    lemma_position(after, account.name, i);
    lemma_named_once(after, account.name, i);
}

/// In a list of distinct names, the records that carry a name are the one
/// at its place.
pub proof fn lemma_named_once(records: Seq<AccountView>, name: Seq<char>, i: int)
    requires
        distinct_names(records),
        0 <= i < records.len(),
        records[i].name == name,
    ensures
        records.filter(|record: AccountView| record.name == name) == seq![records[i]],
    decreases records.len(),
{
    let same = |record: AccountView| record.name == name;
    reveal(Seq::filter);
    let front = records.drop_last();
    if i == records.len() - 1 {
        assert forall|j: int| 0 <= j < front.len() implies !same(#[trigger] front[j]) by {
            lemma_distinct_apart(records, i, j);
        }
        lemma_filter_drops_all(front, same);
        assert(Seq::<AccountView>::empty().push(records.last()) =~= seq![records[i]]);
    } else {
        lemma_distinct_apart(records, i, records.len() - 1);
        assert(distinct_names(front)) by {
            assert forall|a: int, b: int| 0 <= a < b < front.len() implies (#[trigger] front[a]).name
                != (#[trigger] front[b]).name by {
                assert(front[a] == records[a]);
                assert(front[b] == records[b]);
            }
        }
        lemma_named_once(front, name, i);
    }
}

/// Removal is idempotent: a second removal of the same name changes
/// nothing, and after the first no record carries the name.
pub proof fn lemma_remove_idempotent(records: Seq<AccountView>, name: Seq<char>)
    ensures
        !has_name(removed(records, name), name),
        removed(removed(records, name), name) == removed(records, name),
{
    lemma_removed_has_name(records, name, name);
    lemma_removed_absent(removed(records, name), name);
}

/// Recording a time changes the one record that carries the name, and of
/// that record the time alone.
pub proof fn lemma_touched_lookup(
    records: Seq<AccountView>,
    name: Seq<char>,
    timestamp: Seq<char>,
    other: Seq<char>,
)
    requires
        distinct_names(records),
    ensures
        lookup(touched(records, name, timestamp), other) == match lookup(records, other) {
            Some(record) => Some(
                if other == name {
                    record.stamped(timestamp)
                } else {
                    record
                },
            ),
            None => None,
        },
{
    let after = touched(records, name, timestamp);
    lemma_touched_distinct(records, name, timestamp);
    if has_name(records, other) {
        let i = position(records, other);
        assert(after[i].name == other);
        lemma_position(after, other, i);
    } else {
        if has_name(after, other) {
            let k = position(after, other);
            assert(records[k].name == other);
        }
    }
}

} // verus!
