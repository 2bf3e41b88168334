//! The account record and its mathematical model.

use vstd::prelude::*;

verus! {

/// The texts held by a list of strings, in order.
pub open spec fn texts(items: Seq<String>) -> Seq<Seq<char>> {
    items.map_values(|s: String| s@)
}

/// Mathematical model of an [`Account`].
pub struct AccountView {
    /// Identifier of the remote endpoint registered with the external tool.
    pub name: Seq<char>,
    /// Absolute path of the local directory.
    pub local_directory: Seq<char>,
    /// Subdirectories synchronized independently, in configured order.
    pub subdirectories: Seq<Seq<char>>,
    /// Time of the last attempted cycle; empty when there was none.
    pub last_sync_time: Seq<char>,
}

impl AccountView {
    /// An account takes part in scheduled cycles only if it names at least
    /// one remote subdirectory.
    pub open spec fn eligible(self) -> bool {
        self.subdirectories.len() > 0
    }

    /// The same account with another time of last synchronization.
    pub open spec fn stamped(self, timestamp: Seq<char>) -> AccountView {
        AccountView { last_sync_time: timestamp, ..self }
    }
}

/// A configured pairing of one remote endpoint with one local directory.
#[derive(Debug, PartialEq, Eq)]
pub struct Account {
    pub remote_endpoint_name: String,
    pub local_directory: String,
    pub remote_subdirectories: Vec<String>,
    pub last_sync_time: String,
}

impl View for Account {
    type V = AccountView;

    open spec fn view(&self) -> AccountView {
        AccountView {
            name: self.remote_endpoint_name@,
            local_directory: self.local_directory@,
            subdirectories: texts(self.remote_subdirectories@),
            last_sync_time: self.last_sync_time@,
        }
    }
}

/// The models of a list of accounts, in order.
pub open spec fn account_views(accounts: Seq<Account>) -> Seq<AccountView> {
    accounts.map_values(|a: Account| a@)
}

/// Copies a list of strings.
pub fn clone_texts(items: &Vec<String>) -> (copy: Vec<String>)
    ensures
        texts(copy@) == texts(items@),
{
    let mut copy: Vec<String> = Vec::new();
    let mut i: usize = 0;
    while i < items.len()
        invariant
            i <= items.len(),
            copy.len() == i,
            forall|j: int| 0 <= j < i ==> copy@[j]@ == items@[j]@,
        decreases items.len() - i,
    {
        copy.push(items[i].clone());
        i += 1;
    }
    assert(texts(copy@) =~= texts(items@));
    copy
}

impl Account {
    /// An account that has never been synchronized.
    pub fn new(
        remote_endpoint_name: String,
        local_directory: String,
        remote_subdirectories: Vec<String>,
    ) -> (account: Account)
        ensures
            account@ == (AccountView {
                name: remote_endpoint_name@,
                local_directory: local_directory@,
                subdirectories: texts(remote_subdirectories@),
                last_sync_time: Seq::<char>::empty(),
            }),
    {
        Account {
            remote_endpoint_name,
            local_directory,
            remote_subdirectories,
            last_sync_time: String::new(),
        }
    }

    /// Whether the account takes part in scheduled cycles.
    pub fn is_eligible(&self) -> (eligible: bool)
        ensures
            eligible == self@.eligible(),
    {
        self.remote_subdirectories.len() > 0
    }

    /// Whether a cycle has been attempted for the account.
    pub fn has_synced(&self) -> (synced: bool)
        ensures
            synced == (self@.last_sync_time.len() > 0),
    {
        !self.last_sync_time.as_str().is_empty()
    }

    /// The same account with another time of last synchronization.
    pub fn stamped(&self, timestamp: &str) -> (account: Account)
        ensures
            account@ == self@.stamped(timestamp@),
    {
        Account {
            remote_endpoint_name: self.remote_endpoint_name.clone(),
            local_directory: self.local_directory.clone(),
            remote_subdirectories: clone_texts(&self.remote_subdirectories),
            last_sync_time: String::from_str(timestamp),
        }
    }
}

impl Clone for Account {
    fn clone(&self) -> (copy: Account)
        ensures
            copy@ == self@,
    {
        Account {
            remote_endpoint_name: self.remote_endpoint_name.clone(),
            local_directory: self.local_directory.clone(),
            remote_subdirectories: clone_texts(&self.remote_subdirectories),
            last_sync_time: self.last_sync_time.clone(),
        }
    }
}

/// Copies a list of accounts.
pub fn clone_accounts(accounts: &Vec<Account>) -> (copy: Vec<Account>)
    ensures
        account_views(copy@) == account_views(accounts@),
{
    let mut copy: Vec<Account> = Vec::new();
    let mut i: usize = 0;
    while i < accounts.len()
        invariant
            i <= accounts.len(),
            copy.len() == i,
            forall|j: int| 0 <= j < i ==> copy@[j]@ == accounts@[j]@,
        decreases accounts.len() - i,
    {
        copy.push(accounts[i].clone());
        i += 1;
    }
    assert(account_views(copy@) =~= account_views(accounts@));
    copy
}

} // verus!
