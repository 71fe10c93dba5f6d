//! The vote accounts that were in force at the start of each epoch, kept
//! in hash maps of the `hashbrown` crate: one from epochs to the vote
//! accounts of the epoch, and for each epoch one from addresses to
//! accounts.

use vstd::prelude::*;
use crate::account::{Account, AccountView};
use crate::pubkey::Pubkey;
use crate::word256::Word256;

verus! {

/// The vote accounts of one epoch: a `hashbrown::HashMap` from addresses,
/// each held as its four words, to accounts.
#[verifier::external_body]
pub struct VoteAccounts {
    map: hashbrown::HashMap<(u64, u64, u64, u64), Account>,
}

/// What the map holds: for each address that has an entry, the account of
/// the entry.
pub uninterp spec fn votes_of(accounts: VoteAccounts) -> Map<Pubkey, AccountView>;

impl View for VoteAccounts {
    type V = Map<Pubkey, AccountView>;

    open spec fn view(&self) -> Map<Pubkey, AccountView> {
        votes_of(*self)
    }
}

impl Clone for VoteAccounts {
    /// Calls `HashMap::clone`, which clones each address with its account:
    /// the copy has the same entries.
    #[verifier::external_body]
    fn clone(&self) -> (r: VoteAccounts)
        ensures
            votes_of(r) == votes_of(*self),
    {
        VoteAccounts { map: self.map.clone() }
    }
}

impl VoteAccounts {
    /// Calls `HashMap::new`, which makes a map without entries.
    #[verifier::external_body]
    pub(crate) fn empty() -> (r: VoteAccounts)
        ensures
            votes_of(r) == (Map::<Pubkey, AccountView>::empty()),
    {
        VoteAccounts { map: hashbrown::HashMap::new() }
    }

    /// Calls `HashMap::insert`, which puts the account in the place of the
    /// address's entry, old or new, and leaves the other entries alone.
    /// The account that `insert` hands back is dropped.
    #[verifier::external_body]
    pub(crate) fn put(&mut self, key: &Pubkey, account: Account)
        ensures
            votes_of(*final(self)) == votes_of(*old(self)).insert(*key, account@),
    {
        self.map.insert((key.id.w0, key.id.w1, key.id.w2, key.id.w3), account);
    }

    /// Calls `HashMap::get`, which hands out the account of the address if
    /// the map has an entry for it.
    #[verifier::external_body]
    fn find(&self, key: &Pubkey) -> (r: Option<&Account>)
        ensures
            r is Some == votes_of(*self).contains_key(*key),
            r is Some ==> r->Some_0@ == votes_of(*self)[*key],
    {
        self.map.get(&(key.id.w0, key.id.w1, key.id.w2, key.id.w3))
    }

    /// Calls `HashMap::len`, which gives the number of entries.
    #[verifier::external_body]
    fn count(&self) -> (r: usize)
        ensures
            r == votes_of(*self).len(),
    {
        self.map.len()
    }

    /// Walks `HashMap::iter`, which visits each entry once, in an order
    /// that is not fixed: the list holds each address of the map once,
    /// with a copy of its account.
    #[verifier::external_body]
    fn listed(&self) -> (r: Vec<(Pubkey, Account)>)
        ensures
            r@.len() == votes_of(*self).len(),
            forall|i: int|
                0 <= i < r@.len() ==> votes_of(*self).contains_key((#[trigger] r@[i]).0) && r@[i].1@
                    == votes_of(*self)[r@[i].0],
            forall|i: int, j: int|
                0 <= i < j < r@.len() ==> (#[trigger] r@[i]).0 != (#[trigger] r@[j]).0,
    {
        self.map.iter().map(
            |(k, a)| (Pubkey { id: Word256 { w0: k.0, w1: k.1, w2: k.2, w3: k.3 } }, a.clone()),
        ).collect()
    }

    /// The number of vote accounts.
    pub fn len(&self) -> (r: usize)
        ensures
            r == self@.len(),
    {
        self.count()
    }

    /// The vote account at an address, if there is one.
    pub fn get(&self, key: &Pubkey) -> (r: Option<&Account>)
        ensures
            r is Some == self@.contains_key(*key),
            r is Some ==> r->Some_0@ == self@[*key],
    {
        self.find(key)
    }

    /// The vote accounts with their addresses, each once, in no fixed
    /// order.
    pub fn entries(&self) -> (r: Vec<(Pubkey, Account)>)
        ensures
            r@.len() == self@.len(),
            forall|i: int|
                0 <= i < r@.len() ==> self@.contains_key((#[trigger] r@[i]).0) && r@[i].1@
                    == self@[r@[i].0],
            forall|i: int, j: int|
                0 <= i < j < r@.len() ==> (#[trigger] r@[i]).0 != (#[trigger] r@[j]).0,
    {
        self.listed()
    }
}

/// A `hashbrown::HashMap` from epochs to the vote accounts of that epoch.
#[verifier::external_body]
pub struct EpochStakes {
    map: hashbrown::HashMap<u64, VoteAccounts>,
}

/// What the map holds: for each epoch that has an entry, the entry.
pub uninterp spec fn stakes_of(stakes: EpochStakes) -> Map<u64, VoteAccounts>;

impl View for EpochStakes {
    type V = Map<u64, Map<Pubkey, AccountView>>;

    /// For each epoch that has an entry, the accounts of the entry.
    open spec fn view(&self) -> Map<u64, Map<Pubkey, AccountView>> {
        Map::new(|e: u64| stakes_of(*self).contains_key(e), |e: u64| stakes_of(*self)[e]@)
    }
}

impl EpochStakes {
    /// Calls `HashMap::new`, which makes a map without entries.
    #[verifier::external_body]
    pub(crate) fn new() -> (r: EpochStakes)
        ensures
            stakes_of(r) == (Map::<u64, VoteAccounts>::empty()),
    {
        EpochStakes { map: hashbrown::HashMap::new() }
    }

    /// Calls `HashMap::get`, which hands out the entry of the key if the map
    /// has one.
    #[verifier::external_body]
    pub(crate) fn get(&self, epoch: u64) -> (r: Option<&VoteAccounts>)
        ensures
            r is Some == stakes_of(*self).contains_key(epoch),
            r is Some ==> *r->Some_0 == stakes_of(*self)[epoch],
    {
        self.map.get(&epoch)
    }

    /// Calls `HashMap::insert`, which puts the value in the place of the
    /// key's entry, old or new, and leaves the other entries alone. The
    /// value that `insert` hands back is dropped.
    #[verifier::external_body]
    pub(crate) fn insert(&mut self, epoch: u64, accounts: VoteAccounts)
        ensures
            stakes_of(*final(self)) == stakes_of(*old(self)).insert(epoch, accounts),
    {
        self.map.insert(epoch, accounts);
    }

    /// Calls `HashMap::clone`, which clones each key with its entry: the
    /// copy has entries for the same epochs, each the clone that
    /// `VoteAccounts::clone` makes of the entry it copies, with the same
    /// accounts.
    #[verifier::external_body]
    pub(crate) fn copy(&self) -> (r: EpochStakes)
        ensures
            stakes_of(r).dom() == stakes_of(*self).dom(),
            forall|e: u64| #[trigger]
                stakes_of(r).contains_key(e) ==> votes_of(stakes_of(r)[e]) == votes_of(
                    stakes_of(*self)[e],
                ),
    {
        EpochStakes { map: self.map.clone() }
    }
}

} // verus!
