//! The accounts written on one fork, kept in the order of their addresses.

use vstd::prelude::*;
use vstd::bytes::*;
use crate::account::{Account, AccountView};
use crate::pubkey::Pubkey;
use crate::transaction::append_bytes;

verus! {

/// Addresses in strictly growing order.
pub open spec fn sorted_keys(keys: Seq<Pubkey>) -> bool {
    forall|i: int, j: int| 0 <= i < j < keys.len() ==> (#[trigger] keys[i]).lt(#[trigger] keys[j])
}

/// Where a list of addresses holds `key`.
pub open spec fn key_position(keys: Seq<Pubkey>, key: Pubkey) -> int {
    choose|i: int| 0 <= i < keys.len() && keys[i] == key
}

/// In a sorted list an address stands at one place only.
pub proof fn lemma_key_position(keys: Seq<Pubkey>, key: Pubkey, i: int)
    requires
        sorted_keys(keys),
        0 <= i < keys.len(),
        keys[i] == key,
    ensures
        keys.contains(key),
        key_position(keys, key) == i,
{
    let c = key_position(keys, key);
    assert(0 <= c < keys.len() && keys[c] == key);
    if c < i {
        assert(keys[c].lt(keys[i]));
    }
    if i < c {
        assert(keys[i].lt(keys[c]));
    }
}

/// The map that a sorted list of addresses and a list of accounts of the
/// same length stand for.
pub open spec fn entries_map(keys: Seq<Pubkey>, accounts: Seq<AccountView>) -> Map<
    Pubkey,
    AccountView,
> {
    Map::new(|k: Pubkey| keys.contains(k), |k: Pubkey| accounts[key_position(keys, k)])
}

/// Two sorted lists with the same addresses are the same list.
pub proof fn lemma_sorted_unique(a: Seq<Pubkey>, b: Seq<Pubkey>)
    requires
        sorted_keys(a),
        sorted_keys(b),
        a.to_set() == b.to_set(),
    ensures
        a == b,
    decreases a.len(),
{
    if a.len() == 0 {
        if b.len() > 0 {
            assert(b.to_set().contains(b[0]));
            assert(a.contains(b[0]));
        }
        assert(a =~= b);
    } else {
        let x = a.last();
        assert(a.to_set().contains(x));
        assert(b.contains(x));
        let j = choose|j: int| 0 <= j < b.len() && b[j] == x;
        let y = b.last();
        assert(b.to_set().contains(y));
        assert(a.contains(y));
        let i = choose|i: int| 0 <= i < a.len() && a[i] == y;
        if j < b.len() - 1 {
            assert(b[j].lt(b[b.len() - 1]));
            if i < a.len() - 1 {
                assert(a[i].lt(a[a.len() - 1]));
            }
        }
        assert(y == x);
        let a0 = a.drop_last();
        let b0 = b.drop_last();
        assert forall|k: Pubkey| a0.to_set().contains(k) == b0.to_set().contains(k) by {
            if a0.contains(k) {
                let c = choose|c: int| 0 <= c < a0.len() && a0[c] == k;
                assert(a[c].lt(a[a.len() - 1]));
                assert(a.to_set().contains(a[c]));
                assert(b.contains(k));
                let d = choose|d: int| 0 <= d < b.len() && b[d] == k;
                assert(b0[d] == k);
            }
            if b0.contains(k) {
                let c = choose|c: int| 0 <= c < b0.len() && b0[c] == k;
                assert(b[c].lt(b[b.len() - 1]));
                assert(b.to_set().contains(b[c]));
                assert(a.contains(k));
                let d = choose|d: int| 0 <= d < a.len() && a[d] == k;
                assert(a0[d] == k);
            }
        }
        assert(a0.to_set() =~= b0.to_set());
        assert(sorted_keys(a0)) by {
            assert forall|p: int, q: int| 0 <= p < q < a0.len() implies (#[trigger] a0[p]).lt(
                #[trigger] a0[q],
            ) by {
                assert(a[p].lt(a[q]));
            }
        }
        assert(sorted_keys(b0)) by {
            assert forall|p: int, q: int| 0 <= p < q < b0.len() implies (#[trigger] b0[p]).lt(
                #[trigger] b0[q],
            ) by {
                assert(b[p].lt(b[q]));
            }
        }
        lemma_sorted_unique(a0, b0);
        assert(a =~= a0.push(x));
        assert(b =~= b0.push(y));
    }
}

/// The addresses of a map of accounts, in growing order.
pub open spec fn canonical_keys(accounts: Map<Pubkey, AccountView>) -> Seq<Pubkey> {
    choose|s: Seq<Pubkey>| sorted_keys(s) && s.to_set() == accounts.dom()
}

/// The bytes of one account with its address: the address, the lamports,
/// the owner, the executable flag as one byte, the length of the data and
/// the data; integers as 8 little-endian bytes.
pub open spec fn account_bytes(key: Pubkey, account: AccountView) -> Seq<u8> {
    key.to_bytes_spec() + spec_u64_to_le_bytes(account.lamports) + account.owner.to_bytes_spec()
        + seq![if account.executable {
        1u8
    } else {
        0u8
    }] + spec_u64_to_le_bytes(account.data.len() as u64) + account.data
}

/// The bytes of the accounts of the first `n` of a list of addresses.
pub open spec fn entries_bytes(keys: Seq<Pubkey>, accounts: Map<Pubkey, AccountView>, n: int) -> Seq<
    u8,
>
    decreases n,
{
    if n <= 0 {
        Seq::empty()
    } else {
        entries_bytes(keys, accounts, n - 1) + account_bytes(keys[n - 1], accounts[keys[n - 1]])
    }
}

/// The bytes of a map of accounts: those of each account, in the order of
/// the addresses.
pub open spec fn delta_bytes(accounts: Map<Pubkey, AccountView>) -> Seq<u8> {
    entries_bytes(canonical_keys(accounts), accounts, canonical_keys(accounts).len() as int)
}

pub struct AccountStore {
    keys: Vec<Pubkey>,
    accounts: Vec<Account>,
}

impl View for AccountStore {
    type V = Map<Pubkey, AccountView>;

    closed spec fn view(&self) -> Map<Pubkey, AccountView> {
        entries_map(self.keys@, self.account_views())
    }
}

impl AccountStore {
    /// The addresses held, in growing order.
    pub closed spec fn keys_spec(&self) -> Seq<Pubkey> {
        self.keys@
    }

    /// The accounts held, each at the place of its address in `keys_spec`.
    pub closed spec fn account_views(&self) -> Seq<AccountView> {
        self.accounts@.map_values(|a: Account| a@)
    }

    /// One account for each address, and the addresses in order.
    pub closed spec fn wf(&self) -> bool {
        self.keys@.len() == self.accounts@.len() && sorted_keys(self.keys@)
    }

    /// How the map and the ordered entries belong together.
    pub proof fn lemma_entries(&self)
        requires
            self.wf(),
        ensures
            self.keys_spec().len() == self.account_views().len(),
            sorted_keys(self.keys_spec()),
            self@.dom().finite(),
            forall|i: int|
                0 <= i < self.keys_spec().len() ==> self@.contains_key(
                    #[trigger] self.keys_spec()[i],
                ) && self@[self.keys_spec()[i]] == self.account_views()[i],
            forall|k: Pubkey| #[trigger]
                self@.contains_key(k) ==> self.keys_spec().contains(k) && 0 <= key_position(
                    self.keys_spec(),
                    k,
                ) < self.keys_spec().len() && self.keys_spec()[key_position(self.keys_spec(), k)]
                    == k,
    {
        let keys = self.keys@;
        assert forall|i: int| 0 <= i < keys.len() implies self@.contains_key(#[trigger] keys[i])
            && self@[keys[i]] == self.account_views()[i] by {
            lemma_key_position(keys, keys[i], i);
        }
        assert(self@.dom() =~= keys.to_set());
        vstd::seq_lib::seq_to_set_is_finite(keys);
    }

    pub fn new() -> (r: AccountStore)
        ensures
            r.wf(),
            r@ == Map::<Pubkey, AccountView>::empty(),
    {
        let r = AccountStore { keys: Vec::new(), accounts: Vec::new() };
        proof {
            assert(r@ =~= Map::<Pubkey, AccountView>::empty());
        }
        r
    }

    /// The number of accounts held.
    pub fn len(&self) -> (r: usize)
        requires
            self.wf(),
        ensures
            r == self.keys_spec().len(),
            (r == 0) == (self@ == Map::<Pubkey, AccountView>::empty()),
    {
        proof {
            self.lemma_entries();
            if self.keys@.len() == 0 {
                assert(self@ =~= Map::<Pubkey, AccountView>::empty());
            } else {
                assert(self@.contains_key(self.keys@[0]));
            }
        }
        self.keys.len()
    }

    /// The address at place `i`.
    pub fn key_at(&self, i: usize) -> (r: Pubkey)
        requires
            self.wf(),
            i < self.keys_spec().len(),
        ensures
            r == self.keys_spec()[i as int],
    {
        self.keys[i]
    }

    /// The account at place `i`.
    pub fn account_at(&self, i: usize) -> (r: &Account)
        requires
            self.wf(),
            i < self.keys_spec().len(),
        ensures
            r@ == self.account_views()[i as int],
    {
        &self.accounts[i]
    }

    /// The bytes of the accounts held, in the order of their addresses.
    pub fn to_bytes(&self) -> (r: Vec<u8>)
        requires
            self.wf(),
        ensures
            r@ == delta_bytes(self@),
    {
        proof {
            self.lemma_entries();
            assert(self@.dom() =~= self.keys@.to_set());
            let c = canonical_keys(self@);
            assert(sorted_keys(c) && c.to_set() == self@.dom());
            lemma_sorted_unique(c, self.keys@);
        }
        let mut out: Vec<u8> = Vec::new();
        let mut i: usize = 0;
        while i < self.keys.len()
            invariant
                i <= self.keys@.len(),
                self.wf(),
                out@ == entries_bytes(self.keys@, self@, i as int),
            decreases self.keys@.len() - i,
        {
            let ghost before = out@;
            let account = &self.accounts[i];
            proof {
                self.lemma_entries();
                assert(self@[self.keys_spec()[i as int]] == account@);
            }
            append_bytes(&mut out, &self.keys[i].to_bytes());
            append_bytes(&mut out, &u64_to_le_bytes(account.lamports));
            append_bytes(&mut out, &account.owner.to_bytes());
            out.push(if account.executable {
                1u8
            } else {
                0u8
            });
            append_bytes(&mut out, &u64_to_le_bytes(account.data.len() as u64));
            append_bytes(&mut out, &account.data);
            proof {
                assert(out@ =~= before + account_bytes(self.keys@[i as int], account@));
            }
            i += 1;
        }
        out
    }

    /// The first place whose address is not below `key`.
    fn lower_bound(&self, key: &Pubkey) -> (p: usize)
        requires
            self.wf(),
        ensures
            p <= self.keys@.len(),
            forall|j: int| 0 <= j < p ==> (#[trigger] self.keys@[j]).lt(*key),
            p < self.keys@.len() ==> !self.keys@[p as int].lt(*key),
    {
        let mut p: usize = 0;
        while p < self.keys.len() && self.keys[p].less_than(key)
            invariant
                p <= self.keys@.len(),
                forall|j: int| 0 <= j < p ==> (#[trigger] self.keys@[j]).lt(*key),
            decreases self.keys@.len() - p,
        {
            p += 1;
        }
        p
    }

    /// The account stored for `key`, if one is.
    pub fn get(&self, key: &Pubkey) -> (r: Option<&Account>)
        requires
            self.wf(),
        ensures
            match r {
                Some(a) => self@.contains_key(*key) && a@ == self@[*key],
                None => !self@.contains_key(*key),
            },
    {
        let p = self.lower_bound(key);
        if p < self.keys.len() && self.keys[p] == *key {
            proof {
                lemma_key_position(self.keys@, *key, p as int);
            }
            Some(&self.accounts[p])
        } else {
            proof {
                if self.keys@.contains(*key) {
                    let c = choose|c: int| 0 <= c < self.keys@.len() && self.keys@[c] == *key;
                    if c < p {
                        assert(self.keys@[c].lt(*key));
                    } else if c > p {
                        assert(self.keys@[p as int].lt(self.keys@[c]));
                    }
                }
            }
            None
        }
    }

    /// Stores `account` for `key`, in place of what was stored for it.
    pub fn store(&mut self, key: &Pubkey, account: Account)
        requires
            old(self).wf(),
        ensures
            final(self).wf(),
            final(self)@ == old(self)@.insert(*key, account@),
    {
        let p = self.lower_bound(key);
        let ghost old_keys = self.keys@;
        let ghost old_views = self.account_views();
        if p < self.keys.len() && self.keys[p] == *key {
            self.accounts[p] = account;
            proof {
                let new_views = self.account_views();
                assert(new_views =~= old_views.update(p as int, account@));
                lemma_key_position(old_keys, *key, p as int);
                assert forall|k: Pubkey| old_keys.contains(k) implies #[trigger] self@[k] == old(
                    self,
                )@.insert(*key, account@)[k] by {
                    let c = key_position(old_keys, k);
                    assert(0 <= c < old_keys.len() && old_keys[c] == k);
                }
                assert(self@ =~= old(self)@.insert(*key, account@));
            }
        } else {
            self.keys.insert(p, *key);
            self.accounts.insert(p, account);
            proof {
                let new_keys = self.keys@;
                let new_views = self.account_views();
                assert(new_views =~= old_views.insert(p as int, account@));
                assert(new_keys =~= old_keys.insert(p as int, *key));
                assert forall|j: int| p <= j < old_keys.len() implies key.lt(
                    #[trigger] old_keys[j],
                ) by {
                    if j > p {
                        assert(old_keys[p as int].lt(old_keys[j]));
                    }
                }
                assert(sorted_keys(new_keys)) by {
                    assert forall|i: int, j: int| 0 <= i < j < new_keys.len() implies (
                    #[trigger] new_keys[i]).lt(#[trigger] new_keys[j]) by {
                        if i < p && j > p {
                            assert(old_keys[i].lt(old_keys[j - 1]));
                        } else if i < p && j < p {
                            assert(old_keys[i].lt(old_keys[j]));
                        } else if i > p {
                            assert(old_keys[i - 1].lt(old_keys[j - 1]));
                        } else if i == p {
                            assert(key.lt(old_keys[j - 1]));
                        } else {
                            assert(old_keys[i].lt(*key));
                        }
                    }
                }
                lemma_key_position(new_keys, *key, p as int);
                assert forall|k: Pubkey| new_keys.contains(k) == (k == *key || old_keys.contains(
                    k,
                )) by {
                    if old_keys.contains(k) {
                        let c = choose|c: int| 0 <= c < old_keys.len() && old_keys[c] == k;
                        if c < p {
                            assert(new_keys[c] == k);
                        } else {
                            assert(new_keys[c + 1] == k);
                        }
                    }
                    if new_keys.contains(k) && k != *key {
                        let c = choose|c: int| 0 <= c < new_keys.len() && new_keys[c] == k;
                        if c < p {
                            assert(old_keys[c] == k);
                        } else {
                            assert(old_keys[c - 1] == k);
                        }
                    }
                }
                assert forall|k: Pubkey| old_keys.contains(k) && k != *key implies new_views[key_position(
                    new_keys,
                    k,
                )] == old_views[key_position(old_keys, k)] by {
                    let c = key_position(old_keys, k);
                    assert(0 <= c < old_keys.len() && old_keys[c] == k);
                    if c < p {
                        lemma_key_position(new_keys, k, c);
                    } else {
                        lemma_key_position(new_keys, k, c + 1);
                    }
                }
                assert(self@ =~= old(self)@.insert(*key, account@));
            }
        }
    }

    /// Stores every account of `top`, in place of what was stored for its
    /// address.
    pub fn overlay(&mut self, top: &AccountStore)
        requires
            old(self).wf(),
            top.wf(),
        ensures
            final(self).wf(),
            final(self)@ == old(self)@.union_prefer_right(top@),
    {
        let mut i: usize = 0;
        proof {
            top.lemma_entries();
        }
        while i < top.keys.len()
            invariant
                i <= top.keys@.len(),
                self.wf(),
                top.wf(),
                forall|k: Pubkey| #[trigger]
                    self@.contains_key(k) == (old(self)@.contains_key(k) || exists|j: int|
                        0 <= j < i && top.keys@[j] == k),
                forall|k: Pubkey| #[trigger]
                    self@.contains_key(k) ==> self@[k] == (if exists|j: int|
                        0 <= j < i && top.keys@[j] == k {
                        top@[k]
                    } else {
                        old(self)@[k]
                    }),
            decreases top.keys@.len() - i,
        {
            let ghost before = self@;
            let key = top.keys[i];
            let account = top.accounts[i].clone();
            proof {
                top.lemma_entries();
                assert(top.keys_spec()[i as int] == key);
                assert(top@[key] == account@);
            }
            self.store(&key, account);
            proof {
                assert forall|k: Pubkey| #[trigger]
                    self@.contains_key(k) == (old(self)@.contains_key(k) || exists|j: int|
                        0 <= j < i + 1 && top.keys@[j] == k) by {
                    if k == key {
                        assert(top.keys@[i as int] == k);
                    } else {
                        assert(self@.contains_key(k) == before.contains_key(k));
                        if exists|j: int| 0 <= j < i + 1 && top.keys@[j] == k {
                            let j = choose|j: int| 0 <= j < i + 1 && top.keys@[j] == k;
                            assert(0 <= j < i && top.keys@[j] == k);
                        }
                    }
                }
                assert forall|k: Pubkey| #[trigger] self@.contains_key(k) implies self@[k] == (
                if exists|j: int| 0 <= j < i + 1 && top.keys@[j] == k {
                    top@[k]
                } else {
                    old(self)@[k]
                }) by {
                    if k == key {
                        assert(top.keys@[i as int] == k);
                    } else {
                        if exists|j: int| 0 <= j < i + 1 && top.keys@[j] == k {
                            let j = choose|j: int| 0 <= j < i + 1 && top.keys@[j] == k;
                            assert(0 <= j < i && top.keys@[j] == k);
                        }
                    }
                }
            }
            i += 1;
        }
        proof {
            top.lemma_entries();
            assert forall|k: Pubkey| top@.contains_key(k) == (exists|j: int|
                0 <= j < i && top.keys@[j] == k) by {
                if top@.contains_key(k) {
                    let c = key_position(top.keys_spec(), k);
                    assert(0 <= c < i && top.keys@[c] == k);
                }
                if exists|j: int| 0 <= j < i && top.keys@[j] == k {
                    let j = choose|j: int| 0 <= j < i && top.keys@[j] == k;
                    assert(top@.contains_key(top.keys_spec()[j]));
                }
            }
            assert(self@ =~= old(self)@.union_prefer_right(top@));
        }
    }
}

impl Clone for AccountStore {
    fn clone(&self) -> (r: AccountStore)
        ensures
            self.wf() ==> r.wf() && r@ == self@ && r.keys_spec() == self.keys_spec()
                && r.account_views() == self.account_views(),
    {
        let mut keys: Vec<Pubkey> = Vec::new();
        let mut accounts: Vec<Account> = Vec::new();
        let n = if self.keys.len() < self.accounts.len() {
            self.keys.len()
        } else {
            self.accounts.len()
        };
        let mut i: usize = 0;
        while i < n
            invariant
                i <= n,
                n <= self.keys@.len(),
                n <= self.accounts@.len(),
                keys@ == self.keys@.subrange(0, i as int),
                accounts@.len() == i,
                forall|j: int| 0 <= j < i ==> accounts@[j]@ == self.accounts@[j]@,
            decreases n - i,
        {
            keys.push(self.keys[i]);
            accounts.push(self.accounts[i].clone());
            proof {
                assert(keys@ =~= self.keys@.subrange(0, i + 1));
            }
            i += 1;
        }
        let r = AccountStore { keys, accounts };
        proof {
            if self.wf() {
                assert(r.keys@ =~= self.keys@);
                assert(r.account_views() =~= self.account_views());
            }
        }
        r
    }
}

} // verus!
