//! The account locks of one fork. A transaction takes a write lock on each
//! of its accounts and a read lock on each of its programs; it holds all
//! of them or none. A transaction that finds one of its accounts locked,
//! or one of its programs write-locked, fails with `AccountInUse`.

use vstd::prelude::*;
use vstd::multiset::*;
use crate::pubkey::Pubkey;
use crate::transaction::{Transaction, TransactionError, TransactionView};

verus! {

/// The result of a step of the pipeline for one transaction.
pub type LockResult = Result<(), TransactionError>;

/// The views of a batch of transactions.
pub open spec fn transaction_views(txs: Seq<Transaction>) -> Seq<TransactionView> {
    txs.map_values(|t: Transaction| t@)
}

/// The locks of a fork as a mathematical value.
pub struct LocksView {
    /// The accounts that a transaction may change.
    pub write: Set<Pubkey>,
    /// The programs that transactions run, each as often as it is held.
    pub read: Multiset<Pubkey>,
}

impl LocksView {
    pub open spec fn empty() -> LocksView {
        LocksView { write: Set::empty(), read: Multiset::empty() }
    }

    /// A transaction can take its locks when none of its accounts is
    /// locked in either way and none of its programs is write-locked.
    pub open spec fn can_lock(self, tx: TransactionView) -> bool {
        &&& forall|j: int|
            0 <= j < tx.account_keys.len() ==> !self.write.contains(#[trigger] tx.account_keys[j])
                && self.read.count(tx.account_keys[j]) == 0
        &&& forall|j: int|
            0 <= j < tx.program_ids.len() ==> !self.write.contains(#[trigger] tx.program_ids[j])
    }

    /// The locks with those of a transaction taken.
    pub open spec fn take(self, tx: TransactionView) -> LocksView {
        LocksView {
            write: self.write.union(tx.account_keys.to_set()),
            read: self.read.add(tx.program_ids.to_multiset()),
        }
    }

    /// The locks with those of a transaction given back.
    pub open spec fn give_back(self, tx: TransactionView) -> LocksView {
        LocksView {
            write: self.write.difference(tx.account_keys.to_set()),
            read: self.read.sub(tx.program_ids.to_multiset()),
        }
    }
}

/// The locks held after the first `n` transactions of a batch each tried
/// to take theirs, in order.
pub open spec fn locks_after(locks: LocksView, txs: Seq<TransactionView>, n: int) -> LocksView
    decreases n,
{
    if n <= 0 {
        locks
    } else {
        let prev = locks_after(locks, txs, n - 1);
        if prev.can_lock(txs[n - 1]) {
            prev.take(txs[n - 1])
        } else {
            prev
        }
    }
}

/// What transaction `i` of a batch gets when the batch takes its locks.
pub open spec fn lock_result(locks: LocksView, txs: Seq<TransactionView>, i: int) -> LockResult {
    if locks_after(locks, txs, i).can_lock(txs[i]) {
        Ok(())
    } else {
        Err(TransactionError::AccountInUse)
    }
}

/// What each transaction of a batch gets when the batch takes its locks.
pub open spec fn lock_results(locks: LocksView, txs: Seq<TransactionView>) -> Seq<LockResult> {
    Seq::new(txs.len(), |i: int| lock_result(locks, txs, i))
}

/// The locks held after the first `n` transactions of a batch gave theirs
/// back: each but those that failed with `AccountInUse`, which hold none.
pub open spec fn unlocked_after(
    locks: LocksView,
    txs: Seq<TransactionView>,
    results: Seq<LockResult>,
    n: int,
) -> LocksView
    decreases n,
{
    if n <= 0 {
        locks
    } else {
        let prev = unlocked_after(locks, txs, results, n - 1);
        if results[n - 1] == Err::<(), TransactionError>(TransactionError::AccountInUse) {
            prev
        } else {
            prev.give_back(txs[n - 1])
        }
    }
}

/// The accounts that the first `n` transactions of a batch locked.
pub open spec fn held_keys(locks: LocksView, txs: Seq<TransactionView>, n: int) -> Set<Pubkey>
    decreases n,
{
    if n <= 0 {
        Set::empty()
    } else {
        let prev = held_keys(locks, txs, n - 1);
        if locks_after(locks, txs, n - 1).can_lock(txs[n - 1]) {
            prev.union(txs[n - 1].account_keys.to_set())
        } else {
            prev
        }
    }
}

/// The programs that the first `n` transactions of a batch locked.
pub open spec fn held_programs(locks: LocksView, txs: Seq<TransactionView>, n: int) -> Multiset<
    Pubkey,
>
    decreases n,
{
    if n <= 0 {
        Multiset::empty()
    } else {
        let prev = held_programs(locks, txs, n - 1);
        if locks_after(locks, txs, n - 1).can_lock(txs[n - 1]) {
            prev.add(txs[n - 1].program_ids.to_multiset())
        } else {
            prev
        }
    }
}

proof fn lemma_held(locks: LocksView, txs: Seq<TransactionView>, n: int)
    requires
        0 <= n <= txs.len(),
    ensures
        locks_after(locks, txs, n).write == locks.write.union(held_keys(locks, txs, n)),
        locks_after(locks, txs, n).read == locks.read.add(held_programs(locks, txs, n)),
        held_keys(locks, txs, n).disjoint(locks.write),
    decreases n,
{
    broadcast use group_multiset_axioms;

    if n > 0 {
        lemma_held(locks, txs, n - 1);
        let prev = locks_after(locks, txs, n - 1);
        let tx = txs[n - 1];
        if prev.can_lock(tx) {
            assert forall|k: Pubkey| tx.account_keys.to_set().contains(
                k,
            ) implies !locks.write.contains(k) by {
                let j = choose|j: int| 0 <= j < tx.account_keys.len() && tx.account_keys[j] == k;
                assert(!prev.write.contains(tx.account_keys[j]));
            }
        }
    }
    assert(locks_after(locks, txs, n).write =~= locks.write.union(held_keys(locks, txs, n)));
    assert(locks_after(locks, txs, n).read =~= locks.read.add(held_programs(locks, txs, n)));
}

proof fn lemma_unlocked(
    start: LocksView,
    locks: LocksView,
    txs: Seq<TransactionView>,
    results: Seq<LockResult>,
    n: int,
)
    requires
        0 <= n <= txs.len(),
        results.len() == txs.len(),
        forall|i: int|
            0 <= i < txs.len() ==> ((#[trigger] results[i]) == Err::<(), TransactionError>(
                TransactionError::AccountInUse,
            )) == (lock_result(locks, txs, i) is Err),
    ensures
        unlocked_after(start, txs, results, n).write == start.write.difference(
            held_keys(locks, txs, n),
        ),
        unlocked_after(start, txs, results, n).read == start.read.sub(
            held_programs(locks, txs, n),
        ),
    decreases n,
{
    broadcast use group_multiset_axioms;

    if n > 0 {
        lemma_unlocked(start, locks, txs, results, n - 1);
        assert((results[n - 1] == Err::<(), TransactionError>(TransactionError::AccountInUse)) == (
        lock_result(locks, txs, n - 1) is Err));
    }
    assert(unlocked_after(start, txs, results, n).write =~= start.write.difference(
        held_keys(locks, txs, n),
    ));
    assert(unlocked_after(start, txs, results, n).read =~= start.read.sub(
        held_programs(locks, txs, n),
    ));
}

/// When every transaction of a batch that took its locks gives them back,
/// the locks are what they were before the batch: the batch leaves none held.
pub proof fn lemma_lock_conservation(
    locks: LocksView,
    txs: Seq<TransactionView>,
    results: Seq<LockResult>,
)
    requires
        results.len() == txs.len(),
        forall|i: int|
            0 <= i < txs.len() ==> ((#[trigger] results[i]) == Err::<(), TransactionError>(
                TransactionError::AccountInUse,
            )) == (lock_result(locks, txs, i) is Err),
    ensures
        unlocked_after(
            locks_after(locks, txs, txs.len() as int),
            txs,
            results,
            txs.len() as int,
        ) == locks,
{
    broadcast use group_multiset_axioms;

    let n = txs.len() as int;
    lemma_held(locks, txs, n);
    let taken = locks_after(locks, txs, n);
    lemma_unlocked(taken, locks, txs, results, n);
    let back = unlocked_after(taken, txs, results, n);
    assert(back.write =~= locks.write);
    assert(back.read =~= locks.read);
}

/// Whether the transactions of a batch that hold their locks are apart:
/// no two of them name the same address.
pub open spec fn holders_apart(txs: Seq<TransactionView>, held: Seq<LockResult>) -> bool {
    forall|i: int, j: int, k: Pubkey|
        #![trigger txs[i].account_keys.contains(k), txs[j].account_keys.contains(k)]
        0 <= i < j < txs.len() && held[i] is Ok && held[j] is Ok && txs[i].account_keys.contains(k)
            ==> !txs[j].account_keys.contains(k)
}

/// An address that is write-locked stays so while the batch takes its locks.
proof fn lemma_write_grows(locks: LocksView, txs: Seq<TransactionView>, m: int, n: int, k: Pubkey)
    requires
        0 <= m <= n,
        locks_after(locks, txs, m).write.contains(k),
    ensures
        locks_after(locks, txs, n).write.contains(k),
    decreases n - m,
{
    if m < n {
        lemma_write_grows(locks, txs, m, n - 1, k);
    }
}

/// The transactions of a batch that got their locks are apart: an
/// address that one of them names is write-locked when the later one
/// asks.
pub proof fn lemma_holders_apart(locks: LocksView, txs: Seq<TransactionView>)
    ensures
        holders_apart(txs, lock_results(locks, txs)),
{
    let held = lock_results(locks, txs);
    assert forall|i: int, j: int, k: Pubkey|
        #![trigger txs[i].account_keys.contains(k), txs[j].account_keys.contains(k)]
        0 <= i < j < txs.len() && held[i] is Ok && held[j] is Ok && txs[i].account_keys.contains(
            k,
        ) implies !txs[j].account_keys.contains(k) by {
        assert(locks_after(locks, txs, i).can_lock(txs[i]));
        assert(txs[i].account_keys.to_set().contains(k));
        assert(locks_after(locks, txs, i + 1).write.contains(k));
        lemma_write_grows(locks, txs, i + 1, j, k);
        assert(locks_after(locks, txs, j).can_lock(txs[j]));
        if txs[j].account_keys.contains(k) {
            let c = choose|c: int| 0 <= c < txs[j].account_keys.len() && txs[j].account_keys[c] == k;
            assert(!locks_after(locks, txs, j).write.contains(txs[j].account_keys[c]));
        }
    }
}

pub struct AccountLocks {
    keys: Vec<Pubkey>,
    programs: Vec<Pubkey>,
}

impl View for AccountLocks {
    type V = LocksView;

    closed spec fn view(&self) -> LocksView {
        LocksView { write: self.keys@.to_set(), read: self.programs@.to_multiset() }
    }
}

fn position(list: &Vec<Pubkey>, key: &Pubkey) -> (r: Option<usize>)
    ensures
        match r {
            Some(i) => i < list@.len() && list@[i as int] == *key,
            None => !list@.contains(*key),
        },
{
    let mut i: usize = 0;
    while i < list.len()
        invariant
            i <= list@.len(),
            forall|j: int| 0 <= j < i ==> list@[j] != *key,
        decreases list@.len() - i,
    {
        if list[i] == *key {
            return Some(i);
        }
        i += 1;
    }
    None
}

impl AccountLocks {
    /// No account is held twice.
    pub closed spec fn wf(&self) -> bool {
        self.keys@.no_duplicates()
    }

    pub fn new() -> (r: AccountLocks)
        ensures
            r.wf(),
            r@ == LocksView::empty(),
    {
        let r = AccountLocks { keys: Vec::new(), programs: Vec::new() };
        proof {
            broadcast use group_multiset_axioms;

            r.programs@.to_multiset_ensures();
            assert(r@.write =~= Set::<Pubkey>::empty());
            assert(r@.read =~= Multiset::<Pubkey>::empty());
        }
        r
    }

    /// Whether the account is write-locked.
    pub fn contains(&self, key: &Pubkey) -> (r: bool)
        ensures
            r == self@.write.contains(*key),
    {
        let found = position(&self.keys, key);
        proof {
            if let Some(i) = found {
                assert(self.keys@[i as int] == *key);
            }
        }
        found.is_some()
    }

    /// Whether the account is read-locked.
    pub fn is_read_locked(&self, key: &Pubkey) -> (r: bool)
        ensures
            r == (self@.read.count(*key) > 0),
    {
        let found = position(&self.programs, key);
        proof {
            self.programs@.to_multiset_ensures();
            if let Some(i) = found {
                assert(self.programs@[i as int] == *key);
            }
        }
        found.is_some()
    }

    fn insert(&mut self, key: &Pubkey)
        requires
            old(self).wf(),
        ensures
            final(self).wf(),
            final(self)@ == (LocksView { write: old(self)@.write.insert(*key), ..old(self)@ }),
    {
        if position(&self.keys, key).is_none() {
            self.keys.push(*key);
            proof {
                assert(self@.write =~= old(self)@.write.insert(*key)) by {
                    assert forall|k: Pubkey| self.keys@.contains(k) == (k == *key || old(
                        self,
                    ).keys@.contains(k)) by {
                        if old(self).keys@.contains(k) {
                            let c = choose|c: int|
                                0 <= c < old(self).keys@.len() && old(self).keys@[c] == k;
                            assert(self.keys@[c] == k);
                        }
                        if k == *key {
                            assert(self.keys@[self.keys@.len() - 1] == k);
                        }
                    }
                }
            }
        } else {
            proof {
                assert(self@.write =~= old(self)@.write.insert(*key));
            }
        }
    }

    fn remove(&mut self, key: &Pubkey)
        requires
            old(self).wf(),
        ensures
            final(self).wf(),
            final(self)@ == (LocksView { write: old(self)@.write.remove(*key), ..old(self)@ }),
    {
        match position(&self.keys, key) {
            Some(i) => {
                self.keys.remove(i);
                proof {
                    let before = old(self).keys@;
                    let after = self.keys@;
                    assert(after =~= before.remove(i as int));
                    assert forall|k: Pubkey| after.contains(k) == (k != *key && before.contains(
                        k,
                    )) by {
                        if after.contains(k) {
                            let c = choose|c: int| 0 <= c < after.len() && after[c] == k;
                            if c < i {
                                assert(before[c] == k);
                            } else {
                                assert(before[c + 1] == k);
                            }
                        }
                        if k != *key && before.contains(k) {
                            let c = choose|c: int| 0 <= c < before.len() && before[c] == k;
                            if c < i {
                                assert(after[c] == k);
                            } else {
                                assert(after[c - 1] == k);
                            }
                        }
                    }
                    assert(self@.write =~= old(self)@.write.remove(*key));
                }
            },
            None => {
                proof {
                    assert(self@.write =~= old(self)@.write.remove(*key));
                }
            },
        }
    }

    fn insert_program(&mut self, key: &Pubkey)
        requires
            old(self).wf(),
        ensures
            final(self).wf(),
            final(self)@ == (LocksView { read: old(self)@.read.insert(*key), ..old(self)@ }),
    {
        proof {
            self.programs@.to_multiset_ensures();
        }
        self.programs.push(*key);
    }

    fn remove_program(&mut self, key: &Pubkey)
        requires
            old(self).wf(),
        ensures
            final(self).wf(),
            final(self)@ == (LocksView { read: old(self)@.read.remove(*key), ..old(self)@ }),
    {
        proof {
            broadcast use group_multiset_axioms;

            self.programs@.to_multiset_ensures();
        }
        match position(&self.programs, key) {
            Some(i) => {
                self.programs.remove(i);
                proof {
                    assert(self.programs@ =~= old(self).programs@.remove(i as int));
                }
            },
            None => {
                proof {
                    assert(old(self)@.read.count(*key) == 0);
                    assert(self@.read =~= old(self)@.read.remove(*key));
                }
            },
        }
    }

    /// Takes the locks of a transaction, or none if one of them is taken.
    pub fn lock_transaction(&mut self, tx: &Transaction) -> (r: LockResult)
        requires
            old(self).wf(),
        ensures
            final(self).wf(),
            r == (if old(self)@.can_lock(tx@) {
                Ok::<(), TransactionError>(())
            } else {
                Err::<(), TransactionError>(TransactionError::AccountInUse)
            }),
            final(self)@ == (if old(self)@.can_lock(tx@) {
                old(self)@.take(tx@)
            } else {
                old(self)@
            }),
    {
        let mut i: usize = 0;
        while i < tx.account_keys.len()
            invariant
                i <= tx.account_keys@.len(),
                self.wf(),
                self@ == old(self)@,
                forall|j: int|
                    0 <= j < i ==> !self@.write.contains(#[trigger] tx.account_keys@[j])
                        && self@.read.count(tx.account_keys@[j]) == 0,
            decreases tx.account_keys@.len() - i,
        {
            if self.contains(&tx.account_keys[i]) || self.is_read_locked(&tx.account_keys[i]) {
                assert(self@.write.contains(tx@.account_keys[i as int]) || self@.read.count(
                    tx@.account_keys[i as int],
                ) != 0);
                return Err(TransactionError::AccountInUse);
            }
            i += 1;
        }
        let mut p: usize = 0;
        while p < tx.program_ids.len()
            invariant
                p <= tx.program_ids@.len(),
                self.wf(),
                self@ == old(self)@,
                forall|j: int|
                    0 <= j < tx.account_keys@.len() ==> !self@.write.contains(
                        #[trigger] tx.account_keys@[j],
                    ) && self@.read.count(tx.account_keys@[j]) == 0,
                forall|j: int| 0 <= j < p ==> !self@.write.contains(#[trigger] tx.program_ids@[j]),
            decreases tx.program_ids@.len() - p,
        {
            if self.contains(&tx.program_ids[p]) {
                assert(self@.write.contains(tx@.program_ids[p as int]));
                return Err(TransactionError::AccountInUse);
            }
            p += 1;
        }
        let mut j: usize = 0;
        proof {
            assert(self@.write =~= old(self)@.write.union(
                tx.account_keys@.subrange(0, 0).to_set(),
            ));
        }
        while j < tx.account_keys.len()
            invariant
                j <= tx.account_keys@.len(),
                self.wf(),
                self@ == (LocksView {
                    write: old(self)@.write.union(tx.account_keys@.subrange(0, j as int).to_set()),
                    ..old(self)@
                }),
            decreases tx.account_keys@.len() - j,
        {
            self.insert(&tx.account_keys[j]);
            proof {
                let keys = tx.account_keys@;
                let before = keys.subrange(0, j as int);
                let after = keys.subrange(0, j + 1);
                assert forall|k: Pubkey| after.contains(k) == (k == keys[j as int]
                    || before.contains(k)) by {
                    if before.contains(k) {
                        let c = choose|c: int| 0 <= c < before.len() && before[c] == k;
                        assert(after[c] == k);
                    }
                    if k == keys[j as int] {
                        assert(after[j as int] == k);
                    }
                    if after.contains(k) {
                        let c = choose|c: int| 0 <= c < after.len() && after[c] == k;
                        if c < j {
                            assert(before[c] == k);
                        }
                    }
                }
                assert(self@.write =~= old(self)@.write.union(after.to_set()));
            }
            j += 1;
        }
        let mut q: usize = 0;
        proof {
            broadcast use group_multiset_axioms;

            assert(tx.account_keys@.subrange(0, tx.account_keys@.len() as int)
                =~= tx.account_keys@);
            tx.program_ids@.subrange(0, 0).to_multiset_ensures();
            assert(self@.read =~= old(self)@.read.add(
                tx.program_ids@.subrange(0, 0).to_multiset(),
            ));
        }
        while q < tx.program_ids.len()
            invariant
                q <= tx.program_ids@.len(),
                self.wf(),
                self@ == (LocksView {
                    write: old(self)@.write.union(tx.account_keys@.to_set()),
                    read: old(self)@.read.add(tx.program_ids@.subrange(0, q as int).to_multiset()),
                }),
            decreases tx.program_ids@.len() - q,
        {
            self.insert_program(&tx.program_ids[q]);
            proof {
                broadcast use group_multiset_axioms;

                let ids = tx.program_ids@;
                let before = ids.subrange(0, q as int);
                before.to_multiset_ensures();
                assert(ids.subrange(0, q + 1) =~= before.push(ids[q as int]));
                assert(self@.read =~= old(self)@.read.add(ids.subrange(0, q + 1).to_multiset()));
            }
            q += 1;
        }
        proof {
            assert(tx.program_ids@.subrange(0, tx.program_ids@.len() as int)
                =~= tx.program_ids@);
        }
        Ok(())
    }

    /// Gives back the locks of a transaction.
    pub fn unlock_transaction(&mut self, tx: &Transaction)
        requires
            old(self).wf(),
        ensures
            final(self).wf(),
            final(self)@ == old(self)@.give_back(tx@),
    {
        let mut j: usize = 0;
        proof {
            assert(self@.write =~= old(self)@.write.difference(
                tx.account_keys@.subrange(0, 0).to_set(),
            ));
        }
        while j < tx.account_keys.len()
            invariant
                j <= tx.account_keys@.len(),
                self.wf(),
                self@ == (LocksView {
                    write: old(self)@.write.difference(
                        tx.account_keys@.subrange(0, j as int).to_set(),
                    ),
                    ..old(self)@
                }),
            decreases tx.account_keys@.len() - j,
        {
            self.remove(&tx.account_keys[j]);
            proof {
                let keys = tx.account_keys@;
                let before = keys.subrange(0, j as int);
                let after = keys.subrange(0, j + 1);
                assert forall|k: Pubkey| after.contains(k) == (k == keys[j as int]
                    || before.contains(k)) by {
                    if before.contains(k) {
                        let c = choose|c: int| 0 <= c < before.len() && before[c] == k;
                        assert(after[c] == k);
                    }
                    if k == keys[j as int] {
                        assert(after[j as int] == k);
                    }
                    if after.contains(k) {
                        let c = choose|c: int| 0 <= c < after.len() && after[c] == k;
                        if c < j {
                            assert(before[c] == k);
                        }
                    }
                }
                assert(self@.write =~= old(self)@.write.difference(after.to_set()));
            }
            j += 1;
        }
        let mut q: usize = 0;
        proof {
            broadcast use group_multiset_axioms;

            assert(tx.account_keys@.subrange(0, tx.account_keys@.len() as int)
                =~= tx.account_keys@);
            tx.program_ids@.subrange(0, 0).to_multiset_ensures();
            assert(self@.read =~= old(self)@.read.sub(
                tx.program_ids@.subrange(0, 0).to_multiset(),
            ));
        }
        while q < tx.program_ids.len()
            invariant
                q <= tx.program_ids@.len(),
                self.wf(),
                self@ == (LocksView {
                    write: old(self)@.write.difference(tx.account_keys@.to_set()),
                    read: old(self)@.read.sub(tx.program_ids@.subrange(0, q as int).to_multiset()),
                }),
            decreases tx.program_ids@.len() - q,
        {
            self.remove_program(&tx.program_ids[q]);
            proof {
                broadcast use group_multiset_axioms;

                let ids = tx.program_ids@;
                let before = ids.subrange(0, q as int);
                before.to_multiset_ensures();
                assert(ids.subrange(0, q + 1) =~= before.push(ids[q as int]));
                assert(self@.read =~= old(self)@.read.sub(ids.subrange(0, q + 1).to_multiset()));
            }
            q += 1;
        }
        proof {
            assert(tx.program_ids@.subrange(0, tx.program_ids@.len() as int)
                =~= tx.program_ids@);
        }
    }

    /// Lets each transaction of a batch take its locks, in order.
    pub fn lock_accounts(&mut self, txs: &[Transaction]) -> (r: Vec<LockResult>)
        requires
            old(self).wf(),
        ensures
            final(self).wf(),
            r@.len() == txs@.len(),
            forall|i: int|
                0 <= i < txs@.len() ==> #[trigger] r@[i] == lock_result(
                    old(self)@,
                    transaction_views(txs@),
                    i,
                ),
            final(self)@ == locks_after(
                old(self)@,
                transaction_views(txs@),
                txs@.len() as int,
            ),
    {
        let ghost views = transaction_views(txs@);
        let mut results: Vec<LockResult> = Vec::new();
        let mut i: usize = 0;
        while i < txs.len()
            invariant
                i <= txs@.len(),
                self.wf(),
                views == transaction_views(txs@),
                results@.len() == i,
                forall|k: int|
                    0 <= k < i ==> #[trigger] results@[k] == lock_result(old(self)@, views, k),
                self@ == locks_after(old(self)@, views, i as int),
            decreases txs@.len() - i,
        {
            assert(views[i as int] == txs@[i as int]@);
            let res = self.lock_transaction(&txs[i]);
            results.push(res);
            i += 1;
        }
        results
    }

    /// Lets each transaction of a batch give its locks back, but those that
    /// failed with `AccountInUse`.
    pub fn unlock_accounts(&mut self, txs: &[Transaction], results: &[LockResult])
        requires
            old(self).wf(),
            results@.len() == txs@.len(),
        ensures
            final(self).wf(),
            final(self)@ == unlocked_after(
                old(self)@,
                transaction_views(txs@),
                results@,
                txs@.len() as int,
            ),
    {
        let ghost views = transaction_views(txs@);
        let mut i: usize = 0;
        while i < txs.len()
            invariant
                i <= txs@.len(),
                results@.len() == txs@.len(),
                self.wf(),
                views == transaction_views(txs@),
                self@ == unlocked_after(old(self)@, views, results@, i as int),
            decreases txs@.len() - i,
        {
            assert(views[i as int] == txs@[i as int]@);
            let skip = match results[i] {
                Err(TransactionError::AccountInUse) => true,
                _ => false,
            };
            if !skip {
                self.unlock_transaction(&txs[i]);
            }
            i += 1;
        }
    }
}

} // verus!
