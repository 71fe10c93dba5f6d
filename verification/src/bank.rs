//! The bank: the state of the ledger at one slot, over the frozen banks of
//! the slots before it. A bank runs batches of transactions, registers the
//! ticks of its slot, and is frozen when the slot ends; a bank that becomes
//! the root takes the state of its ancestors in and lets them go.

use vstd::prelude::*;
use vstd::string::*;
use std::sync::Arc;
use crate::account::{account_views, Account, AccountView};
use crate::account_locks::{
    lemma_holders_apart, lemma_lock_conservation, lock_result, lock_results, locks_after,
    transaction_views, unlocked_after, AccountLocks,
};
use crate::account_store::{delta_bytes, AccountStore};
use crate::bank_view::{
    accounts_of_owner, age_result, child_bank, collect_fees, confirmed_slot, confirms, count_ok,
    deposit_spec, fee_paid, fees_due, fees_settled, genesis_accounts, genesis_bank, has_duplicates,
    is_confirmed_slot, is_retryable, lemma_batch_fees, lemma_checked_errors, lemma_checked_in_use,
    lemma_collect_fees_results, lemma_failed_instruction_pays, lemma_failed_instructions_pay,
    lemma_failed_status_pays, lemma_fees_due, lemma_recorded_is_seen, lemma_retryable_keeps_status,
    lemma_unrecorded_signature, load_accounts_spec, load_spec, loaded_view, loaded_views,
    loader_chain, loader_chains, loaders_error, lookup, lookup_or_empty, native_programs_installed,
    outcome_of, padded, programs_in_range, record_statuses, results_of, saturating_sum, spared,
    squash_caches, stake_from, store_accounts, store_transaction, stored_count, withdraw_spec,
    BankView, LoadedAccounts, MAX_LOADER_DEPTH,
};
use crate::blockhash_queue::{BlockhashQueue, MAX_RECENT_BLOCKHASHES};
use crate::epoch_schedule::EpochSchedule;
use crate::epoch_stakes::{EpochStakes, VoteAccounts};
use crate::genesis_block::{program_views, GenesisBlock, NUM_TICKS_PER_SECOND};
use crate::native_loader;
use crate::pubkey::Pubkey;
use crate::runtime::{chain_views, loaders_views, InstructionProcessor, Runtime, SystemProcessor};
use crate::signature::{Keypair, Signature};
use crate::status_cache::{Status, StatusCache};
use crate::system_transaction::SystemTransaction;
use crate::timing::timestamp;
use crate::transaction::{Transaction, TransactionError};
use crate::vote_state::{Lockout, VOTE_STATE_SIZE, VoteState};

verus! {

/// The result of an operation of the bank.
pub type Result<T> = std::result::Result<T, TransactionError>;

pub struct Bank<P: InstructionProcessor> {
    /// The accounts written on this fork.
    accounts: AccountStore,
    /// The accounts locked on this fork.
    locks: AccountLocks,
    /// The transactions that ran without error on this fork and its ancestors.
    transaction_count: u64,
    /// The signatures seen on this fork.
    status_cache: StatusCache,
    /// The recent blockhashes.
    blockhash_queue: BlockhashQueue,
    /// The bank of the slot before, frozen.
    parent: Option<Arc<Bank<P>>>,
    /// The hash of this bank's state, once frozen.
    hash: Option<crate::hash::Hash>,
    /// The hash of the parent's state.
    parent_hash: crate::hash::Hash,
    /// The ticks since genesis.
    tick_height: u64,
    /// The number of ticks in each slot.
    ticks_per_slot: u64,
    /// The slot of this bank.
    slot: u64,
    /// The account that gets the fees.
    collector_id: Pubkey,
    epoch_schedule: EpochSchedule,
    /// The vote accounts in force at the start of each epoch.
    epoch_vote_accounts: EpochStakes,
    /// Whether a batch was committed on this fork.
    is_delta: bool,
    /// The handlers of the programs.
    runtime: Runtime<P>,
}

/// The hash of a bank's state: the parent's hash if nothing was written on
/// the fork, else the parent's hash extended by the hash of the writes.
pub open spec fn internal_state_hash(bank: BankView) -> crate::hash::Hash {
    if bank.accounts == Map::<Pubkey, AccountView>::empty() {
        bank.parent_hash
    } else {
        crate::hash::extend_and_hash_spec(
            bank.parent_hash,
            crate::hash::hash_spec(delta_bytes(bank.accounts)).to_bytes_spec(),
        )
    }
}

impl<P: InstructionProcessor> View for Bank<P> {
    type V = BankView;

    closed spec fn view(&self) -> BankView {
        self.to_view()
    }
}

impl<P: InstructionProcessor> Bank<P> {
    pub closed spec fn to_view(&self) -> BankView
        decreases self,
    {
        BankView {
            accounts: self.accounts@,
            locks: self.locks@,
            transaction_count: self.transaction_count,
            status_cache: self.status_cache@,
            blockhash_queue: self.blockhash_queue@,
            parent: match self.parent {
                None => None,
                Some(p) => Some(Box::new(p.to_view())),
            },
            hash: self.hash,
            parent_hash: self.parent_hash,
            tick_height: self.tick_height,
            ticks_per_slot: self.ticks_per_slot,
            slot: self.slot,
            collector_id: self.collector_id,
            epoch_schedule: self.epoch_schedule,
            epoch_vote_accounts: self.epoch_vote_accounts@,
            is_delta: self.is_delta,
            programs: self.runtime.ids_spec(),
        }
    }

    /// The parts of the bank are well formed, and so is every ancestor;
    /// each ancestor is frozen and older than its child.
    pub closed spec fn wf(&self) -> bool
        decreases self,
    {
        &&& self.accounts.wf()
        &&& self.locks.wf()
        &&& self.runtime.wf()
        &&& self.status_cache@.wf()
        &&& self.blockhash_queue@.wf()
        &&& self.blockhash_queue@.hash_height <= self.tick_height
        &&& match self.parent {
            None => true,
            Some(p) => p.wf() && p.hash is Some && p.slot < self.slot,
        }
    }

    /// The parent, if the bank has one.
    pub closed spec fn parent_spec(&self) -> Option<Arc<Bank<P>>> {
        self.parent
    }

    /// The runtime: the handlers registered on this bank.
    pub closed spec fn runtime_spec(&self) -> Runtime<P> {
        self.runtime
    }

    /// The ancestors, nearest first: none for a root, else the parent and
    /// then the parent's ancestors.
    pub open spec fn parents_spec(&self) -> Seq<Arc<Bank<P>>>
        decreases self,
    {
        match self.parent_spec() {
            None => Seq::empty(),
            Some(p) => seq![p] + p.parents_spec(),
        }
    }

    /// What a well-formed bank's view is like.
    pub proof fn lemma_wf(&self)
        requires
            self.wf(),
        ensures
            self@.wf(),
            self@.accounts.dom().finite(),
            self@.programs == self.runtime_spec().ids_spec(),
            match self.parent_spec() {
                None => self@.parent is None,
                Some(p) => self@.parent == Some(Box::new(p@)) && p.wf(),
            },
        decreases self,
    {
        self.accounts.lemma_entries();
        match self.parent {
            None => {},
            Some(p) => {
                p.lemma_wf();
            },
        }
    }

    pub fn collector_id(&self) -> (r: Pubkey)
        ensures
            r == self@.collector_id,
    {
        self.collector_id
    }

    pub fn slot(&self) -> (r: u64)
        ensures
            r == self@.slot,
    {
        self.slot
    }

    /// The hash of the bank's state, or the all-zero hash while the bank
    /// is not frozen.
    pub fn hash(&self) -> (r: crate::hash::Hash)
        ensures
            r == (match self@.hash {
                Some(h) => h,
                None => crate::hash::Hash::zero(),
            }),
    {
        match self.hash {
            Some(h) => h,
            None => crate::hash::Hash::default(),
        }
    }

    pub fn is_frozen(&self) -> (r: bool)
        ensures
            r == self@.is_frozen(),
    {
        self.hash.is_some()
    }

    /// The hash that freezing the bank now would give it.
    pub fn hash_internal_state(&self) -> (r: crate::hash::Hash)
        requires
            self.wf(),
        ensures
            r == internal_state_hash(self@),
    {
        if self.accounts.len() == 0 {
            return self.parent_hash;
        }
        let bytes = self.accounts.to_bytes();
        let delta_hash = crate::hash::hash(bytes.as_slice());
        let delta = delta_hash.to_bytes();
        crate::hash::extend_and_hash(&self.parent_hash, delta.as_slice())
    }

    /// Freezes the bank: fixes its hash, once and for all.
    pub fn freeze(&mut self)
        requires
            old(self).wf(),
        ensures
            final(self).wf(),
            final(self)@ == old(self)@.freeze(internal_state_hash(old(self)@)),
            final(self).parent_spec() == old(self).parent_spec(),
            final(self).runtime_spec() == old(self).runtime_spec(),
    {
        if self.hash.is_none() {
            self.hash = Some(self.hash_internal_state());
        }
    }

    /// The bank of the slot before, if this bank is not a root.
    pub fn parent(&self) -> (r: Option<Arc<Bank<P>>>)
        ensures
            r == self.parent_spec(),
    {
        match &self.parent {
            Some(p) => Some(Arc::clone(p)),
            None => None,
        }
    }

    /// The ancestors of the bank, nearest first: none for a root, else the
    /// parent and then the parent's ancestors.
    pub fn parents(&self) -> (r: Vec<Arc<Bank<P>>>)
        ensures
            r@ == self.parents_spec(),
            self.parent_spec() is None ==> r@.len() == 0,
            self.parent_spec() matches Some(p) ==> r@.len() > 0 && r@[0] == p && r@ == seq![p]
                + p.parents_spec(),
    {
        let mut out: Vec<Arc<Bank<P>>> = Vec::new();
        let mut cur: Option<Arc<Bank<P>>> = self.parent();
        loop
            invariant
                self.parents_spec() == out@ + (match cur {
                    None => Seq::empty(),
                    Some(p) => seq![p] + p.parents_spec(),
                }),
            ensures
                out@ == self.parents_spec(),
            decreases
                    (match cur {
                        None => 0nat,
                        Some(p) => 1 + p@.depth(),
                    }),
        {
            match cur {
                None => {
                    proof {
                        assert(out@ + Seq::<Arc<Bank<P>>>::empty() =~= out@);
                    }
                    break ;
                },
                Some(p) => {
                    let ghost before = out@;
                    let next = p.parent();
                    out.push(Arc::clone(&p));
                    proof {
                        assert(before + (seq![p] + p.parents_spec()) =~= out@ + p.parents_spec());
                        p.lemma_depth();
                    }
                    cur = next;
                },
            }
        }
        out
    }

    proof fn lemma_depth(&self)
        ensures
            match self.parent_spec() {
                None => self@.depth() == 0,
                Some(p) => self@.depth() == 1 + p@.depth(),
            },
    {
    }

    /// Whether a batch was committed on this fork.
    pub fn is_delta(&self) -> (r: bool)
        ensures
            r == self@.is_delta,
    {
        self.is_delta
    }

    pub fn ticks_per_slot(&self) -> (r: u64)
        ensures
            r == self@.ticks_per_slot,
    {
        self.ticks_per_slot
    }

    /// The number of ticks since genesis.
    pub fn tick_height(&self) -> (r: u64)
        ensures
            r == self@.tick_height,
    {
        self.tick_height
    }

    /// The number of transactions that ran without error on this fork and
    /// its ancestors.
    pub fn transaction_count(&self) -> (r: u64)
        ensures
            r == self@.transaction_count,
    {
        self.transaction_count
    }

    /// The blockhash registered last.
    pub fn last_blockhash(&self) -> (r: crate::hash::Hash)
        requires
            self@.blockhash_queue.last_hash is Some,
        ensures
            Some(r) == self@.blockhash_queue.last_hash,
    {
        match self.blockhash_queue.last_hash() {
            Some(h) => h,
            None => crate::hash::Hash::default(),
        }
    }

    /// Forgets every signature seen on this fork.
    pub fn clear_signatures(&mut self)
        requires
            old(self).wf(),
        ensures
            final(self).wf(),
            final(self)@ == (BankView {
                status_cache: old(self)@.status_cache.clear(),
                ..old(self)@
            }),
            final(self).parent_spec() == old(self).parent_spec(),
            final(self).runtime_spec() == old(self).runtime_spec(),
    {
        self.status_cache.clear();
    }

    /// The length of an epoch, in slots.
    pub fn get_slots_in_epoch(&self, epoch: u64) -> (r: u64)
        requires
            self@.epoch_schedule.first_normal_epoch <= 64,
        ensures
            r == self@.epoch_schedule.slots_in_epoch_spec(epoch),
    {
        self.epoch_schedule.get_slots_in_epoch(epoch)
    }

    /// The epoch for which the given slot fixes the stakes.
    pub fn get_stakers_epoch(&self, slot: u64) -> (r: u64)
        requires
            self@.epoch_schedule.wf(),
            slot >= self@.epoch_schedule.first_normal_slot ==> slot
                - self@.epoch_schedule.first_normal_slot + self@.epoch_schedule.stakers_slot_offset
                <= u64::MAX,
        ensures
            r == self@.epoch_schedule.stakers_epoch_spec(slot),
    {
        self.epoch_schedule.get_stakers_epoch(slot)
    }

    /// The epoch of the given slot, and the slot's index in it.
    pub fn get_epoch_and_slot_index(&self, slot: u64) -> (r: (u64, u64))
        requires
            self@.epoch_schedule.wf(),
        ensures
            (r.0 as int, r.1 as int) == self@.epoch_schedule.epoch_and_slot_index_spec(slot),
    {
        self.epoch_schedule.get_epoch_and_slot_index(slot)
    }

    /// Whether the bank can be voted on.
    pub fn is_votable(&self) -> (r: bool)
        ensures
            r == self@.is_votable(),
    {
        let slots: u128 = self.slot as u128 + 1;
        let ticks: u128 = self.ticks_per_slot as u128;
        proof {
            assert(slots * ticks <= 0x1_0000_0000_0000_0000 * 0xffff_ffff_ffff_ffff)
                by (nonlinear_arith)
                requires
                    0 <= slots <= 0x1_0000_0000_0000_0000,
                    0 <= ticks <= 0xffff_ffff_ffff_ffff,
            ;
        }
        let max_plus_one: u128 = slots * ticks;
        self.is_delta && self.tick_height as u128 + 1 == max_plus_one
    }

    /// The vote accounts in force at the start of an epoch, if the bank
    /// holds them.
    pub fn epoch_vote_accounts(&self, epoch: u64) -> (r: Option<&VoteAccounts>)
        requires
            self.wf(),
        ensures
            r is Some == self@.epoch_vote_accounts.contains_key(epoch),
            r is Some ==> r->Some_0@ == self@.epoch_vote_accounts[epoch],
    {
        self.epoch_vote_accounts.get(epoch)
    }

    /// Whether `parent` is the slot of this bank or of one of its ancestors.
    pub fn is_in_subtree_of(&self, parent: u64) -> (r: bool)
        requires
            self.wf(),
        ensures
            r == self@.in_subtree_of(parent),
        decreases self,
    {
        if self.slot == parent {
            return true;
        }
        match &self.parent {
            None => false,
            Some(p) => {
                if p.slot < parent {
                    proof {
                        p.lemma_older(parent);
                    }
                    false
                } else {
                    p.is_in_subtree_of(parent)
                }
            },
        }
    }

    /// A slot above a bank's is neither the bank's nor an ancestor's.
    proof fn lemma_older(&self, slot: u64)
        requires
            self.wf(),
            self.slot < slot,
        ensures
            !self@.in_subtree_of(slot),
        decreases self,
    {
        match self.parent {
            None => {},
            Some(p) => {
                p.lemma_older(slot);
            },
        }
    }

    /// The first entry for an address on the way from this fork to the root.
    fn load_raw(&self, pubkey: &Pubkey) -> (r: Option<Account>)
        requires
            self.wf(),
        ensures
            match r {
                Some(a) => self@.visible().contains_key(*pubkey) && self@.visible()[*pubkey] == a@,
                None => !self@.visible().contains_key(*pubkey),
            },
        decreases self,
    {
        match self.accounts.get(pubkey) {
            Some(a) => Some(a.clone()),
            None => match &self.parent {
                Some(p) => p.load_raw(pubkey),
                None => None,
            },
        }
    }

    /// The account of an address on this fork: what the fork wrote last, or
    /// else the nearest ancestor; an account that holds nothing counts as
    /// absent.
    pub fn get_account(&self, pubkey: &Pubkey) -> (r: Option<Account>)
        requires
            self.wf(),
        ensures
            match r {
                Some(a) => self@.account(*pubkey) == Some(a@),
                None => self@.account(*pubkey) is None,
            },
    {
        match self.load_raw(pubkey) {
            Some(a) => {
                if a.is_dead() {
                    None
                } else {
                    Some(a)
                }
            },
            None => None,
        }
    }

    /// The account that this fork itself wrote for an address.
    pub fn get_account_modified_since_parent(&self, pubkey: &Pubkey) -> (r: Option<Account>)
        requires
            self.wf(),
        ensures
            match r {
                Some(a) => lookup(self@.accounts, *pubkey) == Some(a@),
                None => lookup(self@.accounts, *pubkey) is None,
            },
    {
        match self.accounts.get(pubkey) {
            Some(a) => {
                if a.is_dead() {
                    None
                } else {
                    Some(a.clone())
                }
            },
            None => None,
        }
    }

    pub fn read_balance(account: &Account) -> (r: u64)
        ensures
            r == account@.lamports,
    {
        account.lamports
    }

    /// The balance of an address on this fork; 0 where there is no account.
    pub fn get_balance(&self, pubkey: &Pubkey) -> (r: u64)
        requires
            self.wf(),
        ensures
            r == self@.balance(*pubkey),
    {
        match self.get_account(pubkey) {
            Some(a) => Bank::<P>::read_balance(&a),
            None => 0,
        }
    }

    /// Whether this fork has seen the signature.
    pub fn has_signature(&self, signature: &Signature) -> (r: bool)
        requires
            self.wf(),
        ensures
            r == self@.has_signature(*signature),
        decreases self,
    {
        if self.status_cache.has_signature(signature) {
            return true;
        }
        match &self.parent {
            Some(p) => p.has_signature(signature),
            None => false,
        }
    }

    /// The status of the transaction with the given signature on this fork.
    pub fn get_signature_status(&self, signature: &Signature) -> (r: Option<Status>)
        requires
            self.wf(),
        ensures
            r == self@.signature_status(*signature),
        decreases self,
    {
        let own = self.status_cache.get_signature_status(signature);
        if own.is_some() {
            return own;
        }
        match &self.parent {
            Some(p) => p.get_signature_status(signature),
            None => None,
        }
    }

    /// Stores an account on this fork.
    pub fn store(&mut self, pubkey: &Pubkey, account: &Account)
        requires
            old(self).wf(),
        ensures
            final(self).wf(),
            final(self)@ == (BankView {
                accounts: old(self)@.accounts.insert(*pubkey, account@),
                ..old(self)@
            }),
            final(self).parent_spec() == old(self).parent_spec(),
            final(self).runtime_spec() == old(self).runtime_spec(),
    {
        self.accounts.store(pubkey, account.clone());
    }

    /// Takes lamports from an account.
    pub fn withdraw(&mut self, pubkey: &Pubkey, lamports: u64) -> (r: Result<()>)
        requires
            old(self).wf(),
        ensures
            final(self).wf(),
            final(self).parent_spec() == old(self).parent_spec(),
            final(self).runtime_spec() == old(self).runtime_spec(),
            match withdraw_spec(old(self)@.base(), old(self)@.accounts, *pubkey, lamports) {
                Ok(accounts) => r is Ok && final(self)@ == (BankView { accounts, ..old(self)@ }),
                Err(e) => r == Err::<(), TransactionError>(e) && final(self)@ == old(self)@,
            },
    {
        match self.get_account(pubkey) {
            Some(mut account) => {
                if lamports > account.lamports {
                    return Err(TransactionError::InsufficientFundsForFee);
                }
                account.lamports -= lamports;
                self.accounts.store(pubkey, account);
                Ok(())
            },
            None => Err(TransactionError::AccountNotFound),
        }
    }

    /// Adds lamports to an account, which is created if there is none.
    pub fn deposit(&mut self, pubkey: &Pubkey, lamports: u64)
        requires
            old(self).wf(),
            old(self)@.balance(*pubkey) + lamports <= u64::MAX,
        ensures
            final(self).wf(),
            final(self)@ == old(self)@.deposit(*pubkey, lamports),
            final(self).parent_spec() == old(self).parent_spec(),
            final(self).runtime_spec() == old(self).runtime_spec(),
    {
        self.credit(pubkey, lamports);
    }

    /// Adds lamports to an account, up to the greatest balance.
    fn credit(&mut self, pubkey: &Pubkey, lamports: u64)
        requires
            old(self).wf(),
        ensures
            final(self).wf(),
            final(self)@ == old(self)@.deposit(*pubkey, lamports),
            final(self).parent_spec() == old(self).parent_spec(),
            final(self).runtime_spec() == old(self).runtime_spec(),
    {
        let mut account = match self.get_account(pubkey) {
            Some(a) => a,
            None => Account::default(),
        };
        account.lamports = account.lamports.saturating_add(lamports);
        self.accounts.store(pubkey, account);
    }

    /// Lets each transaction of a batch take the locks of its accounts, in
    /// order. A transaction that finds one of its accounts locked gets
    /// `AccountInUse` and holds no lock.
    pub fn lock_accounts(&mut self, txs: &[Transaction]) -> (r: Vec<Result<()>>)
        requires
            old(self).wf(),
        ensures
            final(self).wf(),
            r@.len() == txs@.len(),
            forall|i: int|
                0 <= i < txs@.len() ==> #[trigger] r@[i] == lock_result(
                    old(self)@.locks,
                    transaction_views(txs@),
                    i,
                ),
            final(self)@ == (BankView {
                locks: locks_after(old(self)@.locks, transaction_views(txs@), txs@.len() as int),
                ..old(self)@
            }),
            final(self).parent_spec() == old(self).parent_spec(),
            final(self).runtime_spec() == old(self).runtime_spec(),
    {
        self.locks.lock_accounts(txs)
    }

    /// Lets each transaction of a batch give its locks back, but those
    /// whose result is `AccountInUse`, which hold none.
    pub fn unlock_accounts(&mut self, txs: &[Transaction], results: &[Result<()>])
        requires
            old(self).wf(),
            results@.len() == txs@.len(),
        ensures
            final(self).wf(),
            final(self)@ == (BankView {
                locks: unlocked_after(
                    old(self)@.locks,
                    transaction_views(txs@),
                    results@,
                    txs@.len() as int,
                ),
                ..old(self)@
            }),
            final(self).parent_spec() == old(self).parent_spec(),
            final(self).runtime_spec() == old(self).runtime_spec(),
    {
        self.locks.unlock_accounts(txs, results)
    }

    /// Fails each transaction that holds its locks and names a blockhash
    /// that the queue does not hold or that is older than `max_age`.
    fn check_age(&self, txs: &[Transaction], lock_results: &Vec<Result<()>>, max_age: usize) -> (r:
        Vec<Result<()>>)
        requires
            self.wf(),
            lock_results@.len() == txs@.len(),
        ensures
            r@.len() == txs@.len(),
            forall|i: int|
                0 <= i < txs@.len() ==> #[trigger] r@[i] == age_result(
                    self@.blockhash_queue,
                    txs@[i]@,
                    lock_results@[i],
                    max_age,
                ),
    {
        let mut out: Vec<Result<()>> = Vec::new();
        let mut i: usize = 0;
        while i < txs.len()
            invariant
                i <= txs@.len(),
                self.wf(),
                lock_results@.len() == txs@.len(),
                out@.len() == i,
                forall|k: int|
                    0 <= k < i ==> #[trigger] out@[k] == age_result(
                        self@.blockhash_queue,
                        txs@[k]@,
                        lock_results@[k],
                        max_age,
                    ),
            decreases txs@.len() - i,
        {
            let res = lock_results[i];
            if res.is_ok() && !self.blockhash_queue.check_hash_age(
                txs[i].recent_blockhash,
                max_age,
            ) {
                out.push(Err(TransactionError::BlockhashNotFound));
            } else {
                out.push(res);
            }
            i += 1;
        }
        out
    }

    /// Fails each transaction that passed so far and whose first signature
    /// this fork has seen.
    fn check_signatures(&self, txs: &[Transaction], lock_results: &Vec<Result<()>>) -> (r: Vec<
        Result<()>,
    >)
        requires
            self.wf(),
            lock_results@.len() == txs@.len(),
        ensures
            r@.len() == txs@.len(),
            forall|i: int|
                0 <= i < txs@.len() ==> #[trigger] r@[i] == self@.signature_result(
                    txs@[i]@,
                    lock_results@[i],
                ),
    {
        let mut out: Vec<Result<()>> = Vec::new();
        let mut i: usize = 0;
        while i < txs.len()
            invariant
                i <= txs@.len(),
                self.wf(),
                lock_results@.len() == txs@.len(),
                out@.len() == i,
                forall|k: int|
                    0 <= k < i ==> #[trigger] out@[k] == self@.signature_result(
                        txs@[k]@,
                        lock_results@[k],
                    ),
            decreases txs@.len() - i,
        {
            let res = lock_results[i];
            if txs[i].signatures.len() > 0 && res.is_ok() && self.has_signature(
                &txs[i].signatures[0],
            ) {
                out.push(Err(TransactionError::DuplicateSignature));
            } else {
                out.push(res);
            }
            i += 1;
        }
        out
    }

    fn keys_have_duplicates(keys: &Vec<Pubkey>) -> (r: bool)
        ensures
            r == has_duplicates(keys@),
    {
        let mut i: usize = 0;
        while i < keys.len()
            invariant
                i <= keys@.len(),
                forall|a: int, b: int| 0 <= a < b < i ==> keys@[a] != keys@[b],
            decreases keys@.len() - i,
        {
            let mut k: usize = 0;
            while k < i
                invariant
                    k <= i < keys@.len(),
                    forall|a: int| 0 <= a < k ==> keys@[a] != keys@[i as int],
                decreases i - k,
            {
                if keys[k] == keys[i] {
                    return true;
                }
                k += 1;
            }
            i += 1;
        }
        false
    }

    /// Loads the accounts of a transaction and takes the fee from the first.
    fn load_tx_accounts(&self, tx: &Transaction) -> (r: Result<Vec<Account>>)
        requires
            self.wf(),
        ensures
            match r {
                Ok(accounts) => load_accounts_spec(self@.visible(), tx@) == Ok::<
                    Seq<AccountView>,
                    TransactionError,
                >(account_views(accounts@)),
                Err(e) => load_accounts_spec(self@.visible(), tx@) == Err::<
                    Seq<AccountView>,
                    TransactionError,
                >(e),
            },
    {
        if tx.signatures.len() == 0 && tx.fee != 0 {
            return Err(TransactionError::MissingSignatureForFee);
        }
        if Bank::<P>::keys_have_duplicates(&tx.account_keys) {
            return Err(TransactionError::AccountLoadedTwice);
        }
        let ghost visible = self@.visible();
        let ghost called = Seq::new(
            tx@.account_keys.len(),
            |j: int| lookup_or_empty(visible, tx@.account_keys[j]),
        );
        let mut accounts: Vec<Account> = Vec::new();
        let mut j: usize = 0;
        while j < tx.account_keys.len()
            invariant
                j <= tx.account_keys@.len(),
                self.wf(),
                visible == self@.visible(),
                accounts@.len() == j,
                forall|k: int|
                    0 <= k < j ==> (#[trigger] accounts@[k])@ == lookup_or_empty(
                        visible,
                        tx.account_keys@[k],
                    ),
            decreases tx.account_keys@.len() - j,
        {
            let account = match self.get_account(&tx.account_keys[j]) {
                Some(a) => a,
                None => Account::default(),
            };
            accounts.push(account);
            j += 1;
        }
        proof {
            assert(account_views(accounts@) =~= called);
        }
        if accounts.len() == 0 || accounts[0].lamports == 0 {
            Err(TransactionError::AccountNotFound)
        } else if accounts[0].lamports < tx.fee {
            Err(TransactionError::InsufficientFundsForFee)
        } else {
            accounts[0].lamports -= tx.fee;
            proof {
                assert(account_views(accounts@) =~= called.update(
                    0,
                    AccountView { lamports: (called[0].lamports - tx.fee) as u64, ..called[0] },
                ));
            }
            Ok(accounts)
        }
    }

    /// The chain of loaders of a program, the program's own account last.
    fn load_executable_accounts(&self, program_id: Pubkey, depth: usize) -> (r: Result<
        Vec<(Pubkey, Account)>,
    >)
        requires
            self.wf(),
            depth <= MAX_LOADER_DEPTH,
        ensures
            match r {
                Ok(chain) => loader_chain(self@.visible(), program_id, depth as nat) == Ok::<
                    Seq<(Pubkey, AccountView)>,
                    TransactionError,
                >(chain_views(chain@)),
                Err(e) => loader_chain(self@.visible(), program_id, depth as nat) == Err::<
                    Seq<(Pubkey, AccountView)>,
                    TransactionError,
                >(e),
            },
        decreases MAX_LOADER_DEPTH - depth,
    {
        if native_loader::check_id(&program_id) {
            let none: Vec<(Pubkey, Account)> = Vec::new();
            proof {
                assert(chain_views(none@) =~= Seq::<(Pubkey, AccountView)>::empty());
            }
            return Ok(none);
        }
        if depth >= MAX_LOADER_DEPTH {
            return Err(TransactionError::CallChainTooDeep);
        }
        let program = match self.get_account(&program_id) {
            Some(program) => program,
            None => { return Err(TransactionError::AccountNotFound); },
        };
        if !program.executable || program.owner == Pubkey::default() {
            return Err(TransactionError::AccountNotFound);
        }
        match self.load_executable_accounts(program.owner, depth + 1) {
            Err(e) => Err(e),
            Ok(mut chain) => {
                let ghost rest = chain_views(chain@);
                let ghost top = program@;
                chain.push((program_id, program));
                proof {
                    assert(chain_views(chain@) =~= rest.push((program_id, top)));
                }
                Ok(chain)
            },
        }
    }

    /// The loader chains of a transaction's programs.
    fn load_loaders(&self, tx: &Transaction) -> (r: Result<Vec<Vec<(Pubkey, Account)>>>)
        requires
            self.wf(),
        ensures
            match r {
                Ok(loaders) => programs_in_range(tx@) && loaders_error(
                    self@.visible(),
                    tx@,
                    tx@.program_ids.len() as int,
                ) is None && loaders_views(loaders@) == loader_chains(self@.visible(), tx@),
                Err(e) => if !programs_in_range(tx@) {
                    e == TransactionError::AccountNotFound
                } else {
                    loaders_error(self@.visible(), tx@, tx@.program_ids.len() as int) == Some(e)
                },
            },
    {
        let mut i: usize = 0;
        while i < tx.instructions.len()
            invariant
                i <= tx.instructions@.len(),
                forall|k: int|
                    0 <= k < i ==> (#[trigger] tx@.instructions[k]).program_ids_index
                        < tx@.program_ids.len(),
            decreases tx.instructions@.len() - i,
        {
            if tx.instructions[i].program_ids_index as usize >= tx.program_ids.len() {
                assert(tx@.instructions[i as int].program_ids_index >= tx@.program_ids.len());
                return Err(TransactionError::AccountNotFound);
            }
            assert(tx@.instructions[i as int] == tx.instructions@[i as int]@);
            i += 1;
        }
        let mut loaders: Vec<Vec<(Pubkey, Account)>> = Vec::new();
        let mut k: usize = 0;
        while k < tx.program_ids.len()
            invariant
                k <= tx.program_ids@.len(),
                self.wf(),
                programs_in_range(tx@),
                loaders@.len() == k,
                loaders_error(self@.visible(), tx@, k as int) is None,
                forall|t: int|
                    0 <= t < k ==> chain_views((#[trigger] loaders@[t])@) == loader_chain(
                        self@.visible(),
                        tx@.program_ids[t],
                        0,
                    )->Ok_0,
            decreases tx.program_ids@.len() - k,
        {
            match self.load_executable_accounts(tx.program_ids[k], 0) {
                Err(e) => {
                    proof {
                        self.lemma_loaders_error(tx@, k as int, tx@.program_ids.len() as int, e);
                    }
                    return Err(e);
                },
                Ok(chain) => {
                    loaders.push(chain);
                },
            }
            k += 1;
        }
        proof {
            assert(loaders_views(loaders@) =~= loader_chains(self@.visible(), tx@));
        }
        Ok(loaders)
    }

    /// The first error of the loader chains stays the first.
    proof fn lemma_loaders_error(
        &self,
        tx: crate::transaction::TransactionView,
        k: int,
        n: int,
        e: TransactionError,
    )
        requires
            0 <= k < n,
            loaders_error(self@.visible(), tx, k) is None,
            loader_chain(self@.visible(), tx.program_ids[k], 0) == Err::<
                Seq<(Pubkey, AccountView)>,
                TransactionError,
            >(e),
        ensures
            loaders_error(self@.visible(), tx, n) == Some(e),
        decreases n - k,
    {
        assert(loaders_error(self@.visible(), tx, k + 1) == Some(e));
        if k + 1 < n {
            self.lemma_loaders_error_stays(tx, k + 1, n, e);
        }
    }

    proof fn lemma_loaders_error_stays(
        &self,
        tx: crate::transaction::TransactionView,
        k: int,
        n: int,
        e: TransactionError,
    )
        requires
            0 <= k <= n,
            loaders_error(self@.visible(), tx, k) == Some(e),
        ensures
            loaders_error(self@.visible(), tx, n) == Some(e),
        decreases n - k,
    {
        if k < n {
            assert(loaders_error(self@.visible(), tx, k + 1) == Some(e));
            self.lemma_loaders_error_stays(tx, k + 1, n, e);
        }
    }

    /// Loads the accounts and the loaders of one transaction.
    fn load_transaction(&self, tx: &Transaction) -> (r: LoadedAccounts)
        requires
            self.wf(),
        ensures
            loaded_view(r) == load_spec(self@.visible(), tx@),
            r is Ok ==> loaders_views(r->Ok_0.1@) == loader_chains(self@.visible(), tx@),
    {
        let accounts = match self.load_tx_accounts(tx) {
            Err(e) => { return Err(e); },
            Ok(accounts) => accounts,
        };
        match self.load_loaders(tx) {
            Err(e) => Err(e),
            Ok(loaders) => Ok((accounts, loaders)),
        }
    }

    /// Checks, loads and runs each transaction of a batch that holds its
    /// locks. Returns, for each transaction, the accounts as its programs
    /// left them, and whether it ran; counts the transactions that ran.
    pub fn load_and_execute_transactions(
        &mut self,
        txs: &[Transaction],
        lock_results: Vec<Result<()>>,
        max_age: usize,
    ) -> (r: (Vec<LoadedAccounts>, Vec<Result<()>>))
        requires
            old(self).wf(),
            lock_results@.len() == txs@.len(),
            old(self)@.transaction_count + txs@.len() <= u64::MAX,
        ensures
            final(self).wf(),
            final(self).parent_spec() == old(self).parent_spec(),
            final(self).runtime_spec() == old(self).runtime_spec(),
            old(self)@.executed_batch(
                old(self).runtime_spec(),
                transaction_views(txs@),
                lock_results@,
                max_age,
                loaded_views(r.0@),
                r.1@,
            ),
            final(self)@ == (BankView {
                transaction_count: (old(self)@.transaction_count + count_ok(
                    r.1@,
                    txs@.len() as int,
                )) as u64,
                ..old(self)@
            }),
    {
        let age_results = self.check_age(txs, &lock_results, max_age);
        let sig_results = self.check_signatures(txs, &age_results);
        let tick_height = self.tick_height;
        let ghost views = transaction_views(txs@);
        let mut loaded: Vec<LoadedAccounts> = Vec::new();
        let mut executed: Vec<Result<()>> = Vec::new();
        let mut tx_count: u64 = 0;
        let mut i: usize = 0;
        while i < txs.len()
            invariant
                i <= txs@.len(),
                *self == *old(self),
                self.wf(),
                views == transaction_views(txs@),
                lock_results@.len() == txs@.len(),
                sig_results@.len() == txs@.len(),
                forall|k: int|
                    0 <= k < txs@.len() ==> #[trigger] sig_results@[k] == self@.signature_result(
                        txs@[k]@,
                        age_result(self@.blockhash_queue, txs@[k]@, lock_results@[k], max_age),
                    ),
                loaded@.len() == i,
                executed@.len() == i,
                tick_height == self.tick_height,
                tx_count == count_ok(executed@, i as int),
                tx_count <= i,
                forall|k: int|
                    0 <= k < i ==> outcome_of(
                        self.runtime,
                        self.tick_height,
                        self@.checked(views[k], lock_results@[k], max_age),
                        self@.visible(),
                        views[k],
                        loaded_view(#[trigger] loaded@[k]),
                        executed@[k],
                    ),
            decreases txs@.len() - i,
        {
            let ghost before = executed@;
            assert(views[i as int] == txs@[i as int]@);
            let tx = &txs[i];
            match sig_results[i] {
                Err(e) => {
                    loaded.push(Err(e));
                    executed.push(Err(e));
                },
                Ok(_) => {
                    match self.load_transaction(tx) {
                        Err(e) => {
                            loaded.push(Err(e));
                            executed.push(Err(e));
                        },
                        Ok((mut accounts, loaders)) => {
                            let ghost checked = account_views(accounts@);
                            let res = self.runtime.execute_transaction(
                                tx,
                                &loaders,
                                &mut accounts,
                                tick_height,
                            );
                            if res.is_ok() {
                                tx_count += 1;
                            }
                            loaded.push(Ok((accounts, loaders)));
                            executed.push(res);
                        },
                    }
                },
            }
            proof {
                assert(executed@.drop_last() =~= before);
                lemma_count_ok_prefix(executed@, before, i as int);
            }
            i += 1;
        }
        self.transaction_count = self.transaction_count + tx_count;
        proof {
            assert forall|k: int| 0 <= k < txs@.len() implies outcome_of(
                old(self).runtime,
                old(self).tick_height,
                old(self)@.checked(views[k], lock_results@[k], max_age),
                old(self)@.visible(),
                views[k],
                #[trigger] loaded_views(loaded@)[k],
                executed@[k],
            ) by {
                assert(loaded_views(loaded@)[k] == loaded_view(loaded@[k]));
            }
        }
        (loaded, executed)
    }

    /// Stores the accounts of each transaction of a batch that ran.
    fn store_accounts(
        &mut self,
        txs: &[Transaction],
        executed: &[Result<()>],
        loaded: &[LoadedAccounts],
    )
        requires
            old(self).wf(),
            executed@.len() == txs@.len(),
            loaded@.len() == txs@.len(),
        ensures
            final(self).wf(),
            final(self).parent_spec() == old(self).parent_spec(),
            final(self).runtime_spec() == old(self).runtime_spec(),
            final(self)@ == (BankView {
                accounts: store_accounts(
                    old(self)@.accounts,
                    transaction_views(txs@),
                    loaded_views(loaded@),
                    executed@,
                    txs@.len() as int,
                ),
                ..old(self)@
            }),
    {
        let ghost views = transaction_views(txs@);
        let ghost lviews = loaded_views(loaded@);
        let mut i: usize = 0;
        while i < txs.len()
            invariant
                i <= txs@.len(),
                executed@.len() == txs@.len(),
                loaded@.len() == txs@.len(),
                views == transaction_views(txs@),
                lviews == loaded_views(loaded@),
                self.wf(),
                self.parent == old(self).parent,
                self.runtime == old(self).runtime,
                self@ == (BankView {
                    accounts: store_accounts(
                        old(self)@.accounts,
                        views,
                        lviews,
                        executed@,
                        i as int,
                    ),
                    ..old(self)@
                }),
            decreases txs@.len() - i,
        {
            assert(views[i as int] == txs@[i as int]@);
            assert(lviews[i as int] == loaded_view(loaded@[i as int]));
            if executed[i].is_ok() {
                match &loaded[i] {
                    Err(_) => {},
                    Ok(pair) => {
                        let tx = &txs[i];
                        let accounts = &pair.0;
                        let count = if tx.account_keys.len() <= accounts.len() {
                            tx.account_keys.len()
                        } else {
                            accounts.len()
                        };
                        let ghost prev = self@.accounts;
                        let ghost avs = account_views(accounts@);
                        let mut m: usize = 0;
                        while m < count
                            invariant
                                m <= count,
                                count == stored_count(tx@.account_keys, avs),
                                avs == account_views(accounts@),
                                self.wf(),
                                self.parent == old(self).parent,
                                self.runtime == old(self).runtime,
                self.runtime == old(self).runtime,
                                self@ == (BankView {
                                    accounts: store_transaction(
                                        prev,
                                        tx@.account_keys,
                                        avs,
                                        m as int,
                                    ),
                                    ..old(self)@
                                }),
                            decreases count - m,
                        {
                            self.accounts.store(&tx.account_keys[m], accounts[m].clone());
                            m += 1;
                        }
                    },
                }
            }
            i += 1;
        }
    }

    /// Records the outcome of each transaction of a batch: its signature
    /// as seen, with its failure if it failed, unless the failure leaves
    /// the transaction free to be sent again. Of a signature whose
    /// transactions all failed in that way, the fork knows afterwards what
    /// it knew before.
    pub fn update_transaction_statuses(&mut self, txs: &[Transaction], res: &[Result<()>])
        requires
            old(self).wf(),
            res@.len() == txs@.len(),
        ensures
            final(self).wf(),
            final(self).parent_spec() == old(self).parent_spec(),
            final(self).runtime_spec() == old(self).runtime_spec(),
            final(self)@ == (BankView {
                status_cache: record_statuses(
                    old(self)@.status_cache,
                    transaction_views(txs@),
                    res@,
                    txs@.len() as int,
                ),
                ..old(self)@
            }),
            forall|sig: Signature|
                (forall|i: int|
                    0 <= i < txs@.len() && (#[trigger] txs@[i])@.signatures.len() > 0
                        && txs@[i]@.signatures[0] == sig ==> res@[i] is Err && is_retryable(
                        res@[i]->Err_0,
                    )) ==> final(self)@.has_signature(sig) == old(self)@.has_signature(sig)
                    && (#[trigger] final(self)@.signature_status(sig)) == old(
                    self,
                )@.signature_status(sig),
    {
        let ghost views = transaction_views(txs@);
        let mut i: usize = 0;
        while i < txs.len()
            invariant
                i <= txs@.len(),
                res@.len() == txs@.len(),
                views == transaction_views(txs@),
                self.wf(),
                self.parent == old(self).parent,
                self.runtime == old(self).runtime,
                self@ == (BankView {
                    status_cache: record_statuses(
                        old(self)@.status_cache,
                        views,
                        res@,
                        i as int,
                    ),
                    ..old(self)@
                }),
            decreases txs@.len() - i,
        {
            assert(views[i as int] == txs@[i as int]@);
            let tx = &txs[i];
            if tx.signatures.len() > 0 {
                match res[i] {
                    Ok(_) => {
                        self.status_cache.add(&tx.signatures[0]);
                    },
                    Err(TransactionError::BlockhashNotFound) => {},
                    Err(TransactionError::DuplicateSignature) => {},
                    Err(TransactionError::AccountNotFound) => {},
                    Err(e) => {
                        self.status_cache.add(&tx.signatures[0]);
                        self.status_cache.save_failure_status(&tx.signatures[0], e);
                    },
                }
            }
            i += 1;
        }
        proof {
            old(self).lemma_wf();
            assert forall|sig: Signature|
                (forall|i: int|
                    0 <= i < txs@.len() && (#[trigger] txs@[i])@.signatures.len() > 0
                        && txs@[i]@.signatures[0] == sig ==> res@[i] is Err && is_retryable(
                        res@[i]->Err_0,
                    )) implies self@.has_signature(sig) == old(self)@.has_signature(sig)
                && (#[trigger] self@.signature_status(sig)) == old(self)@.signature_status(sig) by {
                assert forall|i: int|
                    0 <= i < views.len() && (#[trigger] views[i]).signatures.len() > 0
                        && views[i].signatures[0] == sig implies res@[i] is Err && is_retryable(
                    res@[i]->Err_0,
                ) by {
                    assert(views[i] == txs@[i]@);
                }
                lemma_unrecorded_signature(
                    old(self)@.status_cache,
                    views,
                    res@,
                    views.len() as int,
                    sig,
                );
                assert(self@.parent == old(self)@.parent);
            }
        }
    }

    /// Collects the fees of a batch and pays them to the collector. A
    /// transaction that failed in an instruction pays its fee all the same,
    /// and counts as processed.
    pub fn filter_program_errors_and_collect_fee(
        &mut self,
        txs: &[Transaction],
        executed: &[Result<()>],
    ) -> (r: Vec<Result<()>>)
        requires
            old(self).wf(),
            executed@.len() == txs@.len(),
        ensures
            final(self).wf(),
            final(self).parent_spec() == old(self).parent_spec(),
            final(self).runtime_spec() == old(self).runtime_spec(),
            ({
                let collected = collect_fees(
                    old(self)@.base(),
                    old(self)@.accounts,
                    transaction_views(txs@),
                    executed@,
                    txs@.len() as int,
                );
                &&& r@ == collected.results
                &&& final(self)@ == (BankView {
                    accounts: deposit_spec(
                        old(self)@.base(),
                        collected.own,
                        old(self)@.collector_id,
                        collected.fees,
                    ),
                    ..old(self)@
                })
            }),
    {
        let ghost views = transaction_views(txs@);
        let ghost base = self@.base();
        let mut fees: u64 = 0;
        let mut results: Vec<Result<()>> = Vec::new();
        let mut i: usize = 0;
        while i < txs.len()
            invariant
                i <= txs@.len(),
                executed@.len() == txs@.len(),
                views == transaction_views(txs@),
                base == old(self)@.base(),
                self.wf(),
                self.parent == old(self).parent,
                self.runtime == old(self).runtime,
                ({
                    let state = collect_fees(base, old(self)@.accounts, views, executed@, i as int);
                    &&& results@ == state.results
                    &&& fees == state.fees
                    &&& self@ == (BankView { accounts: state.own, ..old(self)@ })
                }),
            decreases txs@.len() - i,
        {
            assert(views[i as int] == txs@[i as int]@);
            let tx = &txs[i];
            match executed[i] {
                Ok(_) => {
                    fees = fees.saturating_add(tx.fee);
                    results.push(Ok(()));
                },
                Err(TransactionError::InstructionError(_, _)) => {
                    if tx.account_keys.len() == 0 {
                        results.push(Err(TransactionError::AccountNotFound));
                    } else {
                        match self.withdraw(&tx.account_keys[0], tx.fee) {
                            Ok(_) => {
                                fees = fees.saturating_add(tx.fee);
                                results.push(Ok(()));
                            },
                            Err(e) => {
                                results.push(Err(e));
                            },
                        }
                    }
                },
                Err(e) => {
                    results.push(Err(e));
                },
            }
            i += 1;
        }
        let collector = self.collector_id;
        self.credit(&collector, fees);
        results
    }

    /// Commits a batch that was run: stores the accounts of the
    /// transactions that ran, records the outcomes, and collects the fees,
    /// which come to the collector; no account changes that none of the
    /// transactions names whose result is a success.
    pub fn commit_transactions(
        &mut self,
        txs: &[Transaction],
        loaded_accounts: &[LoadedAccounts],
        executed: &[Result<()>],
    ) -> (r: Vec<Result<()>>)
        requires
            old(self).wf(),
            executed@.len() == txs@.len(),
            loaded_accounts@.len() == txs@.len(),
        ensures
            final(self).wf(),
            final(self).parent_spec() == old(self).parent_spec(),
            final(self).runtime_spec() == old(self).runtime_spec(),
            final(self)@ == old(self)@.commit(
                transaction_views(txs@),
                loaded_views(loaded_accounts@),
                executed@,
            ),
            r@ == old(self)@.commit_results(
                transaction_views(txs@),
                loaded_views(loaded_accounts@),
                executed@,
            ),
            fees_settled(old(self)@, transaction_views(txs@), r@, final(self)@),
            r@ == results_of(executed@) && spared(
                transaction_views(txs@),
                r@,
                old(self)@.collector_id,
            ) ==> final(self)@.balance(old(self)@.collector_id) == saturating_sum(
                old(self)@.balance(old(self)@.collector_id),
                fees_due(transaction_views(txs@), executed@, txs@.len() as int),
            ),
    {
        self.is_delta = true;
        self.store_accounts(txs, executed, loaded_accounts);
        self.update_transaction_statuses(txs, executed);
        proof {
            lemma_batch_fees(
                old(self)@,
                transaction_views(txs@),
                loaded_views(loaded_accounts@),
                executed@,
            );
            lemma_fees_due(transaction_views(txs@), executed@, txs@.len() as int);
        }
        self.filter_program_errors_and_collect_fee(txs, executed)
    }

    /// Checks, runs and commits a batch whose locks the caller took.
    pub fn load_execute_and_commit_transactions(
        &mut self,
        txs: &[Transaction],
        lock_results: Vec<Result<()>>,
        max_age: usize,
    ) -> (r: Vec<Result<()>>)
        requires
            old(self).wf(),
            lock_results@.len() == txs@.len(),
            old(self)@.transaction_count + txs@.len() <= u64::MAX,
        ensures
            final(self).wf(),
            final(self).parent_spec() == old(self).parent_spec(),
            final(self).runtime_spec() == old(self).runtime_spec(),
            r@.len() == txs@.len(),
            old(self)@.processes(
                old(self).runtime_spec(),
                transaction_views(txs@),
                lock_results@,
                max_age,
                final(self)@,
                r@,
            ),
            fees_settled(old(self)@, transaction_views(txs@), r@, final(self)@),
    {
        let ghost locks = lock_results@;
        let (loaded_accounts, executed) = self.load_and_execute_transactions(
            txs,
            lock_results,
            max_age,
        );
        let r = self.commit_transactions(txs, loaded_accounts.as_slice(), executed.as_slice());
        proof {
            let views = transaction_views(txs@);
            let loaded = loaded_views(loaded_accounts@);
            assert(old(self)@.executed_batch(
                old(self).runtime,
                views,
                locks,
                max_age,
                loaded,
                executed@,
            ));
            assert(self@ == old(self)@.run(views, loaded, executed@));
            let counted = BankView {
                transaction_count: (old(self)@.transaction_count + count_ok(
                    executed@,
                    txs@.len() as int,
                )) as u64,
                ..old(self)@
            };
            assert(counted.base() == old(self)@.base());
            assert(r@ == old(self)@.commit_results(views, loaded, executed@));
            lemma_batch_fees(old(self)@, views, loaded, executed@);
            lemma_collect_fees_results(
                old(self)@.base(),
                store_accounts(old(self)@.accounts, views, loaded, executed@, views.len() as int),
                views,
                executed@,
                views.len() as int,
            );
        }
        r
    }

    /// Processes a batch: takes the locks, checks, runs and commits the
    /// transactions, and gives the locks back. The locks are afterwards
    /// what they were before. A transaction that failed in an instruction
    /// pays its fee, whatever the others of the batch did, and has a
    /// success for its result; every other has the result of its
    /// execution. The fees of the transactions whose result is
    /// a success come to the collector, and no account changes that none of
    /// them names. A transaction whose first signature the fork has seen
    /// fails with `DuplicateSignature` if it got its locks and its
    /// blockhash is young enough. Of a signature whose transactions all
    /// failed in a way that leaves them free to be sent again, the fork
    /// knows afterwards what it knew before. A transaction that is alone in
    /// its batch and fails in an instruction pays its fee and changes
    /// nothing else.
    pub fn process_transactions(&mut self, txs: &[Transaction]) -> (r: Vec<Result<()>>)
        requires
            old(self).wf(),
            old(self)@.transaction_count + txs@.len() <= u64::MAX,
        ensures
            final(self).wf(),
            final(self).parent_spec() == old(self).parent_spec(),
            final(self).runtime_spec() == old(self).runtime_spec(),
            r@.len() == txs@.len(),
            final(self)@.locks == old(self)@.locks,
            ({
                let views = transaction_views(txs@);
                let locks = old(self)@.locks;
                exists|post: BankView| #[trigger]
                    old(self)@.with_locks(locks_after(locks, views, views.len() as int)).processes(
                        old(self).runtime_spec(),
                        views,
                        lock_results(locks, views),
                        MAX_RECENT_BLOCKHASHES,
                        post,
                        r@,
                    ) && final(self)@ == post.with_locks(locks)
            }),
            ({
                let views = transaction_views(txs@);
                let locks = old(self)@.locks;
                let locked = old(self)@.with_locks(locks_after(locks, views, views.len() as int));
                exists|loaded: Seq<crate::bank_view::Loaded>, executed: Seq<Result<()>>|
                    {
                        &&& #[trigger] locked.executed_batch(
                            old(self).runtime_spec(),
                            views,
                            lock_results(locks, views),
                            MAX_RECENT_BLOCKHASHES,
                            loaded,
                            executed,
                        )
                        &&& final(self)@ == locked.run(views, loaded, executed).with_locks(locks)
                        &&& r@ == results_of(executed)
                        &&& spared(views, r@, old(self)@.collector_id) ==> final(self)@.balance(
                            old(self)@.collector_id,
                        ) == saturating_sum(
                            old(self)@.balance(old(self)@.collector_id),
                            fees_due(views, executed, views.len() as int),
                        )
                    }
            }),
            fees_settled(old(self)@, transaction_views(txs@), r@, final(self)@),
            forall|i: int|
                #![trigger r@[i]]
                0 <= i < txs@.len() && txs@[i]@.signatures.len() > 0 && old(self)@.has_signature(
                    txs@[i]@.signatures[0],
                ) && lock_result(old(self)@.locks, transaction_views(txs@), i) is Ok && old(
                    self,
                )@.blockhash_queue.check_hash_age(txs@[i]@.recent_blockhash, MAX_RECENT_BLOCKHASHES)
                    ==> r@[i] == Err::<(), TransactionError>(TransactionError::DuplicateSignature),
            forall|sig: Signature|
                (forall|i: int|
                    0 <= i < txs@.len() && (#[trigger] txs@[i])@.signatures.len() > 0
                        && txs@[i]@.signatures[0] == sig ==> r@[i] is Err && is_retryable(
                        r@[i]->Err_0,
                    )) ==> final(self)@.has_signature(sig) == old(self)@.has_signature(sig)
                    && (#[trigger] final(self)@.signature_status(sig)) == old(
                    self,
                )@.signature_status(sig),
            txs@.len() == 1 ==> ({
                let tx = txs@[0]@;
                let collector = old(self)@.collector_id;
                tx.signatures.len() > 0 && old(self)@.signature_status(tx.signatures[0]) is None && (
                final(self)@.signature_status(tx.signatures[0]) matches Some(Err(e))
                    && e is InstructionError) && (tx.account_keys.len() > 0 ==> tx.account_keys[0]
                    != collector) && old(self)@.balance(collector) + tx.fee <= u64::MAX ==> fee_paid(
                    old(self)@,
                    tx,
                    final(self)@,
                )
            }),
    {
        let ghost views = transaction_views(txs@);
        let ghost locks = self@.locks;
        let taken = self.lock_accounts(txs);
        let ghost locked = self@;
        let ghost held = taken@;
        proof {
            assert(held =~= lock_results(locks, views));
        }
        let results = self.load_execute_and_commit_transactions(
            txs,
            taken,
            MAX_RECENT_BLOCKHASHES,
        );
        let ghost post = self@;
        self.unlock_accounts(txs, results.as_slice());
        proof {
            let (loaded, executed) = choose|loaded: Seq<crate::bank_view::Loaded>, executed: Seq<Result<()>>|
                {
                    &&& #[trigger] locked.executed_batch(
                        self.runtime,
                        views,
                        held,
                        MAX_RECENT_BLOCKHASHES,
                        loaded,
                        executed,
                    )
                    &&& post == locked.run(views, loaded, executed)
                    &&& results@ == locked.commit_results(views, loaded, executed)
                };
            assert(post.locks == locked.locks);
            lemma_collect_fees_results(
                locked.base(),
                store_accounts(locked.accounts, views, loaded, executed, views.len() as int),
                views,
                executed,
                views.len() as int,
            );
            assert forall|i: int| 0 <= i < views.len() implies ((#[trigger] results@[i]) == Err::<
                (),
                TransactionError,
            >(TransactionError::AccountInUse)) == (lock_result(locks, views, i) is Err) by {
                lemma_checked_in_use(locked, views[i], held[i], MAX_RECENT_BLOCKHASHES);
                assert(outcome_of(
                    self.runtime,
                    locked.tick_height,
                    locked.checked(views[i], held[i], MAX_RECENT_BLOCKHASHES),
                    locked.visible(),
                    views[i],
                    loaded[i],
                    executed[i],
                ));
            }
            lemma_lock_conservation(locks, views, results@);
            assert forall|i: int|
                #![trigger results@[i]]
                0 <= i < txs@.len() && txs@[i]@.signatures.len() > 0 && old(self)@.has_signature(
                    txs@[i]@.signatures[0],
                ) && lock_result(locks, views, i) is Ok && old(self)@.blockhash_queue.check_hash_age(
                    txs@[i]@.recent_blockhash,
                    MAX_RECENT_BLOCKHASHES,
                ) implies results@[i] == Err::<(), TransactionError>(
                TransactionError::DuplicateSignature,
            ) by {
                assert(views[i] == txs@[i]@);
                assert(held[i] == lock_result(locks, views, i));
                assert(locked.has_signature(views[i].signatures[0]) == old(self)@.has_signature(
                    views[i].signatures[0],
                ));
                assert(locked.checked(views[i], held[i], MAX_RECENT_BLOCKHASHES) == Err::<
                    Seq<crate::account::AccountView>,
                    TransactionError,
                >(TransactionError::DuplicateSignature));
                assert(outcome_of(
                    self.runtime,
                    locked.tick_height,
                    locked.checked(views[i], held[i], MAX_RECENT_BLOCKHASHES),
                    locked.visible(),
                    views[i],
                    loaded[i],
                    executed[i],
                ));
                assert(executed[i] == Err::<(), TransactionError>(
                    TransactionError::DuplicateSignature,
                ));
            }
            assert(fees_settled(locked, views, results@, post));
            assert(locked == old(self)@.with_locks(locks_after(locks, views, views.len() as int)));
            assert(self@ == post.with_locks(locks));
            assert(locked.visible() == old(self)@.visible());
            assert(self@.visible() == post.visible());
            assert forall|k: Pubkey| spared(views, results@, k) && k != old(self)@.collector_id implies #[trigger] self@.account(
                k,
            ) == old(self)@.account(k) by {
                assert(post.account(k) == locked.account(k));
            }
            assert(fees_settled(old(self)@, views, results@, self@));
            lemma_holders_apart(locks, views);
            lemma_failed_instructions_pay(
                locked,
                self.runtime,
                views,
                held,
                MAX_RECENT_BLOCKHASHES,
                loaded,
                executed,
            );
            assert(locked == old(self)@.with_locks(locks_after(locks, views, views.len() as int)));
            assert(locked.executed_batch(
                old(self).runtime_spec(),
                views,
                lock_results(locks, views),
                MAX_RECENT_BLOCKHASHES,
                loaded,
                executed,
            ) && self@ == locked.run(views, loaded, executed).with_locks(locks) && results@
                == results_of(executed));
            lemma_fees_due(views, executed, views.len() as int);
            assert(spared(views, results@, old(self)@.collector_id) ==> self@.balance(
                old(self)@.collector_id,
            ) == saturating_sum(
                old(self)@.balance(old(self)@.collector_id),
                fees_due(views, executed, views.len() as int),
            ));
            old(self).lemma_wf();
            assert forall|sig: Signature|
                (forall|i: int|
                    0 <= i < txs@.len() && (#[trigger] txs@[i])@.signatures.len() > 0
                        && txs@[i]@.signatures[0] == sig ==> results@[i] is Err && is_retryable(
                        results@[i]->Err_0,
                    )) implies self@.has_signature(sig) == old(self)@.has_signature(sig)
                && (#[trigger] self@.signature_status(sig)) == old(self)@.signature_status(sig) by {
                assert forall|i: int|
                    0 <= i < views.len() && (#[trigger] views[i]).signatures.len() > 0
                        && views[i].signatures[0] == sig implies executed[i] is Err && is_retryable(
                    executed[i]->Err_0,
                ) by {
                    assert(views[i] == txs@[i]@);
                    assert(results@[i] == results_of(executed)[i]);
                }
                lemma_retryable_keeps_status(locked, views, loaded, executed, sig);
                assert(post.has_signature(sig) == self@.has_signature(sig));
                assert(locked.has_signature(sig) == old(self)@.has_signature(sig));
                assert(post.signature_status(sig) == self@.signature_status(sig));
                assert(locked.signature_status(sig) == old(self)@.signature_status(sig));
            }
            if txs@.len() == 1 {
                let tx = views[0];
                let collector = old(self)@.collector_id;
                if tx.signatures.len() > 0 && old(self)@.signature_status(tx.signatures[0]) is None
                    && (self@.signature_status(tx.signatures[0]) matches Some(Err(e))
                    && e is InstructionError) && (tx.account_keys.len() > 0 ==> tx.account_keys[0]
                    != collector) && old(self)@.balance(collector) + tx.fee <= u64::MAX {
                    old(self).lemma_wf();
                    assert(views =~= seq![tx]);
                    assert(loaded =~= seq![loaded[0]]);
                    assert(executed =~= seq![executed[0]]);
                    assert(outcome_of(
                        self.runtime,
                        locked.tick_height,
                        locked.checked(tx, held[0], MAX_RECENT_BLOCKHASHES),
                        locked.visible(),
                        tx,
                        loaded[0],
                        executed[0],
                    ));
                    lemma_checked_errors(locked, tx, held[0], MAX_RECENT_BLOCKHASHES);
                    assert(post.signature_status(tx.signatures[0]) == self@.signature_status(
                        tx.signatures[0],
                    ));
                    assert(locked.signature_status(tx.signatures[0]) == old(self)@.signature_status(
                        tx.signatures[0],
                    ));
                    lemma_failed_status_pays(locked, tx, held[0], loaded[0], executed[0]);
                    assert(fee_paid(locked, tx, post));
                    assert forall|k: Pubkey|
                        k != tx.account_keys.first() && k != collector implies #[trigger] self@.account(
                        k,
                    ) == old(self)@.account(k) by {
                        assert(post.account(k) == locked.account(k));
                    }
                }
            }
        }
        results
    }

    /// Processes one transaction, and returns what became of it: the
    /// failure of a check, or the status recorded for its signature. Where
    /// that is the error of an instruction, and the signature had no
    /// status before, the transaction paid its fee to the collector and
    /// changed nothing else.
    pub fn process_transaction(&mut self, tx: &Transaction) -> (r: Result<()>)
        requires
            old(self).wf(),
            old(self)@.transaction_count < u64::MAX,
        ensures
            final(self).wf(),
            final(self).parent_spec() == old(self).parent_spec(),
            final(self).runtime_spec() == old(self).runtime_spec(),
            final(self)@.locks == old(self)@.locks,
            tx@.signatures.len() > 0 && r is Ok ==> final(self)@.signature_status(
                tx@.signatures[0],
            ) == Some(r),
            old(self)@.processes_one(old(self).runtime_spec(), tx@, final(self)@, r),
            r is Err && r->Err_0 is InstructionError && (tx@.signatures.len() > 0 ==> old(
                self,
            )@.signature_status(tx@.signatures[0]) is None) && (tx@.account_keys.len() > 0
                ==> tx@.account_keys[0] != old(self)@.collector_id) && old(self)@.balance(
                old(self)@.collector_id,
            ) + tx@.fee <= u64::MAX ==> fee_paid(old(self)@, tx@, final(self)@),
    {
        let r = self.process_one(tx);
        proof {
            old(self).lemma_wf();
            match r {
                Err(TransactionError::InstructionError(index, cause)) => {
                    if (tx@.signatures.len() > 0 ==> old(self)@.signature_status(
                        tx@.signatures[0],
                    ) is None) && (tx@.account_keys.len() > 0 ==> tx@.account_keys[0] != old(
                        self,
                    )@.collector_id) && old(self)@.balance(old(self)@.collector_id) + tx@.fee
                        <= u64::MAX {
                        lemma_failed_instruction_pays(
                            old(self)@,
                            old(self).runtime_spec(),
                            tx@,
                            self@,
                            index,
                            cause,
                        );
                    }
                },
                _ => {},
            }
        }
        r
    }

    /// Processes one transaction as a batch of its own.
    fn process_one(&mut self, tx: &Transaction) -> (r: Result<()>)
        requires
            old(self).wf(),
            old(self)@.transaction_count < u64::MAX,
        ensures
            final(self).wf(),
            final(self).parent_spec() == old(self).parent_spec(),
            final(self).runtime_spec() == old(self).runtime_spec(),
            final(self)@.locks == old(self)@.locks,
            tx@.signatures.len() > 0 && r is Ok ==> final(self)@.signature_status(
                tx@.signatures[0],
            ) == Some(r),
            old(self)@.processes_one(old(self).runtime_spec(), tx@, final(self)@, r),
    {
        let mut txs: Vec<Transaction> = Vec::new();
        txs.push(tx.clone());
        let ghost views = transaction_views(txs@);
        let ghost locks = self@.locks;
        proof {
            assert(views =~= seq![tx@]);
        }
        let results = self.process_transactions(txs.as_slice());
        let first = results[0];
        if first.is_err() || tx.signatures.len() == 0 {
            return first;
        }
        let status = self.get_signature_status(&tx.signatures[0]);
        proof {
            let locked = old(self)@.with_locks(locks_after(locks, views, 1));
            let held = lock_results(locks, views);
            let post = choose|post: BankView| #[trigger]
                locked.processes(self.runtime, views, held, MAX_RECENT_BLOCKHASHES, post, results@) && self@
                    == post.with_locks(locks);
            let (loaded, executed) = choose|loaded: Seq<crate::bank_view::Loaded>, executed: Seq<Result<()>>|
                {
                    &&& #[trigger] locked.executed_batch(
                        self.runtime,
                        views,
                        held,
                        MAX_RECENT_BLOCKHASHES,
                        loaded,
                        executed,
                    )
                    &&& post == locked.run(views, loaded, executed)
                    &&& results@ == locked.commit_results(views, loaded, executed)
                };
            lemma_collect_fees_results(
                locked.base(),
                store_accounts(locked.accounts, views, loaded, executed, 1),
                views,
                executed,
                1,
            );
            old(self).lemma_wf();
            assert(locked.status_cache.wf());
            reveal_with_fuel(record_statuses, 2);
            assert(post.status_cache == crate::bank_view::record_status(
                locked.status_cache,
                views[0],
                executed[0],
            ));
            assert(executed[0] is Ok || executed[0]->Err_0 is InstructionError);
            lemma_recorded_is_seen(locked.status_cache, views[0], executed[0]);
            assert(self@.status_cache == post.status_cache);
            assert(self@.signature_status(tx@.signatures[0]) == post.signature_status(
                tx@.signatures[0],
            ));
        }
        match status {
            Some(s) => s,
            None => first,
        }
    }

    /// The transaction that `transfer` makes.
    pub open spec fn transfer_spec(
        n: u64,
        keypair: &Keypair,
        to: Pubkey,
        blockhash: crate::hash::Hash,
    ) -> crate::transaction::TransactionView {
        Transaction::signed_single_spec(
            keypair,
            seq![to],
            crate::system_program::id_spec(),
            (crate::system_instruction::SystemInstruction::CreateAccount {
                lamports: n,
                space: 0,
                program_id: crate::system_program::id_spec(),
            }).serialize_spec(),
            blockhash,
            0,
        )
    }

    /// Makes, signs and processes a transaction that creates the account
    /// `to` with `n` lamports of `keypair`'s account, and returns its
    /// signature if it ran.
    pub fn transfer(&mut self, n: u64, keypair: &Keypair, to: &Pubkey, blockhash: crate::hash::Hash) -> (r:
        Result<Signature>)
        requires
            old(self).wf(),
            old(self)@.transaction_count < u64::MAX,
        ensures
            final(self).wf(),
            final(self).parent_spec() == old(self).parent_spec(),
            final(self).runtime_spec() == old(self).runtime_spec(),
            final(self)@.locks == old(self)@.locks,
            r is Ok ==> final(self)@.signature_status(r->Ok_0) == Some(
                Ok::<(), TransactionError>(()),
            ),
            ({
                let tx = Bank::<P>::transfer_spec(n, keypair, *to, blockhash);
                match r {
                    Ok(signature) => tx.signatures[0] == signature && old(self)@.processes_one(
                        old(self).runtime_spec(),
                        tx,
                        final(self)@,
                        Ok(()),
                    ),
                    Err(e) => old(self)@.processes_one(
                        old(self).runtime_spec(),
                        tx,
                        final(self)@,
                        Err(e),
                    ),
                }
            }),
    {
        let tx = SystemTransaction::new_account(keypair, to, n, blockhash, 0);
        assert(tx@.signatures.len() == 1);
        let signature = tx.signatures[0];
        assert(signature == tx@.signatures[0]);
        let res = self.process_transaction(&tx);
        match res {
            Ok(unit) => {
                assert(res == Ok::<(), TransactionError>(unit));
                assert(unit == ());
                Ok(signature)
            },
            Err(e) => Err(e),
        }
    }

    /// Registers a tick at the wall time `now`.
    pub fn register_tick_at(&mut self, hash: &crate::hash::Hash, now: u64)
        requires
            old(self).wf(),
            old(self)@.ticks_per_slot > 0,
            old(self)@.tick_height < u64::MAX,
        ensures
            final(self).wf(),
            final(self).parent_spec() == old(self).parent_spec(),
            final(self).runtime_spec() == old(self).runtime_spec(),
            final(self)@ == old(self)@.register_tick(*hash, now),
    {
        self.tick_height = self.tick_height + 1;
        let current_tick_height = self.tick_height;
        if current_tick_height % self.ticks_per_slot == self.ticks_per_slot - 1 {
            self.blockhash_queue.register_hash(hash, now);
        }
        if current_tick_height % NUM_TICKS_PER_SECOND == 0 {
            self.status_cache.new_cache(hash);
        }
    }

    /// Registers a tick: tells the bank that the ledger holds one more
    /// entry with the given hash. The wall time is read from the clock.
    pub fn register_tick(&mut self, hash: &crate::hash::Hash)
        requires
            old(self).wf(),
            old(self)@.ticks_per_slot > 0,
            old(self)@.tick_height < u64::MAX,
        ensures
            final(self).wf(),
            final(self).parent_spec() == old(self).parent_spec(),
            final(self).runtime_spec() == old(self).runtime_spec(),
            exists|now: u64| final(self)@ == #[trigger] old(self)@.register_tick(*hash, now),
    {
        let now = timestamp();
        self.register_tick_at(hash, now);
    }

    /// The stake that a list of slots and stakes holds at slots from
    /// `slot` up to `max_slot`.
    fn stake_at_or_after(entries: &Vec<(u64, u64)>, slot: u64, max_slot: u64) -> (r: u128)
        ensures
            r == stake_from(entries@, slot, max_slot, entries@.len() as int),
    {
        let mut total: u128 = 0;
        let mut i: usize = 0;
        while i < entries.len()
            invariant
                i <= entries@.len(),
                total == stake_from(entries@, slot, max_slot, i as int),
                total <= i * 0xffff_ffff_ffff_ffff,
            decreases entries@.len() - i,
        {
            if slot <= entries[i].0 && entries[i].0 <= max_slot {
                total = total + entries[i].1 as u128;
            }
            i += 1;
        }
        total
    }

    /// The wall time of the latest slot that is confirmed: among the slots
    /// of the list that are no more than `MAX_RECENT_BLOCKHASHES` behind
    /// this bank's, the latest at which, with all later ones, more than
    /// `supermajority_stake` is staked. `None` where no slot is confirmed
    /// or the blockhash queue no longer holds the slot.
    pub fn get_confirmation_timestamp(
        &self,
        slots_and_stakes: Vec<(u64, u64)>,
        supermajority_stake: u64,
    ) -> (r: Option<u64>)
        requires
            self.wf(),
        ensures
            ({
                let max_slot = self@.slot;
                let min_slot = if max_slot >= MAX_RECENT_BLOCKHASHES {
                    (max_slot - MAX_RECENT_BLOCKHASHES) as u64
                } else {
                    0u64
                };
                r == (match confirmed_slot(
                    slots_and_stakes@,
                    min_slot,
                    max_slot,
                    supermajority_stake,
                ) {
                    Some(slot) => self@.blockhash_queue.timestamp_of(slot),
                    None => None,
                })
            }),
    {
        let max_slot = self.slot;
        let min_slot = max_slot.saturating_sub(MAX_RECENT_BLOCKHASHES as u64);
        let mut best: Option<u64> = None;
        let mut i: usize = 0;
        while i < slots_and_stakes.len()
            invariant
                i <= slots_and_stakes@.len(),
                match best {
                    Some(slot) => {
                        &&& min_slot <= slot <= max_slot
                        &&& exists|k: int|
                            0 <= k < slots_and_stakes@.len() && (#[trigger] slots_and_stakes@[k]).0
                                == slot
                        &&& confirms(slots_and_stakes@, slot, max_slot, supermajority_stake)
                        &&& forall|j: int|
                            0 <= j < i && min_slot <= (#[trigger] slots_and_stakes@[j]).0
                                <= max_slot && confirms(
                                slots_and_stakes@,
                                slots_and_stakes@[j].0,
                                max_slot,
                                supermajority_stake,
                            ) ==> slots_and_stakes@[j].0 <= slot
                    },
                    None => forall|j: int|
                        0 <= j < i && min_slot <= (#[trigger] slots_and_stakes@[j]).0 <= max_slot
                            ==> !confirms(
                            slots_and_stakes@,
                            slots_and_stakes@[j].0,
                            max_slot,
                            supermajority_stake,
                        ),
                },
            decreases slots_and_stakes@.len() - i,
        {
            let slot = slots_and_stakes[i].0;
            if min_slot <= slot && slot <= max_slot {
                let stake = Bank::<P>::stake_at_or_after(&slots_and_stakes, slot, max_slot);
                if stake > supermajority_stake as u128 {
                    let better = match best {
                        Some(b) => slot > b,
                        None => true,
                    };
                    if better {
                        best = Some(slot);
                    }
                }
            }
            i += 1;
        }
        match best {
            Some(slot) => {
                proof {
                    assert(is_confirmed_slot(
                        slots_and_stakes@,
                        min_slot,
                        max_slot,
                        supermajority_stake,
                        slot,
                    ));
                    assert forall|other: u64|
                        is_confirmed_slot(
                            slots_and_stakes@,
                            min_slot,
                            max_slot,
                            supermajority_stake,
                            other,
                        ) implies other == slot by {
                        let a = choose|a: int|
                            0 <= a < slots_and_stakes@.len() && (#[trigger] slots_and_stakes@[a]).0
                                == other;
                        let b = choose|b: int|
                            0 <= b < slots_and_stakes@.len() && (#[trigger] slots_and_stakes@[b]).0
                                == slot;
                        assert(slots_and_stakes@[a].0 <= slot);
                        assert(slots_and_stakes@[b].0 <= other);
                    }
                }
                self.blockhash_queue.hash_height_to_timestamp(slot)
            },
            None => {
                proof {
                    assert forall|other: u64|
                        !is_confirmed_slot(
                            slots_and_stakes@,
                            min_slot,
                            max_slot,
                            supermajority_stake,
                            other,
                        ) by {
                        if is_confirmed_slot(
                            slots_and_stakes@,
                            min_slot,
                            max_slot,
                            supermajority_stake,
                            other,
                        ) {
                            let a = choose|a: int|
                                0 <= a < slots_and_stakes@.len() && (
                                #[trigger] slots_and_stakes@[a]).0 == other;
                            assert(!confirms(
                                slots_and_stakes@,
                                slots_and_stakes@[a].0,
                                max_slot,
                                supermajority_stake,
                            ));
                        }
                    }
                }
                None
            },
        }
    }

    /// The accounts that the fork shows, dead ones included, as one store.
    fn flatten(&self) -> (r: AccountStore)
        requires
            self.wf(),
        ensures
            r.wf(),
            r@ == self@.visible(),
        decreases self,
    {
        match &self.parent {
            None => {
                let r = self.accounts.clone();
                proof {
                    assert(self@.visible() =~= self.accounts@);
                }
                r
            },
            Some(p) => {
                let mut all = p.flatten();
                all.overlay(&self.accounts);
                all
            },
        }
    }

    /// The live accounts of a store that a program owns.
    fn filter_by_owner(store: &AccountStore, owner: &Pubkey) -> (r: AccountStore)
        requires
            store.wf(),
        ensures
            r.wf(),
            r@ == accounts_of_owner(store@, *owner),
    {
        let mut out = AccountStore::new();
        let n = store.len();
        let mut i: usize = 0;
        proof {
            store.lemma_entries();
        }
        while i < n
            invariant
                i <= n == store.keys_spec().len(),
                store.wf(),
                out.wf(),
                forall|k: Pubkey| #[trigger]
                    out@.contains_key(k) == (accounts_of_owner(store@, *owner).contains_key(k)
                        && exists|j: int| 0 <= j < i && store.keys_spec()[j] == k),
                forall|k: Pubkey| #[trigger] out@.contains_key(k) ==> out@[k] == store@[k],
            decreases n - i,
        {
            let key = store.key_at(i);
            let account = store.account_at(i);
            let ghost before = out@;
            proof {
                store.lemma_entries();
                assert(store@.contains_key(store.keys_spec()[i as int]));
                assert(store@[key] == account@);
            }
            if !account.is_dead() && account.owner == *owner {
                out.store(&key, account.clone());
            }
            proof {
                assert forall|k: Pubkey| #[trigger]
                    out@.contains_key(k) == (accounts_of_owner(store@, *owner).contains_key(k)
                        && exists|j: int| 0 <= j < i + 1 && store.keys_spec()[j] == k) by {
                    if k == key {
                        assert(store.keys_spec()[i as int] == k);
                    } else {
                        if exists|j: int| 0 <= j < i + 1 && store.keys_spec()[j] == k {
                            let j = choose|j: int| 0 <= j < i + 1 && store.keys_spec()[j] == k;
                            assert(0 <= j < i && store.keys_spec()[j] == k);
                        }
                    }
                }
            }
            i += 1;
        }
        proof {
            store.lemma_entries();
            assert forall|k: Pubkey| accounts_of_owner(store@, *owner).contains_key(k) implies (
            exists|j: int| 0 <= j < i && store.keys_spec()[j] == k) by {
                let c = crate::account_store::key_position(store.keys_spec(), k);
                assert(0 <= c < i && store.keys_spec()[c] == k);
            }
            assert(out@ =~= accounts_of_owner(store@, *owner));
        }
        out
    }

    /// The vote accounts that the fork shows.
    pub fn vote_accounts(&self) -> (r: VoteAccounts)
        requires
            self.wf(),
        ensures
            r@ == accounts_of_owner(self@.visible(), crate::vote_state::id_spec()),
    {
        let all = self.flatten();
        let owned = Bank::<P>::filter_by_owner(&all, &crate::vote_state::id());
        let mut out = VoteAccounts::empty();
        let n = owned.len();
        let mut i: usize = 0;
        proof {
            owned.lemma_entries();
        }
        while i < n
            invariant
                i <= n == owned.keys_spec().len(),
                owned.wf(),
                forall|k: Pubkey| #[trigger]
                    out@.contains_key(k) == (exists|j: int|
                        0 <= j < i && owned.keys_spec()[j] == k),
                forall|k: Pubkey| #[trigger] out@.contains_key(k) ==> out@[k] == owned@[k],
            decreases n - i,
        {
            let key = owned.key_at(i);
            let ghost before = out@;
            proof {
                owned.lemma_entries();
                assert(owned@.contains_key(owned.keys_spec()[i as int]));
            }
            out.put(&key, owned.account_at(i).clone());
            proof {
                assert forall|k: Pubkey| #[trigger]
                    out@.contains_key(k) == (exists|j: int|
                        0 <= j < i + 1 && owned.keys_spec()[j] == k) by {
                    if k == key {
                        assert(owned.keys_spec()[i as int] == k);
                    } else {
                        assert(out@.contains_key(k) == before.contains_key(k));
                        if exists|j: int| 0 <= j < i + 1 && owned.keys_spec()[j] == k {
                            let j = choose|j: int| 0 <= j < i + 1 && owned.keys_spec()[j] == k;
                            assert(0 <= j < i && owned.keys_spec()[j] == k);
                        }
                    }
                }
            }
            i += 1;
        }
        proof {
            owned.lemma_entries();
            assert forall|k: Pubkey| owned@.contains_key(k) implies out@.contains_key(k) by {
                let c = crate::account_store::key_position(owned.keys_spec(), k);
                assert(0 <= c < i && owned.keys_spec()[c] == k);
            }
            assert(out@ =~= owned@);
        }
        out
    }

    /// The accounts of a program that this fork itself wrote, in the order
    /// of their addresses.
    pub fn get_program_accounts_modified_since_parent(&self, program_id: &Pubkey) -> (r: Vec<
        (Pubkey, Account),
    >)
        requires
            self.wf(),
        ensures
            ({
                let owned = accounts_of_owner(self@.accounts, *program_id);
                &&& forall|i: int|
                    0 <= i < r@.len() ==> owned.contains_key((#[trigger] r@[i]).0) && r@[i].1@
                        == owned[r@[i].0]
                &&& forall|k: Pubkey|
                    owned.contains_key(k) ==> exists|i: int|
                        0 <= i < r@.len() && (#[trigger] r@[i]).0 == k
                &&& forall|i: int, j: int|
                    0 <= i < j < r@.len() ==> (#[trigger] r@[i]).0.lt((#[trigger] r@[j]).0)
            }),
    {
        let owned = Bank::<P>::filter_by_owner(&self.accounts, program_id);
        let mut out: Vec<(Pubkey, Account)> = Vec::new();
        let n = owned.len();
        let mut i: usize = 0;
        proof {
            owned.lemma_entries();
        }
        while i < n
            invariant
                i <= n == owned.keys_spec().len(),
                owned.wf(),
                out@.len() == i,
                forall|k: int|
                    0 <= k < i ==> (#[trigger] out@[k]).0 == owned.keys_spec()[k] && out@[k].1@
                        == owned.account_views()[k],
            decreases n - i,
        {
            out.push((owned.key_at(i), owned.account_at(i).clone()));
            i += 1;
        }
        proof {
            owned.lemma_entries();
            assert forall|k: Pubkey| owned@.contains_key(k) implies exists|i: int|
                0 <= i < out@.len() && (#[trigger] out@[i]).0 == k by {
                let c = crate::account_store::key_position(owned.keys_spec(), k);
                assert(out@[c].0 == k);
            }
            assert forall|i: int, j: int| 0 <= i < j < out@.len() implies (#[trigger] out@[i]).0.lt(
                (#[trigger] out@[j]).0,
            ) by {
                assert(owned.keys_spec()[i].lt(owned.keys_spec()[j]));
            }
            assert forall|i: int| 0 <= i < out@.len() implies owned@.contains_key(
                (#[trigger] out@[i]).0,
            ) && out@[i].1@ == owned@[out@[i].0] by {
                assert(owned@.contains_key(owned.keys_spec()[i]));
            }
        }
        out
    }

    /// Takes the shards of a chain of banks into a status cache.
    fn squash_statuses(cache: &mut StatusCache, bank: &Option<Arc<Bank<P>>>)
        requires
            old(cache)@.wf(),
            match bank {
                Some(p) => p.wf(),
                None => true,
            },
        ensures
            final(cache)@.wf(),
            final(cache)@ == squash_caches(
                old(cache)@,
                match bank {
                    Some(p) => Some(Box::new(p@)),
                    None => None,
                },
            ),
        decreases bank,
    {
        match bank {
            None => {},
            Some(p) => {
                let full = cache.squash_parent(&p.status_cache);
                if !full {
                    proof {
                        p.lemma_wf();
                    }
                    Bank::<P>::squash_statuses(cache, &p.parent);
                }
            },
        }
    }

    /// Makes the bank a root: freezes it, takes in the accounts and the
    /// signature shards of its ancestors, and lets the ancestors go. What
    /// the bank shows stays what it was.
    pub fn squash(&mut self)
        requires
            old(self).wf(),
        ensures
            final(self).wf(),
            final(self).parent_spec() is None,
            final(self).runtime_spec() == old(self).runtime_spec(),
            final(self)@ == old(self)@.squash(internal_state_hash(old(self)@)),
    {
        self.freeze();
        let all = self.flatten();
        proof {
            self.lemma_wf();
        }
        let parent = self.parent();
        Bank::<P>::squash_statuses(&mut self.status_cache, &parent);
        self.accounts = all;
        self.parent = None;
    }

    /// Installs the account of a native program under the program's address.
    pub fn add_native_program(&mut self, name: &str, program_id: &Pubkey)
        requires
            old(self).wf(),
        ensures
            final(self).wf(),
            final(self).parent_spec() == old(self).parent_spec(),
            final(self).runtime_spec() == old(self).runtime_spec(),
            final(self)@ == (BankView {
                accounts: old(self)@.accounts.insert(
                    *program_id,
                    native_loader::program_account_spec(name.spec_bytes()),
                ),
                ..old(self)@
            }),
    {
        let account = native_loader::create_program_account(&name.as_bytes_vec());
        self.accounts.store(program_id, account);
    }

    /// Registers the handler of a program, and installs an executable
    /// account under the program's address so that transactions can name it.
    pub fn add_instruction_processor(&mut self, program_id: Pubkey, process_instruction: P)
        requires
            old(self).wf(),
        ensures
            final(self).wf(),
            final(self).parent_spec() == old(self).parent_spec(),
            forall|id: Pubkey|
                old(self)@.programs.contains(id) ==> #[trigger] final(self).runtime_spec().handler(
                    id,
                ) == old(self).runtime_spec().handler(id),
            !old(self)@.programs.contains(program_id) ==> final(self).runtime_spec().handler(
                program_id,
            ) == process_instruction,
            final(self)@ == (BankView {
                accounts: old(self)@.accounts.insert(
                    program_id,
                    AccountView {
                        lamports: 1,
                        data: Seq::empty(),
                        owner: native_loader::id_spec(),
                        executable: true,
                    },
                ),
                programs: old(self)@.programs.push(program_id),
                ..old(self)@
            }),
    {
        self.runtime.add_instruction_processor(program_id, process_instruction);
        let bogus_account = Account {
            lamports: 1,
            data: Vec::new(),
            owner: native_loader::id(),
            executable: true,
        };
        self.accounts.store(&program_id, bogus_account);
    }

    /// A bank with nothing in it.
    fn empty() -> (r: Bank<P>)
        ensures
            r.wf(),
            r.parent_spec() is None,
            r@ == Bank::<P>::empty_view(),
    {
        let r = Bank {
            accounts: AccountStore::new(),
            locks: AccountLocks::new(),
            transaction_count: 0,
            status_cache: StatusCache::default(),
            blockhash_queue: BlockhashQueue::default(),
            parent: None,
            hash: None,
            parent_hash: crate::hash::Hash::default(),
            tick_height: 0,
            ticks_per_slot: 0,
            slot: 0,
            collector_id: Pubkey::default(),
            epoch_schedule: EpochSchedule::default(),
            epoch_vote_accounts: EpochStakes::new(),
            is_delta: false,
            runtime: Runtime::default(),
        };
        proof {
            assert(r@.epoch_vote_accounts =~= Map::<u64, Map<Pubkey, AccountView>>::empty());
        }
        r
    }

    /// The bank of a genesis block. `paths` would say where to keep the
    /// accounts; this bank keeps them in memory and does not read it.
    pub fn new_with_paths(genesis_block: &GenesisBlock, paths: Option<String>) -> (r: Bank<P>)
        requires
            genesis_block@.valid(),
        ensures
            r.wf(),
            r.parent_spec() is None,
            exists|now: u64| r@ == #[trigger] genesis_bank(genesis_block@, now),
    {
        let mut bank = Bank::<P>::empty();
        let now = timestamp();
        bank.process_genesis_block(genesis_block, now);
        let vote_accounts = bank.vote_accounts();
        let epoch = bank.epoch_schedule.get_stakers_epoch(0);
        proof {
            assert(bank@.base() == Map::<Pubkey, AccountView>::empty());
            assert(bank@.visible() =~= genesis_accounts(genesis_block@));
        }
        let ghost installed = bank@;
        Bank::<P>::fill_epochs(&mut bank.epoch_vote_accounts, &vote_accounts, epoch);
        proof {
            assert(bank@ == (BankView {
                epoch_vote_accounts: bank@.epoch_vote_accounts,
                ..installed
            }));
            assert(bank@.epoch_vote_accounts =~= genesis_bank(
                genesis_block@,
                now,
            ).epoch_vote_accounts);
        }
        bank
    }

    /// Puts the given vote accounts in force for every epoch up to `epoch`.
    fn fill_epochs(stakes: &mut EpochStakes, vote_accounts: &VoteAccounts, epoch: u64)
        requires
            old(stakes)@ == Map::<u64, Map<Pubkey, AccountView>>::empty(),
        ensures
            final(stakes)@ == Map::new(|e: u64| e <= epoch, |e: u64| vote_accounts@),
    {
        let mut i: u64 = 0;
        proof {
            assert forall|e: u64| !crate::epoch_stakes::stakes_of(*stakes).contains_key(e) by {
                assert(!stakes@.contains_key(e));
            }
        }
        loop
            invariant_except_break
                i <= epoch,
                forall|e: u64| #[trigger]
                    crate::epoch_stakes::stakes_of(*stakes).contains_key(e) == (e < i),
                forall|e: u64|
                    e < i ==> (#[trigger] crate::epoch_stakes::stakes_of(*stakes)[e])@
                        == vote_accounts@,
            ensures
                forall|e: u64| #[trigger]
                    crate::epoch_stakes::stakes_of(*stakes).contains_key(e) == (e <= epoch),
                forall|e: u64|
                    e <= epoch ==> (#[trigger] crate::epoch_stakes::stakes_of(*stakes)[e])@
                        == vote_accounts@,
            decreases epoch - i,
        {
            stakes.insert(i, vote_accounts.clone());
            if i == epoch {
                break ;
            }
            i += 1;
        }
        proof {
            assert(stakes@ =~= Map::new(|e: u64| e <= epoch, |e: u64| vote_accounts@));
        }
    }

    /// Installs the accounts and the parameters of a genesis block.
    fn process_genesis_block(&mut self, genesis_block: &GenesisBlock, now: u64)
        requires
            genesis_block@.valid(),
            old(self).wf(),
            old(self).parent_spec() is None,
            old(self)@ == Bank::<P>::empty_view(),
        ensures
            final(self).wf(),
            final(self).parent_spec() is None,
            final(self)@ == (BankView {
                epoch_vote_accounts: Map::empty(),
                ..genesis_bank(genesis_block@, now)
            }),
            final(self)@.epoch_schedule.wf(),
    {
        // The bootstrap leader collects the fees until a bank is made above this one.
        self.collector_id = genesis_block.bootstrap_leader_id;

        let mint_lamports = genesis_block.lamports - genesis_block.bootstrap_leader_lamports;
        self.credit(&genesis_block.mint_id, mint_lamports);

        let bootstrap_leader_lamports: u64 = 1;
        let bootstrap_leader_stake = genesis_block.bootstrap_leader_lamports
            - bootstrap_leader_lamports;
        self.credit(&genesis_block.bootstrap_leader_id, bootstrap_leader_lamports);

        // The vote account of the bootstrap leader holds its stake and one
        // vote, so that the leader leads the first slots.
        let mut vote_state = VoteState::new(&genesis_block.bootstrap_leader_id);
        vote_state.votes.push(Lockout { slot: 0, confirmation_count: 1 });
        let mut data = vote_state.serialize();
        let ghost serialized = data@;
        while data.len() < VoteState::max_size()
            invariant
                serialized.len() <= data@.len(),
                data@.len() == serialized.len() || data@.len() <= VOTE_STATE_SIZE,
                data@ == serialized + Seq::new(
                    (data@.len() - serialized.len()) as nat,
                    |i: int| 0u8,
                ),
            decreases VOTE_STATE_SIZE - data@.len(),
        {
            let ghost before = data@;
            data.push(0u8);
            proof {
                assert(data@ =~= serialized + Seq::new(
                    (data@.len() - serialized.len()) as nat,
                    |i: int| 0u8,
                ));
            }
        }
        proof {
            assert(vote_state@.votes =~= seq![Lockout { slot: 0, confirmation_count: 1 }]);
            assert(data@ =~= padded(serialized, VOTE_STATE_SIZE as nat));
        }
        let bootstrap_leader_vote_account = Account {
            lamports: bootstrap_leader_stake,
            data,
            owner: crate::vote_state::id(),
            executable: false,
        };
        self.accounts.store(
            &genesis_block.bootstrap_leader_vote_account_id,
            bootstrap_leader_vote_account,
        );

        self.blockhash_queue.genesis_hash(&genesis_block.hash(), now);

        self.ticks_per_slot = genesis_block.ticks_per_slot;

        self.epoch_schedule = EpochSchedule::new(
            genesis_block.slots_per_epoch,
            genesis_block.stakers_slot_offset,
            genesis_block.epoch_warmup,
        );

        // The native programs that the runtime cannot do without.
        self.add_native_program("solana_system_program", &crate::system_program::id());
        self.add_native_program("solana_bpf_loader", &crate::bpf_loader::id());
        self.add_native_program("solana_vote_program", &crate::vote_state::id());

        // The native programs that the genesis block names.
        let ghost programs = program_views(genesis_block.native_programs@);
        let ghost installed = self@.accounts;
        let mut i: usize = 0;
        while i < genesis_block.native_programs.len()
            invariant
                i <= genesis_block.native_programs@.len(),
                programs == program_views(genesis_block.native_programs@),
                self.wf(),
                self.parent is None,
                self@ == (BankView {
                    accounts: native_programs_installed(installed, programs, i as int),
                    epoch_vote_accounts: Map::empty(),
                    ..genesis_bank(genesis_block@, now)
                }),
            decreases genesis_block.native_programs@.len() - i,
        {
            let name = genesis_block.native_programs[i].0.as_str();
            let program_id = genesis_block.native_programs[i].1;
            proof {
                assert(programs[i as int] == (
                    vstd::utf8::encode_utf8(genesis_block.native_programs@[i as int].0@),
                    program_id,
                ));
            }
            self.add_native_program(name, &program_id);
            i += 1;
        }
    }

    /// A bank with nothing in it, as a value.
    pub open spec fn empty_view() -> BankView {
        BankView {
            accounts: Map::empty(),
            locks: crate::account_locks::LocksView::empty(),
            transaction_count: 0,
            status_cache: crate::status_cache::StatusCacheView::empty(crate::hash::Hash::zero()),
            blockhash_queue: BlockhashQueue::empty_spec(MAX_RECENT_BLOCKHASHES),
            parent: None,
            hash: None,
            parent_hash: crate::hash::Hash::zero(),
            tick_height: 0,
            ticks_per_slot: 0,
            slot: 0,
            collector_id: Pubkey::zero(),
            epoch_schedule: EpochSchedule::new_spec(0, 0, false),
            epoch_vote_accounts: Map::empty(),
            is_delta: false,
            programs: Seq::empty(),
        }
    }

    /// A bank for `slot` above a frozen bank, whose fees go to
    /// `collector_id`. The parent is shared, and a shared bank cannot be
    /// changed, so it is not frozen here: it must be frozen already. A
    /// parent that is still open goes to `new_from_open_parent`, which
    /// freezes it.
    pub fn new_from_parent(parent: &Arc<Bank<P>>, collector_id: &Pubkey, slot: u64) -> (r: Bank<P>)
        requires
            parent.wf(),
            parent@.is_frozen(),
            parent@.slot < slot,
            parent@.epoch_schedule.wf(),
            slot >= parent@.epoch_schedule.first_normal_slot ==> slot
                - parent@.epoch_schedule.first_normal_slot
                + parent@.epoch_schedule.stakers_slot_offset <= u64::MAX,
        ensures
            r.wf(),
            r.parent_spec() == Some(*parent),
            r@ == child_bank(parent@, *collector_id, slot),
    {
        let mut epoch_vote_accounts = parent.epoch_vote_accounts.copy();
        let epoch = parent.epoch_schedule.get_stakers_epoch(slot);
        proof {
            parent.lemma_wf();
            assert(epoch_vote_accounts@ =~= parent@.epoch_vote_accounts);
        }
        // The first bank that fixes the stakes of an epoch keeps the vote
        // accounts as they are now.
        if epoch_vote_accounts.get(epoch).is_none() {
            epoch_vote_accounts.insert(epoch, parent.vote_accounts());
            proof {
                assert(epoch_vote_accounts@ =~= parent@.epoch_vote_accounts.insert(
                    epoch,
                    accounts_of_owner(parent@.visible(), crate::vote_state::id_spec()),
                ));
            }
        }
        let bank = Bank {
            accounts: AccountStore::new(),
            locks: AccountLocks::new(),
            transaction_count: parent.transaction_count,
            status_cache: StatusCache::default(),
            blockhash_queue: parent.blockhash_queue.clone(),
            parent: Some(Arc::clone(parent)),
            hash: None,
            parent_hash: parent.hash(),
            tick_height: parent.tick_height,
            ticks_per_slot: parent.ticks_per_slot,
            slot,
            collector_id: *collector_id,
            epoch_schedule: parent.epoch_schedule,
            epoch_vote_accounts,
            is_delta: false,
            runtime: Runtime::default(),
        };
        bank
    }

    /// A bank for `slot` above a bank that is still open: the parent is
    /// frozen first, and the child stands over the frozen parent.
    pub fn new_from_open_parent(parent: Bank<P>, collector_id: &Pubkey, slot: u64) -> (r: Bank<P>)
        requires
            parent.wf(),
            parent@.slot < slot,
            parent@.epoch_schedule.wf(),
            slot >= parent@.epoch_schedule.first_normal_slot ==> slot
                - parent@.epoch_schedule.first_normal_slot
                + parent@.epoch_schedule.stakers_slot_offset <= u64::MAX,
        ensures
            r.wf(),
            r.parent_spec() matches Some(p) && p.wf() && p@ == parent@.freeze(
                internal_state_hash(parent@),
            ) && p.parent_spec() == parent.parent_spec() && p.runtime_spec()
                == parent.runtime_spec(),
            r@ == child_bank(
                parent@.freeze(internal_state_hash(parent@)),
                *collector_id,
                slot,
            ),
    {
        let mut parent = parent;
        parent.freeze();
        let shared = Arc::new(parent);
        Bank::new_from_parent(&shared, collector_id, slot)
    }
}

impl Bank<SystemProcessor> {
    /// The bank of a genesis block, for a ledger that runs no programs but
    /// the built-in ones.
    pub fn new(genesis_block: &GenesisBlock) -> (r: Bank<SystemProcessor>)
        requires
            genesis_block@.valid(),
        ensures
            r.wf(),
            r.parent_spec() is None,
            exists|now: u64| r@ == #[trigger] genesis_bank(genesis_block@, now),
    {
        Bank::<SystemProcessor>::new_with_paths(genesis_block, None)
    }
}

impl<P: InstructionProcessor> Default for Bank<P> {
    /// A bank with nothing in it: no accounts, no blockhash, no ticks in a slot.
    fn default() -> (r: Bank<P>)
        ensures
            r.wf(),
            r.parent_spec() is None,
            r@ == Bank::<P>::empty_view(),
    {
        Bank::<P>::empty()
    }
}

/// The count over a prefix does not depend on what follows.
pub proof fn lemma_count_ok_prefix(longer: Seq<Result<()>>, shorter: Seq<Result<()>>, n: int)
    requires
        0 <= n <= shorter.len() <= longer.len(),
        forall|k: int| 0 <= k < n ==> longer[k] == shorter[k],
    ensures
        count_ok(longer, n) == count_ok(shorter, n),
    decreases n,
{
    if n > 0 {
        lemma_count_ok_prefix(longer, shorter, n - 1);
    }
}

} // verus!
