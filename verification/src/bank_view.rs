//! A bank as a mathematical value, and what each step of the transaction
//! pipeline computes on it.

use vstd::prelude::*;
use vstd::string::*;
use crate::account::{account_views, Account, AccountView};
use crate::account_locks::{holders_apart, lock_results, locks_after, LockResult, LocksView};
use crate::blockhash_queue::{BlockhashQueue, BlockhashQueueView, MAX_RECENT_BLOCKHASHES};
use crate::epoch_schedule::EpochSchedule;
use crate::genesis_block::{GenesisBlockView, NUM_TICKS_PER_SECOND};
use crate::native_loader;
use crate::pubkey::Pubkey;
use crate::runtime::{
    is_system_transaction, ran, stopped, system_run, total_lamports, InstructionLoaders,
    InstructionProcessor, Runtime,
};
use crate::signature::Signature;
use crate::status_cache::{MAX_CACHE_ENTRIES, Status, StatusCacheView};
use crate::transaction::{TransactionError, TransactionView};
use crate::vote_state::{Lockout, VOTE_STATE_SIZE, VoteState, VoteStateView};

verus! {

/// The account that a map of accounts shows for an address: the entry,
/// unless it holds nothing.
pub open spec fn lookup(accounts: Map<Pubkey, AccountView>, key: Pubkey) -> Option<AccountView> {
    if accounts.contains_key(key) && !accounts[key].is_dead() {
        Some(accounts[key])
    } else {
        None
    }
}

/// The account that a map shows for an address, or the empty account.
pub open spec fn lookup_or_empty(accounts: Map<Pubkey, AccountView>, key: Pubkey) -> AccountView {
    match lookup(accounts, key) {
        Some(a) => a,
        None => AccountView::empty(),
    }
}

/// The writes of a fork after a withdrawal, or why it fails. `base` is what
/// the fork's ancestors show.
pub open spec fn withdraw_spec(
    base: Map<Pubkey, AccountView>,
    own: Map<Pubkey, AccountView>,
    key: Pubkey,
    lamports: u64,
) -> Result<Map<Pubkey, AccountView>, TransactionError> {
    match lookup(base.union_prefer_right(own), key) {
        None => Err(TransactionError::AccountNotFound),
        Some(a) => if lamports > a.lamports {
            Err(TransactionError::InsufficientFundsForFee)
        } else {
            Ok(own.insert(key, AccountView { lamports: (a.lamports - lamports) as u64, ..a }))
        },
    }
}

/// The sum of two amounts, or the greatest amount if the sum is greater.
pub open spec fn saturating_sum(a: u64, b: u64) -> u64 {
    if a + b > u64::MAX {
        u64::MAX
    } else {
        (a + b) as u64
    }
}

/// The writes of a fork after a deposit that stops at the greatest amount.
pub open spec fn deposit_spec(
    base: Map<Pubkey, AccountView>,
    own: Map<Pubkey, AccountView>,
    key: Pubkey,
    lamports: u64,
) -> Map<Pubkey, AccountView> {
    let a = lookup_or_empty(base.union_prefer_right(own), key);
    own.insert(key, AccountView { lamports: saturating_sum(a.lamports, lamports), ..a })
}

/// Whether a list of addresses holds one twice.
pub open spec fn has_duplicates(keys: Seq<Pubkey>) -> bool {
    !keys.no_duplicates()
}

/// The accounts loaded for a transaction, the fee already taken from the
/// first, or why the transaction cannot be loaded.
pub open spec fn load_accounts_spec(
    visible: Map<Pubkey, AccountView>,
    tx: TransactionView,
) -> Result<Seq<AccountView>, TransactionError> {
    if tx.signatures.len() == 0 && tx.fee != 0 {
        Err(TransactionError::MissingSignatureForFee)
    } else if has_duplicates(tx.account_keys) {
        Err(TransactionError::AccountLoadedTwice)
    } else {
        let called = Seq::new(
            tx.account_keys.len(),
            |j: int| lookup_or_empty(visible, tx.account_keys[j]),
        );
        if called.len() == 0 || called[0].lamports == 0 {
            Err(TransactionError::AccountNotFound)
        } else if called[0].lamports < tx.fee {
            Err(TransactionError::InsufficientFundsForFee)
        } else {
            Ok(
                called.update(
                    0,
                    AccountView { lamports: (called[0].lamports - tx.fee) as u64, ..called[0] },
                ),
            )
        }
    }
}

/// The greatest length of a program's chain of loaders.
pub const MAX_LOADER_DEPTH: usize = 5;

/// The chain of loaders of a program, the program's own account last: each
/// account is executable and owned by the next loader up, and the native
/// loader ends the chain. `depth` counts the accounts below.
pub open spec fn loader_chain(
    visible: Map<Pubkey, AccountView>,
    program_id: Pubkey,
    depth: nat,
) -> Result<Seq<(Pubkey, AccountView)>, TransactionError>
    decreases MAX_LOADER_DEPTH - depth,
{
    if program_id == native_loader::id_spec() {
        Ok(Seq::empty())
    } else if depth >= MAX_LOADER_DEPTH {
        Err(TransactionError::CallChainTooDeep)
    } else {
        match lookup(visible, program_id) {
            None => Err(TransactionError::AccountNotFound),
            Some(program) => if !program.executable || program.owner == Pubkey::zero() {
                Err(TransactionError::AccountNotFound)
            } else {
                match loader_chain(visible, program.owner, depth + 1) {
                    Err(e) => Err(e),
                    Ok(rest) => Ok(rest.push((program_id, program))),
                }
            },
        }
    }
}

/// The first error among the loader chains of the first `n` programs of a
/// transaction, if one fails.
pub open spec fn loaders_error(
    visible: Map<Pubkey, AccountView>,
    tx: TransactionView,
    n: int,
) -> Option<TransactionError>
    decreases n,
{
    if n <= 0 {
        None
    } else {
        match loaders_error(visible, tx, n - 1) {
            Some(e) => Some(e),
            None => match loader_chain(visible, tx.program_ids[n - 1], 0) {
                Err(e) => Some(e),
                Ok(_) => None,
            },
        }
    }
}

/// The loader chains of a transaction's programs, where each has one.
pub open spec fn loader_chains(visible: Map<Pubkey, AccountView>, tx: TransactionView) -> Seq<
    Seq<(Pubkey, AccountView)>,
> {
    Seq::new(tx.program_ids.len(), |k: int| loader_chain(visible, tx.program_ids[k], 0)->Ok_0)
}

/// Whether each instruction of a transaction names one of its programs.
pub open spec fn programs_in_range(tx: TransactionView) -> bool {
    forall|i: int|
        0 <= i < tx.instructions.len() ==> (#[trigger] tx.instructions[i]).program_ids_index
            < tx.program_ids.len()
}

/// What loading a transaction gives: its accounts, or the first error of
/// the accounts, of the instructions' program indices and of the loaders.
pub open spec fn load_spec(visible: Map<Pubkey, AccountView>, tx: TransactionView) -> Result<
    Seq<AccountView>,
    TransactionError,
> {
    match load_accounts_spec(visible, tx) {
        Err(e) => Err(e),
        Ok(accounts) => if !programs_in_range(tx) {
            Err(TransactionError::AccountNotFound)
        } else {
            match loaders_error(visible, tx, tx.program_ids.len() as int) {
                Some(e) => Err(e),
                None => Ok(accounts),
            }
        },
    }
}

/// What the age check makes of a transaction's result so far.
pub open spec fn age_result(
    queue: BlockhashQueueView,
    tx: TransactionView,
    result: LockResult,
    max_age: usize,
) -> LockResult {
    if result is Ok && !queue.check_hash_age(tx.recent_blockhash, max_age) {
        Err(TransactionError::BlockhashNotFound)
    } else {
        result
    }
}

/// Whether a failure leaves a transaction free to be sent again: it is
/// then not recorded in the status cache.
pub open spec fn is_retryable(e: TransactionError) -> bool {
    e == TransactionError::BlockhashNotFound || e == TransactionError::DuplicateSignature || e
        == TransactionError::AccountNotFound
}

/// The status cache after the outcome of one transaction was recorded.
pub open spec fn record_status(
    cache: StatusCacheView,
    tx: TransactionView,
    result: LockResult,
) -> StatusCacheView {
    if tx.signatures.len() == 0 {
        cache
    } else {
        match result {
            Ok(_) => cache.add(tx.signatures[0]),
            Err(e) => if is_retryable(e) {
                cache
            } else {
                cache.add(tx.signatures[0]).save_failure_status(tx.signatures[0], e)
            },
        }
    }
}

/// The status cache after the outcomes of the first `n` transactions of a
/// batch were recorded.
pub open spec fn record_statuses(
    cache: StatusCacheView,
    txs: Seq<TransactionView>,
    results: Seq<LockResult>,
    n: int,
) -> StatusCacheView
    decreases n,
{
    if n <= 0 {
        cache
    } else {
        record_status(record_statuses(cache, txs, results, n - 1), txs[n - 1], results[n - 1])
    }
}

/// The accounts loaded for each transaction of a batch, or why it failed.
pub type Loaded = Result<Seq<AccountView>, TransactionError>;

/// The accounts and loaders loaded for a transaction, or why it failed.
pub type LoadedAccounts = Result<(Vec<Account>, InstructionLoaders), TransactionError>;

pub open spec fn loaded_view(loaded: LoadedAccounts) -> Loaded {
    match loaded {
        Ok(pair) => Ok(account_views(pair.0@)),
        Err(e) => Err(e),
    }
}

pub open spec fn loaded_views(loaded: Seq<LoadedAccounts>) -> Seq<Loaded> {
    loaded.map_values(|l: LoadedAccounts| loaded_view(l))
}

/// What holds of a transaction after the checks and the execution by the
/// given runtime at the given tick height. A transaction that failed a
/// check has that failure and no accounts. One that passed has as many
/// accounts as were loaded. If it ran, each instruction could be handed to
/// its handler and did what `ran` says, within the rules, so that the sum
/// of the lamports is the sum of what was loaded. If it did not, it failed
/// in one of its instructions, as `stopped` says: with the library's own
/// error where the instruction could not be handed to a handler. Where all
/// its instructions are system instructions, its result and its accounts
/// are what `system_run` makes of the accounts loaded.
pub open spec fn outcome_of<P: InstructionProcessor>(
    runtime: Runtime<P>,
    tick_height: u64,
    checked: Loaded,
    visible: Map<Pubkey, AccountView>,
    tx: TransactionView,
    loaded: Loaded,
    executed: LockResult,
) -> bool {
    match checked {
        Err(e) => executed == Err::<(), TransactionError>(e) && loaded == Err::<
            Seq<AccountView>,
            TransactionError,
        >(e),
        Ok(accounts) => {
            &&& loaded is Ok
            &&& loaded->Ok_0.len() == accounts.len()
            &&& match executed {
                Ok(_) => total_lamports(loaded->Ok_0) == total_lamports(accounts) && ran(
                    runtime,
                    tx,
                    loader_chains(visible, tx),
                    tick_height,
                    accounts,
                    loaded->Ok_0,
                ),
                Err(e) => e matches TransactionError::InstructionError(k, cause) && (k as int)
                    < tx.instructions.len() && stopped(
                    runtime,
                    tx,
                    loader_chains(visible, tx),
                    tick_height,
                    accounts,
                    loaded->Ok_0,
                    k,
                    cause,
                ),
            }
            &&& is_system_transaction(tx) ==> (executed, loaded->Ok_0) == system_run(
                tx,
                loader_chains(visible, tx),
                accounts,
                0,
            )
        },
    }
}

/// A fork's writes after the first `m` accounts of a transaction were stored.
pub open spec fn store_transaction(
    own: Map<Pubkey, AccountView>,
    keys: Seq<Pubkey>,
    accounts: Seq<AccountView>,
    m: int,
) -> Map<Pubkey, AccountView>
    decreases m,
{
    if m <= 0 {
        own
    } else {
        store_transaction(own, keys, accounts, m - 1).insert(keys[m - 1], accounts[m - 1])
    }
}

/// The number of accounts of a transaction that are stored: one for each
/// address, as far as accounts were loaded.
pub open spec fn stored_count(keys: Seq<Pubkey>, accounts: Seq<AccountView>) -> int {
    if keys.len() <= accounts.len() {
        keys.len() as int
    } else {
        accounts.len() as int
    }
}

/// A fork's writes after the accounts of the first `n` transactions of a
/// batch were stored: those of each transaction that ran without error.
pub open spec fn store_accounts(
    own: Map<Pubkey, AccountView>,
    txs: Seq<TransactionView>,
    loaded: Seq<Loaded>,
    executed: Seq<LockResult>,
    n: int,
) -> Map<Pubkey, AccountView>
    decreases n,
{
    if n <= 0 {
        own
    } else {
        let prev = store_accounts(own, txs, loaded, executed, n - 1);
        if executed[n - 1] is Ok && loaded[n - 1] is Ok {
            let accounts = loaded[n - 1]->Ok_0;
            store_transaction(
                prev,
                txs[n - 1].account_keys,
                accounts,
                stored_count(txs[n - 1].account_keys, accounts),
            )
        } else {
            prev
        }
    }
}

/// The state of the fee collection: the fork's writes, the fees collected
/// and the results so far.
pub struct FeeState {
    pub own: Map<Pubkey, AccountView>,
    pub fees: u64,
    pub results: Seq<LockResult>,
}

/// The fee collection after one more transaction. A transaction that ran
/// pays its fee, which was taken when it was loaded. One that failed in an
/// instruction pays its fee too: the fee is withdrawn from its first
/// account, and the transaction counts as processed. Any other failure
/// stands as it is.
pub open spec fn collect_fee(
    base: Map<Pubkey, AccountView>,
    state: FeeState,
    tx: TransactionView,
    executed: LockResult,
) -> FeeState {
    match executed {
        Ok(_) => FeeState {
            own: state.own,
            fees: saturating_sum(state.fees, tx.fee),
            results: state.results.push(Ok(())),
        },
        Err(TransactionError::InstructionError(_, _)) => if tx.account_keys.len() == 0 {
            FeeState {
                results: state.results.push(Err(TransactionError::AccountNotFound)),
                ..state
            }
        } else {
            match withdraw_spec(base, state.own, tx.account_keys[0], tx.fee) {
                Ok(own) => FeeState {
                    own,
                    fees: saturating_sum(state.fees, tx.fee),
                    results: state.results.push(Ok(())),
                },
                Err(e) => FeeState { results: state.results.push(Err(e)), ..state },
            }
        },
        Err(e) => FeeState { results: state.results.push(Err(e)), ..state },
    }
}

/// The fee collection after the first `n` transactions of a batch.
pub open spec fn collect_fees(
    base: Map<Pubkey, AccountView>,
    own: Map<Pubkey, AccountView>,
    txs: Seq<TransactionView>,
    executed: Seq<LockResult>,
    n: int,
) -> FeeState
    decreases n,
{
    if n <= 0 {
        FeeState { own, fees: 0, results: Seq::empty() }
    } else {
        collect_fee(base, collect_fees(base, own, txs, executed, n - 1), txs[n - 1], executed[n - 1])
    }
}

/// The number of transactions among the first `n` that ran without error.
pub open spec fn count_ok(executed: Seq<LockResult>, n: int) -> int
    decreases n,
{
    if n <= 0 {
        0
    } else {
        count_ok(executed, n - 1) + (if executed[n - 1] is Ok {
            1int
        } else {
            0int
        })
    }
}

/// A status cache with the shards of a chain of ancestors behind its own,
/// nearest first, as far as there is room.
pub open spec fn squash_caches(cache: StatusCacheView, parent: Option<Box<BankView>>) -> StatusCacheView
    decreases parent,
{
    match parent {
        None => cache,
        Some(p) => {
            let next = cache.squash_parent(p.status_cache);
            if next.merges.len() == MAX_CACHE_ENTRIES {
                next
            } else {
                squash_caches(next, p.parent)
            }
        },
    }
}

/// The live accounts of a map that a program owns.
pub open spec fn accounts_of_owner(accounts: Map<Pubkey, AccountView>, owner: Pubkey) -> Map<
    Pubkey,
    AccountView,
> {
    Map::new(
        |k: Pubkey| lookup(accounts, k) is Some && accounts[k].owner == owner,
        |k: Pubkey| accounts[k],
    )
}

/// The stake that the first `n` entries of a list of slots and stakes hold
/// at slots from `slot` up to `max_slot`.
pub open spec fn stake_from(entries: Seq<(u64, u64)>, slot: u64, max_slot: u64, n: int) -> int
    decreases n,
{
    if n <= 0 {
        0
    } else {
        stake_from(entries, slot, max_slot, n - 1) + (if slot <= entries[n - 1].0 <= max_slot {
            entries[n - 1].1 as int
        } else {
            0
        })
    }
}

/// Whether the stake at slots from `slot` up to `max_slot` is more than
/// `supermajority_stake`.
pub open spec fn confirms(
    entries: Seq<(u64, u64)>,
    slot: u64,
    max_slot: u64,
    supermajority_stake: u64,
) -> bool {
    stake_from(entries, slot, max_slot, entries.len() as int) > supermajority_stake
}

/// The latest slot of the list between `min_slot` and `max_slot` that is
/// confirmed: the stake at it and at later slots is more than
/// `supermajority_stake`.
pub open spec fn is_confirmed_slot(
    entries: Seq<(u64, u64)>,
    min_slot: u64,
    max_slot: u64,
    supermajority_stake: u64,
    slot: u64,
) -> bool {
    &&& min_slot <= slot <= max_slot
    &&& exists|i: int| 0 <= i < entries.len() && (#[trigger] entries[i]).0 == slot
    &&& confirms(entries, slot, max_slot, supermajority_stake)
    &&& forall|j: int|
        0 <= j < entries.len() && min_slot <= (#[trigger] entries[j]).0 <= max_slot && confirms(
            entries,
            entries[j].0,
            max_slot,
            supermajority_stake,
        ) ==> entries[j].0 <= slot
}

/// The latest confirmed slot of a list, if one is confirmed.
pub open spec fn confirmed_slot(
    entries: Seq<(u64, u64)>,
    min_slot: u64,
    max_slot: u64,
    supermajority_stake: u64,
) -> Option<u64> {
    if exists|slot: u64|
        is_confirmed_slot(entries, min_slot, max_slot, supermajority_stake, slot) {
        Some(
            choose|slot: u64|
                is_confirmed_slot(entries, min_slot, max_slot, supermajority_stake, slot),
        )
    } else {
        None
    }
}

pub struct BankView {
    /// The accounts written on this fork.
    pub accounts: Map<Pubkey, AccountView>,
    /// The locks held on this fork.
    pub locks: LocksView,
    /// The transactions that ran without error on this fork and its ancestors.
    pub transaction_count: u64,
    pub status_cache: StatusCacheView,
    pub blockhash_queue: BlockhashQueueView,
    pub parent: Option<Box<BankView>>,
    /// The hash of the bank's state, once frozen.
    pub hash: Option<crate::hash::Hash>,
    pub parent_hash: crate::hash::Hash,
    pub tick_height: u64,
    pub ticks_per_slot: u64,
    pub slot: u64,
    pub collector_id: Pubkey,
    pub epoch_schedule: EpochSchedule,
    pub epoch_vote_accounts: Map<u64, Map<Pubkey, AccountView>>,
    /// Whether a batch was committed on this fork.
    pub is_delta: bool,
    /// The programs with a registered handler.
    pub programs: Seq<Pubkey>,
}

impl BankView {
    /// The number of ancestors.
    pub open spec fn depth(self) -> nat
        decreases self,
    {
        match self.parent {
            None => 0,
            Some(p) => 1 + p.depth(),
        }
    }

    /// What the ancestors show: for each address the entry of the nearest
    /// ancestor that wrote it.
    pub open spec fn base(self) -> Map<Pubkey, AccountView>
        decreases self,
    {
        match self.parent {
            None => Map::empty(),
            Some(p) => p.base().union_prefer_right(p.accounts),
        }
    }

    /// What the fork shows: its own writes over those of its ancestors.
    pub open spec fn visible(self) -> Map<Pubkey, AccountView> {
        self.base().union_prefer_right(self.accounts)
    }

    /// The account of an address on this fork.
    pub open spec fn account(self, key: Pubkey) -> Option<AccountView> {
        lookup(self.visible(), key)
    }

    /// The balance of an address on this fork.
    pub open spec fn balance(self, key: Pubkey) -> u64 {
        lookup_or_empty(self.visible(), key).lamports
    }

    /// Whether the fork has seen a signature: in its own cache or in that
    /// of an ancestor.
    pub open spec fn has_signature(self, sig: Signature) -> bool
        decreases self,
    {
        self.status_cache.has_signature(sig) || match self.parent {
            None => false,
            Some(p) => p.has_signature(sig),
        }
    }

    /// The status of a signature on this fork: that of its own cache, else
    /// that of the nearest ancestor that has one.
    pub open spec fn signature_status(self, sig: Signature) -> Option<Status>
        decreases self,
    {
        if self.status_cache.get_signature_status(sig) is Some {
            self.status_cache.get_signature_status(sig)
        } else {
            match self.parent {
                None => None,
                Some(p) => p.signature_status(sig),
            }
        }
    }

    pub open spec fn is_frozen(self) -> bool {
        self.hash is Some
    }

    /// Whether `slot` is this bank's or that of an ancestor.
    pub open spec fn in_subtree_of(self, slot: u64) -> bool
        decreases self,
    {
        self.slot == slot || match self.parent {
            None => false,
            Some(p) => p.in_subtree_of(slot),
        }
    }

    /// A bank can be voted on once a batch was committed on it and the last
    /// tick of its slot is reached.
    pub open spec fn is_votable(self) -> bool {
        self.is_delta && self.tick_height == (self.slot + 1) * self.ticks_per_slot - 1
    }

    /// The caches and the queue are well formed, and each ancestor is
    /// frozen, older than its child, and well formed in turn.
    pub open spec fn wf(self) -> bool
        decreases self,
    {
        &&& self.status_cache.wf()
        &&& self.blockhash_queue.wf()
        &&& self.blockhash_queue.hash_height <= self.tick_height
        &&& match self.parent {
            None => true,
            Some(p) => p.wf() && p.is_frozen() && p.slot < self.slot,
        }
    }

    /// The bank after one more tick. The last tick of a slot registers its
    /// hash as a blockhash; every tenth tick opens a shard of the status
    /// cache.
    pub open spec fn register_tick(self, hash: crate::hash::Hash, now: u64) -> BankView {
        let height = (self.tick_height + 1) as u64;
        BankView {
            tick_height: height,
            blockhash_queue: if height % self.ticks_per_slot == self.ticks_per_slot - 1 {
                self.blockhash_queue.register(hash, now)
            } else {
                self.blockhash_queue
            },
            status_cache: if height % NUM_TICKS_PER_SECOND == 0 {
                self.status_cache.new_cache(hash)
            } else {
                self.status_cache
            },
            ..self
        }
    }

    /// The bank as a root: frozen, its ancestors' accounts and signature
    /// shards taken in, and no parent.
    pub open spec fn squash(self, state_hash: crate::hash::Hash) -> BankView {
        BankView {
            accounts: self.visible(),
            status_cache: squash_caches(self.status_cache, self.parent),
            parent: None,
            ..self.freeze(state_hash)
        }
    }

    /// A root shows what it showed as a fork.
    pub proof fn lemma_squash_keeps_accounts(self, state_hash: crate::hash::Hash, key: Pubkey)
        ensures
            self.squash(state_hash).account(key) == self.account(key),
            self.squash(state_hash).visible() == self.visible(),
    {
        let root = self.squash(state_hash);
        assert(root.base() == Map::<Pubkey, AccountView>::empty());
        assert(root.visible() =~= self.visible());
    }

    /// What the signature check makes of a transaction's result so far.
    pub open spec fn signature_result(self, tx: TransactionView, result: LockResult) -> LockResult {
        if tx.signatures.len() > 0 && result is Ok && self.has_signature(tx.signatures[0]) {
            Err(TransactionError::DuplicateSignature)
        } else {
            result
        }
    }

    /// What the checks before execution make of a transaction that holds
    /// `lock_result`: the first failure of the lock, the blockhash's age,
    /// the signature and the loading, or the accounts loaded.
    pub open spec fn checked(self, tx: TransactionView, lock_result: LockResult, max_age: usize) -> Loaded {
        match self.signature_result(tx, age_result(self.blockhash_queue, tx, lock_result, max_age)) {
            Err(e) => Err(e),
            Ok(_) => load_spec(self.visible(), tx),
        }
    }

    /// What holds of a batch after the checks and the execution by the
    /// given runtime: of each transaction what `outcome_of` says.
    pub open spec fn executed_batch<P: InstructionProcessor>(
        self,
        runtime: Runtime<P>,
        txs: Seq<TransactionView>,
        lock_results: Seq<LockResult>,
        max_age: usize,
        loaded: Seq<Loaded>,
        executed: Seq<LockResult>,
    ) -> bool {
        &&& loaded.len() == txs.len()
        &&& executed.len() == txs.len()
        &&& forall|i: int|
            0 <= i < txs.len() ==> outcome_of(
                runtime,
                self.tick_height,
                self.checked(txs[i], lock_results[i], max_age),
                self.visible(),
                txs[i],
                #[trigger] loaded[i],
                executed[i],
            )
    }

    /// The bank after a deposit.
    pub open spec fn deposit(self, key: Pubkey, lamports: u64) -> BankView {
        BankView { accounts: deposit_spec(self.base(), self.accounts, key, lamports), ..self }
    }

    /// The bank after a batch was committed: the accounts of the
    /// transactions that ran are stored, the outcomes recorded, the fees
    /// collected and paid to the collector.
    pub open spec fn commit(
        self,
        txs: Seq<TransactionView>,
        loaded: Seq<Loaded>,
        executed: Seq<LockResult>,
    ) -> BankView {
        let n = txs.len() as int;
        let stored = store_accounts(self.accounts, txs, loaded, executed, n);
        let collected = collect_fees(self.base(), stored, txs, executed, n);
        BankView {
            accounts: deposit_spec(self.base(), collected.own, self.collector_id, collected.fees),
            status_cache: record_statuses(self.status_cache, txs, executed, n),
            is_delta: true,
            ..self
        }
    }

    /// The results of a batch that was committed.
    pub open spec fn commit_results(
        self,
        txs: Seq<TransactionView>,
        loaded: Seq<Loaded>,
        executed: Seq<LockResult>,
    ) -> Seq<LockResult> {
        let n = txs.len() as int;
        let stored = store_accounts(self.accounts, txs, loaded, executed, n);
        collect_fees(self.base(), stored, txs, executed, n).results
    }

    /// The bank after a batch was checked, run and committed: the
    /// transactions that ran are counted, then the batch is committed.
    pub open spec fn run(
        self,
        txs: Seq<TransactionView>,
        loaded: Seq<Loaded>,
        executed: Seq<LockResult>,
    ) -> BankView {
        (BankView {
            transaction_count: (self.transaction_count + count_ok(executed, txs.len() as int)) as u64,
            ..self
        }).commit(txs, loaded, executed)
    }

    /// Whether `post` and `results` are what processing a batch with the
    /// given runtime can give: what the handlers did is one of the things
    /// that they can do, the rest is fixed.
    pub open spec fn processes<P: InstructionProcessor>(
        self,
        runtime: Runtime<P>,
        txs: Seq<TransactionView>,
        lock_results: Seq<LockResult>,
        max_age: usize,
        post: BankView,
        results: Seq<LockResult>,
    ) -> bool {
        exists|loaded: Seq<Loaded>, executed: Seq<LockResult>|
            {
                &&& #[trigger] self.executed_batch(
                    runtime,
                    txs,
                    lock_results,
                    max_age,
                    loaded,
                    executed,
                )
                &&& post == self.run(txs, loaded, executed)
                &&& results == self.commit_results(txs, loaded, executed)
            }
    }

    /// Whether `post` and `result` are what processing one transaction can
    /// give: the transaction is processed as a batch of its own, with the
    /// locks taken before and given back after; the result is the failure
    /// of a check, or else the status recorded for the first signature.
    pub open spec fn processes_one<P: InstructionProcessor>(
        self,
        runtime: Runtime<P>,
        tx: TransactionView,
        post: BankView,
        result: LockResult,
    ) -> bool {
        exists|after: BankView, results: Seq<LockResult>| #[trigger]
            self.with_locks(locks_after(self.locks, seq![tx], 1)).processes(
                runtime,
                seq![tx],
                lock_results(self.locks, seq![tx]),
                MAX_RECENT_BLOCKHASHES,
                after,
                results,
            ) && post == after.with_locks(self.locks) && results.len() == 1 && result == (
            if results[0] is Err || tx.signatures.len() == 0 {
                results[0]
            } else {
                after.signature_status(tx.signatures[0])->Some_0
            })
    }

    /// The bank with its locks replaced.
    pub open spec fn with_locks(self, locks: LocksView) -> BankView {
        BankView { locks, ..self }
    }

    /// The bank, frozen: its hash is fixed, unless it was before.
    pub open spec fn freeze(self, state_hash: crate::hash::Hash) -> BankView {
        BankView {
            hash: Some(
                match self.hash {
                    Some(h) => h,
                    None => state_hash,
                },
            ),
            ..self
        }
    }

    /// Freezing a frozen bank changes nothing, whatever its state has
    /// become: the hash of a bank is fixed once.
    pub proof fn lemma_freeze_idempotent(
        self,
        first: crate::hash::Hash,
        second: crate::hash::Hash,
    )
        ensures
            self.freeze(first).freeze(second) == self.freeze(first),
            self.freeze(first).is_frozen(),
    {
    }

    /// A transaction whose first signature the fork has seen does not pass
    /// the checks, so it is neither run nor committed.
    pub proof fn lemma_seen_signature_rejected(
        self,
        tx: TransactionView,
        lock_result: LockResult,
        max_age: usize,
    )
        requires
            tx.signatures.len() > 0,
            self.has_signature(tx.signatures[0]),
        ensures
            self.checked(tx, lock_result, max_age) is Err,
    {
    }

    /// What a fork has seen, every fork above it has seen.
    pub proof fn lemma_child_has_signature(self, sig: Signature)
        requires
            self.parent is Some,
            self.parent->Some_0.has_signature(sig),
        ensures
            self.has_signature(sig),
    {
    }

    /// What a fork writes, its parent does not show: whatever a batch does
    /// on the fork, the parent is what it was.
    pub proof fn lemma_parent_isolation(
        self,
        txs: Seq<TransactionView>,
        loaded: Seq<Loaded>,
        executed: Seq<LockResult>,
    )
        ensures
            self.run(txs, loaded, executed).parent == self.parent,
            self.run(txs, loaded, executed).base() == self.base(),
    {
        let post = self.run(txs, loaded, executed);
        assert(post.parent == self.parent);
        reveal_with_fuel(BankView::base, 2);
    }
}

/// A failure that leaves a transaction free to be sent again is not
/// recorded: the status cache stays as it is.
pub proof fn lemma_retryable_not_recorded(
    cache: StatusCacheView,
    tx: TransactionView,
    e: TransactionError,
)
    requires
        is_retryable(e),
    ensures
        record_status(cache, tx, Err(e)) == cache,
{
}

/// A transaction that ran, or failed in a way that is recorded, has its
/// first signature seen once its outcome is recorded.
pub proof fn lemma_recorded_is_seen(cache: StatusCacheView, tx: TransactionView, result: LockResult)
    requires
        cache.wf(),
        tx.signatures.len() > 0,
        result is Ok || !is_retryable(result->Err_0),
    ensures
        record_status(cache, tx, result).wf(),
        record_status(cache, tx, result).has_signature(tx.signatures[0]),
        record_status(cache, tx, result).get_signature_status(tx.signatures[0]) is Some,
        forall|sig: Signature|
            cache.has_signature(sig) ==> #[trigger] record_status(cache, tx, result).has_signature(
                sig,
            ),
{
    let sig = tx.signatures[0];
    cache.lemma_add(sig);
    let added = cache.add(sig);
    match result {
        Ok(_) => {},
        Err(e) => {
            added.active.lemma_save_failure(sig, e);
            let saved = added.save_failure_status(sig, e);
            assert(saved.merges == added.merges);
            assert forall|other: Signature| added.has_signature(other) implies saved.has_signature(
                other,
            ) by {
                assert(saved.active.has(other) == added.active.has(other));
            }
            assert(saved.has_signature(sig));
        },
    }
}

/// Recording an outcome keeps what the cache has seen.
pub proof fn lemma_record_keeps(cache: StatusCacheView, tx: TransactionView, result: LockResult)
    requires
        cache.wf(),
    ensures
        record_status(cache, tx, result).wf(),
        forall|sig: Signature|
            cache.has_signature(sig) ==> #[trigger] record_status(cache, tx, result).has_signature(
                sig,
            ),
{
    if tx.signatures.len() > 0 {
        match result {
            Ok(_) => {
                cache.lemma_add(tx.signatures[0]);
            },
            Err(e) => {
                if !is_retryable(e) {
                    lemma_recorded_is_seen(cache, tx, result);
                }
            },
        }
    }
}

/// At most once: when a batch is recorded, each of its transactions that
/// ran, or failed in a way that is recorded, has its first signature seen.
pub proof fn lemma_committed_is_seen(
    cache: StatusCacheView,
    txs: Seq<TransactionView>,
    results: Seq<LockResult>,
    n: int,
    i: int,
)
    requires
        cache.wf(),
        0 <= i < n <= txs.len(),
        n <= results.len(),
        txs[i].signatures.len() > 0,
        results[i] is Ok || !is_retryable(results[i]->Err_0),
    ensures
        record_statuses(cache, txs, results, n).wf(),
        record_statuses(cache, txs, results, n).has_signature(txs[i].signatures[0]),
    decreases n,
{
    lemma_record_statuses_wf(cache, txs, results, n - 1);
    let prev = record_statuses(cache, txs, results, n - 1);
    if i == n - 1 {
        lemma_recorded_is_seen(prev, txs[i], results[i]);
    } else {
        lemma_committed_is_seen(cache, txs, results, n - 1, i);
        lemma_record_keeps(prev, txs[n - 1], results[n - 1]);
    }
}

/// Recording a batch keeps the cache well formed.
pub proof fn lemma_record_statuses_wf(
    cache: StatusCacheView,
    txs: Seq<TransactionView>,
    results: Seq<LockResult>,
    n: int,
)
    requires
        cache.wf(),
    ensures
        record_statuses(cache, txs, results, n).wf(),
    decreases n,
{
    if n > 0 {
        lemma_record_statuses_wf(cache, txs, results, n - 1);
        lemma_record_keeps(record_statuses(cache, txs, results, n - 1), txs[n - 1], results[n - 1]);
    }
}

/// A transaction that the checks rejected adds nothing to its batch: no
/// account is stored for it, no fee is taken, it is not counted, and its
/// result is the error of the check. Where that error leaves it free to be
/// sent again, nothing is recorded for it either.
pub proof fn lemma_rejected_adds_nothing(
    base: Map<Pubkey, AccountView>,
    own: Map<Pubkey, AccountView>,
    cache: StatusCacheView,
    txs: Seq<TransactionView>,
    loaded: Seq<Loaded>,
    executed: Seq<LockResult>,
    n: int,
)
    requires
        n >= 1,
        executed[n - 1] is Err,
        !(executed[n - 1]->Err_0 is InstructionError),
    ensures
        store_accounts(own, txs, loaded, executed, n) == store_accounts(
            own,
            txs,
            loaded,
            executed,
            n - 1,
        ),
        collect_fees(base, own, txs, executed, n) == (FeeState {
            results: collect_fees(base, own, txs, executed, n - 1).results.push(executed[n - 1]),
            ..collect_fees(base, own, txs, executed, n - 1)
        }),
        count_ok(executed, n) == count_ok(executed, n - 1),
        is_retryable(executed[n - 1]->Err_0) ==> record_statuses(cache, txs, executed, n)
            == record_statuses(cache, txs, executed, n - 1),
{
}

/// A signature that only transactions carry first which failed in a way
/// that leaves them free to be sent again is, when the batch is recorded,
/// as much seen as before, with the status it had.
pub proof fn lemma_unrecorded_signature(
    cache: StatusCacheView,
    txs: Seq<TransactionView>,
    results: Seq<LockResult>,
    n: int,
    sig: Signature,
)
    requires
        cache.wf(),
        0 <= n <= txs.len(),
        n <= results.len(),
        forall|i: int|
            0 <= i < n && (#[trigger] txs[i]).signatures.len() > 0 && txs[i].signatures[0] == sig
                ==> results[i] is Err && is_retryable(results[i]->Err_0),
    ensures
        record_statuses(cache, txs, results, n).wf(),
        record_statuses(cache, txs, results, n).has_signature(sig) == cache.has_signature(sig),
        record_statuses(cache, txs, results, n).get_signature_status(sig)
            == cache.get_signature_status(sig),
    decreases n,
{
    if n > 0 {
        lemma_unrecorded_signature(cache, txs, results, n - 1, sig);
        let prev = record_statuses(cache, txs, results, n - 1);
        let tx = txs[n - 1];
        let next = record_status(prev, tx, results[n - 1]);
        lemma_record_keeps(prev, tx, results[n - 1]);
        if tx.signatures.len() > 0 {
            let other = tx.signatures[0];
            if other != sig {
                prev.lemma_add(other);
                let added = prev.add(other);
                assert(added.get_signature_status(sig) == prev.get_signature_status(sig));
                assert(added.has_signature(sig) == prev.has_signature(sig));
                match results[n - 1] {
                    Ok(_) => {},
                    Err(e) => {
                        if !is_retryable(e) {
                            added.active.lemma_save_failure(other, e);
                            let saved = added.save_failure_status(other, e);
                            assert(saved.merges == added.merges);
                            assert(added.active.save_failure(other, e).has(sig)
                                == added.active.has(sig));
                            assert(added.active.save_failure(other, e).status(sig)
                                == added.active.status(sig));
                            assert(saved.get_signature_status(sig) == added.get_signature_status(
                                sig,
                            ));
                            assert(saved.has_signature(sig) == added.has_signature(sig));
                        }
                    },
                }
            }
        }
    }
}

/// Blockhash retry over a batch: when a batch was run on a fork, a
/// signature that only transactions carry first which failed in a way that
/// leaves them free to be sent again is as much seen on the fork as
/// before, with the status it had.
pub proof fn lemma_retryable_keeps_status(
    bank: BankView,
    txs: Seq<TransactionView>,
    loaded: Seq<Loaded>,
    executed: Seq<LockResult>,
    sig: Signature,
)
    requires
        bank.status_cache.wf(),
        executed.len() == txs.len(),
        forall|i: int|
            0 <= i < txs.len() && (#[trigger] txs[i]).signatures.len() > 0 && txs[i].signatures[0]
                == sig ==> executed[i] is Err && is_retryable(executed[i]->Err_0),
    ensures
        bank.run(txs, loaded, executed).has_signature(sig) == bank.has_signature(sig),
        bank.run(txs, loaded, executed).signature_status(sig) == bank.signature_status(sig),
{
    lemma_unrecorded_signature(bank.status_cache, txs, executed, txs.len() as int, sig);
    let post = bank.run(txs, loaded, executed);
    assert(post.parent == bank.parent);
    assert(post.status_cache == record_statuses(
        bank.status_cache,
        txs,
        executed,
        txs.len() as int,
    ));
}

/// At most once: when a batch was run on a fork, a transaction that
/// carries the first signature of one that ran in the batch, or that failed
/// in it in a way that is recorded, does not pass the checks on that fork,
/// whatever else it holds. The same holds on every fork above, by
/// `lemma_child_has_signature`, as long as the shard of the signature is
/// kept.
pub proof fn lemma_at_most_once(
    bank: BankView,
    txs: Seq<TransactionView>,
    loaded: Seq<Loaded>,
    executed: Seq<LockResult>,
    i: int,
    later: TransactionView,
    lock_result: LockResult,
    max_age: usize,
)
    requires
        bank.status_cache.wf(),
        executed.len() == txs.len(),
        0 <= i < txs.len(),
        executed[i] is Ok || !is_retryable(executed[i]->Err_0),
        txs[i].signatures.len() > 0,
        later.signatures.len() > 0,
        later.signatures[0] == txs[i].signatures[0],
    ensures
        bank.run(txs, loaded, executed).has_signature(txs[i].signatures[0]),
        bank.run(txs, loaded, executed).checked(later, lock_result, max_age) is Err,
{
    lemma_committed_is_seen(bank.status_cache, txs, executed, txs.len() as int, i);
}

/// Blockhash retry: a transaction that alone in its batch fails with an
/// unknown blockhash, a seen signature or a missing account leaves the
/// fork as it was: no signature is recorded, no account shows another
/// value, nothing is counted. It can be sent again.
pub proof fn lemma_retry_leaves_no_trace(
    bank: BankView,
    tx: TransactionView,
    loaded: Loaded,
    e: TransactionError,
)
    requires
        is_retryable(e),
    ensures
        ({
            let post = bank.run(seq![tx], seq![loaded], seq![Err::<(), TransactionError>(e)]);
            &&& post.status_cache == bank.status_cache
            &&& post.transaction_count == bank.transaction_count
            &&& forall|sig: Signature| post.has_signature(sig) == bank.has_signature(sig)
            &&& forall|k: Pubkey| #[trigger] post.account(k) == bank.account(k)
            &&& bank.commit_results(seq![tx], seq![loaded], seq![Err::<(), TransactionError>(e)])
                == seq![Err::<(), TransactionError>(e)]
        }),
{
    let txs = seq![tx];
    let loadeds = seq![loaded];
    let executed = seq![Err::<(), TransactionError>(e)];
    reveal_with_fuel(store_accounts, 2);
    reveal_with_fuel(collect_fees, 2);
    reveal_with_fuel(record_statuses, 2);
    reveal_with_fuel(count_ok, 2);
    let post = bank.run(txs, loadeds, executed);
    let counted = BankView {
        transaction_count: (bank.transaction_count + count_ok(executed, 1)) as u64,
        ..bank
    };
    assert(counted.base() == bank.base());
    let stored = store_accounts(bank.accounts, txs, loadeds, executed, 1);
    assert(stored == bank.accounts);
    let start = FeeState { own: stored, fees: 0, results: Seq::empty() };
    assert(collect_fees(bank.base(), stored, txs, executed, 0) == start);
    let collected = collect_fees(bank.base(), stored, txs, executed, 1);
    assert(collected == collect_fee(bank.base(), start, tx, executed[0]));
    assert(collected.results =~= seq![Err::<(), TransactionError>(e)]);
    assert(post.base() == bank.base());
    assert(post.status_cache == bank.status_cache);
    assert(post.parent == bank.parent);
    assert forall|k: Pubkey| #[trigger] post.account(k) == bank.account(k) by {
        if k == bank.collector_id {
            assert(post.visible()[k] == lookup_or_empty(bank.visible(), k));
        }
    }
}

/// The fee collection gives one result for each transaction, and
/// `AccountInUse` to those that came with it and to no others.
pub proof fn lemma_collect_fees_results(
    base: Map<Pubkey, AccountView>,
    own: Map<Pubkey, AccountView>,
    txs: Seq<TransactionView>,
    executed: Seq<LockResult>,
    n: int,
)
    requires
        0 <= n <= txs.len(),
        n <= executed.len(),
    ensures
        collect_fees(base, own, txs, executed, n).results.len() == n,
        forall|i: int|
            0 <= i < n ==> (#[trigger] collect_fees(base, own, txs, executed, n).results[i]
                == Err::<(), TransactionError>(TransactionError::AccountInUse)) == (executed[i]
                == Err::<(), TransactionError>(TransactionError::AccountInUse)),
        forall|i: int|
            0 <= i < n && (#[trigger] collect_fees(base, own, txs, executed, n).results[i]) is Ok
                ==> executed[i] is Ok || executed[i]->Err_0 is InstructionError,
        forall|i: int|
            0 <= i < n && !(executed[i] is Err && executed[i]->Err_0 is InstructionError)
                ==> #[trigger] collect_fees(base, own, txs, executed, n).results[i] == executed[i],
    decreases n,
{
    if n > 0 {
        lemma_collect_fees_results(base, own, txs, executed, n - 1);
        let prev = collect_fees(base, own, txs, executed, n - 1);
        let next = collect_fees(base, own, txs, executed, n);
        assert(next == collect_fee(base, prev, txs[n - 1], executed[n - 1]));
        assert(next.results.len() == n);
        assert forall|i: int| 0 <= i < n - 1 implies next.results[i] == prev.results[i] by {}
        match executed[n - 1] {
            Ok(unit) => {
                assert(unit == ());
                assert(next.results[n - 1] == executed[n - 1]);
            },
            Err(e) => {},
        }
    }
}

/// Fee invariance: when a transaction passed the checks and failed in an
/// instruction, the batch that holds it alone takes the fee from the
/// transaction's first account and gives it to the collector; no other
/// account changes, and the transaction counts as processed. The two
/// accounts must differ, and the collector's balance must have room for
/// the fee.
pub proof fn lemma_fee_invariance(
    bank: BankView,
    tx: TransactionView,
    lock_result: LockResult,
    max_age: usize,
    loaded: Loaded,
    index: u8,
    cause: crate::transaction::InstructionError,
)
    requires
        bank.checked(tx, lock_result, max_age) is Ok,
        tx.account_keys.len() > 0 ==> tx.account_keys[0] != bank.collector_id,
        bank.balance(bank.collector_id) + tx.fee <= u64::MAX,
    ensures
        ({
            let executed = seq![
                Err::<(), TransactionError>(TransactionError::InstructionError(index, cause)),
            ];
            let post = bank.run(seq![tx], seq![loaded], executed);
            let payer = tx.account_keys.first();
            &&& tx.account_keys.len() > 0
            &&& post.balance(payer) == bank.balance(payer) - tx.fee
            &&& post.balance(bank.collector_id) == bank.balance(bank.collector_id) + tx.fee
            &&& forall|k: Pubkey|
                k != payer && k != bank.collector_id ==> #[trigger] post.account(k) == bank.account(
                    k,
                )
            &&& bank.commit_results(seq![tx], seq![loaded], executed) == seq![
                Ok::<(), TransactionError>(()),
            ]
        }),
{
    let executed = seq![
        Err::<(), TransactionError>(TransactionError::InstructionError(index, cause)),
    ];
    let txs = seq![tx];
    let loadeds = seq![loaded];
    assert(load_spec(bank.visible(), tx) is Ok);
    assert(load_accounts_spec(bank.visible(), tx) is Ok);
    let called = Seq::new(
        tx.account_keys.len(),
        |j: int| lookup_or_empty(bank.visible(), tx.account_keys[j]),
    );
    assert(called.len() > 0 && called[0].lamports != 0 && called[0].lamports >= tx.fee);
    let payer = tx.account_keys[0];
    assert(called[0] == lookup_or_empty(bank.visible(), payer));
    let counted = BankView {
        transaction_count: (bank.transaction_count + count_ok(executed, 1)) as u64,
        ..bank
    };
    reveal_with_fuel(store_accounts, 2);
    reveal_with_fuel(collect_fees, 2);
    reveal_with_fuel(record_statuses, 2);
    assert(counted.base() == bank.base());
    let stored = store_accounts(counted.accounts, txs, loadeds, executed, 1);
    assert(stored == bank.accounts);
    let start = FeeState { own: stored, fees: 0, results: Seq::empty() };
    assert(collect_fees(bank.base(), stored, txs, executed, 0) == start);
    let collected = collect_fees(bank.base(), stored, txs, executed, 1);
    assert(collected == collect_fee(bank.base(), start, tx, executed[0]));
    let paid = withdraw_spec(bank.base(), stored, payer, tx.fee);
    assert(paid is Ok);
    assert(collected.own == paid->Ok_0);
    assert(collected.fees == tx.fee);
    assert(collected.results =~= seq![Ok::<(), TransactionError>(())]);
    let post = bank.run(txs, loadeds, executed);
    assert(post.accounts == deposit_spec(bank.base(), collected.own, bank.collector_id, tx.fee));
    assert(post.base() == bank.base());
}

/// Whether an address is spared by a batch: no transaction whose result
/// is a success names it. Only those write accounts: the ones that ran
/// store theirs, and the ones that failed in an instruction pay their fee.
pub open spec fn spared(txs: Seq<TransactionView>, results: Seq<LockResult>, key: Pubkey) -> bool {
    forall|i: int|
        0 <= i < txs.len() && (#[trigger] results[i]) is Ok ==> !txs[i].account_keys.contains(key)
}

/// The fees of those of the first `n` transactions of a batch whose result
/// is a success, summed up to the greatest amount.
pub open spec fn fees_of(txs: Seq<TransactionView>, results: Seq<LockResult>, n: int) -> u64
    decreases n,
{
    if n <= 0 {
        0
    } else if results[n - 1] is Ok {
        saturating_sum(fees_of(txs, results, n - 1), txs[n - 1].fee)
    } else {
        fees_of(txs, results, n - 1)
    }
}

/// The fees of the first transactions do not depend on what follows.
proof fn lemma_fees_of_prefix(
    txs: Seq<TransactionView>,
    longer: Seq<LockResult>,
    shorter: Seq<LockResult>,
    n: int,
)
    requires
        0 <= n <= shorter.len() <= longer.len(),
        forall|k: int| 0 <= k < n ==> longer[k] == shorter[k],
    ensures
        fees_of(txs, longer, n) == fees_of(txs, shorter, n),
    decreases n,
{
    if n > 0 {
        lemma_fees_of_prefix(txs, longer, shorter, n - 1);
    }
}

/// The results of the first transactions do not depend on what follows.
proof fn lemma_collect_fees_prefix(
    base: Map<Pubkey, AccountView>,
    own: Map<Pubkey, AccountView>,
    txs: Seq<TransactionView>,
    executed: Seq<LockResult>,
    m: int,
    n: int,
)
    requires
        0 <= m <= n,
    ensures
        collect_fees(base, own, txs, executed, m).results.len() == m,
        collect_fees(base, own, txs, executed, n).results.len() == n,
        forall|i: int|
            0 <= i < m ==> collect_fees(base, own, txs, executed, n).results[i] == collect_fees(
                base,
                own,
                txs,
                executed,
                m,
            ).results[i],
    decreases n,
{
    if m < n {
        lemma_collect_fees_prefix(base, own, txs, executed, m, n - 1);
        let prev = collect_fees(base, own, txs, executed, n - 1);
        let next = collect_fees(base, own, txs, executed, n);
        assert(next == collect_fee(base, prev, txs[n - 1], executed[n - 1]));
        assert(next.results.take(n - 1) =~= prev.results);
        assert forall|i: int| 0 <= i < m implies next.results[i] == collect_fees(
            base,
            own,
            txs,
            executed,
            m,
        ).results[i] by {
            assert(next.results[i] == next.results.take(n - 1)[i]);
        }
    } else if n > 0 {
        lemma_collect_fees_prefix(base, own, txs, executed, n - 1, n - 1);
        let prev = collect_fees(base, own, txs, executed, n - 1);
        let next = collect_fees(base, own, txs, executed, n);
        assert(next == collect_fee(base, prev, txs[n - 1], executed[n - 1]));
    }
}

/// Storing the accounts of a transaction leaves the entry of an address
/// that is not among those stored.
proof fn lemma_store_transaction_keeps(
    own: Map<Pubkey, AccountView>,
    keys: Seq<Pubkey>,
    accounts: Seq<AccountView>,
    m: int,
    key: Pubkey,
)
    requires
        m <= keys.len(),
        !keys.contains(key),
    ensures
        store_transaction(own, keys, accounts, m).contains_key(key) == own.contains_key(key),
        store_transaction(own, keys, accounts, m)[key] == own[key],
    decreases m,
{
    if m > 0 {
        lemma_store_transaction_keeps(own, keys, accounts, m - 1, key);
        assert(keys[m - 1] != key);
    }
}

/// Storing the accounts of a batch leaves the entry of an address that
/// none of the transactions names that ran.
proof fn lemma_store_accounts_keeps(
    own: Map<Pubkey, AccountView>,
    txs: Seq<TransactionView>,
    loaded: Seq<Loaded>,
    executed: Seq<LockResult>,
    n: int,
    key: Pubkey,
)
    requires
        n <= txs.len(),
        spared(txs, executed, key),
    ensures
        store_accounts(own, txs, loaded, executed, n).contains_key(key) == own.contains_key(key),
        store_accounts(own, txs, loaded, executed, n)[key] == own[key],
    decreases n,
{
    if n > 0 {
        lemma_store_accounts_keeps(own, txs, loaded, executed, n - 1, key);
        let prev = store_accounts(own, txs, loaded, executed, n - 1);
        if executed[n - 1] is Ok && loaded[n - 1] is Ok {
            let accounts = loaded[n - 1]->Ok_0;
            let keys = txs[n - 1].account_keys;
            lemma_store_transaction_keeps(prev, keys, accounts, stored_count(keys, accounts), key);
        }
    }
}

/// The fee collection leaves the entry of an address that the batch
/// spares, and collects the fees of the transactions whose result is a
/// success.
proof fn lemma_collect_fees_keeps(
    base: Map<Pubkey, AccountView>,
    own: Map<Pubkey, AccountView>,
    txs: Seq<TransactionView>,
    executed: Seq<LockResult>,
    n: int,
    key: Pubkey,
)
    requires
        0 <= n <= txs.len(),
        spared(txs, collect_fees(base, own, txs, executed, txs.len() as int).results, key),
    ensures
        collect_fees(base, own, txs, executed, n).own.contains_key(key) == own.contains_key(key),
        collect_fees(base, own, txs, executed, n).own[key] == own[key],
        collect_fees(base, own, txs, executed, n).results.len() == n,
        collect_fees(base, own, txs, executed, n).fees == fees_of(
            txs,
            collect_fees(base, own, txs, executed, n).results,
            n,
        ),
    decreases n,
{
    if n > 0 {
        lemma_collect_fees_keeps(base, own, txs, executed, n - 1, key);
        let prev = collect_fees(base, own, txs, executed, n - 1);
        let next = collect_fees(base, own, txs, executed, n);
        let last = collect_fees(base, own, txs, executed, txs.len() as int);
        let tx = txs[n - 1];
        assert(next == collect_fee(base, prev, tx, executed[n - 1]));
        assert(next.results.len() == n);
        assert(next.results.take(n - 1) =~= prev.results);
        lemma_fees_of_prefix(txs, next.results, prev.results, n - 1);
        lemma_collect_fees_prefix(base, own, txs, executed, n, txs.len() as int);
        assert(last.results[n - 1] == next.results[n - 1]);
        if next.results[n - 1] is Ok && tx.account_keys.len() > 0 {
            assert(tx.account_keys.contains(tx.account_keys[0]));
            assert(tx.account_keys[0] != key);
        }
    }
}

/// The fee collection of the first transactions leaves the entry of an
/// address that is the first of none of them that failed in an
/// instruction.
proof fn lemma_collect_fees_keeps_payer(
    base: Map<Pubkey, AccountView>,
    own: Map<Pubkey, AccountView>,
    txs: Seq<TransactionView>,
    executed: Seq<LockResult>,
    m: int,
    key: Pubkey,
)
    requires
        0 <= m <= txs.len(),
        forall|j: int|
            0 <= j < m && (#[trigger] executed[j]) is Err && executed[j]->Err_0 is InstructionError
                && txs[j].account_keys.len() > 0 ==> txs[j].account_keys[0] != key,
    ensures
        collect_fees(base, own, txs, executed, m).own.contains_key(key) == own.contains_key(key),
        collect_fees(base, own, txs, executed, m).own[key] == own[key],
    decreases m,
{
    if m > 0 {
        lemma_collect_fees_keeps_payer(base, own, txs, executed, m - 1, key);
        let prev = collect_fees(base, own, txs, executed, m - 1);
        let next = collect_fees(base, own, txs, executed, m);
        assert(next == collect_fee(base, prev, txs[m - 1], executed[m - 1]));
        assert(executed[m - 1] is Err && executed[m - 1]->Err_0 is InstructionError && txs[m
            - 1].account_keys.len() > 0 ==> txs[m - 1].account_keys[0] != key);
    }
}

/// The results of a batch whose holders are apart: a transaction that
/// failed in an instruction has paid its fee and has a success for its
/// result, and every other has the result of its execution.
pub open spec fn results_of(executed: Seq<LockResult>) -> Seq<LockResult> {
    Seq::new(
        executed.len(),
        |i: int|
            if executed[i] is Err && executed[i]->Err_0 is InstructionError {
                Ok(())
            } else {
                executed[i]
            },
    )
}

/// The fees of those of the first `n` transactions of a batch that ran
/// or failed in an instruction, summed up to the greatest amount.
pub open spec fn fees_due(txs: Seq<TransactionView>, executed: Seq<LockResult>, n: int) -> u64
    decreases n,
{
    if n <= 0 {
        0
    } else if executed[n - 1] is Ok || executed[n - 1]->Err_0 is InstructionError {
        saturating_sum(fees_due(txs, executed, n - 1), txs[n - 1].fee)
    } else {
        fees_due(txs, executed, n - 1)
    }
}

/// Where each transaction that failed in an instruction has paid, the
/// fees collected are the fees due.
pub proof fn lemma_fees_due(txs: Seq<TransactionView>, executed: Seq<LockResult>, n: int)
    requires
        0 <= n <= executed.len(),
    ensures
        fees_of(txs, results_of(executed), n) == fees_due(txs, executed, n),
    decreases n,
{
    if n > 0 {
        lemma_fees_due(txs, executed, n - 1);
    }
}

/// Fee invariance over a batch, by outcomes: when a batch is committed in
/// which each transaction that failed in an instruction has paid, and no
/// transaction that ran or so failed names the collector, the collector
/// has the fees more of all those transactions.
pub proof fn lemma_batch_collects(
    bank: BankView,
    txs: Seq<TransactionView>,
    loaded: Seq<Loaded>,
    executed: Seq<LockResult>,
)
    requires
        executed.len() == txs.len(),
        bank.commit_results(txs, loaded, executed) == results_of(executed),
        spared(txs, results_of(executed), bank.collector_id),
    ensures
        bank.commit(txs, loaded, executed).balance(bank.collector_id) == saturating_sum(
            bank.balance(bank.collector_id),
            fees_due(txs, executed, txs.len() as int),
        ),
        bank.run(txs, loaded, executed).balance(bank.collector_id) == saturating_sum(
            bank.balance(bank.collector_id),
            fees_due(txs, executed, txs.len() as int),
        ),
{
    lemma_batch_fees(bank, txs, loaded, executed);
    lemma_fees_due(txs, executed, txs.len() as int);
}

/// Fee invariance within a batch: where the transactions that hold their
/// locks are apart, each transaction that failed in an instruction finds
/// its fee in its first account, whatever the others did, and pays it.
pub proof fn lemma_failed_instructions_pay<P: InstructionProcessor>(
    bank: BankView,
    runtime: Runtime<P>,
    txs: Seq<TransactionView>,
    held: Seq<LockResult>,
    max_age: usize,
    loaded: Seq<Loaded>,
    executed: Seq<LockResult>,
)
    requires
        bank.executed_batch(runtime, txs, held, max_age, loaded, executed),
        held.len() == txs.len(),
        forall|j: int|
            0 <= j < held.len() ==> (#[trigger] held[j]) is Ok || held[j]->Err_0
                == TransactionError::AccountInUse,
        holders_apart(txs, held),
    ensures
        bank.commit_results(txs, loaded, executed) == results_of(executed),
{
    let n = txs.len() as int;
    let base = bank.base();
    let stored = store_accounts(bank.accounts, txs, loaded, executed, n);
    let results = bank.commit_results(txs, loaded, executed);
    lemma_collect_fees_results(base, stored, txs, executed, n);
    assert forall|j: int| 0 <= j < n && !(#[trigger] executed[j] is Err && !(
    executed[j]->Err_0 is InstructionError)) implies held[j] is Ok && bank.checked(
        txs[j],
        held[j],
        max_age,
    ) is Ok by {
        assert(outcome_of(
            runtime,
            bank.tick_height,
            bank.checked(txs[j], held[j], max_age),
            bank.visible(),
            txs[j],
            loaded[j],
            executed[j],
        ));
        assert(held[j] is Ok || held[j]->Err_0 == TransactionError::AccountInUse);
        lemma_checked_errors(bank, txs[j], held[j], max_age);
        lemma_checked_errors_any(bank, txs[j], held[j], max_age);
    }
    assert forall|i: int| 0 <= i < n implies results[i] == results_of(executed)[i] by {
        if executed[i] is Err && executed[i]->Err_0 is InstructionError {
            let tx = txs[i];
            assert(held[i] is Ok && bank.checked(tx, held[i], max_age) is Ok);
            assert(load_accounts_spec(bank.visible(), tx) is Ok);
            let payer = tx.account_keys[0];
            let called = Seq::new(
                tx.account_keys.len(),
                |j: int| lookup_or_empty(bank.visible(), tx.account_keys[j]),
            );
            assert(called.len() > 0 && called[0].lamports != 0 && called[0].lamports >= tx.fee);
            assert(called[0] == lookup_or_empty(bank.visible(), payer));
            assert(tx.account_keys.contains(payer));
            assert forall|j: int| 0 <= j < n && (#[trigger] executed[j]) is Ok implies !txs[j].account_keys.contains(
                payer,
            ) by {
                assert(held[j] is Ok);
                if j < i {
                    assert(txs[j].account_keys.contains(payer) ==> !txs[i].account_keys.contains(
                        payer,
                    ));
                } else {
                    assert(txs[i].account_keys.contains(payer) ==> !txs[j].account_keys.contains(
                        payer,
                    ));
                }
            }
            lemma_store_accounts_keeps(bank.accounts, txs, loaded, executed, n, payer);
            assert forall|j: int|
                0 <= j < i && (#[trigger] executed[j]) is Err && executed[j]->Err_0 is InstructionError
                    && txs[j].account_keys.len() > 0 implies txs[j].account_keys[0] != payer by {
                assert(held[j] is Ok);
                assert(txs[j].account_keys.contains(txs[j].account_keys[0]));
                assert(txs[j].account_keys.contains(payer) ==> !txs[i].account_keys.contains(payer));
            }
            lemma_collect_fees_keeps_payer(base, stored, txs, executed, i, payer);
            let before = collect_fees(base, stored, txs, executed, i);
            let after = collect_fees(base, stored, txs, executed, i + 1);
            assert(after == collect_fee(base, before, tx, executed[i]));
            assert(lookup(base.union_prefer_right(before.own), payer) == lookup(
                bank.visible(),
                payer,
            ));
            assert(withdraw_spec(base, before.own, payer, tx.fee) is Ok);
            lemma_collect_fees_prefix(base, stored, txs, executed, i, i);
            lemma_collect_fees_prefix(base, stored, txs, executed, i + 1, n);
            assert(after.results[i] == Ok::<(), TransactionError>(()));
        }
    }
    assert(results =~= results_of(executed));
}

/// A transaction passes the checks only if it holds its locks.
proof fn lemma_checked_errors_any(
    bank: BankView,
    tx: TransactionView,
    lock_result: LockResult,
    max_age: usize,
)
    ensures
        bank.checked(tx, lock_result, max_age) is Ok ==> lock_result is Ok,
        lock_result is Err ==> bank.checked(tx, lock_result, max_age) == Err::<
            Seq<AccountView>,
            TransactionError,
        >(lock_result->Err_0),
{
}

/// Whether a batch's fees, and nothing else outside the batch, came to the
/// collector between two states of a fork: where the batch spares the
/// collector, the collector has the fees more of the transactions whose
/// result is a success; and an account that the batch spares, but for the
/// collector's, is what it was.
pub open spec fn fees_settled(
    pre: BankView,
    txs: Seq<TransactionView>,
    results: Seq<LockResult>,
    post: BankView,
) -> bool {
    &&& spared(txs, results, pre.collector_id) ==> post.balance(pre.collector_id) == saturating_sum(
        pre.balance(pre.collector_id),
        fees_of(txs, results, txs.len() as int),
    )
    &&& forall|k: Pubkey|
        spared(txs, results, k) && k != pre.collector_id ==> #[trigger] post.account(k)
            == pre.account(k)
}

/// Fee invariance over a batch: when a batch is committed, the fees of
/// the transactions whose result is a success, which are those that ran
/// and those that failed in an instruction and paid, come to the
/// collector, and no account changes that none of them names.
pub proof fn lemma_batch_fees(
    bank: BankView,
    txs: Seq<TransactionView>,
    loaded: Seq<Loaded>,
    executed: Seq<LockResult>,
)
    requires
        executed.len() == txs.len(),
    ensures
        fees_settled(
            bank,
            txs,
            bank.commit_results(txs, loaded, executed),
            bank.commit(txs, loaded, executed),
        ),
        fees_settled(
            bank,
            txs,
            bank.commit_results(txs, loaded, executed),
            bank.run(txs, loaded, executed),
        ),
{
    lemma_commit_fees(bank, txs, loaded, executed);
    let counted = BankView {
        transaction_count: (bank.transaction_count + count_ok(executed, txs.len() as int)) as u64,
        ..bank
    };
    lemma_commit_fees(counted, txs, loaded, executed);
    assert(counted.base() == bank.base());
    assert(counted.visible() == bank.visible());
}

/// The same of the commit alone.
proof fn lemma_commit_fees(
    bank: BankView,
    txs: Seq<TransactionView>,
    loaded: Seq<Loaded>,
    executed: Seq<LockResult>,
)
    requires
        executed.len() == txs.len(),
    ensures
        fees_settled(
            bank,
            txs,
            bank.commit_results(txs, loaded, executed),
            bank.commit(txs, loaded, executed),
        ),
{
    let n = txs.len() as int;
    let post = bank.commit(txs, loaded, executed);
    let stored = store_accounts(bank.accounts, txs, loaded, executed, n);
    let collected = collect_fees(bank.base(), stored, txs, executed, n);
    let results = bank.commit_results(txs, loaded, executed);
    assert(results == collected.results);
    assert(post.parent == bank.parent);
    assert(post.base() == bank.base());
    lemma_collect_fees_results(bank.base(), stored, txs, executed, n);
    assert forall|k: Pubkey| spared(txs, results, k) implies collected.own.contains_key(k)
        == bank.accounts.contains_key(k) && collected.own[k] == bank.accounts[k]
        && collected.fees == fees_of(txs, collected.results, n) by {
        assert forall|i: int| 0 <= i < txs.len() && (#[trigger] executed[i]) is Ok implies !txs[i].account_keys.contains(
            k,
        ) by {
            assert(results[i] == executed[i]);
        }
        lemma_store_accounts_keeps(bank.accounts, txs, loaded, executed, n, k);
        lemma_collect_fees_keeps(bank.base(), stored, txs, executed, n, k);
    }
    assert forall|k: Pubkey| spared(txs, results, k) && k != bank.collector_id implies #[trigger] post.account(
        k,
    ) == bank.account(k) by {
        assert(collected.own.contains_key(k) == bank.accounts.contains_key(k));
    }
    if spared(txs, results, bank.collector_id) {
        let k = bank.collector_id;
        assert(collected.own.contains_key(k) == bank.accounts.contains_key(k));
        assert(lookup_or_empty(bank.base().union_prefer_right(collected.own), k) == lookup_or_empty(
            bank.visible(),
            k,
        ));
    }
}

/// Whether a transaction's fee, and nothing else, went from its first
/// account to the collector between two states of a fork: the payer has
/// the fee less, the collector the fee more, and every other account is
/// what it was.
pub open spec fn fee_paid(pre: BankView, tx: TransactionView, post: BankView) -> bool {
    let payer = tx.account_keys.first();
    &&& tx.account_keys.len() > 0
    &&& post.balance(payer) == pre.balance(payer) - tx.fee
    &&& post.balance(pre.collector_id) == pre.balance(pre.collector_id) + tx.fee
    &&& forall|k: Pubkey|
        k != payer && k != pre.collector_id ==> #[trigger] post.account(k) == pre.account(k)
}

/// The checks before execution never fail with the error of an instruction.
pub proof fn lemma_checked_errors(
    bank: BankView,
    tx: TransactionView,
    lock_result: LockResult,
    max_age: usize,
)
    requires
        lock_result is Ok || lock_result->Err_0 == TransactionError::AccountInUse,
    ensures
        bank.checked(tx, lock_result, max_age) is Err ==> !(bank.checked(
            tx,
            lock_result,
            max_age,
        )->Err_0 is InstructionError),
{
    lemma_loaders_errors(bank.visible(), tx, tx.program_ids.len() as int);
}

/// Fee invariance at a single transaction: when processing a transaction
/// whose first signature had no status on the fork gives the error of an
/// instruction, the fee went from the transaction's first account to the
/// collector, and no other account shows another value: what the
/// instructions wrote is gone. The two accounts must differ, and the
/// collector's balance must have room for the fee.
pub proof fn lemma_failed_instruction_pays<P: InstructionProcessor>(
    bank: BankView,
    runtime: Runtime<P>,
    tx: TransactionView,
    post: BankView,
    index: u8,
    cause: crate::transaction::InstructionError,
)
    requires
        bank.status_cache.wf(),
        bank.processes_one(
            runtime,
            tx,
            post,
            Err(TransactionError::InstructionError(index, cause)),
        ),
        tx.signatures.len() > 0 ==> bank.signature_status(tx.signatures[0]) is None,
        tx.account_keys.len() > 0 ==> tx.account_keys[0] != bank.collector_id,
        bank.balance(bank.collector_id) + tx.fee <= u64::MAX,
    ensures
        fee_paid(bank, tx, post),
{
    let result = Err::<(), TransactionError>(TransactionError::InstructionError(index, cause));
    let txs = seq![tx];
    let locked = bank.with_locks(locks_after(bank.locks, txs, 1));
    let held = lock_results(bank.locks, txs);
    let (after, results) = choose|after: BankView, results: Seq<LockResult>| #[trigger]
        locked.processes(runtime, txs, held, MAX_RECENT_BLOCKHASHES, after, results) && post
            == after.with_locks(bank.locks) && results.len() == 1 && result == (if results[0] is Err
            || tx.signatures.len() == 0 {
            results[0]
        } else {
            after.signature_status(tx.signatures[0])->Some_0
        });
    let (loaded, executed) = choose|loaded: Seq<Loaded>, executed: Seq<LockResult>|
        {
            &&& #[trigger] locked.executed_batch(
                runtime,
                txs,
                held,
                MAX_RECENT_BLOCKHASHES,
                loaded,
                executed,
            )
            &&& after == locked.run(txs, loaded, executed)
            &&& results == locked.commit_results(txs, loaded, executed)
        };
    let checked = locked.checked(tx, held[0], MAX_RECENT_BLOCKHASHES);
    assert(txs[0] == tx);
    assert(outcome_of(
        runtime,
        locked.tick_height,
        checked,
        locked.visible(),
        tx,
        loaded[0],
        executed[0],
    ));
    lemma_checked_errors(locked, tx, held[0], MAX_RECENT_BLOCKHASHES);
    assert(executed[0] is Err && executed[0]->Err_0 is InstructionError ==> checked is Ok);
    assert(executed =~= seq![executed[0]]);
    assert(loaded =~= seq![loaded[0]]);
    assert(locked.visible() == bank.visible());
    lemma_failed_instruction_pays_once(locked, tx, held[0], loaded[0], executed[0], index, cause);
    assert(after == locked.run(seq![tx], seq![loaded[0]], seq![executed[0]]));
    assert(fee_paid(locked, tx, after));
    assert(post.visible() == after.visible());
    assert forall|k: Pubkey|
        k != tx.account_keys.first() && k != bank.collector_id implies #[trigger] post.account(k)
        == bank.account(k) by {
        assert(after.account(k) == locked.account(k));
    }
}

/// The same for the batch of one, with its locks held.
proof fn lemma_failed_instruction_pays_once(
    bank: BankView,
    tx: TransactionView,
    lock_result: LockResult,
    loaded: Loaded,
    executed: LockResult,
    index: u8,
    cause: crate::transaction::InstructionError,
)
    requires
        bank.status_cache.wf(),
        executed is Err && executed->Err_0 is InstructionError ==> bank.checked(
            tx,
            lock_result,
            MAX_RECENT_BLOCKHASHES,
        ) is Ok,
        tx.signatures.len() > 0 ==> bank.signature_status(tx.signatures[0]) is None,
        tx.account_keys.len() > 0 ==> tx.account_keys[0] != bank.collector_id,
        bank.balance(bank.collector_id) + tx.fee <= u64::MAX,
        ({
            let after = bank.run(seq![tx], seq![loaded], seq![executed]);
            let results = bank.commit_results(seq![tx], seq![loaded], seq![executed]);
            Err::<(), TransactionError>(TransactionError::InstructionError(index, cause)) == (
            if results[0] is Err || tx.signatures.len() == 0 {
                results[0]
            } else {
                after.signature_status(tx.signatures[0])->Some_0
            })
        }),
    ensures
        fee_paid(bank, tx, bank.run(seq![tx], seq![loaded], seq![executed])),
{
    let after = bank.run(seq![tx], seq![loaded], seq![executed]);
    let results = bank.commit_results(seq![tx], seq![loaded], seq![executed]);
    lemma_batch_of_one(bank, tx, loaded, executed);
    match executed {
        Ok(_) => {
            let sig = tx.signatures[0];
            bank.status_cache.lemma_add(sig);
            assert(bank.status_cache.active.status(sig) is None);
            assert(after.status_cache.get_signature_status(sig) == Some(
                Ok::<(), TransactionError>(()),
            ));
            assert(after.signature_status(sig) == Some(Ok::<(), TransactionError>(())));
            assert(false);
        },
        Err(e) => {
            match e {
                TransactionError::InstructionError(k, c) => {
                    lemma_fee_invariance(bank, tx, lock_result, MAX_RECENT_BLOCKHASHES, loaded, k, c);
                },
                _ => {
                    assert(results[0] == Err::<(), TransactionError>(e));
                    assert(false);
                },
            }
        },
    }
}

/// Fee invariance at a batch of one: when the transaction's first
/// signature had no status on the fork and has the error of an instruction
/// for its status afterwards, the fee went from the transaction's first
/// account to the collector, and no other account shows another value.
pub proof fn lemma_failed_status_pays(
    bank: BankView,
    tx: TransactionView,
    lock_result: LockResult,
    loaded: Loaded,
    executed: LockResult,
)
    requires
        bank.status_cache.wf(),
        executed is Err && executed->Err_0 is InstructionError ==> bank.checked(
            tx,
            lock_result,
            MAX_RECENT_BLOCKHASHES,
        ) is Ok,
        tx.signatures.len() > 0,
        bank.signature_status(tx.signatures[0]) is None,
        bank.run(seq![tx], seq![loaded], seq![executed]).signature_status(tx.signatures[0])
            matches Some(Err(e)) && e is InstructionError,
        tx.account_keys.len() > 0 ==> tx.account_keys[0] != bank.collector_id,
        bank.balance(bank.collector_id) + tx.fee <= u64::MAX,
    ensures
        fee_paid(bank, tx, bank.run(seq![tx], seq![loaded], seq![executed])),
{
    let after = bank.run(seq![tx], seq![loaded], seq![executed]);
    let sig = tx.signatures[0];
    lemma_batch_of_one(bank, tx, loaded, executed);
    assert(after.parent == bank.parent);
    assert(bank.status_cache.active.status(sig) is None);
    match executed {
        Ok(_) => {
            bank.status_cache.lemma_add(sig);
            assert(after.status_cache.get_signature_status(sig) == Some(
                Ok::<(), TransactionError>(()),
            ));
            assert(false);
        },
        Err(e) => {
            match e {
                TransactionError::InstructionError(k, c) => {
                    lemma_fee_invariance(bank, tx, lock_result, MAX_RECENT_BLOCKHASHES, loaded, k, c);
                },
                _ => {
                    if is_retryable(e) {
                        assert(after.status_cache == bank.status_cache);
                        assert(false);
                    } else {
                        bank.status_cache.lemma_add(sig);
                        let added = bank.status_cache.add(sig);
                        added.active.lemma_save_failure(sig, e);
                        assert(after.status_cache == added.save_failure_status(sig, e));
                        assert(after.status_cache.active.status(sig) == Some(
                            Err::<(), TransactionError>(e),
                        ));
                        assert(false);
                    }
                },
            }
        },
    }
}

/// What a batch of one transaction records and answers: the outcome is
/// recorded as `record_status` says; a transaction that ran has a success
/// for its result, and one that failed otherwise than in an instruction
/// has its error.
proof fn lemma_batch_of_one(bank: BankView, tx: TransactionView, loaded: Loaded, executed: LockResult)
    ensures
        bank.run(seq![tx], seq![loaded], seq![executed]).status_cache == record_status(
            bank.status_cache,
            tx,
            executed,
        ),
        bank.commit_results(seq![tx], seq![loaded], seq![executed]).len() == 1,
        executed is Ok ==> bank.commit_results(seq![tx], seq![loaded], seq![executed])[0] is Ok,
        executed is Err && !(executed->Err_0 is InstructionError) ==> bank.commit_results(
            seq![tx],
            seq![loaded],
            seq![executed],
        )[0] == executed,
{
    let txs = seq![tx];
    let loadeds = seq![loaded];
    let outcomes = seq![executed];
    reveal_with_fuel(store_accounts, 2);
    reveal_with_fuel(collect_fees, 2);
    reveal_with_fuel(record_statuses, 2);
    let stored = store_accounts(bank.accounts, txs, loadeds, outcomes, 1);
    let start = FeeState { own: stored, fees: 0, results: Seq::empty() };
    assert(collect_fees(bank.base(), stored, txs, outcomes, 0) == start);
    let collected = collect_fees(bank.base(), stored, txs, outcomes, 1);
    assert(collected == collect_fee(bank.base(), start, tx, outcomes[0]));
    let counted = BankView {
        transaction_count: (bank.transaction_count + count_ok(outcomes, 1)) as u64,
        ..bank
    };
    assert(counted.base() == bank.base());
    assert(bank.commit_results(txs, loadeds, outcomes) == collected.results);
}

/// A loader chain fails for a missing account or for its depth only.
pub proof fn lemma_loader_chain_errors(
    visible: Map<Pubkey, AccountView>,
    program_id: Pubkey,
    depth: nat,
)
    ensures
        loader_chain(visible, program_id, depth) is Err ==> loader_chain(
            visible,
            program_id,
            depth,
        )->Err_0 == TransactionError::AccountNotFound || loader_chain(
            visible,
            program_id,
            depth,
        )->Err_0 == TransactionError::CallChainTooDeep,
    decreases MAX_LOADER_DEPTH - depth,
{
    if program_id != native_loader::id_spec() && depth < MAX_LOADER_DEPTH {
        match lookup(visible, program_id) {
            None => {},
            Some(program) => {
                if program.executable && program.owner != Pubkey::zero() {
                    lemma_loader_chain_errors(visible, program.owner, depth + 1);
                }
            },
        }
    }
}

/// The loaders of a transaction fail for a missing account or a chain's
/// depth only.
pub proof fn lemma_loaders_errors(visible: Map<Pubkey, AccountView>, tx: TransactionView, n: int)
    ensures
        loaders_error(visible, tx, n) is Some ==> loaders_error(visible, tx, n)->Some_0
            == TransactionError::AccountNotFound || loaders_error(visible, tx, n)->Some_0
            == TransactionError::CallChainTooDeep,
    decreases n,
{
    if n > 0 {
        lemma_loaders_errors(visible, tx, n - 1);
        lemma_loader_chain_errors(visible, tx.program_ids[n - 1], 0);
    }
}

/// A transaction that holds its locks does not fail with `AccountInUse`
/// in the checks, and one that does not hold them fails with it.
pub proof fn lemma_checked_in_use(
    bank: BankView,
    tx: TransactionView,
    lock_result: LockResult,
    max_age: usize,
)
    ensures
        lock_result is Ok ==> bank.checked(tx, lock_result, max_age) != Err::<
            Seq<AccountView>,
            TransactionError,
        >(TransactionError::AccountInUse),
        lock_result is Err ==> bank.checked(tx, lock_result, max_age) == Err::<
            Seq<AccountView>,
            TransactionError,
        >(lock_result->Err_0),
{
    lemma_loaders_errors(bank.visible(), tx, tx.program_ids.len() as int);
}

/// A byte string, with zero bytes behind it up to a given length.
pub open spec fn padded(bytes: Seq<u8>, size: nat) -> Seq<u8> {
    if bytes.len() >= size {
        bytes
    } else {
        bytes + Seq::new((size - bytes.len()) as nat, |i: int| 0u8)
    }
}

/// The vote account of the bootstrap leader: it holds the leader's stake,
/// which is all its lamports but one, and one vote for slot 0.
pub open spec fn genesis_vote_account(g: GenesisBlockView) -> AccountView {
    AccountView {
        lamports: (g.bootstrap_leader_lamports - 1) as u64,
        data: padded(
            VoteState::serialize_spec(
                VoteStateView {
                    delegate_id: g.bootstrap_leader_id,
                    credits: 0,
                    votes: seq![Lockout { slot: 0, confirmation_count: 1 }],
                },
            ),
            VOTE_STATE_SIZE as nat,
        ),
        owner: crate::vote_state::id_spec(),
        executable: false,
    }
}

/// A map of accounts with the accounts of the first `n` of a list of
/// native programs installed.
pub open spec fn native_programs_installed(
    accounts: Map<Pubkey, AccountView>,
    programs: Seq<(Seq<u8>, Pubkey)>,
    n: int,
) -> Map<Pubkey, AccountView>
    decreases n,
{
    if n <= 0 {
        accounts
    } else {
        native_programs_installed(accounts, programs, n - 1).insert(
            programs[n - 1].1,
            native_loader::program_account_spec(programs[n - 1].0),
        )
    }
}

/// The accounts of a ledger at genesis: the mint holds all lamports but
/// the bootstrap leader's, the leader holds one, its vote account the
/// rest; then come the system program, the bytecode loader and the vote
/// program, and the native programs that the block names.
pub open spec fn genesis_accounts(g: GenesisBlockView) -> Map<Pubkey, AccountView> {
    let none = Map::<Pubkey, AccountView>::empty();
    let minted = deposit_spec(
        none,
        none,
        g.mint_id,
        (g.lamports - g.bootstrap_leader_lamports) as u64,
    );
    let led = deposit_spec(none, minted, g.bootstrap_leader_id, 1);
    let staked = led.insert(g.bootstrap_leader_vote_account_id, genesis_vote_account(g));
    let programs = staked.insert(
        crate::system_program::id_spec(),
        native_loader::program_account_spec("solana_system_program".spec_bytes()),
    ).insert(
        crate::bpf_loader::id_spec(),
        native_loader::program_account_spec("solana_bpf_loader".spec_bytes()),
    ).insert(
        crate::vote_state::id_spec(),
        native_loader::program_account_spec("solana_vote_program".spec_bytes()),
    );
    native_programs_installed(programs, g.native_programs, g.native_programs.len() as int)
}

/// The bank of a genesis block, made at the wall time `now`: a root at
/// slot 0 that holds the genesis accounts and the block's hash as its one
/// blockhash; the bootstrap leader collects the fees; the vote accounts
/// of genesis are in force for every epoch up to the one that slot 0 fixes.
pub open spec fn genesis_bank(g: GenesisBlockView, now: u64) -> BankView {
    let schedule = EpochSchedule::new_spec(g.slots_per_epoch, g.stakers_slot_offset, g.epoch_warmup);
    BankView {
        accounts: genesis_accounts(g),
        locks: LocksView::empty(),
        transaction_count: 0,
        status_cache: StatusCacheView::empty(crate::hash::Hash::zero()),
        blockhash_queue: BlockhashQueue::empty_spec(MAX_RECENT_BLOCKHASHES).genesis(
            crate::hash::hash_spec(g.bytes()),
            now,
        ),
        parent: None,
        hash: None,
        parent_hash: crate::hash::Hash::zero(),
        tick_height: 0,
        ticks_per_slot: g.ticks_per_slot,
        slot: 0,
        collector_id: g.bootstrap_leader_id,
        epoch_schedule: schedule,
        epoch_vote_accounts: Map::new(
            |e: u64| e <= schedule.stakers_epoch_spec(0),
            |e: u64| accounts_of_owner(genesis_accounts(g), crate::vote_state::id_spec()),
        ),
        is_delta: false,
        programs: Seq::empty(),
    }
}

/// The bank of a slot above a frozen bank: nothing written, nothing
/// locked, no signature seen; the parent's count, blockhashes, ticks and
/// schedule; and the parent's vote accounts by epoch, with the vote
/// accounts that the parent shows for the epoch that the slot fixes, if
/// that epoch had none yet.
pub open spec fn child_bank(parent: BankView, collector_id: Pubkey, slot: u64) -> BankView {
    let epoch = parent.epoch_schedule.stakers_epoch_spec(slot) as u64;
    BankView {
        accounts: Map::empty(),
        locks: LocksView::empty(),
        transaction_count: parent.transaction_count,
        status_cache: StatusCacheView::empty(crate::hash::Hash::zero()),
        blockhash_queue: parent.blockhash_queue,
        parent: Some(Box::new(parent)),
        hash: None,
        parent_hash: match parent.hash {
            Some(h) => h,
            None => crate::hash::Hash::zero(),
        },
        tick_height: parent.tick_height,
        ticks_per_slot: parent.ticks_per_slot,
        slot,
        collector_id,
        epoch_schedule: parent.epoch_schedule,
        epoch_vote_accounts: if parent.epoch_vote_accounts.contains_key(epoch) {
            parent.epoch_vote_accounts
        } else {
            parent.epoch_vote_accounts.insert(
                epoch,
                accounts_of_owner(parent.visible(), crate::vote_state::id_spec()),
            )
        },
        is_delta: false,
        programs: Seq::empty(),
    }
}

} // verus!
