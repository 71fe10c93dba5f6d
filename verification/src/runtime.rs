//! The runtime: a table from program addresses to instruction handlers,
//! and the execution of a transaction's instructions against the accounts
//! loaded for it. What a handler did to the accounts is checked after it
//! returns, so the rules below hold of every handler.

use vstd::prelude::*;
use crate::account::{account_views, Account, AccountView, KeyedAccount};
use crate::instruction::place_of;
use crate::pubkey::Pubkey;
use crate::system_program;
use crate::system_program::{first_signs, keyed_views, same_keys};
use crate::transaction::{InstructionError, Transaction, TransactionError, TransactionView};

verus! {

/// The handler of the instructions of the programs that a bank's user
/// registers. It is given the accounts that the instruction names, in the
/// instruction's order, behind the accounts of the program's loaders but
/// the first; it may change the accounts, and says whether the instruction
/// succeeded. The runtime relies on nothing that a handler does: it checks
/// the accounts when the handler has returned.
pub trait InstructionProcessor {
    /// What the handler can make of the accounts it is given: whether it
    /// can leave `after` and answer `result` when it is given `before`. A
    /// handler that says nothing of itself can do anything.
    open spec fn effect(
        &self,
        program_id: Pubkey,
        before: Seq<KeyedAccount>,
        data: Seq<u8>,
        tick_height: u64,
        after: Seq<KeyedAccount>,
        result: Result<(), InstructionError>,
    ) -> bool {
        true
    }

    fn process_instruction(
        &self,
        program_id: &Pubkey,
        keyed_accounts: &mut Vec<KeyedAccount>,
        data: &[u8],
        tick_height: u64,
    ) -> (r: Result<(), InstructionError>)
        ensures
            self.effect(
                *program_id,
                old(keyed_accounts)@,
                data@,
                tick_height,
                final(keyed_accounts)@,
                r,
            ),
    ;
}

/// A handler that runs system instructions, for a runtime whose user
/// registers no program of their own.
pub struct SystemProcessor {}

impl InstructionProcessor for SystemProcessor {
    open spec fn effect(
        &self,
        program_id: Pubkey,
        before: Seq<KeyedAccount>,
        data: Seq<u8>,
        tick_height: u64,
        after: Seq<KeyedAccount>,
        result: Result<(), InstructionError>,
    ) -> bool {
        &&& system_program::same_keys(before, after)
        &&& match system_program::outcome(first_signs(before), keyed_views(before), data) {
            Ok(post) => result is Ok && keyed_views(after) == post,
            Err(e) => result == Err::<(), InstructionError>(e) && keyed_views(after)
                == keyed_views(before),
        }
    }

    /// Runs one system instruction, whatever the program's address and the
    /// tick height: the accounts become what `system_program::outcome`
    /// makes of them, or stay as they were with the error that it gives.
    fn process_instruction(
        &self,
        program_id: &Pubkey,
        keyed_accounts: &mut Vec<KeyedAccount>,
        data: &[u8],
        tick_height: u64,
    ) -> (r: Result<(), InstructionError>)
        ensures
            final(keyed_accounts).len() == old(keyed_accounts).len(),
            system_program::same_keys(old(keyed_accounts)@, final(keyed_accounts)@),
            match system_program::outcome(
                first_signs(old(keyed_accounts)@),
                keyed_views(old(keyed_accounts)@),
                data@,
            ) {
                Ok(post) => r is Ok && keyed_views(final(keyed_accounts)@) == post,
                Err(e) => r == Err::<(), InstructionError>(e) && keyed_views(
                    final(keyed_accounts)@,
                ) == keyed_views(old(keyed_accounts)@),
            },
    {
        system_program::process_instruction(keyed_accounts, data)
    }
}

/// The program's loaders and the accounts of the instruction, one chain of
/// loaders for each entry of a transaction's `program_ids`.
pub type InstructionLoaders = Vec<Vec<(Pubkey, Account)>>;

/// The sum of the lamports of a list of accounts.
pub open spec fn total_lamports(accounts: Seq<AccountView>) -> int
    decreases accounts.len(),
{
    if accounts.len() == 0 {
        0
    } else {
        total_lamports(accounts.drop_last()) + accounts.last().lamports
    }
}

/// Changing one account changes the sum by the difference.
pub proof fn lemma_total_update(accounts: Seq<AccountView>, i: int, a: AccountView)
    requires
        0 <= i < accounts.len(),
    ensures
        total_lamports(accounts.update(i, a)) == total_lamports(accounts) - accounts[i].lamports
            + a.lamports,
    decreases accounts.len(),
{
    let next = accounts.update(i, a);
    if i == accounts.len() - 1 {
        assert(next.drop_last() =~= accounts.drop_last());
    } else {
        lemma_total_update(accounts.drop_last(), i, a);
        assert(next.drop_last() =~= accounts.drop_last().update(i, a));
    }
}

/// What a program may do to one account. A program that does not own the
/// account may not change its owner, spend its lamports, or change its
/// data or its executable flag. No program but the system program changes
/// the size of an account's data, and the data of an executable account
/// stays as it is. The owner is the one that the account has when the
/// instruction starts.
pub open spec fn verify_account(program_id: Pubkey, pre: AccountView, post: AccountView) -> Result<
    (),
    InstructionError,
> {
    let foreign = program_id != pre.owner;
    if foreign && pre.owner != post.owner {
        Err(InstructionError::ModifiedProgramId)
    } else if foreign && pre.lamports > post.lamports {
        Err(InstructionError::ExternalAccountLamportSpend)
    } else if foreign && pre.data != post.data {
        Err(InstructionError::ExternalAccountDataModified)
    } else if foreign && pre.executable != post.executable {
        Err(InstructionError::ExecutableModified)
    } else if program_id != system_program::id_spec() && pre.data.len() != post.data.len() {
        Err(InstructionError::AccountDataSizeChanged)
    } else if pre.executable && pre.data != post.data {
        Err(InstructionError::ExecutableDataModified)
    } else {
        Ok(())
    }
}

fn check_account(program_id: &Pubkey, pre: &Account, post: &Account) -> (r: Result<
    (),
    InstructionError,
>)
    ensures
        r == verify_account(*program_id, pre@, post@),
{
    let foreign = *program_id != pre.owner;
    let same_data = crate::account::same_bytes(&pre.data, &post.data);
    if foreign && pre.owner != post.owner {
        Err(InstructionError::ModifiedProgramId)
    } else if foreign && pre.lamports > post.lamports {
        Err(InstructionError::ExternalAccountLamportSpend)
    } else if foreign && !same_data {
        Err(InstructionError::ExternalAccountDataModified)
    } else if foreign && pre.executable != post.executable {
        Err(InstructionError::ExecutableModified)
    } else if !system_program::check_id(program_id) && pre.data.len() != post.data.len() {
        Err(InstructionError::AccountDataSizeChanged)
    } else if pre.executable && !same_data {
        Err(InstructionError::ExecutableDataModified)
    } else {
        Ok(())
    }
}

/// The accounts that an instruction names are in range, and none twice.
pub open spec fn valid_indices(indices: Seq<u8>, n: int) -> bool {
    &&& forall|j: int| 0 <= j < indices.len() ==> (#[trigger] indices[j]) < n
    &&& indices.no_duplicates()
}

/// What is wrong with the list of accounts that an instruction names, if
/// anything: an index out of range, or one account named twice.
pub open spec fn indices_error(indices: Seq<u8>, n: int) -> Option<InstructionError> {
    if exists|j: int| 0 <= j < indices.len() && (#[trigger] indices[j]) >= n {
        Some(InstructionError::AccountIndexOutOfRange)
    } else if !indices.no_duplicates() {
        Some(InstructionError::DuplicateAccountIndex)
    } else {
        None
    }
}

/// Whether an instruction's list of account indices names account `k`.
pub open spec fn names(indices: Seq<u8>, k: int) -> bool {
    exists|j: int| 0 <= j < indices.len() && (#[trigger] indices[j]) as int == k
}

/// What holds of the accounts after an instruction that succeeded: those
/// that the instruction does not name are as they were, each one that it
/// names changed as the program may change it, and the sum of all lamports
/// is what it was.
pub open spec fn instruction_effect(
    program_id: Pubkey,
    indices: Seq<u8>,
    pre: Seq<AccountView>,
    post: Seq<AccountView>,
) -> bool {
    &&& post.len() == pre.len()
    &&& valid_indices(indices, pre.len() as int)
    &&& forall|k: int| 0 <= k < pre.len() && !names(indices, k) ==> #[trigger] post[k] == pre[k]
    &&& forall|j: int|
        0 <= j < indices.len() ==> verify_account(
            program_id,
            pre[(#[trigger] indices[j]) as int],
            post[indices[j] as int],
        ) is Ok
    &&& total_lamports(post) == total_lamports(pre)
}

/// Whether instruction `k` of a transaction, run on the accounts `pre`, can
/// have left the accounts `post` within the rules.
pub open spec fn step_effect(
    tx: TransactionView,
    k: int,
    pre: Seq<AccountView>,
    post: Seq<AccountView>,
) -> bool {
    let ix = tx.instructions[k];
    ix.program_ids_index < tx.program_ids.len() && instruction_effect(
        tx.program_ids[ix.program_ids_index as int],
        ix.accounts,
        pre,
        post,
    )
}

/// Whether `handed` is what the handler of an instruction is given: the
/// accounts of `handed_accounts`, the loaders' under their addresses and
/// unsigned, those of the instruction under the transaction's addresses,
/// each signed if it is one of the transaction's signers.
pub open spec fn is_handed(
    tx: TransactionView,
    chain: Seq<(Pubkey, AccountView)>,
    indices: Seq<u8>,
    accounts: Seq<AccountView>,
    handed: Seq<KeyedAccount>,
) -> bool {
    let offset = loader_offset(chain);
    &&& keyed_views(handed) == handed_accounts(chain, indices, accounts)
    &&& forall|t: int|
        0 <= t < offset && t < handed.len() ==> (#[trigger] handed[t]).key == chain[t + 1].0
            && !handed[t].is_signer
    &&& forall|t: int|
        offset <= t < handed.len() ==> (#[trigger] handed[t]).key == tx.account_keys[indices[t
            - offset] as int] && handed[t].is_signer == (indices[t - offset]
            < tx.signatures.len())
}

/// Whether instruction `k` of a transaction, run on the accounts `pre`, can
/// give `result` and leave the accounts `post`.
/// - Where the instruction cannot be handed to a handler, it fails with
///   the error of `instruction_precheck`, and the accounts stay.
/// - A system instruction does what `system_instruction` says.
/// - Any other instruction goes to the handler that was registered first
///   for its program: the handler is given what `is_handed` says, and what
///   it leaves and answers, which is one of the things that its `effect`
///   allows, is judged as `finished` says.
#[verifier::opaque]
pub open spec fn step<P: InstructionProcessor>(
    runtime: Runtime<P>,
    tx: TransactionView,
    loaders: Seq<Seq<(Pubkey, AccountView)>>,
    tick_height: u64,
    k: int,
    pre: Seq<AccountView>,
    post: Seq<AccountView>,
    result: Result<(), InstructionError>,
) -> bool {
    match instruction_precheck(runtime.ids_spec(), tx, k, loaders, pre.len() as int) {
        Some(e) => result == Err::<(), InstructionError>(e) && post == pre,
        None => {
            let ix = tx.instructions[k];
            let program_id = tx.program_ids[ix.program_ids_index as int];
            let chain = loaders[ix.program_ids_index as int];
            if program_id == system_program::id_spec() {
                (result, post) == system_instruction(tx, k, loaders, pre)
            } else {
                exists|
                    handed: Seq<KeyedAccount>,
                    back: Seq<KeyedAccount>,
                    outcome: Result<(), InstructionError>,
                | #[trigger]
                    runtime.handler(program_id).effect(
                        program_id,
                        handed,
                        ix.data,
                        tick_height,
                        back,
                        outcome,
                    ) && is_handed(tx, chain, ix.accounts, pre, handed) && (result, post)
                        == finished(
                        program_id,
                        ix.accounts,
                        pre,
                        loader_offset(chain),
                        keyed_views(back),
                        outcome,
                    )
            }
        },
    }
}

/// Whether each of the first `k` instructions of a transaction can be
/// handed to a handler.
pub open spec fn prechecks_pass(
    ids: Seq<Pubkey>,
    tx: TransactionView,
    loaders: Seq<Seq<(Pubkey, AccountView)>>,
    n_accounts: int,
    k: int,
) -> bool {
    forall|j: int|
        0 <= j < k ==> (#[trigger] instruction_precheck(ids, tx, j, loaders, n_accounts)) is None
}

/// Whether `states` can be the accounts of a transaction before its first
/// instruction and after each of its first instructions, as many as there
/// are states but one, each of which succeeded.
pub open spec fn is_trace<P: InstructionProcessor>(
    runtime: Runtime<P>,
    tx: TransactionView,
    loaders: Seq<Seq<(Pubkey, AccountView)>>,
    tick_height: u64,
    states: Seq<Seq<AccountView>>,
) -> bool {
    &&& 1 <= states.len() <= tx.instructions.len() + 1
    &&& forall|k: int|
        0 <= k < states.len() - 1 ==> step_effect(tx, k, #[trigger] states[k], states[k + 1])
            && step(runtime, tx, loaders, tick_height, k, states[k], states[k + 1], Ok(()))
}

/// Whether a transaction that ran on the accounts `pre` can have left the
/// accounts `post`: each of its instructions could be handed to a handler,
/// succeeded, and had the effect that `step` says, within the rules.
pub open spec fn ran<P: InstructionProcessor>(
    runtime: Runtime<P>,
    tx: TransactionView,
    loaders: Seq<Seq<(Pubkey, AccountView)>>,
    tick_height: u64,
    pre: Seq<AccountView>,
    post: Seq<AccountView>,
) -> bool {
    &&& prechecks_pass(
        runtime.ids_spec(),
        tx,
        loaders,
        pre.len() as int,
        tx.instructions.len() as int,
    )
    &&& exists|states: Seq<Seq<AccountView>>| #[trigger]
        is_trace(runtime, tx, loaders, tick_height, states) && states.len()
            == tx.instructions.len() + 1 && states[0] == pre && states.last() == post
}

/// Whether a transaction that failed with the given instruction index and
/// cause, on the accounts `pre`, can have left the accounts `post`. The
/// instructions before the one that failed could be handed to a handler
/// and succeeded as `step` says; the one that failed gave the cause as
/// `step` says, which is the error of `instruction_precheck` where that
/// gives one, and left the accounts as it found them.
pub open spec fn stopped<P: InstructionProcessor>(
    runtime: Runtime<P>,
    tx: TransactionView,
    loaders: Seq<Seq<(Pubkey, AccountView)>>,
    tick_height: u64,
    pre: Seq<AccountView>,
    post: Seq<AccountView>,
    index: u8,
    cause: InstructionError,
) -> bool {
    exists|states: Seq<Seq<AccountView>>| #[trigger]
        is_trace(runtime, tx, loaders, tick_height, states) && {
            let k = states.len() - 1;
            &&& k < tx.instructions.len()
            &&& index == error_index(k)
            &&& states[0] == pre
            &&& states.last() == post
            &&& prechecks_pass(runtime.ids_spec(), tx, loaders, pre.len() as int, k)
            &&& instruction_precheck(runtime.ids_spec(), tx, k, loaders, pre.len() as int)
                matches Some(e) ==> cause == e
            &&& step(runtime, tx, loaders, tick_height, k, post, post, Err(cause))
        }
}

/// The sum of the lamports of the first `n` accounts that an instruction names.
pub open spec fn named_lamports(accounts: Seq<AccountView>, indices: Seq<u8>, n: int) -> int
    decreases n,
{
    if n <= 0 {
        0
    } else {
        named_lamports(accounts, indices, n - 1) + accounts[indices[n - 1] as int].lamports
    }
}

/// The sum of the lamports of `n` accounts from place `from` on.
pub open spec fn handed_lamports(handed: Seq<AccountView>, from: int, n: int) -> int
    decreases n,
{
    if n <= 0 {
        0
    } else {
        handed_lamports(handed, from, n - 1) + handed[from + n - 1].lamports
    }
}

/// The loader chains of a transaction's programs, as values.
pub open spec fn chain_views(chain: Seq<(Pubkey, Account)>) -> Seq<(Pubkey, AccountView)> {
    chain.map_values(|c: (Pubkey, Account)| (c.0, c.1@))
}

pub open spec fn loaders_views(loaders: Seq<Vec<(Pubkey, Account)>>) -> Seq<
    Seq<(Pubkey, AccountView)>,
> {
    loaders.map_values(|c: Vec<(Pubkey, Account)>| chain_views(c@))
}

/// The number of loader accounts that a handler is given: all of the
/// program's chain but the first.
pub open spec fn loader_offset(chain: Seq<(Pubkey, AccountView)>) -> int {
    if chain.len() == 0 {
        0
    } else {
        chain.len() - 1
    }
}

/// The accounts that a handler is given: those of the program's loaders
/// but the first, then those that the instruction names, in its order.
pub open spec fn handed_accounts(
    chain: Seq<(Pubkey, AccountView)>,
    indices: Seq<u8>,
    accounts: Seq<AccountView>,
) -> Seq<AccountView> {
    let offset = loader_offset(chain);
    Seq::new(
        (offset + indices.len()) as nat,
        |t: int|
            if t < offset {
                chain[t + 1].1
            } else {
                accounts[indices[t - offset] as int]
            },
    )
}

/// Whether the first account that a handler is given signed the
/// transaction: the signers are the first accounts of the transaction, one
/// for each signature, and a loader's account never signs.
pub open spec fn first_handed_signs(
    tx: TransactionView,
    chain: Seq<(Pubkey, AccountView)>,
    indices: Seq<u8>,
) -> bool {
    loader_offset(chain) == 0 && indices.len() > 0 && indices[0] < tx.signatures.len()
}

/// Why an instruction cannot be handed to its handler, if it cannot: its
/// program is not among the transaction's programs or has no loaders, the
/// transaction has fewer addresses than accounts, the accounts that the
/// instruction names are out of range or named twice, the program has no
/// handler, or there are more accounts than can be counted.
pub open spec fn instruction_precheck(
    ids: Seq<Pubkey>,
    tx: TransactionView,
    i: int,
    loaders: Seq<Seq<(Pubkey, AccountView)>>,
    n_accounts: int,
) -> Option<InstructionError> {
    let ix = tx.instructions[i];
    if ix.program_ids_index >= tx.program_ids.len() || ix.program_ids_index >= loaders.len() {
        Some(InstructionError::UnsupportedProgramId)
    } else if n_accounts > tx.account_keys.len() {
        Some(InstructionError::NotEnoughAccountKeys)
    } else if indices_error(ix.accounts, n_accounts) is Some {
        indices_error(ix.accounts, n_accounts)
    } else {
        let program_id = tx.program_ids[ix.program_ids_index as int];
        let chain = loaders[ix.program_ids_index as int];
        if program_id != system_program::id_spec() && !ids.contains(program_id) {
            Some(InstructionError::UnsupportedProgramId)
        } else if loader_offset(chain) + ix.accounts.len() > usize::MAX {
            Some(InstructionError::GenericError)
        } else {
            None
        }
    }
}

/// The first breach of the rules among the first `n` accounts that an
/// instruction names, if there is one. `posts` holds the accounts as the
/// handler left them, in the instruction's order.
pub open spec fn first_violation(
    program_id: Pubkey,
    indices: Seq<u8>,
    pre: Seq<AccountView>,
    posts: Seq<AccountView>,
    n: int,
) -> Option<InstructionError>
    decreases n,
{
    if n <= 0 {
        None
    } else {
        match first_violation(program_id, indices, pre, posts, n - 1) {
            Some(e) => Some(e),
            None => match verify_account(program_id, pre[indices[n - 1] as int], posts[n - 1]) {
                Err(e) => Some(e),
                Ok(_) => None,
            },
        }
    }
}

/// The accounts of a transaction with the first `n` of those that an
/// instruction names replaced by what the handler left.
pub open spec fn written(
    pre: Seq<AccountView>,
    indices: Seq<u8>,
    posts: Seq<AccountView>,
    n: int,
) -> Seq<AccountView>
    decreases n,
{
    if n <= 0 {
        pre
    } else {
        written(pre, indices, posts, n - 1).update(indices[n - 1] as int, posts[n - 1])
    }
}

/// What becomes of an instruction when its handler has returned. A failure
/// of the handler stands. A handler that gave back another number of
/// accounts, broke a rule on an account, or changed the sum of the
/// lamports, fails the instruction. In each of these cases the accounts of
/// the transaction stay as they were; else those that the instruction
/// names become what the handler left. `handed` is what the handler gave
/// back, the first `offset` of it being loader accounts.
pub open spec fn finished(
    program_id: Pubkey,
    indices: Seq<u8>,
    pre: Seq<AccountView>,
    offset: int,
    handed: Seq<AccountView>,
    outcome: Result<(), InstructionError>,
) -> (Result<(), InstructionError>, Seq<AccountView>) {
    match outcome {
        Err(e) => (Err(e), pre),
        Ok(_) => {
            let count = indices.len() as int;
            let posts = handed.subrange(offset, handed.len() as int);
            if handed.len() != offset + count {
                (Err(InstructionError::AccountsResized), pre)
            } else if first_violation(program_id, indices, pre, posts, count) is Some {
                (Err(first_violation(program_id, indices, pre, posts, count)->Some_0), pre)
            } else if named_lamports(pre, indices, count) != handed_lamports(
                handed,
                offset,
                count,
            ) {
                (Err(InstructionError::UnbalancedInstruction), pre)
            } else {
                (Ok(()), written(pre, indices, posts, count))
            }
        },
    }
}

/// What a system instruction makes of the accounts of its transaction.
pub open spec fn system_instruction(
    tx: TransactionView,
    i: int,
    loaders: Seq<Seq<(Pubkey, AccountView)>>,
    accounts: Seq<AccountView>,
) -> (Result<(), InstructionError>, Seq<AccountView>) {
    match instruction_precheck(Seq::empty(), tx, i, loaders, accounts.len() as int) {
        Some(e) => (Err(e), accounts),
        None => {
            let ix = tx.instructions[i];
            let chain = loaders[ix.program_ids_index as int];
            let handed = handed_accounts(chain, ix.accounts, accounts);
            match system_program::outcome(
                first_handed_signs(tx, chain, ix.accounts),
                handed,
                ix.data,
            ) {
                Err(e) => (Err(e), accounts),
                Ok(post) => finished(
                    system_program::id_spec(),
                    ix.accounts,
                    accounts,
                    loader_offset(chain),
                    post,
                    Ok(()),
                ),
            }
        },
    }
}

/// Whether every instruction of a transaction is one of the system program.
pub open spec fn is_system_transaction(tx: TransactionView) -> bool {
    forall|i: int|
        0 <= i < tx.instructions.len() ==> (#[trigger] tx.instructions[i]).program_ids_index
            < tx.program_ids.len() && tx.program_ids[tx.instructions[i].program_ids_index as int]
            == system_program::id_spec()
}

/// The index by which a transaction's error names an instruction.
pub open spec fn error_index(i: int) -> u8 {
    if i > 255 {
        255
    } else {
        i as u8
    }
}

/// What the instructions from `i` on make of the accounts of a transaction
/// of system instructions: the accounts after the last instruction, or the
/// first failure with the accounts as the instructions before it left them.
pub open spec fn system_run(
    tx: TransactionView,
    loaders: Seq<Seq<(Pubkey, AccountView)>>,
    accounts: Seq<AccountView>,
    i: int,
) -> (Result<(), TransactionError>, Seq<AccountView>)
    decreases tx.instructions.len() - i,
{
    if i < 0 || i >= tx.instructions.len() {
        (Ok(()), accounts)
    } else {
        let step = system_instruction(tx, i, loaders, accounts);
        match step.0 {
            Err(e) => (Err(TransactionError::InstructionError(error_index(i), e)), accounts),
            Ok(_) => system_run(tx, loaders, step.1, i + 1),
        }
    }
}

/// The sum over the first accounts does not depend on what follows.
proof fn lemma_written_effect(
    program_id: Pubkey,
    indices: Seq<u8>,
    pre: Seq<AccountView>,
    posts: Seq<AccountView>,
    n: int,
)
    requires
        valid_indices(indices, pre.len() as int),
        0 <= n <= indices.len(),
        posts.len() == indices.len(),
    ensures
        written(pre, indices, posts, n).len() == pre.len(),
        forall|k: int|
            0 <= k < pre.len() && !names(indices.subrange(0, n), k) ==> #[trigger] written(
                pre,
                indices,
                posts,
                n,
            )[k] == pre[k],
        forall|t: int|
            0 <= t < n ==> written(pre, indices, posts, n)[(#[trigger] indices[t]) as int]
                == posts[t],
        total_lamports(written(pre, indices, posts, n)) == total_lamports(pre) + handed_lamports(
            posts,
            0,
            n,
        ) - named_lamports(pre, indices, n),
    decreases n,
{
    if n > 0 {
        lemma_written_effect(program_id, indices, pre, posts, n - 1);
        let before = written(pre, indices, posts, n - 1);
        let after = written(pre, indices, posts, n);
        let index = indices[n - 1] as int;
        let seen = indices.subrange(0, n - 1);
        let next = indices.subrange(0, n);
        assert(!names(seen, index)) by {
            if names(seen, index) {
                let t = choose|t: int| 0 <= t < seen.len() && (#[trigger] seen[t]) as int == index;
                assert(indices[t] == indices[n - 1]);
            }
        }
        assert(before[index] == pre[index]);
        lemma_total_update(before, index, posts[n - 1]);
        assert forall|k: int| 0 <= k < pre.len() && !names(next, k) implies #[trigger] after[k]
            == pre[k] by {
            if names(seen, k) {
                let t = choose|t: int| 0 <= t < seen.len() && (#[trigger] seen[t]) as int == k;
                assert(next[t] as int == k);
            }
            assert(next[n - 1] as int == index);
        }
        assert forall|t: int| 0 <= t < n implies after[(#[trigger] indices[t]) as int]
            == posts[t] by {
            if t < n - 1 {
                assert(indices[t] != indices[n - 1]);
            }
        }
    }
}

/// The sum of accounts handed from a place on is the sum of the same
/// accounts counted from 0.
proof fn lemma_handed_shift(handed: Seq<AccountView>, offset: int, n: int)
    requires
        0 <= offset,
        0 <= n,
        offset + n <= handed.len(),
    ensures
        handed_lamports(handed, offset, n) == handed_lamports(
            handed.subrange(offset, handed.len() as int),
            0,
            n,
        ),
    decreases n,
{
    if n > 0 {
        lemma_handed_shift(handed, offset, n - 1);
    }
}

/// An instruction that finished without error had the effect that an
/// instruction may have.
pub proof fn lemma_finished_effect(
    program_id: Pubkey,
    indices: Seq<u8>,
    pre: Seq<AccountView>,
    offset: int,
    handed: Seq<AccountView>,
    outcome: Result<(), InstructionError>,
)
    requires
        valid_indices(indices, pre.len() as int),
        0 <= offset,
    ensures
        finished(program_id, indices, pre, offset, handed, outcome).1.len() == pre.len(),
        finished(program_id, indices, pre, offset, handed, outcome).0 is Err ==> finished(
            program_id,
            indices,
            pre,
            offset,
            handed,
            outcome,
        ).1 == pre,
        finished(program_id, indices, pre, offset, handed, outcome).0 is Ok ==> instruction_effect(
            program_id,
            indices,
            pre,
            finished(program_id, indices, pre, offset, handed, outcome).1,
        ),
{
    let done = finished(program_id, indices, pre, offset, handed, outcome);
    if done.0 is Ok {
        let count = indices.len() as int;
        let posts = handed.subrange(offset, handed.len() as int);
        lemma_written_effect(program_id, indices, pre, posts, count);
        lemma_handed_shift(handed, offset, count);
        assert(indices.subrange(0, count) =~= indices);
        let post = done.1;
        assert forall|j: int| 0 <= j < indices.len() implies verify_account(
            program_id,
            pre[(#[trigger] indices[j]) as int],
            post[indices[j] as int],
        ) is Ok by {
            lemma_no_violation(program_id, indices, pre, posts, count, j);
        }
    } else if outcome is Ok {
        let count = indices.len() as int;
        if handed.len() == offset + count {
            let posts = handed.subrange(offset, handed.len() as int);
            lemma_written_effect(program_id, indices, pre, posts, count);
        }
    }
}

proof fn lemma_no_violation(
    program_id: Pubkey,
    indices: Seq<u8>,
    pre: Seq<AccountView>,
    posts: Seq<AccountView>,
    n: int,
    j: int,
)
    requires
        0 <= j < n,
        first_violation(program_id, indices, pre, posts, n) is None,
    ensures
        verify_account(program_id, pre[indices[j] as int], posts[j]) is Ok,
    decreases n,
{
    if j < n - 1 {
        lemma_no_violation(program_id, indices, pre, posts, n - 1, j);
    }
}

/// A trace with one more successful step is a trace.
proof fn lemma_trace_extend<P: InstructionProcessor>(
    runtime: Runtime<P>,
    tx: TransactionView,
    loaders: Seq<Seq<(Pubkey, AccountView)>>,
    tick_height: u64,
    states: Seq<Seq<AccountView>>,
    next: Seq<AccountView>,
)
    requires
        is_trace(runtime, tx, loaders, tick_height, states),
        states.len() <= tx.instructions.len(),
        step_effect(tx, states.len() - 1, states.last(), next),
        step(runtime, tx, loaders, tick_height, states.len() - 1, states.last(), next, Ok(())),
    ensures
        is_trace(runtime, tx, loaders, tick_height, states.push(next)),
{
    let longer = states.push(next);
    assert forall|k: int| 0 <= k < longer.len() - 1 implies step_effect(
        tx,
        k,
        #[trigger] longer[k],
        longer[k + 1],
    ) && step(runtime, tx, loaders, tick_height, k, longer[k], longer[k + 1], Ok(())) by {
        if k < states.len() - 1 {
            assert(step_effect(tx, k, states[k], states[k + 1]));
        }
    }
}

/// Where a list with one more address holds an address first.
proof fn lemma_place_push(ids: Seq<Pubkey>, added: Pubkey, id: Pubkey, from: int)
    requires
        0 <= from <= ids.len(),
    ensures
        (exists|k: int| from <= k < ids.len() && ids[k] == id) ==> place_of(
            ids.push(added),
            id,
            from,
        ) == place_of(ids, id, from) && from <= place_of(ids, id, from) < ids.len(),
        !(exists|k: int| from <= k < ids.len() && ids[k] == id) && added == id ==> place_of(
            ids.push(added),
            id,
            from,
        ) == ids.len(),
    decreases ids.len() - from,
{
    let longer = ids.push(added);
    if from < ids.len() {
        assert(longer[from] == ids[from]);
        if ids[from] != id {
            lemma_place_push(ids, added, id, from + 1);
            if exists|k: int| from <= k < ids.len() && ids[k] == id {
                let k = choose|k: int| from <= k < ids.len() && ids[k] == id;
                assert(from + 1 <= k < ids.len() && ids[k] == id);
            }
        }
    } else {
        assert(longer[from] == added);
    }
}

pub struct Runtime<P: InstructionProcessor> {
    ids: Vec<Pubkey>,
    processors: Vec<P>,
}

impl<P: InstructionProcessor> Default for Runtime<P> {
    /// A runtime that knows the system program only.
    fn default() -> (r: Runtime<P>)
        ensures
            r.wf(),
            r.ids_spec() == Seq::<Pubkey>::empty(),
    {
        Runtime { ids: Vec::new(), processors: Vec::new() }
    }
}

/// What an instruction comes to when its handler has returned: checks what
/// the handler did to the accounts, and writes the accounts back if all is
/// well. `handed` is what the handler left of the accounts it was given,
/// the first `offset` of them being loader accounts.
pub fn finish_instruction(
    program_id: &Pubkey,
    indices: &Vec<u8>,
    accounts: &mut Vec<Account>,
    handed: &Vec<KeyedAccount>,
    offset: usize,
    outcome: Result<(), InstructionError>,
) -> (r: Result<(), InstructionError>)
    requires
        valid_indices(indices@, old(accounts)@.len() as int),
        offset + indices@.len() <= usize::MAX,
    ensures
        (r, account_views(final(accounts)@)) == finished(
            *program_id,
            indices@,
            account_views(old(accounts)@),
            offset as int,
            keyed_views(handed@),
            outcome,
        ),
        r is Ok ==> instruction_effect(
            *program_id,
            indices@,
            account_views(old(accounts)@),
            account_views(final(accounts)@),
        ),
        final(accounts)@.len() == old(accounts)@.len(),
{
    let ghost pre = account_views(accounts@);
    let ghost hv = keyed_views(handed@);
    let ghost posts = hv.subrange(offset as int, hv.len() as int);
    proof {
        lemma_finished_effect(*program_id, indices@, pre, offset as int, hv, outcome);
    }
    match outcome {
        Err(e) => { return Err(e); },
        Ok(_) => {},
    }
    let count = indices.len();
    if handed.len() != offset + count {
        return Err(InstructionError::AccountsResized);
    }
    let mut pre_sum: u128 = 0;
    let mut post_sum: u128 = 0;
    let mut v: usize = 0;
    while v < count
        invariant
            v <= count == indices@.len(),
            handed@.len() == offset + count,
            offset + count <= usize::MAX,
            pre == account_views(accounts@),
            hv == keyed_views(handed@),
            posts == hv.subrange(offset as int, hv.len() as int),
            valid_indices(indices@, accounts@.len() as int),
            pre_sum == named_lamports(pre, indices@, v as int),
            pre_sum <= v * 0xffff_ffff_ffff_ffff,
            post_sum == handed_lamports(hv, offset as int, v as int),
            post_sum <= v * 0xffff_ffff_ffff_ffff,
            first_violation(*program_id, indices@, pre, posts, v as int) is None,
            outcome is Ok,
            pre == account_views(old(accounts)@),
        decreases count - v,
    {
        let index = indices[v] as usize;
        assert(indices@[v as int] < accounts@.len());
        assert(pre[index as int] == accounts@[index as int]@);
        assert(posts[v as int] == handed@[offset + v].account@) by {
            assert(hv[offset + v] == handed@[offset + v].account@);
        }
        match check_account(program_id, &accounts[index], &handed[offset + v].account) {
            Err(e) => {
                proof {
                    assert(verify_account(*program_id, pre[indices@[v as int] as int], posts[v as int])
                        == Err::<(), InstructionError>(e));
                    assert(first_violation(*program_id, indices@, pre, posts, v as int + 1) == Some(
                        e,
                    ));
                    lemma_violation_stays(
                        *program_id,
                        indices@,
                        pre,
                        posts,
                        v as int + 1,
                        count as int,
                    );
                    assert(account_views(accounts@) == pre);
                }
                return Err(e);
            },
            Ok(_) => {},
        }
        pre_sum = pre_sum + accounts[index].lamports as u128;
        post_sum = post_sum + handed[offset + v].account.lamports as u128;
        v += 1;
    }
    if pre_sum != post_sum {
        return Err(InstructionError::UnbalancedInstruction);
    }
    let mut w: usize = 0;
    while w < count
        invariant
            w <= count == indices@.len(),
            handed@.len() == offset + count,
            offset + count <= usize::MAX,
            accounts@.len() == pre.len(),
            hv == keyed_views(handed@),
            posts == hv.subrange(offset as int, hv.len() as int),
            valid_indices(indices@, pre.len() as int),
            account_views(accounts@) == written(pre, indices@, posts, w as int),
        decreases count - w,
    {
        let index = indices[w] as usize;
        let ghost before = account_views(accounts@);
        assert(indices@[w as int] < pre.len());
        let post = handed[offset + w].account.clone();
        accounts[index] = post;
        proof {
            assert(hv[offset + w] == handed@[offset + w].account@);
            assert(account_views(accounts@) =~= before.update(index as int, posts[w as int]));
        }
        w += 1;
    }
    Ok(())
}

/// Once an account breaks a rule, the first breach stays what it is.
proof fn lemma_violation_stays(
    program_id: Pubkey,
    indices: Seq<u8>,
    pre: Seq<AccountView>,
    posts: Seq<AccountView>,
    k: int,
    n: int,
)
    requires
        0 <= k <= n,
        first_violation(program_id, indices, pre, posts, k) is Some,
    ensures
        first_violation(program_id, indices, pre, posts, n) == first_violation(
            program_id,
            indices,
            pre,
            posts,
            k,
        ),
    decreases n - k,
{
    if k < n {
        assert(first_violation(program_id, indices, pre, posts, k + 1) == first_violation(
            program_id,
            indices,
            pre,
            posts,
            k,
        ));
        lemma_violation_stays(program_id, indices, pre, posts, k + 1, n);
    }
}

fn check_indices(indices: &Vec<u8>, n: usize) -> (r: Option<InstructionError>)
    ensures
        r == indices_error(indices@, n as int),
{
    let mut i: usize = 0;
    while i < indices.len()
        invariant
            i <= indices@.len(),
            forall|j: int| 0 <= j < i ==> (#[trigger] indices@[j]) < n,
        decreases indices@.len() - i,
    {
        if indices[i] as usize >= n {
            assert(indices@[i as int] >= n);
            return Some(InstructionError::AccountIndexOutOfRange);
        }
        i += 1;
    }
    let mut a: usize = 0;
    while a < indices.len()
        invariant
            a <= indices@.len(),
            forall|j: int| 0 <= j < indices@.len() ==> (#[trigger] indices@[j]) < n,
            forall|x: int, y: int| 0 <= x < y < a ==> indices@[x] != indices@[y],
        decreases indices@.len() - a,
    {
        let mut k: usize = 0;
        while k < a
            invariant
                k <= a < indices@.len(),
                forall|j: int| 0 <= j < indices@.len() ==> (#[trigger] indices@[j]) < n,
                forall|x: int| 0 <= x < k ==> indices@[x] != indices@[a as int],
            decreases a - k,
        {
            if indices[k] == indices[a] {
                proof {
                    assert(indices@[k as int] == indices@[a as int]);
                    assert(!indices@.no_duplicates());
                }
                return Some(InstructionError::DuplicateAccountIndex);
            }
            k += 1;
        }
        a += 1;
    }
    None
}

impl<P: InstructionProcessor> Runtime<P> {
    /// The addresses that have a registered handler, in the order in which
    /// they were registered.
    pub closed spec fn ids_spec(&self) -> Seq<Pubkey> {
        self.ids@
    }

    /// One handler for each registered address.
    pub closed spec fn wf(&self) -> bool {
        self.ids@.len() == self.processors@.len()
    }

    /// The handler of a program that has one: the one that was registered
    /// first for its address.
    pub closed spec fn handler(&self, program_id: Pubkey) -> P {
        self.processors@[place_of(self.ids@, program_id, 0)]
    }

    /// Registers the handler of a program. The system program, and an
    /// earlier handler of the same program, keep precedence.
    pub fn add_instruction_processor(&mut self, program_id: Pubkey, processor: P)
        requires
            old(self).wf(),
        ensures
            final(self).wf(),
            final(self).ids_spec() == old(self).ids_spec().push(program_id),
            forall|id: Pubkey|
                old(self).ids_spec().contains(id) ==> #[trigger] final(self).handler(id) == old(
                    self,
                ).handler(id),
            !old(self).ids_spec().contains(program_id) ==> final(self).handler(program_id)
                == processor,
    {
        let ghost ids = self.ids@;
        self.ids.push(program_id);
        self.processors.push(processor);
        proof {
            assert forall|id: Pubkey| ids.contains(id) implies #[trigger] self.handler(id) == old(
                self,
            ).handler(id) by {
                lemma_place_push(ids, program_id, id, 0);
            }
            if !ids.contains(program_id) {
                lemma_place_push(ids, program_id, program_id, 0);
            }
        }
    }

    fn find(&self, program_id: &Pubkey) -> (r: Option<usize>)
        requires
            self.wf(),
        ensures
            match r {
                Some(p) => p < self.processors@.len() && self.ids@[p as int] == *program_id && p
                    == place_of(self.ids@, *program_id, 0),
                None => !self.ids_spec().contains(*program_id),
            },
    {
        let mut i: usize = 0;
        while i < self.ids.len()
            invariant
                i <= self.ids@.len(),
                self.wf(),
                forall|j: int| 0 <= j < i ==> self.ids@[j] != *program_id,
                place_of(self.ids@, *program_id, 0) == place_of(self.ids@, *program_id, i as int),
            decreases self.ids@.len() - i,
        {
            if self.ids[i] == *program_id {
                return Some(i);
            }
            i += 1;
        }
        None
    }

    /// The accounts to hand to the handler of an instruction.
    fn hand_out(
        tx: &Transaction,
        indices: &Vec<u8>,
        chain: &Vec<(Pubkey, Account)>,
        accounts: &Vec<Account>,
    ) -> (r: Vec<KeyedAccount>)
        requires
            valid_indices(indices@, accounts@.len() as int),
            accounts@.len() <= tx.account_keys@.len(),
            loader_offset(chain_views(chain@)) + indices@.len() <= usize::MAX,
        ensures
            keyed_views(r@) == handed_accounts(
                chain_views(chain@),
                indices@,
                account_views(accounts@),
            ),
            first_signs(r@) == first_handed_signs(tx@, chain_views(chain@), indices@),
            is_handed(tx@, chain_views(chain@), indices@, account_views(accounts@), r@),
    {
        let ghost cv = chain_views(chain@);
        let ghost want = handed_accounts(cv, indices@, account_views(accounts@));
        let ghost offset = loader_offset(cv);
        let mut keyed: Vec<KeyedAccount> = Vec::new();
        let mut c: usize = 1;
        while c < chain.len()
            invariant
                1 <= c,
                c <= chain@.len() || chain@.len() == 0,
                cv == chain_views(chain@),
                keyed@.len() == (if chain@.len() == 0 {
                    0
                } else {
                    c - 1
                }),
                forall|t: int|
                    0 <= t < keyed@.len() ==> (#[trigger] keyed@[t]).account@ == cv[t + 1].1,
                forall|t: int| 0 <= t < keyed@.len() ==> (#[trigger] keyed@[t]).key == cv[t + 1].0,
                forall|t: int| 0 <= t < keyed@.len() ==> !(#[trigger] keyed@[t]).is_signer,
            decreases chain@.len() - c,
        {
            proof {
                assert(cv[c as int] == (chain@[c as int].0, chain@[c as int].1@));
            }
            keyed.push(
                KeyedAccount { key: chain[c].0, is_signer: false, account: chain[c].1.clone() },
            );
            c += 1;
        }
        let mut j: usize = 0;
        while j < indices.len()
            invariant
                j <= indices@.len(),
                cv == chain_views(chain@),
                offset == loader_offset(cv),
                keyed@.len() == offset + j,
                offset + indices@.len() <= usize::MAX,
                valid_indices(indices@, accounts@.len() as int),
                accounts@.len() <= tx.account_keys@.len(),
                forall|t: int| 0 <= t < offset ==> (#[trigger] keyed@[t]).account@ == cv[t + 1].1,
                forall|t: int| 0 <= t < offset ==> (#[trigger] keyed@[t]).key == cv[t + 1].0,
                forall|t: int| 0 <= t < offset ==> !(#[trigger] keyed@[t]).is_signer,
                forall|t: int|
                    0 <= t < j ==> (#[trigger] keyed@[offset + t]).account@
                        == accounts@[indices@[t] as int]@,
                forall|t: int|
                    0 <= t < j ==> (#[trigger] keyed@[offset + t]).key
                        == tx.account_keys@[indices@[t] as int],
                forall|t: int|
                    0 <= t < j ==> (#[trigger] keyed@[offset + t]).is_signer == (indices@[t]
                        < tx.signatures@.len()),
            decreases indices@.len() - j,
        {
            let index = indices[j] as usize;
            assert(indices@[j as int] < accounts@.len());
            keyed.push(
                KeyedAccount {
                    key: tx.account_keys[index],
                    is_signer: index < tx.signatures.len(),
                    account: accounts[index].clone(),
                },
            );
            j += 1;
        }
        proof {
            assert forall|t: int| 0 <= t < want.len() implies keyed_views(keyed@)[t] == want[t] by {
                if t < offset {
                    assert(keyed@[t].account@ == cv[t + 1].1);
                } else {
                    assert(keyed@[offset + (t - offset)].account@ == accounts@[indices@[t
                        - offset] as int]@);
                }
            }
            assert(keyed_views(keyed@) =~= want);
            if keyed@.len() > 0 {
                if offset > 0 {
                    assert(!keyed@[0].is_signer);
                } else {
                    assert(keyed@[offset + 0].is_signer == (indices@[0] < tx.signatures@.len()));
                }
            }
            assert forall|t: int| offset <= t < keyed@.len() implies (#[trigger] keyed@[t]).key
                == tx@.account_keys[indices@[t - offset] as int] && keyed@[t].is_signer == (
            indices@[t - offset] < tx@.signatures.len()) by {
                assert(keyed@[offset + (t - offset)].key == tx.account_keys@[indices@[t
                    - offset] as int]);
            }
        }
        keyed
    }

    /// Runs one instruction of a transaction. On an error the accounts are
    /// left as they were.
    fn execute_instruction(
        &self,
        tx: &Transaction,
        instruction_index: usize,
        loaders: &InstructionLoaders,
        accounts: &mut Vec<Account>,
        tick_height: u64,
    ) -> (r: Result<(), InstructionError>)
        requires
            self.wf(),
            instruction_index < tx.instructions@.len(),
        ensures
            final(accounts)@.len() == old(accounts)@.len(),
            match r {
                Ok(_) => {
                    let ix = tx.instructions@[instruction_index as int];
                    &&& ix.program_ids_index < tx.program_ids@.len()
                    &&& instruction_effect(
                        tx.program_ids@[ix.program_ids_index as int],
                        ix.accounts@,
                        account_views(old(accounts)@),
                        account_views(final(accounts)@),
                    )
                },
                Err(_) => account_views(final(accounts)@) == account_views(old(accounts)@),
            },
            match instruction_precheck(
                self.ids_spec(),
                tx@,
                instruction_index as int,
                loaders_views(loaders@),
                old(accounts)@.len() as int,
            ) {
                Some(e) => r == Err::<(), InstructionError>(e),
                None => tx@.program_ids[tx@.instructions[instruction_index as int].program_ids_index as int]
                    == system_program::id_spec() ==> (r, account_views(final(accounts)@))
                    == system_instruction(
                    tx@,
                    instruction_index as int,
                    loaders_views(loaders@),
                    account_views(old(accounts)@),
                ),
            },
            tx@.instructions[instruction_index as int].program_ids_index < tx@.program_ids.len()
                && tx@.program_ids[tx@.instructions[instruction_index as int].program_ids_index as int]
                == system_program::id_spec() ==> (r, account_views(final(accounts)@))
                == system_instruction(
                tx@,
                instruction_index as int,
                loaders_views(loaders@),
                account_views(old(accounts)@),
            ),
            step(
                *self,
                tx@,
                loaders_views(loaders@),
                tick_height,
                instruction_index as int,
                account_views(old(accounts)@),
                account_views(final(accounts)@),
                r,
            ),
    {
        let ix = &tx.instructions[instruction_index];
        let ghost pre = account_views(accounts@);
        let ghost lv = loaders_views(loaders@);
        proof {
            reveal(step);
            assert(tx@.instructions[instruction_index as int] == ix@);
        }
        if ix.program_ids_index as usize >= tx.program_ids.len() || ix.program_ids_index as usize
            >= loaders.len() {
            return Err(InstructionError::UnsupportedProgramId);
        }
        let program_id = tx.program_ids[ix.program_ids_index as usize];
        let chain = &loaders[ix.program_ids_index as usize];
        proof {
            assert(lv[ix.program_ids_index as int] == chain_views(chain@));
        }
        if accounts.len() > tx.account_keys.len() {
            return Err(InstructionError::NotEnoughAccountKeys);
        }
        match check_indices(&ix.accounts, accounts.len()) {
            Some(e) => { return Err(e); },
            None => {},
        }
        let by_system = system_program::check_id(&program_id);
        let position: usize = if by_system {
            0
        } else {
            match self.find(&program_id) {
                None => { return Err(InstructionError::UnsupportedProgramId); },
                Some(p) => p,
            }
        };
        let offset: usize = if chain.len() == 0 {
            0
        } else {
            chain.len() - 1
        };
        if offset > usize::MAX - ix.accounts.len() {
            return Err(InstructionError::GenericError);
        }
        let mut keyed = Runtime::<P>::hand_out(tx, &ix.accounts, chain, accounts);
        let ghost handed = keyed@;
        let ghost handed_pre = keyed_views(keyed@);
        let outcome = if by_system {
            system_program::process_instruction(&mut keyed, ix.data.as_slice())
        } else {
            self.processors[position].process_instruction(
                &program_id,
                &mut keyed,
                ix.data.as_slice(),
                tick_height,
            )
        };
        proof {
            lemma_finished_effect(
                program_id,
                ix.accounts@,
                pre,
                offset as int,
                keyed_views(keyed@),
                outcome,
            );
            if by_system {
                lemma_finished_effect(
                    program_id,
                    ix.accounts@,
                    pre,
                    offset as int,
                    handed_pre,
                    outcome,
                );
            }
        }
        let r = finish_instruction(&program_id, &ix.accounts, accounts, &keyed, offset, outcome);
        proof {
            if !by_system {
                assert(self.handler(program_id) == self.processors@[position as int]);
                assert(self.handler(program_id).effect(
                    program_id,
                    handed,
                    ix@.data,
                    tick_height,
                    keyed@,
                    outcome,
                ));
                assert(is_handed(tx@, lv[ix.program_ids_index as int], ix@.accounts, pre, handed));
            }
        }
        r
    }

    /// Runs the instructions of a transaction in order, on the accounts
    /// loaded for it, and stops at the first that fails. An instruction
    /// that cannot be handed to a handler fails with the error of
    /// `instruction_precheck`, so a transaction succeeds only if each of
    /// its instructions passes that check. What the instructions of the
    /// system program do is fixed; every other goes to the handler that
    /// was registered first for its program, and what becomes of the
    /// handler's answer is what `finish_instruction` says.
    pub fn execute_transaction(
        &self,
        tx: &Transaction,
        loaders: &InstructionLoaders,
        accounts: &mut Vec<Account>,
        tick_height: u64,
    ) -> (r: Result<(), TransactionError>)
        requires
            self.wf(),
        ensures
            final(accounts)@.len() == old(accounts)@.len(),
            match r {
                Ok(_) => total_lamports(account_views(final(accounts)@)) == total_lamports(
                    account_views(old(accounts)@),
                ) && ran(
                    *self,
                    tx@,
                    loaders_views(loaders@),
                    tick_height,
                    account_views(old(accounts)@),
                    account_views(final(accounts)@),
                ),
                Err(e) => e matches TransactionError::InstructionError(index, cause) && (
                index as int) < tx.instructions@.len() && stopped(
                    *self,
                    tx@,
                    loaders_views(loaders@),
                    tick_height,
                    account_views(old(accounts)@),
                    account_views(final(accounts)@),
                    index,
                    cause,
                ),
            },
            is_system_transaction(tx@) ==> (r, account_views(final(accounts)@)) == system_run(
                tx@,
                loaders_views(loaders@),
                account_views(old(accounts)@),
                0,
            ),
    {
        let ghost pre = account_views(accounts@);
        let ghost lv = loaders_views(loaders@);
        let ghost mut states: Seq<Seq<AccountView>> = seq![pre];
        let mut i: usize = 0;
        while i < tx.instructions.len()
            invariant
                i <= tx.instructions@.len(),
                self.wf(),
                lv == loaders_views(loaders@),
                pre == account_views(old(accounts)@),
                states.len() == i + 1,
                states[0] == pre,
                states[i as int] == account_views(accounts@),
                is_trace(*self, tx@, lv, tick_height, states),
                prechecks_pass(self.ids_spec(), tx@, lv, pre.len() as int, i as int),
                accounts@.len() == old(accounts)@.len(),
                total_lamports(account_views(accounts@)) == total_lamports(pre),
                is_system_transaction(tx@) ==> system_run(tx@, lv, pre, 0) == system_run(
                    tx@,
                    lv,
                    account_views(accounts@),
                    i as int,
                ),
            decreases tx.instructions@.len() - i,
        {
            let ghost before = account_views(accounts@);
            proof {
                assert(tx@.instructions[i as int] == tx.instructions@[i as int]@);
            }
            let answer = self.execute_instruction(tx, i, loaders, accounts, tick_height);
            proof {
                if is_system_transaction(tx@) {
                    let ix = tx@.instructions[i as int];
                    assert(ix.program_ids_index < tx@.program_ids.len() && tx@.program_ids[ix.program_ids_index as int]
                        == system_program::id_spec());
                    assert((answer, account_views(accounts@)) == system_instruction(
                        tx@,
                        i as int,
                        lv,
                        before,
                    ));
                    assert(system_run(tx@, lv, before, i as int) == (match answer {
                        Err(e) => (
                            Err::<(), TransactionError>(
                                TransactionError::InstructionError(error_index(i as int), e),
                            ),
                            before,
                        ),
                        Ok(_) => system_run(tx@, lv, account_views(accounts@), i + 1),
                    }));
                }
            }
            match answer {
                Err(cause) => {
                    let index: u8 = if i > 255 {
                        255
                    } else {
                        i as u8
                    };
                    proof {
                        assert(states.last() == account_views(accounts@));
                        assert(before.len() == pre.len());
                    }
                    return Err(TransactionError::InstructionError(index, cause));
                },
                Ok(unit) => {
                    proof {
                        assert(unit == ());
                        assert(answer == Ok::<(), InstructionError>(()));
                    }
                },
            }
            proof {
                assert(before.len() == pre.len());
                assert(states.last() == before);
                assert(step(
                    *self,
                    tx@,
                    lv,
                    tick_height,
                    i as int,
                    before,
                    account_views(accounts@),
                    Ok(()),
                ));
                assert(instruction_precheck(
                    self.ids_spec(),
                    tx@,
                    i as int,
                    lv,
                    pre.len() as int,
                ) is None);
                lemma_trace_extend(*self, tx@, lv, tick_height, states, account_views(accounts@));
                states = states.push(account_views(accounts@));
            }
            i += 1;
        }
        Ok(())
    }
}

} // verus!
