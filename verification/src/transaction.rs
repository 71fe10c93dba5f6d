//! Transactions: a list of instructions over a list of accounts, with the
//! signatures of the accounts that authorise it.

use vstd::prelude::*;
use vstd::bytes::*;
use crate::account::copy_bytes;
use crate::pubkey::Pubkey;
use crate::signature::{Keypair, Signature};

verus! {

/// Why an instruction failed.
#[derive(Clone, Copy, Debug, PartialEq, Eq, Structural)]
pub enum InstructionError {
    /// The handler gave no more specific reason.
    GenericError,
    /// The instruction's data could not be read.
    InvalidInstructionData,
    /// The instruction names fewer accounts than it needs.
    NotEnoughAccountKeys,
    /// An account that had to sign the transaction did not.
    MissingRequiredSignature,
    /// The instruction would spend more lamports than the source holds.
    ResultWithNegativeLamports,
    /// The instruction would credit more lamports than an account can hold.
    LamportsOverflow,
    /// The source of a system instruction is not a system account.
    SourceNotSystemAccount,
    /// The account to create already holds data or belongs to a program.
    AccountAlreadyInUse,
    /// An account index of the instruction is out of range.
    AccountIndexOutOfRange,
    /// The instruction names one account twice.
    DuplicateAccountIndex,
    /// No handler is registered for the program.
    UnsupportedProgramId,
    /// The handler changed the number of accounts it was given.
    AccountsResized,
    /// The sum of the lamports of the instruction's accounts changed.
    UnbalancedInstruction,
    /// A program changed the owner of an account that it does not own.
    ModifiedProgramId,
    /// A program spent lamports of an account that it does not own.
    ExternalAccountLamportSpend,
    /// A program changed the data of an account that it does not own.
    ExternalAccountDataModified,
    /// A program changed the executable flag of an account that it does not own.
    ExecutableModified,
    /// A program other than the system program changed the size of an
    /// account's data.
    AccountDataSizeChanged,
    /// The data of an executable account changed.
    ExecutableDataModified,
    /// An error of the program's own.
    CustomError(u32),
}

impl InstructionError {
    pub fn new_result_with_negative_lamports() -> (r: InstructionError)
        ensures
            r == InstructionError::ResultWithNegativeLamports,
    {
        InstructionError::ResultWithNegativeLamports
    }
}

/// Why a transaction was rejected.
#[derive(Clone, Copy, Debug, PartialEq, Eq, Structural)]
pub enum TransactionError {
    /// An account of the transaction is locked by another transaction.
    AccountInUse,
    /// The transaction names one account twice.
    AccountLoadedTwice,
    /// The fee payer, or a program of the transaction, does not exist.
    AccountNotFound,
    /// The fee payer cannot pay the fee.
    InsufficientFundsForFee,
    /// The transaction's signature was seen before on this fork.
    DuplicateSignature,
    /// The transaction's blockhash is unknown or too old.
    BlockhashNotFound,
    /// The instruction with the given index failed.
    InstructionError(u8, InstructionError),
    /// A program's chain of loaders is too long.
    CallChainTooDeep,
    /// The transaction charges a fee and carries no signature.
    MissingSignatureForFee,
}

pub struct InstructionView {
    pub program_ids_index: u8,
    pub accounts: Seq<u8>,
    pub data: Seq<u8>,
}

/// An instruction whose program and accounts are indices into the lists of
/// the transaction that holds it.
#[derive(Debug, PartialEq, Eq)]
pub struct CompiledInstruction {
    /// Index into the transaction's `program_ids`.
    pub program_ids_index: u8,
    /// Indices into the transaction's `account_keys`, in the order in which
    /// the program expects the accounts.
    pub accounts: Vec<u8>,
    /// The program's input.
    pub data: Vec<u8>,
}

impl View for CompiledInstruction {
    type V = InstructionView;

    open spec fn view(&self) -> InstructionView {
        InstructionView {
            program_ids_index: self.program_ids_index,
            accounts: self.accounts@,
            data: self.data@,
        }
    }
}

impl CompiledInstruction {
    pub fn new(program_ids_index: u8, data: Vec<u8>, accounts: Vec<u8>) -> (r: CompiledInstruction)
        ensures
            r@ == (InstructionView { program_ids_index, accounts: accounts@, data: data@ }),
    {
        CompiledInstruction { program_ids_index, accounts, data }
    }
}

impl Clone for CompiledInstruction {
    fn clone(&self) -> (r: CompiledInstruction)
        ensures
            r@ == self@,
    {
        CompiledInstruction {
            program_ids_index: self.program_ids_index,
            accounts: copy_bytes(&self.accounts),
            data: copy_bytes(&self.data),
        }
    }
}

pub struct TransactionView {
    pub signatures: Seq<Signature>,
    pub account_keys: Seq<Pubkey>,
    pub recent_blockhash: crate::hash::Hash,
    pub fee: u64,
    pub program_ids: Seq<Pubkey>,
    pub instructions: Seq<InstructionView>,
}

/// The views of a sequence of instructions.
pub open spec fn instruction_views(instructions: Seq<CompiledInstruction>) -> Seq<InstructionView> {
    instructions.map_values(|i: CompiledInstruction| i@)
}

#[derive(Debug, PartialEq, Eq)]
pub struct Transaction {
    /// One signature for each of the first accounts; the first signature
    /// identifies the transaction.
    pub signatures: Vec<Signature>,
    /// The accounts that the instructions work on; the first one pays the fee.
    pub account_keys: Vec<Pubkey>,
    /// A recent blockhash, which bounds the transaction's lifetime.
    pub recent_blockhash: crate::hash::Hash,
    /// The lamports paid to the leader that processes the transaction.
    pub fee: u64,
    /// The programs that the instructions run.
    pub program_ids: Vec<Pubkey>,
    /// The instructions, run in order and committed together.
    pub instructions: Vec<CompiledInstruction>,
}

impl View for Transaction {
    type V = TransactionView;

    open spec fn view(&self) -> TransactionView {
        TransactionView {
            signatures: self.signatures@,
            account_keys: self.account_keys@,
            recent_blockhash: self.recent_blockhash,
            fee: self.fee,
            program_ids: self.program_ids@,
            instructions: instruction_views(self.instructions@),
        }
    }
}

/// The bytes of a list of addresses, one after the other.
pub open spec fn keys_bytes(keys: Seq<Pubkey>) -> Seq<u8>
    decreases keys.len(),
{
    if keys.len() == 0 {
        Seq::empty()
    } else {
        keys_bytes(keys.drop_last()) + keys.last().to_bytes_spec()
    }
}

/// The bytes of one instruction: the program index, then the account
/// indices and the data, each behind its length.
pub open spec fn instruction_bytes(ix: InstructionView) -> Seq<u8> {
    seq![ix.program_ids_index] + spec_u64_to_le_bytes(ix.accounts.len() as u64) + ix.accounts
        + spec_u64_to_le_bytes(ix.data.len() as u64) + ix.data
}

/// The bytes of a list of instructions, one after the other.
pub open spec fn instructions_bytes(ixs: Seq<InstructionView>) -> Seq<u8>
    decreases ixs.len(),
{
    if ixs.len() == 0 {
        Seq::empty()
    } else {
        instructions_bytes(ixs.drop_last()) + instruction_bytes(ixs.last())
    }
}

/// The bytes that a transaction's signatures sign: everything but the
/// signatures themselves, each list behind its length as 8 little-endian
/// bytes.
pub open spec fn message_spec(tx: TransactionView) -> Seq<u8> {
    spec_u64_to_le_bytes(tx.account_keys.len() as u64) + keys_bytes(tx.account_keys)
        + tx.recent_blockhash.to_bytes_spec() + spec_u64_to_le_bytes(tx.fee) + spec_u64_to_le_bytes(
        tx.program_ids.len() as u64,
    ) + keys_bytes(tx.program_ids) + spec_u64_to_le_bytes(tx.instructions.len() as u64)
        + instructions_bytes(tx.instructions)
}

/// Appends `src` to `out`.
pub fn append_bytes(out: &mut Vec<u8>, src: &Vec<u8>)
    ensures
        final(out)@ == old(out)@ + src@,
{
    let ghost start = out@;
    let mut i: usize = 0;
    while i < src.len()
        invariant
            i <= src.len(),
            out@ == start + src@.subrange(0, i as int),
        decreases src.len() - i,
    {
        out.push(src[i]);
        proof {
            assert(out@ =~= start + src@.subrange(0, i + 1));
        }
        i += 1;
    }
    proof {
        assert(src@.subrange(0, src@.len() as int) =~= src@);
    }
}

fn append_u64(out: &mut Vec<u8>, x: u64)
    ensures
        final(out)@ == old(out)@ + spec_u64_to_le_bytes(x),
{
    let bytes = u64_to_le_bytes(x);
    append_bytes(out, &bytes);
}

fn append_keys(out: &mut Vec<u8>, keys: &Vec<Pubkey>)
    ensures
        final(out)@ == old(out)@ + keys_bytes(keys@),
{
    let ghost start = out@;
    let mut i: usize = 0;
    proof {
        assert(out@ =~= start + keys_bytes(keys@.subrange(0, 0)));
    }
    while i < keys.len()
        invariant
            i <= keys.len(),
            out@ == start + keys_bytes(keys@.subrange(0, i as int)),
        decreases keys.len() - i,
    {
        let bytes = keys[i].to_bytes();
        append_bytes(out, &bytes);
        proof {
            let next = keys@.subrange(0, i + 1);
            assert(next.drop_last() =~= keys@.subrange(0, i as int));
            assert(next.last() == keys@[i as int]);
            assert(out@ =~= start + keys_bytes(next));
        }
        i += 1;
    }
    proof {
        assert(keys@.subrange(0, keys@.len() as int) =~= keys@);
    }
}

fn append_instruction(out: &mut Vec<u8>, ix: &CompiledInstruction)
    ensures
        final(out)@ == old(out)@ + instruction_bytes(ix@),
{
    let ghost start = out@;
    out.push(ix.program_ids_index);
    append_u64(out, ix.accounts.len() as u64);
    append_bytes(out, &ix.accounts);
    append_u64(out, ix.data.len() as u64);
    append_bytes(out, &ix.data);
    proof {
        assert(out@ =~= start + instruction_bytes(ix@));
    }
}

fn append_instructions(out: &mut Vec<u8>, ixs: &Vec<CompiledInstruction>)
    ensures
        final(out)@ == old(out)@ + instructions_bytes(instruction_views(ixs@)),
{
    let ghost start = out@;
    let ghost views = instruction_views(ixs@);
    let mut i: usize = 0;
    proof {
        assert(out@ =~= start + instructions_bytes(views.subrange(0, 0)));
    }
    while i < ixs.len()
        invariant
            i <= ixs.len(),
            views == instruction_views(ixs@),
            out@ == start + instructions_bytes(views.subrange(0, i as int)),
        decreases ixs.len() - i,
    {
        append_instruction(out, &ixs[i]);
        proof {
            let next = views.subrange(0, i + 1);
            assert(next.drop_last() =~= views.subrange(0, i as int));
            assert(next.last() == ixs@[i as int]@);
            assert(out@ =~= start + instructions_bytes(next));
        }
        i += 1;
    }
    proof {
        assert(views.subrange(0, views.len() as int) =~= views);
    }
}

/// Copies a list of instructions.
pub fn copy_instructions(ixs: &Vec<CompiledInstruction>) -> (r: Vec<CompiledInstruction>)
    ensures
        instruction_views(r@) == instruction_views(ixs@),
{
    let mut out: Vec<CompiledInstruction> = Vec::new();
    let mut i: usize = 0;
    while i < ixs.len()
        invariant
            i <= ixs.len(),
            out.len() == i,
            forall|j: int| 0 <= j < i ==> out@[j]@ == ixs@[j]@,
        decreases ixs.len() - i,
    {
        out.push(ixs[i].clone());
        i += 1;
    }
    proof {
        assert(instruction_views(out@) =~= instruction_views(ixs@));
    }
    out
}

/// Copies a list of plain values.
pub fn copy_keys(keys: &Vec<Pubkey>) -> (r: Vec<Pubkey>)
    ensures
        r@ == keys@,
{
    let mut out: Vec<Pubkey> = Vec::new();
    let mut i: usize = 0;
    while i < keys.len()
        invariant
            i <= keys.len(),
            out@ == keys@.subrange(0, i as int),
        decreases keys.len() - i,
    {
        out.push(keys[i]);
        proof {
            assert(out@ =~= keys@.subrange(0, i + 1));
        }
        i += 1;
    }
    proof {
        assert(keys@.subrange(0, keys@.len() as int) =~= keys@);
    }
    out
}

fn copy_signatures(sigs: &Vec<Signature>) -> (r: Vec<Signature>)
    ensures
        r@ == sigs@,
{
    let mut out: Vec<Signature> = Vec::new();
    let mut i: usize = 0;
    while i < sigs.len()
        invariant
            i <= sigs.len(),
            out@ == sigs@.subrange(0, i as int),
        decreases sigs.len() - i,
    {
        out.push(sigs[i]);
        proof {
            assert(out@ =~= sigs@.subrange(0, i + 1));
        }
        i += 1;
    }
    proof {
        assert(sigs@.subrange(0, sigs@.len() as int) =~= sigs@);
    }
    out
}

impl Clone for Transaction {
    fn clone(&self) -> (r: Transaction)
        ensures
            r@ == self@,
    {
        Transaction {
            signatures: copy_signatures(&self.signatures),
            account_keys: copy_keys(&self.account_keys),
            recent_blockhash: self.recent_blockhash,
            fee: self.fee,
            program_ids: copy_keys(&self.program_ids),
            instructions: copy_instructions(&self.instructions),
        }
    }
}

/// The addresses of a list of key pairs.
pub open spec fn signer_keys(keypairs: Seq<&Keypair>) -> Seq<Pubkey> {
    keypairs.map_values(|k: &Keypair| k.pubkey_spec())
}

/// The signatures of a message under a list of key pairs.
pub open spec fn signatures_of(keypairs: Seq<&Keypair>, message: Seq<u8>) -> Seq<Signature> {
    keypairs.map_values(|k: &Keypair| Keypair::signature_of(k.seed_spec(), message))
}

/// The account indices `0, 1, ..., n`.
pub open spec fn index_run(n: nat) -> Seq<u8> {
    Seq::new(n + 1, |i: int| i as u8)
}

impl Transaction {
    /// The bytes that the signatures sign.
    pub fn message(&self) -> (r: Vec<u8>)
        ensures
            r@ == message_spec(self@),
    {
        let mut out: Vec<u8> = Vec::new();
        append_u64(&mut out, self.account_keys.len() as u64);
        append_keys(&mut out, &self.account_keys);
        let blockhash = self.recent_blockhash.to_bytes();
        append_bytes(&mut out, &blockhash);
        append_u64(&mut out, self.fee);
        append_u64(&mut out, self.program_ids.len() as u64);
        append_keys(&mut out, &self.program_ids);
        append_u64(&mut out, self.instructions.len() as u64);
        append_instructions(&mut out, &self.instructions);
        proof {
            assert(out@ =~= message_spec(self@));
        }
        out
    }

    /// A transaction over the accounts of `from_keypairs`, then `keys`,
    /// signed by each of `from_keypairs` in turn.
    pub fn new_with_compiled_instructions(
        from_keypairs: &[&Keypair],
        keys: &[Pubkey],
        recent_blockhash: crate::hash::Hash,
        fee: u64,
        program_ids: Vec<Pubkey>,
        instructions: Vec<CompiledInstruction>,
    ) -> (r: Transaction)
        ensures
            r@.account_keys == signer_keys(from_keypairs@) + keys@,
            r@.recent_blockhash == recent_blockhash,
            r@.fee == fee,
            r@.program_ids == program_ids@,
            r@.instructions == instruction_views(instructions@),
            r@.signatures == signatures_of(from_keypairs@, message_spec(r@)),
    {
        let mut account_keys: Vec<Pubkey> = Vec::new();
        let mut i: usize = 0;
        while i < from_keypairs.len()
            invariant
                i <= from_keypairs.len(),
                account_keys@ == signer_keys(from_keypairs@.subrange(0, i as int)),
            decreases from_keypairs.len() - i,
        {
            account_keys.push(from_keypairs[i].pubkey());
            proof {
                assert(account_keys@ =~= signer_keys(from_keypairs@.subrange(0, i + 1)));
            }
            i += 1;
        }
        proof {
            assert(from_keypairs@.subrange(0, from_keypairs@.len() as int) =~= from_keypairs@);
        }
        let mut j: usize = 0;
        while j < keys.len()
            invariant
                j <= keys.len(),
                account_keys@ == signer_keys(from_keypairs@) + keys@.subrange(0, j as int),
            decreases keys.len() - j,
        {
            account_keys.push(keys[j]);
            proof {
                assert(account_keys@ =~= signer_keys(from_keypairs@) + keys@.subrange(0, j + 1));
            }
            j += 1;
        }
        proof {
            assert(keys@.subrange(0, keys@.len() as int) =~= keys@);
        }
        let mut tx = Transaction {
            signatures: Vec::new(),
            account_keys,
            recent_blockhash,
            fee,
            program_ids,
            instructions,
        };
        let message = tx.message();
        let ghost unsigned = tx@;
        let mut signatures: Vec<Signature> = Vec::new();
        let mut k: usize = 0;
        while k < from_keypairs.len()
            invariant
                k <= from_keypairs.len(),
                signatures@ == signatures_of(from_keypairs@.subrange(0, k as int), message@),
            decreases from_keypairs.len() - k,
        {
            signatures.push(from_keypairs[k].sign_message(message.as_slice()));
            proof {
                assert(signatures@ =~= signatures_of(
                    from_keypairs@.subrange(0, k + 1),
                    message@,
                ));
            }
            k += 1;
        }
        tx.signatures = signatures;
        proof {
            assert(message_spec(tx@) == message_spec(unsigned));
        }
        tx
    }

    /// An unsigned transaction of one instruction, which runs `program_id`
    /// on `from_pubkey` and `transaction_keys`, in that order.
    pub fn new_with_blockhash_and_fee(
        from_pubkey: &Pubkey,
        transaction_keys: &[Pubkey],
        program_id: &Pubkey,
        data: Vec<u8>,
        recent_blockhash: crate::hash::Hash,
        fee: u64,
    ) -> (r: Transaction)
        requires
            transaction_keys@.len() < 256,
        ensures
            r@ == Transaction::single_instruction_spec(
                Seq::empty(),
                *from_pubkey,
                transaction_keys@,
                *program_id,
                data@,
                recent_blockhash,
                fee,
            ),
    {
        let r = Transaction::unsigned_single(
            from_pubkey,
            transaction_keys,
            program_id,
            data,
            recent_blockhash,
            fee,
        );
        r
    }

    /// The transaction of one instruction over `from` and `keys`, with the
    /// given signatures.
    pub open spec fn single_instruction_spec(
        signatures: Seq<Signature>,
        from: Pubkey,
        keys: Seq<Pubkey>,
        program_id: Pubkey,
        data: Seq<u8>,
        recent_blockhash: crate::hash::Hash,
        fee: u64,
    ) -> TransactionView {
        TransactionView {
            signatures,
            account_keys: seq![from] + keys,
            recent_blockhash,
            fee,
            program_ids: seq![program_id],
            instructions: seq![
                InstructionView { program_ids_index: 0, accounts: index_run(keys.len()), data },
            ],
        }
    }

    fn unsigned_single(
        from_pubkey: &Pubkey,
        transaction_keys: &[Pubkey],
        program_id: &Pubkey,
        data: Vec<u8>,
        recent_blockhash: crate::hash::Hash,
        fee: u64,
    ) -> (r: Transaction)
        requires
            transaction_keys@.len() < 256,
        ensures
            r@ == Transaction::single_instruction_spec(
                Seq::empty(),
                *from_pubkey,
                transaction_keys@,
                *program_id,
                data@,
                recent_blockhash,
                fee,
            ),
    {
        let mut account_keys: Vec<Pubkey> = Vec::new();
        account_keys.push(*from_pubkey);
        let mut accounts: Vec<u8> = Vec::new();
        accounts.push(0u8);
        let mut j: usize = 0;
        while j < transaction_keys.len()
            invariant
                j <= transaction_keys.len() < 256,
                account_keys@ == seq![*from_pubkey] + transaction_keys@.subrange(0, j as int),
                accounts@ == index_run(j as nat),
            decreases transaction_keys.len() - j,
        {
            account_keys.push(transaction_keys[j]);
            accounts.push((j + 1) as u8);
            proof {
                assert(account_keys@ =~= seq![*from_pubkey] + transaction_keys@.subrange(
                    0,
                    j + 1,
                ));
                assert(accounts@ =~= index_run((j + 1) as nat));
            }
            j += 1;
        }
        proof {
            assert(transaction_keys@.subrange(0, transaction_keys@.len() as int)
                =~= transaction_keys@);
        }
        let mut program_ids: Vec<Pubkey> = Vec::new();
        program_ids.push(*program_id);
        let mut instructions: Vec<CompiledInstruction> = Vec::new();
        instructions.push(CompiledInstruction::new(0, data, accounts));
        let tx = Transaction {
            signatures: Vec::new(),
            account_keys,
            recent_blockhash,
            fee,
            program_ids,
            instructions,
        };
        proof {
            let want = Transaction::single_instruction_spec(
                Seq::empty(),
                *from_pubkey,
                transaction_keys@,
                *program_id,
                data@,
                recent_blockhash,
                fee,
            );
            assert(tx@.signatures =~= want.signatures);
            assert(tx@.program_ids =~= want.program_ids);
            assert(tx@.instructions =~= want.instructions);
        }
        tx
    }

    /// A transaction of one instruction, which runs `program_id` on the
    /// signer's account and `transaction_keys`, signed by `from_keypair`.
    pub fn new_signed(
        from_keypair: &Keypair,
        transaction_keys: &[Pubkey],
        program_id: &Pubkey,
        data: Vec<u8>,
        recent_blockhash: crate::hash::Hash,
        fee: u64,
    ) -> (r: Transaction)
        requires
            transaction_keys@.len() < 256,
        ensures
            r@ == Transaction::signed_single_spec(
                from_keypair,
                transaction_keys@,
                *program_id,
                data@,
                recent_blockhash,
                fee,
            ),
    {
        let mut tx = Transaction::unsigned_single(
            &from_keypair.pubkey(),
            transaction_keys,
            program_id,
            data,
            recent_blockhash,
            fee,
        );
        let message = tx.message();
        let ghost unsigned = tx@;
        let mut signatures: Vec<Signature> = Vec::new();
        signatures.push(from_keypair.sign_message(message.as_slice()));
        tx.signatures = signatures;
        proof {
            assert(message_spec(tx@) == message_spec(unsigned));
            assert(tx@.signatures =~= seq![
                Keypair::signature_of(from_keypair.seed_spec(), message_spec(unsigned)),
            ]);
        }
        tx
    }

    /// What `new_signed` builds: the transaction of one instruction, with
    /// the signer's signature of its message.
    pub open spec fn signed_single_spec(
        from_keypair: &Keypair,
        keys: Seq<Pubkey>,
        program_id: Pubkey,
        data: Seq<u8>,
        recent_blockhash: crate::hash::Hash,
        fee: u64,
    ) -> TransactionView {
        let unsigned = Transaction::single_instruction_spec(
            Seq::empty(),
            from_keypair.pubkey_spec(),
            keys,
            program_id,
            data,
            recent_blockhash,
            fee,
        );
        Transaction::single_instruction_spec(
            seq![Keypair::signature_of(from_keypair.seed_spec(), message_spec(unsigned))],
            from_keypair.pubkey_spec(),
            keys,
            program_id,
            data,
            recent_blockhash,
            fee,
        )
    }

    /// The address that signed for account `accounts_index` of instruction
    /// `instruction_index`, if one did: signers are the first accounts, one
    /// for each signature.
    pub fn signer_key(&self, instruction_index: usize, accounts_index: usize) -> (r: Option<Pubkey>)
        ensures
            r == Transaction::signer_key_spec(self@, instruction_index as int, accounts_index as int),
    {
        if instruction_index >= self.instructions.len() {
            return None;
        }
        let ix = &self.instructions[instruction_index];
        if accounts_index >= ix.accounts.len() {
            return None;
        }
        let key_index = ix.accounts[accounts_index] as usize;
        if key_index >= self.signatures.len() || key_index >= self.account_keys.len() {
            return None;
        }
        Some(self.account_keys[key_index])
    }

    pub open spec fn signer_key_spec(
        tx: TransactionView,
        instruction_index: int,
        accounts_index: int,
    ) -> Option<Pubkey> {
        if 0 <= instruction_index < tx.instructions.len() && 0 <= accounts_index
            < tx.instructions[instruction_index].accounts.len() {
            let key_index = tx.instructions[instruction_index].accounts[accounts_index] as int;
            if key_index < tx.signatures.len() && key_index < tx.account_keys.len() {
                Some(tx.account_keys[key_index])
            } else {
                None
            }
        } else {
            None
        }
    }
}

} // verus!
