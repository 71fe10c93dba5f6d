//! The instructions of the budget program: payment plans that pay out when
//! their conditions are met, and the witnesses that meet them.

use vstd::prelude::*;
use vstd::bytes::*;
use crate::instruction::{
    account_count, compiled, compiled_keys, compiled_programs, keys_of, keys_of_accounts,
    lemma_compiled_sizes, must_sign, with_key, Instruction, InstructionSpec,
};
use crate::pubkey::Pubkey;
use crate::signature::Keypair;
use crate::transaction::{append_bytes, message_spec, Transaction, TransactionView};
use crate::word256::Word256;

verus! {

/// The address of the budget program.
pub open spec fn id_spec() -> Pubkey {
    Pubkey { id: Word256 { w0: 129, w1: 0, w2: 0, w3: 0 } }
}

pub fn id() -> (r: Pubkey)
    ensures
        r == id_spec(),
{
    Pubkey { id: Word256 { w0: 129, w1: 0, w2: 0, w3: 0 } }
}

pub fn check_id(program_id: &Pubkey) -> (r: bool)
    ensures
        r == (*program_id == id_spec()),
{
    *program_id == id()
}

/// A moment in universal time: the seconds since the Unix epoch, which may
/// be negative, and the nanoseconds into that second.
#[derive(Clone, Copy, Debug, PartialEq, Eq, Structural)]
pub struct Timestamp {
    pub seconds: i64,
    pub nanos: u32,
}

impl Timestamp {
    /// The moment that lies `millis` milliseconds after the Unix epoch.
    pub fn from_millis(millis: u64) -> (r: Timestamp)
        ensures
            r.seconds == millis / 1000,
            r.nanos == (millis % 1000) * 1_000_000,
    {
        Timestamp { seconds: (millis / 1000) as i64, nanos: ((millis % 1000) * 1_000_000) as u32 }
    }
}

/// The events that a payment plan waits for.
#[derive(Clone, Copy, Debug, PartialEq, Eq, Structural)]
pub enum Witness {
    /// The current time.
    Timestamp(Timestamp),
    /// A signature of the transaction's first account.
    Signature,
}

/// Some lamports that are to be paid to an address.
#[derive(Clone, Copy, Debug, PartialEq, Eq, Structural)]
pub struct Payment {
    /// The amount to be paid.
    pub lamports: u64,
    /// The address that the lamports are to be paid to.
    pub to: Pubkey,
}

/// What a payment waits for.
#[derive(Clone, Copy, Debug, PartialEq, Eq, Structural)]
pub enum Condition {
    /// The given address says that the given time has passed.
    Timestamp(Timestamp, Pubkey),
    /// The given address signs.
    Signature(Pubkey),
}

/// A payment plan.
#[derive(Clone, Copy, Debug, PartialEq, Eq)]
pub enum BudgetExpr {
    /// Pay at once.
    Pay(Payment),
    /// Pay when the condition is met.
    After(Condition, Payment),
    /// Make the payment whose condition is met first.
    Or((Condition, Payment), (Condition, Payment)),
    /// Pay when both conditions are met.
    And(Condition, Condition, Payment),
}

/// A contract: a payment plan and the lamports set aside for it.
#[derive(Clone, Copy, Debug, PartialEq, Eq)]
pub struct Contract {
    /// The lamports set aside for the plan and for fees.
    pub lamports: u64,
    pub budget_expr: BudgetExpr,
}

/// An instruction that moves a contract on.
#[derive(Clone, Copy, Debug, PartialEq, Eq)]
pub enum BudgetInstruction {
    /// Set up the contract's account with a payment plan.
    InitializeAccount(BudgetExpr),
    /// Tell the plan that the given time has passed.
    ApplyTimestamp(Timestamp),
    /// Tell the plan that the transaction's first account has signed.
    ApplySignature,
}

pub open spec fn timestamp_bytes(t: Timestamp) -> Seq<u8> {
    spec_u64_to_le_bytes(t.seconds as u64) + spec_u32_to_le_bytes(t.nanos)
}

pub open spec fn payment_bytes(p: Payment) -> Seq<u8> {
    spec_u64_to_le_bytes(p.lamports) + p.to.to_bytes_spec()
}

pub open spec fn condition_bytes(c: Condition) -> Seq<u8> {
    match c {
        Condition::Timestamp(t, from) => spec_u32_to_le_bytes(0) + timestamp_bytes(t)
            + from.to_bytes_spec(),
        Condition::Signature(from) => spec_u32_to_le_bytes(1) + from.to_bytes_spec(),
    }
}

pub open spec fn expr_bytes(e: BudgetExpr) -> Seq<u8> {
    match e {
        BudgetExpr::Pay(p) => spec_u32_to_le_bytes(0) + payment_bytes(p),
        BudgetExpr::After(c, p) => spec_u32_to_le_bytes(1) + condition_bytes(c) + payment_bytes(p),
        BudgetExpr::Or(a, b) => spec_u32_to_le_bytes(2) + condition_bytes(a.0) + payment_bytes(a.1)
            + condition_bytes(b.0) + payment_bytes(b.1),
        BudgetExpr::And(a, b, p) => spec_u32_to_le_bytes(3) + condition_bytes(a) + condition_bytes(
            b,
        ) + payment_bytes(p),
    }
}

fn append_timestamp(out: &mut Vec<u8>, t: &Timestamp)
    ensures
        final(out)@ == old(out)@ + timestamp_bytes(*t),
{
    append_bytes(out, &u64_to_le_bytes(t.seconds as u64));
    append_bytes(out, &u32_to_le_bytes(t.nanos));
    proof {
        assert(out@ =~= old(out)@ + timestamp_bytes(*t));
    }
}

fn append_payment(out: &mut Vec<u8>, p: &Payment)
    ensures
        final(out)@ == old(out)@ + payment_bytes(*p),
{
    append_bytes(out, &u64_to_le_bytes(p.lamports));
    append_bytes(out, &p.to.to_bytes());
    proof {
        assert(out@ =~= old(out)@ + payment_bytes(*p));
    }
}

fn append_condition(out: &mut Vec<u8>, c: &Condition)
    ensures
        final(out)@ == old(out)@ + condition_bytes(*c),
{
    match c {
        Condition::Timestamp(t, from) => {
            append_bytes(out, &u32_to_le_bytes(0));
            append_timestamp(out, t);
            append_bytes(out, &from.to_bytes());
        },
        Condition::Signature(from) => {
            append_bytes(out, &u32_to_le_bytes(1));
            append_bytes(out, &from.to_bytes());
        },
    }
    proof {
        assert(out@ =~= old(out)@ + condition_bytes(*c));
    }
}

impl BudgetExpr {
    /// The encoding of a plan: a 4-byte tag, then its conditions and
    /// payments in order.
    pub fn serialize(&self) -> (r: Vec<u8>)
        ensures
            r@ == expr_bytes(*self),
    {
        let mut out: Vec<u8> = Vec::new();
        match self {
            BudgetExpr::Pay(p) => {
                append_bytes(&mut out, &u32_to_le_bytes(0));
                append_payment(&mut out, p);
            },
            BudgetExpr::After(c, p) => {
                append_bytes(&mut out, &u32_to_le_bytes(1));
                append_condition(&mut out, c);
                append_payment(&mut out, p);
            },
            BudgetExpr::Or(a, b) => {
                append_bytes(&mut out, &u32_to_le_bytes(2));
                append_condition(&mut out, &a.0);
                append_payment(&mut out, &a.1);
                append_condition(&mut out, &b.0);
                append_payment(&mut out, &b.1);
            },
            BudgetExpr::And(a, b, p) => {
                append_bytes(&mut out, &u32_to_le_bytes(3));
                append_condition(&mut out, a);
                append_condition(&mut out, b);
                append_payment(&mut out, p);
            },
        }
        proof {
            assert(out@ =~= expr_bytes(*self));
        }
        out
    }
}

impl BudgetInstruction {
    /// The encoding of an instruction: a 4-byte tag, then the plan or the time.
    pub open spec fn serialize_spec(self) -> Seq<u8> {
        match self {
            BudgetInstruction::InitializeAccount(expr) => spec_u32_to_le_bytes(0) + expr_bytes(
                expr,
            ),
            BudgetInstruction::ApplyTimestamp(t) => spec_u32_to_le_bytes(1) + timestamp_bytes(t),
            BudgetInstruction::ApplySignature => spec_u32_to_le_bytes(2),
        }
    }

    pub fn serialize(&self) -> (r: Vec<u8>)
        ensures
            r@ == self.serialize_spec(),
    {
        match self {
            BudgetInstruction::InitializeAccount(expr) => {
                let mut out = u32_to_le_bytes(0);
                append_bytes(&mut out, &expr.serialize());
                out
            },
            BudgetInstruction::ApplyTimestamp(t) => {
                let mut out = u32_to_le_bytes(1);
                append_timestamp(&mut out, t);
                out
            },
            BudgetInstruction::ApplySignature => u32_to_le_bytes(2),
        }
    }

    /// The accounts of an instruction that sets a contract up: the payee
    /// first if the plan pays at once, then the contract.
    pub open spec fn initialize_keys(contract: Pubkey, expr: BudgetExpr) -> Seq<(Pubkey, bool)> {
        match expr {
            BudgetExpr::Pay(payment) => seq![(payment.to, false), (contract, false)],
            _ => seq![(contract, false)],
        }
    }

    /// The accounts of an instruction that applies a witness: the witness,
    /// who signs, the contract, and the payee unless the witness is the payee.
    pub open spec fn apply_keys(from: Pubkey, contract: Pubkey, to: Pubkey) -> Seq<(Pubkey, bool)> {
        if from != to {
            seq![(from, true), (contract, false), (to, false)]
        } else {
            seq![(from, true), (contract, false)]
        }
    }

    /// The instruction that sets up the account of `contract` with a plan.
    pub fn new_initialize_account(contract: &Pubkey, expr: BudgetExpr) -> (r: Instruction)
        ensures
            r@ == (InstructionSpec {
                program_id: id_spec(),
                data: BudgetInstruction::InitializeAccount(expr).serialize_spec(),
                accounts: BudgetInstruction::initialize_keys(*contract, expr),
            }),
    {
        let mut keys: Vec<(Pubkey, bool)> = Vec::new();
        if let BudgetExpr::Pay(payment) = &expr {
            keys.push((payment.to, false));
        }
        keys.push((*contract, false));
        proof {
            assert(keys@ =~= BudgetInstruction::initialize_keys(*contract, expr));
        }
        Instruction::new(id(), BudgetInstruction::InitializeAccount(expr).serialize(), keys)
    }

    /// The instruction by which `from` tells `contract` that the time `dt`
    /// has passed.
    pub fn new_apply_timestamp(from: &Pubkey, contract: &Pubkey, to: &Pubkey, dt: Timestamp) -> (r:
        Instruction)
        ensures
            r@ == (InstructionSpec {
                program_id: id_spec(),
                data: BudgetInstruction::ApplyTimestamp(dt).serialize_spec(),
                accounts: BudgetInstruction::apply_keys(*from, *contract, *to),
            }),
    {
        let mut keys: Vec<(Pubkey, bool)> = Vec::new();
        keys.push((*from, true));
        keys.push((*contract, false));
        if *from != *to {
            keys.push((*to, false));
        }
        proof {
            assert(keys@ =~= BudgetInstruction::apply_keys(*from, *contract, *to));
        }
        Instruction::new(id(), BudgetInstruction::ApplyTimestamp(dt).serialize(), keys)
    }

    /// The instruction by which `from` tells `contract` that it has signed.
    pub fn new_apply_signature(from: &Pubkey, contract: &Pubkey, to: &Pubkey) -> (r: Instruction)
        ensures
            r@ == (InstructionSpec {
                program_id: id_spec(),
                data: BudgetInstruction::ApplySignature.serialize_spec(),
                accounts: BudgetInstruction::apply_keys(*from, *contract, *to),
            }),
    {
        let mut keys: Vec<(Pubkey, bool)> = Vec::new();
        keys.push((*from, true));
        keys.push((*contract, false));
        if *from != *to {
            keys.push((*to, false));
        }
        proof {
            assert(keys@ =~= BudgetInstruction::apply_keys(*from, *contract, *to));
        }
        Instruction::new(id(), BudgetInstruction::ApplySignature.serialize(), keys)
    }
}

/// The transactions by which a witness moves a contract on.
pub struct BudgetTransaction {}

/// The transaction that holds one instruction, signed by `from` over the
/// given blockhash.
pub open spec fn signed_instruction(
    from: &Keypair,
    ix: InstructionSpec,
    recent_blockhash: crate::hash::Hash,
) -> TransactionView {
    let stamped = TransactionView { recent_blockhash, ..compiled(seq![ix]) };
    TransactionView {
        signatures: seq![Keypair::signature_of(from.seed_spec(), message_spec(stamped))],
        ..stamped
    }
}

/// The instruction of a witness has the witness as its first address.
proof fn lemma_witness_first(from: Pubkey, contract: Pubkey, to: Pubkey, data: Seq<u8>)
    ensures
        ({
            let ix = InstructionSpec {
                program_id: id_spec(),
                data,
                accounts: BudgetInstruction::apply_keys(from, contract, to),
            };
            compiled_keys(seq![ix]).len() > 0 && compiled_keys(seq![ix])[0] == from
        }),
{
    let accounts = BudgetInstruction::apply_keys(from, contract, to);
    let ix = InstructionSpec { program_id: id_spec(), data, accounts };
    let ixs = seq![ix];
    assert(ixs[0].accounts[0] == (from, true));
    assert(must_sign(ixs, from));
    reveal_with_fuel(keys_of, 2);
    reveal_with_fuel(keys_of_accounts, 4);
    let none = Seq::<Pubkey>::empty();
    let one = keys_of_accounts(ixs, none, accounts, true, 1);
    assert(one == with_key(none, from));
    assert(one =~= seq![from]);
    let signed = keys_of(ixs, none, true, 1);
    assert(signed.len() >= 1 && signed[0] == from) by {
        lemma_prefix_kept(ixs, none, accounts, true, 1, accounts.len() as int);
    }
    let all = keys_of(ixs, signed, false, 1);
    assert(all.len() >= 1 && all[0] == from) by {
        lemma_prefix_kept(ixs, signed, accounts, false, 0, accounts.len() as int);
    }
}

/// Folding more accounts in keeps the first key where it is.
proof fn lemma_prefix_kept(
    instructions: Seq<InstructionSpec>,
    keys: Seq<Pubkey>,
    accounts: Seq<(Pubkey, bool)>,
    signers: bool,
    m: int,
    n: int,
)
    requires
        0 <= m <= n,
        keys_of_accounts(instructions, keys, accounts, signers, m).len() > 0,
    ensures
        keys_of_accounts(instructions, keys, accounts, signers, n).len() > 0,
        keys_of_accounts(instructions, keys, accounts, signers, n)[0] == keys_of_accounts(
            instructions,
            keys,
            accounts,
            signers,
            m,
        )[0],
    decreases n - m,
{
    if m < n {
        lemma_prefix_kept(instructions, keys, accounts, signers, m, n - 1);
    }
}

impl BudgetTransaction {
    fn signed_by(from_keypair: &Keypair, ix: Instruction, recent_blockhash: crate::hash::Hash) -> (r:
        Transaction)
        requires
            ix@.accounts.len() <= 3,
            compiled_keys(seq![ix@]).len() > 0,
            compiled_keys(seq![ix@])[0] == from_keypair.pubkey_spec(),
        ensures
            r@ == signed_instruction(from_keypair, ix@, recent_blockhash),
    {
        let ghost spec = ix@;
        let mut instructions: Vec<Instruction> = Vec::new();
        instructions.push(ix);
        proof {
            assert(crate::instruction::instruction_specs(instructions@) =~= seq![spec]);
            lemma_compiled_sizes(seq![spec]);
            reveal_with_fuel(account_count, 2);
        }
        match Transaction::new(instructions) {
            Some(mut tx) => {
                let signers: [&Keypair; 1] = [from_keypair];
                proof {
                    assert(signers@ =~= seq![from_keypair]);
                    assert(crate::transaction::signer_keys(signers@) =~= tx@.account_keys.subrange(
                        0,
                        1,
                    ));
                }
                let ghost unsigned = tx@;
                let signed = tx.sign(signers.as_slice(), recent_blockhash);
                proof {
                    let stamped = TransactionView { recent_blockhash, ..unsigned };
                    assert(tx@.signatures =~= seq![
                        Keypair::signature_of(from_keypair.seed_spec(), message_spec(stamped)),
                    ]);
                }
                tx
            },
            None => vstd::pervasive::unreached(),
        }
    }

    /// The signed transaction by which `from_keypair` tells `contract`,
    /// which pays `to`, that the time `dt` has passed.
    pub fn new_timestamp(
        from_keypair: &Keypair,
        contract: &Pubkey,
        to: &Pubkey,
        dt: Timestamp,
        recent_blockhash: crate::hash::Hash,
    ) -> (r: Transaction)
        ensures
            r@ == signed_instruction(
                from_keypair,
                InstructionSpec {
                    program_id: id_spec(),
                    data: BudgetInstruction::ApplyTimestamp(dt).serialize_spec(),
                    accounts: BudgetInstruction::apply_keys(
                        from_keypair.pubkey_spec(),
                        *contract,
                        *to,
                    ),
                },
                recent_blockhash,
            ),
    {
        let from = from_keypair.pubkey();
        let ix = BudgetInstruction::new_apply_timestamp(&from, contract, to, dt);
        proof {
            lemma_witness_first(
                from,
                *contract,
                *to,
                BudgetInstruction::ApplyTimestamp(dt).serialize_spec(),
            );
        }
        BudgetTransaction::signed_by(from_keypair, ix, recent_blockhash)
    }

    /// The signed transaction by which `from_keypair` tells `contract`,
    /// which pays `to`, that it has signed.
    pub fn new_signature(
        from_keypair: &Keypair,
        contract: &Pubkey,
        to: &Pubkey,
        recent_blockhash: crate::hash::Hash,
    ) -> (r: Transaction)
        ensures
            r@ == signed_instruction(
                from_keypair,
                InstructionSpec {
                    program_id: id_spec(),
                    data: BudgetInstruction::ApplySignature.serialize_spec(),
                    accounts: BudgetInstruction::apply_keys(
                        from_keypair.pubkey_spec(),
                        *contract,
                        *to,
                    ),
                },
                recent_blockhash,
            ),
    {
        let from = from_keypair.pubkey();
        let ix = BudgetInstruction::new_apply_signature(&from, contract, to);
        proof {
            lemma_witness_first(
                from,
                *contract,
                *to,
                BudgetInstruction::ApplySignature.serialize_spec(),
            );
        }
        BudgetTransaction::signed_by(from_keypair, ix, recent_blockhash)
    }
}

} // verus!
