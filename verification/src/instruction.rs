//! Instructions before they are compiled into a transaction: the program
//! by its address, and each account by its address with whether it signs.

use vstd::prelude::*;
use crate::account::copy_bytes;
use crate::pubkey::Pubkey;
use crate::signature::{Keypair, Signature};
use crate::transaction::{
    instruction_views, message_spec, signatures_of, signer_keys, CompiledInstruction,
    InstructionView, Transaction, TransactionView,
};

verus! {

pub struct InstructionSpec {
    pub program_id: Pubkey,
    pub data: Seq<u8>,
    pub accounts: Seq<(Pubkey, bool)>,
}

#[derive(Debug, PartialEq, Eq)]
pub struct Instruction {
    /// The program that runs the instruction.
    pub program_id: Pubkey,
    /// The program's input.
    pub data: Vec<u8>,
    /// The accounts that the program works on, each with whether the
    /// transaction must be signed with its address.
    pub accounts: Vec<(Pubkey, bool)>,
}

impl View for Instruction {
    type V = InstructionSpec;

    open spec fn view(&self) -> InstructionSpec {
        InstructionSpec { program_id: self.program_id, data: self.data@, accounts: self.accounts@ }
    }
}

impl Instruction {
    pub fn new(program_id: Pubkey, data: Vec<u8>, accounts: Vec<(Pubkey, bool)>) -> (r: Instruction)
        ensures
            r@ == (InstructionSpec { program_id, data: data@, accounts: accounts@ }),
    {
        Instruction { program_id, data, accounts }
    }
}

pub open spec fn instruction_specs(instructions: Seq<Instruction>) -> Seq<InstructionSpec> {
    instructions.map_values(|ix: Instruction| ix@)
}

/// A list of addresses with one more, unless the list holds it.
pub open spec fn with_key(keys: Seq<Pubkey>, key: Pubkey) -> Seq<Pubkey> {
    if keys.contains(key) {
        keys
    } else {
        keys.push(key)
    }
}

/// Whether one of the instructions asks for a signature of the address.
pub open spec fn must_sign(instructions: Seq<InstructionSpec>, key: Pubkey) -> bool {
    exists|i: int, j: int|
        0 <= i < instructions.len() && 0 <= j < instructions[i].accounts.len()
            && #[trigger] instructions[i].accounts[j] == (key, true)
}

/// The keys among the first `m` accounts of an instruction, added to a
/// list: those that sign, or those that no instruction asks to sign.
pub open spec fn keys_of_accounts(
    instructions: Seq<InstructionSpec>,
    keys: Seq<Pubkey>,
    accounts: Seq<(Pubkey, bool)>,
    signers: bool,
    m: int,
) -> Seq<Pubkey>
    decreases m,
{
    if m <= 0 {
        keys
    } else {
        let prev = keys_of_accounts(instructions, keys, accounts, signers, m - 1);
        let account = accounts[m - 1];
        if signers == must_sign(instructions, account.0) {
            with_key(prev, account.0)
        } else {
            prev
        }
    }
}

/// The keys of the first `n` instructions, added to a list, each once and
/// in the order in which the instructions name them: those that sign, or
/// those that no instruction asks to sign.
pub open spec fn keys_of(
    instructions: Seq<InstructionSpec>,
    keys: Seq<Pubkey>,
    signers: bool,
    n: int,
) -> Seq<Pubkey>
    decreases n,
{
    if n <= 0 {
        keys
    } else {
        keys_of_accounts(
            instructions,
            keys_of(instructions, keys, signers, n - 1),
            instructions[n - 1].accounts,
            signers,
            instructions[n - 1].accounts.len() as int,
        )
    }
}

/// The addresses of a transaction that holds the given instructions: the
/// signers first.
pub open spec fn compiled_keys(instructions: Seq<InstructionSpec>) -> Seq<Pubkey> {
    let n = instructions.len() as int;
    keys_of(instructions, keys_of(instructions, Seq::empty(), true, n), false, n)
}

/// The number of signers of a transaction that holds the given instructions.
pub open spec fn signer_count(instructions: Seq<InstructionSpec>) -> nat {
    keys_of(instructions, Seq::empty(), true, instructions.len() as int).len()
}

/// The programs of the first `n` instructions, each once and in the order
/// in which the instructions name them.
pub open spec fn compiled_programs(instructions: Seq<InstructionSpec>, n: int) -> Seq<Pubkey>
    decreases n,
{
    if n <= 0 {
        Seq::empty()
    } else {
        with_key(compiled_programs(instructions, n - 1), instructions[n - 1].program_id)
    }
}

/// The first place of an address in a list.
pub open spec fn place_of(keys: Seq<Pubkey>, key: Pubkey, from: int) -> int
    decreases keys.len() - from,
{
    if from < 0 || from >= keys.len() {
        from
    } else if keys[from] == key {
        from
    } else {
        place_of(keys, key, from + 1)
    }
}

/// An instruction as a transaction holds it: the program and the accounts
/// by their places in the transaction's lists.
pub open spec fn compiled_instruction(
    ix: InstructionSpec,
    keys: Seq<Pubkey>,
    programs: Seq<Pubkey>,
) -> InstructionView {
    InstructionView {
        program_ids_index: place_of(programs, ix.program_id, 0) as u8,
        accounts: Seq::new(ix.accounts.len(), |j: int| place_of(keys, ix.accounts[j].0, 0) as u8),
        data: ix.data,
    }
}

/// The transaction that holds the given instructions, unsigned: no
/// signatures, no fee, and the all-zero blockhash.
pub open spec fn compiled(instructions: Seq<InstructionSpec>) -> TransactionView {
    let keys = compiled_keys(instructions);
    let programs = compiled_programs(instructions, instructions.len() as int);
    TransactionView {
        signatures: Seq::empty(),
        account_keys: keys,
        recent_blockhash: crate::hash::Hash::zero(),
        fee: 0,
        program_ids: programs,
        instructions: Seq::new(
            instructions.len(),
            |i: int| compiled_instruction(instructions[i], keys, programs),
        ),
    }
}

proof fn lemma_place_of(keys: Seq<Pubkey>, key: Pubkey, from: int)
    requires
        0 <= from <= keys.len(),
    ensures
        from <= place_of(keys, key, from) <= keys.len(),
        place_of(keys, key, from) < keys.len() ==> keys[place_of(keys, key, from)] == key,
        (exists|k: int| from <= k < keys.len() && keys[k] == key) ==> place_of(keys, key, from)
            < keys.len(),
    decreases keys.len() - from,
{
    if from < keys.len() && keys[from] != key {
        lemma_place_of(keys, key, from + 1);
    }
}

fn position(keys: &Vec<Pubkey>, key: &Pubkey) -> (r: usize)
    ensures
        r == place_of(keys@, *key, 0),
        r <= keys@.len(),
        (r < keys@.len()) == keys@.contains(*key),
{
    let mut i: usize = 0;
    proof {
        lemma_place_of(keys@, *key, 0);
    }
    while i < keys.len()
        invariant
            i <= keys@.len(),
            place_of(keys@, *key, 0) == place_of(keys@, *key, i as int),
            forall|k: int| 0 <= k < i ==> keys@[k] != *key,
        decreases keys@.len() - i,
    {
        if keys[i] == *key {
            return i;
        }
        i += 1;
    }
    i
}

fn add_key(keys: &mut Vec<Pubkey>, key: &Pubkey)
    ensures
        final(keys)@ == with_key(old(keys)@, *key),
{
    if position(keys, key) == keys.len() {
        keys.push(*key);
    }
}

fn signs(instructions: &Vec<Instruction>, key: &Pubkey) -> (r: bool)
    ensures
        r == must_sign(instruction_specs(instructions@), *key),
{
    let ghost specs = instruction_specs(instructions@);
    let mut i: usize = 0;
    while i < instructions.len()
        invariant
            i <= instructions@.len(),
            specs == instruction_specs(instructions@),
            forall|a: int, b: int|
                0 <= a < i && 0 <= b < specs[a].accounts.len() ==> #[trigger] specs[a].accounts[b]
                    != (*key, true),
        decreases instructions@.len() - i,
    {
        assert(specs[i as int] == instructions@[i as int]@);
        let accounts = &instructions[i].accounts;
        let mut j: usize = 0;
        while j < accounts.len()
            invariant
                j <= accounts@.len(),
                i < instructions@.len(),
                specs == instruction_specs(instructions@),
                specs[i as int].accounts == accounts@,
                forall|a: int, b: int|
                    0 <= a < i && 0 <= b < specs[a].accounts.len()
                        ==> #[trigger] specs[a].accounts[b] != (*key, true),
                forall|b: int| 0 <= b < j ==> accounts@[b] != (*key, true),
            decreases accounts@.len() - j,
        {
            if accounts[j].0 == *key && accounts[j].1 {
                assert(specs[i as int].accounts[j as int] == (*key, true));
                return true;
            }
            j += 1;
        }
        i += 1;
    }
    false
}

fn add_keys(instructions: &Vec<Instruction>, keys: &mut Vec<Pubkey>, signers: bool)
    ensures
        final(keys)@ == keys_of(
            instruction_specs(instructions@),
            old(keys)@,
            signers,
            instructions@.len() as int,
        ),
{
    let ghost specs = instruction_specs(instructions@);
    let ghost start = keys@;
    let mut i: usize = 0;
    while i < instructions.len()
        invariant
            i <= instructions@.len(),
            specs == instruction_specs(instructions@),
            keys@ == keys_of(specs, start, signers, i as int),
        decreases instructions@.len() - i,
    {
        assert(specs[i as int] == instructions@[i as int]@);
        let accounts = &instructions[i].accounts;
        let ghost before = keys@;
        let mut j: usize = 0;
        while j < accounts.len()
            invariant
                j <= accounts@.len(),
                specs == instruction_specs(instructions@),
                keys@ == keys_of_accounts(specs, before, accounts@, signers, j as int),
            decreases accounts@.len() - j,
        {
            if signers == signs(instructions, &accounts[j].0) {
                add_key(keys, &accounts[j].0);
            }
            j += 1;
        }
        i += 1;
    }
}

/// Folding more accounts in keeps the keys that are there.
proof fn lemma_keys_of_accounts_keeps(
    instructions: Seq<InstructionSpec>,
    keys: Seq<Pubkey>,
    accounts: Seq<(Pubkey, bool)>,
    signers: bool,
    m: int,
    key: Pubkey,
)
    requires
        0 <= m <= accounts.len(),
    ensures
        keys.contains(key) ==> keys_of_accounts(instructions, keys, accounts, signers, m).contains(
            key,
        ),
        forall|b: int|
            0 <= b < m && accounts[b].0 == key && signers == must_sign(instructions, key)
                ==> keys_of_accounts(instructions, keys, accounts, signers, m).contains(key),
    decreases m,
{
    if m > 0 {
        lemma_keys_of_accounts_keeps(instructions, keys, accounts, signers, m - 1, key);
        let prev = keys_of_accounts(instructions, keys, accounts, signers, m - 1);
        let next = keys_of_accounts(instructions, keys, accounts, signers, m);
        if prev.contains(key) {
            let c = choose|c: int| 0 <= c < prev.len() && prev[c] == key;
            assert(next[c] == key);
        }
        if accounts[m - 1].0 == key && signers == must_sign(instructions, key) {
            if !prev.contains(key) {
                assert(next.last() == key);
            }
        }
    }
}

proof fn lemma_keys_of_keeps(
    instructions: Seq<InstructionSpec>,
    keys: Seq<Pubkey>,
    signers: bool,
    n: int,
    key: Pubkey,
)
    requires
        0 <= n <= instructions.len(),
    ensures
        keys.contains(key) ==> keys_of(instructions, keys, signers, n).contains(key),
        forall|a: int, b: int|
            0 <= a < n && 0 <= b < instructions[a].accounts.len() && instructions[a].accounts[b].0
                == key && signers == must_sign(instructions, key) ==> keys_of(
                instructions,
                keys,
                signers,
                n,
            ).contains(key),
    decreases n,
{
    if n > 0 {
        lemma_keys_of_keeps(instructions, keys, signers, n - 1, key);
        let prev = keys_of(instructions, keys, signers, n - 1);
        let accounts = instructions[n - 1].accounts;
        lemma_keys_of_accounts_keeps(
            instructions,
            prev,
            accounts,
            signers,
            accounts.len() as int,
            key,
        );
    }
}

/// The number of accounts that the first `n` instructions name.
pub open spec fn account_count(instructions: Seq<InstructionSpec>, n: int) -> int
    decreases n,
{
    if n <= 0 {
        0
    } else {
        account_count(instructions, n - 1) + instructions[n - 1].accounts.len()
    }
}

proof fn lemma_keys_of_accounts_len(
    instructions: Seq<InstructionSpec>,
    keys: Seq<Pubkey>,
    accounts: Seq<(Pubkey, bool)>,
    signers: bool,
    m: int,
)
    requires
        0 <= m,
    ensures
        keys.len() <= keys_of_accounts(instructions, keys, accounts, signers, m).len() <= keys.len()
            + m,
    decreases m,
{
    if m > 0 {
        lemma_keys_of_accounts_len(instructions, keys, accounts, signers, m - 1);
    }
}

proof fn lemma_keys_of_len(
    instructions: Seq<InstructionSpec>,
    keys: Seq<Pubkey>,
    signers: bool,
    n: int,
)
    requires
        0 <= n,
    ensures
        keys.len() <= keys_of(instructions, keys, signers, n).len() <= keys.len() + account_count(
            instructions,
            n,
        ),
        account_count(instructions, n) >= 0,
    decreases n,
{
    if n > 0 {
        lemma_keys_of_len(instructions, keys, signers, n - 1);
        lemma_keys_of_accounts_len(
            instructions,
            keys_of(instructions, keys, signers, n - 1),
            instructions[n - 1].accounts,
            signers,
            instructions[n - 1].accounts.len() as int,
        );
    }
}

proof fn lemma_programs_len(instructions: Seq<InstructionSpec>, n: int)
    requires
        0 <= n,
    ensures
        compiled_programs(instructions, n).len() <= n,
    decreases n,
{
    if n > 0 {
        lemma_programs_len(instructions, n - 1);
    }
}

/// A transaction holds no more addresses than its instructions name
/// accounts, and no more programs than instructions.
pub proof fn lemma_compiled_sizes(instructions: Seq<InstructionSpec>)
    ensures
        compiled_keys(instructions).len() <= account_count(
            instructions,
            instructions.len() as int,
        ),
        signer_count(instructions) <= compiled_keys(instructions).len(),
        compiled_programs(instructions, instructions.len() as int).len() <= instructions.len(),
{
    let n = instructions.len() as int;
    lemma_keys_of_len(instructions, Seq::empty(), true, n);
    lemma_keys_of_len(instructions, keys_of(instructions, Seq::empty(), true, n), false, n);
    lemma_programs_len(instructions, n);
    lemma_keys_split(instructions, n);
}

/// The signers and the others together are no more than the accounts.
proof fn lemma_keys_split(instructions: Seq<InstructionSpec>, n: int)
    requires
        0 <= n <= instructions.len(),
    ensures
        keys_of(
            instructions,
            keys_of(instructions, Seq::empty(), true, instructions.len() as int),
            false,
            n,
        ).len() - keys_of(instructions, Seq::empty(), true, instructions.len() as int).len()
            + keys_of(instructions, Seq::empty(), true, n).len() <= account_count(instructions, n),
    decreases n,
{
    let all = instructions.len() as int;
    let signed = keys_of(instructions, Seq::empty(), true, all);
    if n > 0 {
        lemma_keys_split(instructions, n - 1);
        let accounts = instructions[n - 1].accounts;
        lemma_accounts_split(
            instructions,
            keys_of(instructions, Seq::empty(), true, n - 1),
            keys_of(instructions, signed, false, n - 1),
            accounts,
            accounts.len() as int,
        );
    }
}

proof fn lemma_accounts_split(
    instructions: Seq<InstructionSpec>,
    signed: Seq<Pubkey>,
    others: Seq<Pubkey>,
    accounts: Seq<(Pubkey, bool)>,
    m: int,
)
    requires
        0 <= m,
    ensures
        keys_of_accounts(instructions, signed, accounts, true, m).len() - signed.len()
            + keys_of_accounts(instructions, others, accounts, false, m).len() - others.len()
            <= m,
        keys_of_accounts(instructions, signed, accounts, true, m).len() >= signed.len(),
        keys_of_accounts(instructions, others, accounts, false, m).len() >= others.len(),
    decreases m,
{
    if m > 0 {
        lemma_accounts_split(instructions, signed, others, accounts, m - 1);
    }
}

/// Every account of the instructions has its address among the compiled keys.
pub proof fn lemma_compiled_keys_hold(instructions: Seq<InstructionSpec>, a: int, b: int)
    requires
        0 <= a < instructions.len(),
        0 <= b < instructions[a].accounts.len(),
    ensures
        compiled_keys(instructions).contains(instructions[a].accounts[b].0),
{
    let n = instructions.len() as int;
    let key = instructions[a].accounts[b].0;
    let signed = keys_of(instructions, Seq::empty(), true, n);
    lemma_keys_of_keeps(instructions, Seq::empty(), true, n, key);
    lemma_keys_of_keeps(instructions, signed, false, n, key);
}

proof fn lemma_programs_hold(instructions: Seq<InstructionSpec>, n: int, a: int)
    requires
        0 <= a < n <= instructions.len(),
    ensures
        compiled_programs(instructions, n).contains(instructions[a].program_id),
    decreases n,
{
    let prev = compiled_programs(instructions, n - 1);
    let next = compiled_programs(instructions, n);
    if a < n - 1 {
        lemma_programs_hold(instructions, n - 1, a);
        let c = choose|c: int| 0 <= c < prev.len() && prev[c] == instructions[a].program_id;
        assert(next[c] == instructions[a].program_id);
    } else {
        if prev.contains(instructions[a].program_id) {
            let c = choose|c: int| 0 <= c < prev.len() && prev[c] == instructions[a].program_id;
            assert(next[c] == instructions[a].program_id);
        } else {
            assert(next.last() == instructions[a].program_id);
        }
    }
}

impl Transaction {
    /// The unsigned transaction that holds the given instructions. Its
    /// addresses are those of the instructions' accounts, each once: first
    /// those that an instruction asks to sign, then the others. `None`
    /// where the transaction would hold more than 256 addresses or programs.
    pub fn new(instructions: Vec<Instruction>) -> (r: Option<Transaction>)
        ensures
            match r {
                Some(tx) => tx@ == compiled(instruction_specs(instructions@)),
                None => compiled_keys(instruction_specs(instructions@)).len() > 256
                    || compiled_programs(
                    instruction_specs(instructions@),
                    instructions@.len() as int,
                ).len() > 256,
            },
    {
        let ghost specs = instruction_specs(instructions@);
        let mut account_keys: Vec<Pubkey> = Vec::new();
        add_keys(&instructions, &mut account_keys, true);
        add_keys(&instructions, &mut account_keys, false);
        let mut program_ids: Vec<Pubkey> = Vec::new();
        let mut p: usize = 0;
        while p < instructions.len()
            invariant
                p <= instructions@.len(),
                specs == instruction_specs(instructions@),
                program_ids@ == compiled_programs(specs, p as int),
            decreases instructions@.len() - p,
        {
            assert(specs[p as int] == instructions@[p as int]@);
            add_key(&mut program_ids, &instructions[p].program_id);
            p += 1;
        }
        if account_keys.len() > 256 || program_ids.len() > 256 {
            return None;
        }
        let mut compiled_list: Vec<CompiledInstruction> = Vec::new();
        let mut i: usize = 0;
        while i < instructions.len()
            invariant
                i <= instructions@.len(),
                specs == instruction_specs(instructions@),
                account_keys@ == compiled_keys(specs),
                program_ids@ == compiled_programs(specs, specs.len() as int),
                account_keys@.len() <= 256,
                program_ids@.len() <= 256,
                compiled_list@.len() == i,
                forall|k: int|
                    0 <= k < i ==> (#[trigger] compiled_list@[k])@ == compiled_instruction(
                        specs[k],
                        account_keys@,
                        program_ids@,
                    ),
            decreases instructions@.len() - i,
        {
            assert(specs[i as int] == instructions@[i as int]@);
            let ix = &instructions[i];
            proof {
                lemma_programs_hold(specs, specs.len() as int, i as int);
            }
            let program_index = position(&program_ids, &ix.program_id);
            let mut accounts: Vec<u8> = Vec::new();
            let mut j: usize = 0;
            while j < ix.accounts.len()
                invariant
                    j <= ix.accounts@.len(),
                    i < instructions@.len(),
                    specs == instruction_specs(instructions@),
                    specs[i as int] == ix@,
                    account_keys@ == compiled_keys(specs),
                    account_keys@.len() <= 256,
                    accounts@.len() == j,
                    forall|k: int|
                        0 <= k < j ==> #[trigger] accounts@[k] == place_of(
                            account_keys@,
                            ix.accounts@[k].0,
                            0,
                        ) as u8,
                decreases ix.accounts@.len() - j,
            {
                proof {
                    lemma_compiled_keys_hold(specs, i as int, j as int);
                }
                let place = position(&account_keys, &ix.accounts[j].0);
                accounts.push(place as u8);
                j += 1;
            }
            let compiled_ix = CompiledInstruction {
                program_ids_index: program_index as u8,
                accounts,
                data: copy_bytes(&ix.data),
            };
            proof {
                let want = compiled_instruction(specs[i as int], account_keys@, program_ids@);
                assert(compiled_ix@.accounts =~= want.accounts);
            }
            compiled_list.push(compiled_ix);
            i += 1;
        }
        let tx = Transaction {
            signatures: Vec::new(),
            account_keys,
            recent_blockhash: crate::hash::Hash::default(),
            fee: 0,
            program_ids,
            instructions: compiled_list,
        };
        proof {
            assert(tx@.instructions =~= compiled(specs).instructions);
            assert(tx@.signatures =~= compiled(specs).signatures);
        }
        Some(tx)
    }

    /// Signs the transaction with the key pairs of its first accounts, in
    /// their order, over the given blockhash. Where the key pairs are not
    /// those of the first accounts the transaction is left as it is, and
    /// the answer is `false`.
    pub fn sign(&mut self, keypairs: &[&Keypair], recent_blockhash: crate::hash::Hash) -> (r: bool)
        ensures
            r == (keypairs@.len() <= old(self)@.account_keys.len() && signer_keys(keypairs@)
                == old(self)@.account_keys.subrange(0, keypairs@.len() as int)),
            !r ==> final(self)@ == old(self)@,
            r ==> final(self)@ == (TransactionView {
                recent_blockhash,
                signatures: signatures_of(
                    keypairs@,
                    message_spec(TransactionView { recent_blockhash, ..old(self)@ }),
                ),
                ..old(self)@
            }),
    {
        if keypairs.len() > self.account_keys.len() {
            return false;
        }
        let mut i: usize = 0;
        while i < keypairs.len()
            invariant
                i <= keypairs@.len() <= self.account_keys@.len(),
                *self == *old(self),
                forall|k: int|
                    0 <= k < i ==> (#[trigger] keypairs@[k]).pubkey_spec() == self.account_keys@[k],
            decreases keypairs@.len() - i,
        {
            if keypairs[i].pubkey() != self.account_keys[i] {
                proof {
                    assert(signer_keys(keypairs@)[i as int] != self@.account_keys.subrange(
                        0,
                        keypairs@.len() as int,
                    )[i as int]);
                }
                return false;
            }
            i += 1;
        }
        proof {
            assert(signer_keys(keypairs@) =~= self@.account_keys.subrange(
                0,
                keypairs@.len() as int,
            ));
        }
        self.recent_blockhash = recent_blockhash;
        let message = self.message();
        let ghost stamped = self@;
        let mut signatures: Vec<Signature> = Vec::new();
        let mut k: usize = 0;
        while k < keypairs.len()
            invariant
                k <= keypairs@.len(),
                signatures@ == signatures_of(keypairs@.subrange(0, k as int), message@),
            decreases keypairs@.len() - k,
        {
            signatures.push(keypairs[k].sign_message(message.as_slice()));
            proof {
                assert(signatures@ =~= signatures_of(
                    keypairs@.subrange(0, k + 1),
                    message@,
                ));
            }
            k += 1;
        }
        proof {
            assert(keypairs@.subrange(0, keypairs@.len() as int) =~= keypairs@);
            assert(message_spec(stamped) == message_spec(
                TransactionView { recent_blockhash, ..old(self)@ },
            ));
        }
        self.signatures = signatures;
        true
    }
}

} // verus!
