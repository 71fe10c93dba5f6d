//! Builders for signed transactions that carry system instructions.

use vstd::prelude::*;
use crate::pubkey::Pubkey;
use crate::signature::Keypair;
use crate::system_instruction::SystemInstruction;
use crate::system_program;
use crate::transaction::{
    message_spec, CompiledInstruction, InstructionView, Transaction, TransactionView,
};

verus! {

pub struct SystemTransaction {}

/// The addresses of a list of payments.
pub open spec fn payees(moves: Seq<(Pubkey, u64)>) -> Seq<Pubkey> {
    moves.map_values(|m: (Pubkey, u64)| m.0)
}

/// One `Move` instruction for each payment: from account 0 to the payee's
/// account, which follows the payer's in the transaction's list.
pub open spec fn move_instructions(moves: Seq<(Pubkey, u64)>) -> Seq<InstructionView> {
    Seq::new(
        moves.len(),
        |i: int|
            InstructionView {
                program_ids_index: 0,
                accounts: seq![0u8, (i + 1) as u8],
                data: (SystemInstruction::Move { lamports: moves[i].1 }).serialize_spec(),
            },
    )
}

/// The transaction that pays each of `moves` from `from`, without its
/// signature.
pub open spec fn move_many_unsigned(
    from: Pubkey,
    moves: Seq<(Pubkey, u64)>,
    recent_blockhash: crate::hash::Hash,
    fee: u64,
) -> TransactionView {
    TransactionView {
        signatures: Seq::empty(),
        account_keys: seq![from] + payees(moves),
        recent_blockhash,
        fee,
        program_ids: seq![system_program::id_spec()],
        instructions: move_instructions(moves),
    }
}

impl SystemTransaction {
    /// A signed transaction that creates the account `to` with `lamports`
    /// from the signer, `space` bytes of data and `program_id` as its owner.
    pub fn new_program_account(
        from_keypair: &Keypair,
        to: &Pubkey,
        recent_blockhash: crate::hash::Hash,
        lamports: u64,
        space: u64,
        program_id: &Pubkey,
        fee: u64,
    ) -> (r: Transaction)
        ensures
            r@ == Transaction::signed_single_spec(
                from_keypair,
                seq![*to],
                system_program::id_spec(),
                (SystemInstruction::CreateAccount {
                    lamports,
                    space,
                    program_id: *program_id,
                }).serialize_spec(),
                recent_blockhash,
                fee,
            ),
    {
        let create = SystemInstruction::CreateAccount { lamports, space, program_id: *program_id };
        let keys: [Pubkey; 1] = [*to];
        proof {
            assert(keys@ =~= seq![*to]);
        }
        Transaction::new_signed(
            from_keypair,
            keys.as_slice(),
            &system_program::id(),
            create.serialize(),
            recent_blockhash,
            fee,
        )
    }

    /// A signed transaction that creates the system account `to` with
    /// `lamports` from the signer.
    pub fn new_account(
        from_keypair: &Keypair,
        to: &Pubkey,
        lamports: u64,
        recent_blockhash: crate::hash::Hash,
        fee: u64,
    ) -> (r: Transaction)
        ensures
            r@ == Transaction::signed_single_spec(
                from_keypair,
                seq![*to],
                system_program::id_spec(),
                (SystemInstruction::CreateAccount {
                    lamports,
                    space: 0,
                    program_id: system_program::id_spec(),
                }).serialize_spec(),
                recent_blockhash,
                fee,
            ),
    {
        let program_id = system_program::id();
        SystemTransaction::new_program_account(
            from_keypair,
            to,
            recent_blockhash,
            lamports,
            0,
            &program_id,
            fee,
        )
    }

    /// A signed transaction that hands the signer's account to `program_id`.
    pub fn new_assign(
        from_keypair: &Keypair,
        recent_blockhash: crate::hash::Hash,
        program_id: &Pubkey,
        fee: u64,
    ) -> (r: Transaction)
        ensures
            r@ == Transaction::signed_single_spec(
                from_keypair,
                Seq::empty(),
                system_program::id_spec(),
                (SystemInstruction::Assign { program_id: *program_id }).serialize_spec(),
                recent_blockhash,
                fee,
            ),
    {
        let assign = SystemInstruction::Assign { program_id: *program_id };
        let keys: [Pubkey; 0] = [];
        proof {
            assert(keys@ =~= Seq::<Pubkey>::empty());
        }
        Transaction::new_signed(
            from_keypair,
            keys.as_slice(),
            &system_program::id(),
            assign.serialize(),
            recent_blockhash,
            fee,
        )
    }

    /// A signed transaction that moves `lamports` from the signer to `to`.
    pub fn new_move(
        from_keypair: &Keypair,
        to: &Pubkey,
        lamports: u64,
        recent_blockhash: crate::hash::Hash,
        fee: u64,
    ) -> (r: Transaction)
        ensures
            r@ == Transaction::signed_single_spec(
                from_keypair,
                seq![*to],
                system_program::id_spec(),
                (SystemInstruction::Move { lamports }).serialize_spec(),
                recent_blockhash,
                fee,
            ),
    {
        let move_lamports = SystemInstruction::Move { lamports };
        let keys: [Pubkey; 1] = [*to];
        proof {
            assert(keys@ =~= seq![*to]);
        }
        Transaction::new_signed(
            from_keypair,
            keys.as_slice(),
            &system_program::id(),
            move_lamports.serialize(),
            recent_blockhash,
            fee,
        )
    }

    /// A signed transaction that moves lamports from the signer to each of
    /// `moves`, one instruction for each, all or none.
    pub fn new_move_many(
        from: &Keypair,
        moves: &[(Pubkey, u64)],
        recent_blockhash: crate::hash::Hash,
        fee: u64,
    ) -> (r: Transaction)
        requires
            moves@.len() < 256,
        ensures
            ({
                let unsigned = move_many_unsigned(from.pubkey_spec(), moves@, recent_blockhash, fee);
                r@ == (TransactionView {
                    signatures: seq![
                        Keypair::signature_of(from.seed_spec(), message_spec(unsigned)),
                    ],
                    ..unsigned
                })
            }),
    {
        let mut instructions: Vec<CompiledInstruction> = Vec::new();
        let mut to_keys: Vec<Pubkey> = Vec::new();
        let mut i: usize = 0;
        while i < moves.len()
            invariant
                i <= moves.len() < 256,
                instructions.len() == i,
                to_keys@ == payees(moves@.subrange(0, i as int)),
                forall|j: int| 0 <= j < i ==> instructions@[j]@ == move_instructions(moves@)[j],
            decreases moves.len() - i,
        {
            let spend = SystemInstruction::Move { lamports: moves[i].1 };
            let mut accounts: Vec<u8> = Vec::new();
            accounts.push(0u8);
            accounts.push(i as u8 + 1);
            proof {
                assert(accounts@ =~= seq![0u8, (i + 1) as u8]);
            }
            instructions.push(CompiledInstruction::new(0, spend.serialize(), accounts));
            to_keys.push(moves[i].0);
            proof {
                assert(to_keys@ =~= payees(moves@.subrange(0, i + 1)));
            }
            i += 1;
        }
        proof {
            assert(moves@.subrange(0, moves@.len() as int) =~= moves@);
        }
        let mut program_ids: Vec<Pubkey> = Vec::new();
        program_ids.push(system_program::id());
        let signers: [&Keypair; 1] = [from];
        let tx = Transaction::new_with_compiled_instructions(
            signers.as_slice(),
            to_keys.as_slice(),
            recent_blockhash,
            fee,
            program_ids,
            instructions,
        );
        proof {
            let unsigned = move_many_unsigned(from.pubkey_spec(), moves@, recent_blockhash, fee);
            assert(signers@ =~= seq![from]);
            assert(tx@.account_keys =~= unsigned.account_keys);
            assert(tx@.program_ids =~= unsigned.program_ids);
            assert(tx@.instructions =~= unsigned.instructions);
            let stripped = TransactionView { signatures: Seq::empty(), ..tx@ };
            assert(stripped == unsigned);
            assert(message_spec(tx@) == message_spec(unsigned));
            assert(tx@.signatures =~= seq![
                Keypair::signature_of(from.seed_spec(), message_spec(unsigned)),
            ]);
        }
        tx
    }
}

} // verus!
