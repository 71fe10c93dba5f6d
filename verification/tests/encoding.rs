use ledger_core::pubkey::Pubkey;
use ledger_core::signature::{Keypair, Signature};
use ledger_core::system_instruction::SystemInstruction;
use ledger_core::system_program;
use ledger_core::system_transaction::SystemTransaction;
use ledger_core::transaction::Transaction;
use ledger_core::vote_state::{Lockout, VoteState, VOTE_STATE_SIZE};
use ledger_core::word256::Word256;

fn key(n: u8) -> Pubkey {
    let mut bytes = [0u8; 32];
    for (i, b) in bytes.iter_mut().enumerate() {
        *b = n.wrapping_add(i as u8);
    }
    Pubkey::new(&bytes)
}

#[test]
fn word_bytes_round_trip() {
    let mut bytes = [0u8; 32];
    for (i, b) in bytes.iter_mut().enumerate() {
        *b = (i * 7 + 1) as u8;
    }
    let word = Word256::from_bytes(&bytes);
    assert_eq!(word.w0, u64::from_le_bytes([1, 8, 15, 22, 29, 36, 43, 50]));
    assert_eq!(word.to_bytes(), bytes.to_vec());
    assert_eq!(Word256::from_bytes(&word.to_bytes()), word);
    assert!(Word256 { w0: 1, w1: 9, w2: 9, w3: 9 }.less_than(&Word256 { w0: 2, w1: 0, w2: 0, w3: 0 }));
    assert!(Word256 { w0: 1, w1: 0, w2: 0, w3: 1 }.less_than(&Word256 { w0: 1, w1: 0, w2: 0, w3: 2 }));
    assert!(!word.less_than(&word));
    assert_eq!(Pubkey::new(&bytes).to_bytes(), bytes.to_vec());
    assert_eq!(Pubkey::default().to_bytes(), vec![0u8; 32]);
    assert!(Pubkey::default().less_than(&system_program_neighbour()));
    let mut long = [3u8; 64];
    long[63] = 9;
    assert_eq!(Signature::new(&long).to_bytes(), long.to_vec());
    assert_eq!(Signature::default().to_bytes(), vec![0u8; 64]);
}

fn system_program_neighbour() -> Pubkey {
    ledger_core::native_loader::id()
}

#[test]
fn system_instruction_encoding_is_that_of_bincode() {
    let owner = key(40);
    let create = SystemInstruction::CreateAccount {
        lamports: 0x0102_0304_0506_0708,
        space: 77,
        program_id: owner,
    };
    let mut owner_bytes = [0u8; 32];
    owner_bytes.copy_from_slice(&owner.to_bytes());
    assert_eq!(
        create.serialize(),
        bincode::serialize(&(0u32, 0x0102_0304_0506_0708u64, 77u64, owner_bytes)).unwrap()
    );
    assert_eq!(create.serialize().len(), 52);
    let assign = SystemInstruction::Assign { program_id: owner };
    assert_eq!(
        assign.serialize(),
        bincode::serialize(&(1u32, owner_bytes)).unwrap()
    );
    let spend = SystemInstruction::Move { lamports: 513 };
    assert_eq!(spend.serialize(), bincode::serialize(&(2u32, 513u64)).unwrap());
    assert_eq!(spend.serialize(), vec![2, 0, 0, 0, 1, 2, 0, 0, 0, 0, 0, 0]);

    for ix in [create, assign, spend] {
        assert_eq!(SystemInstruction::deserialize(&ix.serialize()), Some(ix));
    }
    assert_eq!(SystemInstruction::deserialize(&[]), None);
    assert_eq!(SystemInstruction::deserialize(&[2, 0, 0, 0, 1, 2, 0]), None);
    assert_eq!(
        SystemInstruction::deserialize(&[3, 0, 0, 0, 1, 2, 0, 0, 0, 0, 0, 0]),
        None
    );
    assert_eq!(SystemInstruction::deserialize(&[1, 0, 0, 0, 9]), None);
}

#[test]
fn vote_state_round_trip() {
    let mut state = VoteState::new(&key(3));
    assert_eq!(VoteState::max_size(), VOTE_STATE_SIZE);
    state.credits = 12;
    state.votes.push(Lockout { slot: 5, confirmation_count: 2 });
    state.votes.push(Lockout { slot: 9, confirmation_count: 1 });
    let bytes = state.serialize();
    assert_eq!(bytes.len(), 48 + 2 * 12);
    assert_eq!(VoteState::deserialize(&bytes), Some(state));
    let mut padded = bytes.clone();
    padded.resize(VOTE_STATE_SIZE, 0);
    let read = VoteState::deserialize(&padded).unwrap();
    assert_eq!(read.delegate_id, key(3));
    assert_eq!(read.credits, 12);
    assert_eq!(read.votes, vec![
        Lockout { slot: 5, confirmation_count: 2 },
        Lockout { slot: 9, confirmation_count: 1 },
    ]);
    assert_eq!(VoteState::deserialize(&bytes[..50]), None);
    assert_eq!(VoteState::deserialize(&bytes[..60]), None);
    let mut many = bytes.clone();
    many[40] = 32;
    many.resize(48 + 32 * 12, 0);
    assert_eq!(VoteState::deserialize(&many), None);
}

#[test]
fn transaction_message_layout() {
    let from = Keypair::from_seed(&[7u8; 32]);
    let to = key(1);
    let blockhash = ledger_core::hash::hash(b"block");
    let tx = SystemTransaction::new_move(&from, &to, 9, blockhash, 3);
    assert_eq!(tx.account_keys, vec![from.pubkey(), to]);
    assert_eq!(tx.program_ids, vec![system_program::id()]);
    assert_eq!(tx.fee, 3);
    assert_eq!(tx.recent_blockhash, blockhash);
    assert_eq!(tx.instructions.len(), 1);
    assert_eq!(tx.instructions[0].program_ids_index, 0);
    assert_eq!(tx.instructions[0].accounts, vec![0, 1]);
    assert_eq!(
        tx.instructions[0].data,
        SystemInstruction::Move { lamports: 9 }.serialize()
    );
    assert_eq!(tx.signatures.len(), 1);

    let mut want = Vec::new();
    want.extend_from_slice(&2u64.to_le_bytes());
    want.extend_from_slice(&from.pubkey().to_bytes());
    want.extend_from_slice(&to.to_bytes());
    want.extend_from_slice(&blockhash.to_bytes());
    want.extend_from_slice(&3u64.to_le_bytes());
    want.extend_from_slice(&1u64.to_le_bytes());
    want.extend_from_slice(&[0u8; 32]);
    want.extend_from_slice(&1u64.to_le_bytes());
    want.push(0);
    want.extend_from_slice(&2u64.to_le_bytes());
    want.extend_from_slice(&[0, 1]);
    want.extend_from_slice(&12u64.to_le_bytes());
    want.extend_from_slice(&SystemInstruction::Move { lamports: 9 }.serialize());
    assert_eq!(tx.message(), want);
    assert_eq!(tx.signatures[0], from.sign_message(&want));

    assert_eq!(tx.signer_key(0, 0), Some(from.pubkey()));
    assert_eq!(tx.signer_key(0, 1), None);
    assert_eq!(tx.signer_key(0, 2), None);
    assert_eq!(tx.signer_key(1, 0), None);
    assert_eq!(tx.clone(), tx);
}

#[test]
fn system_transaction_builders() {
    let from = Keypair::from_seed(&[9u8; 32]);
    let to = key(2);
    let owner = key(3);
    let blockhash = ledger_core::hash::hash(b"recent");

    let create = SystemTransaction::new_program_account(&from, &to, blockhash, 5, 11, &owner, 2);
    assert_eq!(create.account_keys, vec![from.pubkey(), to]);
    assert_eq!(create.fee, 2);
    assert_eq!(
        SystemInstruction::deserialize(&create.instructions[0].data),
        Some(SystemInstruction::CreateAccount { lamports: 5, space: 11, program_id: owner })
    );
    assert_eq!(create.signatures, vec![from.sign_message(&create.message())]);

    let account = SystemTransaction::new_account(&from, &to, 6, blockhash, 1);
    assert_eq!(
        SystemInstruction::deserialize(&account.instructions[0].data),
        Some(SystemInstruction::CreateAccount {
            lamports: 6,
            space: 0,
            program_id: system_program::id()
        })
    );

    let assign = SystemTransaction::new_assign(&from, blockhash, &owner, 4);
    assert_eq!(assign.account_keys, vec![from.pubkey()]);
    assert_eq!(assign.instructions[0].accounts, vec![0]);
    assert_eq!(
        SystemInstruction::deserialize(&assign.instructions[0].data),
        Some(SystemInstruction::Assign { program_id: owner })
    );
    assert_eq!(assign.fee, 4);

    let many = SystemTransaction::new_move_many(&from, &[(to, 1), (owner, 2)], blockhash, 7);
    assert_eq!(many.account_keys, vec![from.pubkey(), to, owner]);
    assert_eq!(many.program_ids, vec![system_program::id()]);
    assert_eq!(
        SystemInstruction::deserialize(&many.instructions[1].data),
        Some(SystemInstruction::Move { lamports: 2 })
    );
    assert_eq!(many.signatures, vec![from.sign_message(&many.message())]);
    let none = SystemTransaction::new_move_many(&from, &[], blockhash, 0);
    assert_eq!(none.account_keys, vec![from.pubkey()]);
    assert!(none.instructions.is_empty());

    let unsigned = Transaction::new_with_blockhash_and_fee(
        &from.pubkey(),
        &[to],
        &system_program::id(),
        vec![1, 2, 3],
        blockhash,
        0,
    );
    assert!(unsigned.signatures.is_empty());
    assert_eq!(unsigned.instructions[0].data, vec![1, 2, 3]);
    assert_eq!(unsigned.message().len(), 8 + 64 + 32 + 8 + 8 + 32 + 8 + 1 + 8 + 2 + 8 + 3);
}
