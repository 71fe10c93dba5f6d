use hashbrown::HashMap;
use ledger_core::bank::Bank;
use ledger_core::blockhash_queue::MAX_RECENT_BLOCKHASHES;
use ledger_core::genesis_block::{GenesisBlock, BOOTSTRAP_LEADER_LAMPORTS};
use ledger_core::pubkey::Pubkey;
use ledger_core::runtime::SystemProcessor;
use ledger_core::signature::Keypair;
use ledger_core::system_instruction::SystemInstruction;
use ledger_core::system_program;
use ledger_core::system_transaction::SystemTransaction;
use ledger_core::transaction::{
    CompiledInstruction, InstructionError, Transaction, TransactionError,
};
use ledger_core::vote_state::VoteState;
use std::sync::Arc;

fn new_from_parent(parent: &Arc<Bank<SystemProcessor>>) -> Bank<SystemProcessor> {
    Bank::new_from_parent(parent, &Pubkey::default(), parent.slot() + 1)
}

fn frozen(mut bank: Bank<SystemProcessor>) -> Arc<Bank<SystemProcessor>> {
    bank.freeze();
    Arc::new(bank)
}

#[test]
fn test_bank_new() {
    let (genesis_block, _) = GenesisBlock::new(10_000);
    let bank = Bank::new(&genesis_block);
    assert_eq!(bank.get_balance(&genesis_block.mint_id), 10_000);
}

#[test]
fn test_bank_new_with_leader() {
    let dummy_leader_id = Keypair::new().pubkey();
    let dummy_leader_lamports = BOOTSTRAP_LEADER_LAMPORTS;
    let (genesis_block, _) =
        GenesisBlock::new_with_leader(10_000, &dummy_leader_id, dummy_leader_lamports);
    assert_eq!(
        genesis_block.bootstrap_leader_lamports,
        dummy_leader_lamports
    );
    let bank = Bank::new(&genesis_block);
    assert_eq!(
        bank.get_balance(&genesis_block.mint_id),
        10_000 - dummy_leader_lamports
    );
    assert_eq!(
        bank.get_balance(&dummy_leader_id),
        dummy_leader_lamports - 1 /* 1 token goes to the vote account associated with dummy_leader_lamports */
    );
}

#[test]
fn test_two_payments_to_one_party() {
    let (genesis_block, mint_keypair) = GenesisBlock::new(10_000);
    let pubkey = Keypair::new().pubkey();
    let mut bank = Bank::new(&genesis_block);
    assert_eq!(bank.last_blockhash(), genesis_block.hash());

    bank.transfer(1_000, &mint_keypair, &pubkey, genesis_block.hash())
        .unwrap();
    assert_eq!(bank.get_balance(&pubkey), 1_000);

    bank.transfer(500, &mint_keypair, &pubkey, genesis_block.hash())
        .unwrap();
    assert_eq!(bank.get_balance(&pubkey), 1_500);
    assert_eq!(bank.transaction_count(), 2);
}

#[test]
fn test_one_source_two_tx_one_batch() {
    let (genesis_block, mint_keypair) = GenesisBlock::new(1);
    let key1 = Keypair::new().pubkey();
    let key2 = Keypair::new().pubkey();
    let mut bank = Bank::new(&genesis_block);
    assert_eq!(bank.last_blockhash(), genesis_block.hash());

    let t1 = SystemTransaction::new_move(&mint_keypair, &key1, 1, genesis_block.hash(), 0);
    let t2 = SystemTransaction::new_move(&mint_keypair, &key2, 1, genesis_block.hash(), 0);
    let res = bank.process_transactions(&vec![t1.clone(), t2.clone()]);
    assert_eq!(res.len(), 2);
    assert_eq!(res[0], Ok(()));
    assert_eq!(res[1], Err(TransactionError::AccountInUse));
    assert_eq!(bank.get_balance(&mint_keypair.pubkey()), 0);
    assert_eq!(bank.get_balance(&key1), 1);
    assert_eq!(bank.get_balance(&key2), 0);
    assert_eq!(bank.get_signature_status(&t1.signatures[0]), Some(Ok(())));
    // a transaction that found its account locked is recorded with its failure
    assert_eq!(
        bank.get_signature_status(&t2.signatures[0]),
        Some(Err(TransactionError::AccountInUse))
    );
}

#[test]
fn test_one_tx_two_out_atomic_fail() {
    let (genesis_block, mint_keypair) = GenesisBlock::new(1);
    let key1 = Keypair::new().pubkey();
    let key2 = Keypair::new().pubkey();
    let mut bank = Bank::new(&genesis_block);
    let spend = SystemInstruction::Move { lamports: 1 };
    let instructions = vec![
        CompiledInstruction {
            program_ids_index: 0,
            data: spend.serialize(),
            accounts: vec![0, 1],
        },
        CompiledInstruction {
            program_ids_index: 0,
            data: spend.serialize(),
            accounts: vec![0, 2],
        },
    ];

    let t1 = Transaction::new_with_compiled_instructions(
        &[&mint_keypair],
        &[key1, key2],
        genesis_block.hash(),
        0,
        vec![system_program::id()],
        instructions,
    );
    let res = bank.process_transactions(&vec![t1.clone()]);
    assert_eq!(res.len(), 1);
    assert_eq!(bank.get_balance(&mint_keypair.pubkey()), 1);
    assert_eq!(bank.get_balance(&key1), 0);
    assert_eq!(bank.get_balance(&key2), 0);
    assert_eq!(
        bank.get_signature_status(&t1.signatures[0]),
        Some(Err(TransactionError::InstructionError(
            1,
            InstructionError::new_result_with_negative_lamports(),
        )))
    );
}

#[test]
fn test_one_tx_two_out_atomic_pass() {
    let (genesis_block, mint_keypair) = GenesisBlock::new(2);
    let key1 = Keypair::new().pubkey();
    let key2 = Keypair::new().pubkey();
    let mut bank = Bank::new(&genesis_block);
    let t1 = SystemTransaction::new_move_many(
        &mint_keypair,
        &[(key1, 1), (key2, 1)],
        genesis_block.hash(),
        0,
    );
    let res = bank.process_transactions(&vec![t1.clone()]);
    assert_eq!(res.len(), 1);
    assert_eq!(res[0], Ok(()));
    assert_eq!(bank.get_balance(&mint_keypair.pubkey()), 0);
    assert_eq!(bank.get_balance(&key1), 1);
    assert_eq!(bank.get_balance(&key2), 1);
    assert_eq!(bank.get_signature_status(&t1.signatures[0]), Some(Ok(())));
}

// This test demonstrates that fees are paid even when a program fails.
#[test]
fn test_detect_failed_duplicate_transactions() {
    let (genesis_block, mint_keypair) = GenesisBlock::new(2);
    let mut bank = Bank::new(&genesis_block);
    let dest = Keypair::new();

    // source with 0 program context
    let tx = SystemTransaction::new_account(
        &mint_keypair,
        &dest.pubkey(),
        2,
        genesis_block.hash(),
        1,
    );
    let signature = tx.signatures[0];
    assert!(!bank.has_signature(&signature));

    assert_eq!(
        bank.process_transaction(&tx),
        Err(TransactionError::InstructionError(
            0,
            InstructionError::new_result_with_negative_lamports(),
        ))
    );

    // The lamports didn't move, but the from address paid the transaction fee.
    assert_eq!(bank.get_balance(&dest.pubkey()), 0);

    // This should be the first balance minus the transaction fee.
    assert_eq!(bank.get_balance(&mint_keypair.pubkey()), 1);
}

#[test]
fn test_account_not_found() {
    let (genesis_block, mint_keypair) = GenesisBlock::new(0);
    let mut bank = Bank::new(&genesis_block);
    let keypair = Keypair::new();
    assert_eq!(
        bank.transfer(1, &keypair, &mint_keypair.pubkey(), genesis_block.hash()),
        Err(TransactionError::AccountNotFound)
    );
    assert_eq!(bank.transaction_count(), 0);
}

#[test]
fn test_insufficient_funds() {
    let (genesis_block, mint_keypair) = GenesisBlock::new(11_000);
    let mut bank = Bank::new(&genesis_block);
    let pubkey = Keypair::new().pubkey();
    bank.transfer(1_000, &mint_keypair, &pubkey, genesis_block.hash())
        .unwrap();
    assert_eq!(bank.transaction_count(), 1);
    assert_eq!(bank.get_balance(&pubkey), 1_000);
    assert_eq!(
        bank.transfer(10_001, &mint_keypair, &pubkey, genesis_block.hash()),
        Err(TransactionError::InstructionError(
            0,
            InstructionError::new_result_with_negative_lamports(),
        ))
    );
    assert_eq!(bank.transaction_count(), 1);

    let mint_pubkey = mint_keypair.pubkey();
    assert_eq!(bank.get_balance(&mint_pubkey), 10_000);
    assert_eq!(bank.get_balance(&pubkey), 1_000);
}

#[test]
fn test_transfer_to_newb() {
    let (genesis_block, mint_keypair) = GenesisBlock::new(10_000);
    let mut bank = Bank::new(&genesis_block);
    let pubkey = Keypair::new().pubkey();
    bank.transfer(500, &mint_keypair, &pubkey, genesis_block.hash())
        .unwrap();
    assert_eq!(bank.get_balance(&pubkey), 500);
}

#[test]
fn test_bank_deposit() {
    let (genesis_block, _mint_keypair) = GenesisBlock::new(100);
    let mut bank = Bank::new(&genesis_block);

    // Test new account
    let key = Keypair::new();
    bank.deposit(&key.pubkey(), 10);
    assert_eq!(bank.get_balance(&key.pubkey()), 10);

    // Existing account
    bank.deposit(&key.pubkey(), 3);
    assert_eq!(bank.get_balance(&key.pubkey()), 13);
}

#[test]
fn test_bank_withdraw() {
    let (genesis_block, _mint_keypair) = GenesisBlock::new(100);
    let mut bank = Bank::new(&genesis_block);

    // Test no account
    let key = Keypair::new();
    assert_eq!(
        bank.withdraw(&key.pubkey(), 10),
        Err(TransactionError::AccountNotFound)
    );

    bank.deposit(&key.pubkey(), 3);
    assert_eq!(bank.get_balance(&key.pubkey()), 3);

    // Low balance
    assert_eq!(
        bank.withdraw(&key.pubkey(), 10),
        Err(TransactionError::InsufficientFundsForFee)
    );

    // Enough balance
    assert_eq!(bank.withdraw(&key.pubkey(), 2), Ok(()));
    assert_eq!(bank.get_balance(&key.pubkey()), 1);
}

#[test]
fn test_bank_tx_fee() {
    let leader = Keypair::new().pubkey();
    let (genesis_block, mint_keypair) = GenesisBlock::new_with_leader(100, &leader, 3);
    let mut bank = Bank::new(&genesis_block);
    let key1 = Keypair::new();
    let key2 = Keypair::new();

    let tx =
        SystemTransaction::new_move(&mint_keypair, &key1.pubkey(), 2, genesis_block.hash(), 3);
    let initial_balance = bank.get_balance(&leader);
    assert_eq!(bank.process_transaction(&tx), Ok(()));
    assert_eq!(bank.get_balance(&leader), initial_balance + 3);
    assert_eq!(bank.get_balance(&key1.pubkey()), 2);
    assert_eq!(bank.get_balance(&mint_keypair.pubkey()), 100 - 5 - 3);

    let tx = SystemTransaction::new_move(&key1, &key2.pubkey(), 1, genesis_block.hash(), 1);
    assert_eq!(bank.process_transaction(&tx), Ok(()));
    assert_eq!(bank.get_balance(&leader), initial_balance + 4);
    assert_eq!(bank.get_balance(&key1.pubkey()), 0);
    assert_eq!(bank.get_balance(&key2.pubkey()), 1);
    assert_eq!(bank.get_balance(&mint_keypair.pubkey()), 100 - 5 - 3);
}

#[test]
fn test_filter_program_errors_and_collect_fee() {
    let leader = Keypair::new().pubkey();
    let (genesis_block, mint_keypair) = GenesisBlock::new_with_leader(100, &leader, 3);
    let mut bank = Bank::new(&genesis_block);

    let key = Keypair::new();
    let tx1 =
        SystemTransaction::new_move(&mint_keypair, &key.pubkey(), 2, genesis_block.hash(), 3);
    let tx2 =
        SystemTransaction::new_move(&mint_keypair, &key.pubkey(), 5, genesis_block.hash(), 1);

    let results = vec![
        Ok(()),
        Err(TransactionError::InstructionError(
            1,
            InstructionError::new_result_with_negative_lamports(),
        )),
    ];

    let initial_balance = bank.get_balance(&leader);
    let results = bank.filter_program_errors_and_collect_fee(&vec![tx1, tx2], &results);
    assert_eq!(bank.get_balance(&leader), initial_balance + 3 + 1);
    assert_eq!(results[0], Ok(()));
    assert_eq!(results[1], Ok(()));
}

#[test]
fn test_debits_before_credits() {
    let (genesis_block, mint_keypair) = GenesisBlock::new(2);
    let mut bank = Bank::new(&genesis_block);
    let keypair = Keypair::new();
    let tx0 = SystemTransaction::new_account(
        &mint_keypair,
        &keypair.pubkey(),
        2,
        genesis_block.hash(),
        0,
    );
    let tx1 = SystemTransaction::new_account(
        &keypair,
        &mint_keypair.pubkey(),
        1,
        genesis_block.hash(),
        0,
    );
    let txs = vec![tx0, tx1];
    let results = bank.process_transactions(&txs);
    assert!(results[1].is_err());

    // Assert bad transactions aren't counted.
    assert_eq!(bank.transaction_count(), 1);
}

#[test]
fn test_process_genesis() {
    let dummy_leader_id = Keypair::new().pubkey();
    let dummy_leader_lamports = 2;
    let (genesis_block, _) =
        GenesisBlock::new_with_leader(5, &dummy_leader_id, dummy_leader_lamports);
    let bank = Bank::new(&genesis_block);
    assert_eq!(bank.get_balance(&genesis_block.mint_id), 3);
    assert_eq!(bank.get_balance(&dummy_leader_id), 1);
}

#[test]
fn test_interleaving_locks() {
    let (genesis_block, mint_keypair) = GenesisBlock::new(3);
    let mut bank = Bank::new(&genesis_block);
    let alice = Keypair::new();
    let bob = Keypair::new();

    let tx1 = SystemTransaction::new_account(
        &mint_keypair,
        &alice.pubkey(),
        1,
        genesis_block.hash(),
        0,
    );
    let pay_alice = vec![tx1];

    let lock_result = bank.lock_accounts(&pay_alice);
    let results_alice = bank.load_execute_and_commit_transactions(
        &pay_alice,
        lock_result,
        MAX_RECENT_BLOCKHASHES,
    );
    assert_eq!(results_alice[0], Ok(()));

    // try executing an interleaved transfer twice
    assert_eq!(
        bank.transfer(1, &mint_keypair, &bob.pubkey(), genesis_block.hash()),
        Err(TransactionError::AccountInUse)
    );
    // the second time should fail as well
    // this verifies that `unlock_accounts` doesn't unlock `AccountInUse` accounts
    assert_eq!(
        bank.transfer(1, &mint_keypair, &bob.pubkey(), genesis_block.hash()),
        Err(TransactionError::AccountInUse)
    );

    bank.unlock_accounts(&pay_alice, &results_alice);

    assert!(bank
        .transfer(2, &mint_keypair, &bob.pubkey(), genesis_block.hash())
        .is_ok());
}

#[test]
fn test_bank_pay_to_self() {
    let (genesis_block, mint_keypair) = GenesisBlock::new(1);
    let key1 = Keypair::new();
    let mut bank = Bank::new(&genesis_block);

    bank.transfer(1, &mint_keypair, &key1.pubkey(), genesis_block.hash())
        .unwrap();
    assert_eq!(bank.get_balance(&key1.pubkey()), 1);
    let tx = SystemTransaction::new_move(&key1, &key1.pubkey(), 1, genesis_block.hash(), 0);
    let res = bank.process_transactions(&vec![tx.clone()]);
    assert_eq!(res.len(), 1);
    assert_eq!(bank.get_balance(&key1.pubkey()), 1);

    bank.get_signature_status(&tx.signatures[0])
        .unwrap()
        .unwrap_err();
}

/// Verify that the parent's vector is computed correctly
#[test]
fn test_bank_parents() {
    let (genesis_block, _) = GenesisBlock::new(1);
    let parent = frozen(Bank::new(&genesis_block));

    let bank = new_from_parent(&parent);
    assert!(Arc::ptr_eq(&bank.parents()[0], &parent));
}

/// Verifies that last ids and status cache are correctly referenced from parent
#[test]
fn test_bank_parent_duplicate_signature() {
    let (genesis_block, mint_keypair) = GenesisBlock::new(2);
    let key1 = Keypair::new();
    let mut parent = Bank::new(&genesis_block);

    let tx =
        SystemTransaction::new_move(&mint_keypair, &key1.pubkey(), 1, genesis_block.hash(), 0);
    assert_eq!(parent.process_transaction(&tx), Ok(()));
    let parent = frozen(parent);
    let mut bank = new_from_parent(&parent);
    assert_eq!(
        bank.process_transaction(&tx),
        Err(TransactionError::DuplicateSignature)
    );
}

/// Verifies that last ids and accounts are correctly referenced from parent
#[test]
fn test_bank_parent_account_spend() {
    let (genesis_block, mint_keypair) = GenesisBlock::new(2);
    let key1 = Keypair::new();
    let key2 = Keypair::new();
    let mut parent = Bank::new(&genesis_block);

    let tx =
        SystemTransaction::new_move(&mint_keypair, &key1.pubkey(), 1, genesis_block.hash(), 0);
    assert_eq!(parent.process_transaction(&tx), Ok(()));
    let parent = frozen(parent);
    let mut bank = new_from_parent(&parent);
    let tx = SystemTransaction::new_move(&key1, &key2.pubkey(), 1, genesis_block.hash(), 0);
    assert_eq!(bank.process_transaction(&tx), Ok(()));
    assert_eq!(parent.get_signature_status(&tx.signatures[0]), None);
}

#[test]
fn test_bank_hash_internal_state() {
    let (genesis_block, mint_keypair) = GenesisBlock::new(2_000);
    let mut bank0 = Bank::new(&genesis_block);
    let mut bank1 = Bank::new(&genesis_block);
    let initial_state = bank0.hash_internal_state();
    assert_eq!(bank1.hash_internal_state(), initial_state);

    let pubkey = Keypair::new().pubkey();
    let blockhash = bank0.last_blockhash();
    bank0
        .transfer(1_000, &mint_keypair, &pubkey, blockhash)
        .unwrap();
    assert_ne!(bank0.hash_internal_state(), initial_state);
    let blockhash = bank1.last_blockhash();
    bank1
        .transfer(1_000, &mint_keypair, &pubkey, blockhash)
        .unwrap();
    assert_eq!(bank0.hash_internal_state(), bank1.hash_internal_state());

    // Checkpointing should not change its state
    let bank2 = new_from_parent(&frozen(bank1));
    assert_eq!(bank0.hash_internal_state(), bank2.hash_internal_state());
}

#[test]
fn test_hash_internal_state_genesis() {
    let bank0 = Bank::new(&GenesisBlock::new(10).0);
    let bank1 = Bank::new(&GenesisBlock::new(20).0);
    assert_ne!(bank0.hash_internal_state(), bank1.hash_internal_state());
}

#[test]
fn test_bank_hash_internal_state_squash() {
    let collector_id = Pubkey::default();
    let bank0 = frozen(Bank::new(&GenesisBlock::new(10).0));
    let mut bank1 = Bank::new_from_parent(&bank0, &collector_id, 1);

    // no delta in bank1, hashes match
    assert_eq!(bank0.hash_internal_state(), bank1.hash_internal_state());

    // remove parent
    bank1.squash();
    assert!(bank1.parents().is_empty());

    // hash should still match
    assert_eq!(bank0.hash(), bank1.hash());
}

/// Verifies that last ids and accounts are correctly referenced from parent
#[test]
fn test_bank_squash() {
    let (genesis_block, mint_keypair) = GenesisBlock::new(2);
    let key1 = Keypair::new();
    let key2 = Keypair::new();
    let mut parent = Bank::new(&genesis_block);

    let tx_move_mint_to_1 =
        SystemTransaction::new_move(&mint_keypair, &key1.pubkey(), 1, genesis_block.hash(), 0);
    assert_eq!(parent.process_transaction(&tx_move_mint_to_1), Ok(()));
    assert_eq!(parent.transaction_count(), 1);
    let parent = frozen(parent);

    let mut bank = new_from_parent(&parent);
    assert_eq!(bank.transaction_count(), parent.transaction_count());
    let tx_move_1_to_2 =
        SystemTransaction::new_move(&key1, &key2.pubkey(), 1, genesis_block.hash(), 0);
    assert_eq!(bank.process_transaction(&tx_move_1_to_2), Ok(()));
    assert_eq!(bank.transaction_count(), 2);
    assert_eq!(parent.transaction_count(), 1);
    assert_eq!(
        parent.get_signature_status(&tx_move_1_to_2.signatures[0]),
        None
    );

    for _ in 0..3 {
        // first time these should match what happened above, assert that parents are ok
        assert_eq!(bank.get_balance(&key1.pubkey()), 0);
        assert_eq!(bank.get_account(&key1.pubkey()), None);
        assert_eq!(bank.get_balance(&key2.pubkey()), 1);
        assert_eq!(
            bank.get_signature_status(&tx_move_mint_to_1.signatures[0]),
            Some(Ok(()))
        );
        assert_eq!(
            bank.get_signature_status(&tx_move_1_to_2.signatures[0]),
            Some(Ok(()))
        );

        // works iteration 0, no-ops on iteration 1 and 2
        bank.squash();

        assert_eq!(parent.transaction_count(), 1);
        assert_eq!(bank.transaction_count(), 2);
    }
}

#[test]
fn test_bank_get_account_in_parent_after_squash() {
    let (genesis_block, mint_keypair) = GenesisBlock::new(500);
    let mut parent = Bank::new(&genesis_block);

    let key1 = Keypair::new();

    parent
        .transfer(1, &mint_keypair, &key1.pubkey(), genesis_block.hash())
        .unwrap();
    assert_eq!(parent.get_balance(&key1.pubkey()), 1);
    let parent = frozen(parent);
    let mut bank = new_from_parent(&parent);
    bank.squash();
    assert_eq!(parent.get_balance(&key1.pubkey()), 1);
}

#[test]
fn test_bank_epoch_vote_accounts() {
    let leader_id = Keypair::new().pubkey();
    let leader_lamports = 3;
    let (mut genesis_block, _) = GenesisBlock::new_with_leader(5, &leader_id, leader_lamports);

    // set this up weird, forces future generation, odd mod(), etc.
    //  this says: "stakes for slot X should be generated at slot index 3 in slot X-2...
    const SLOTS_PER_EPOCH: u64 = 8;
    const STAKERS_SLOT_OFFSET: u64 = 21;
    genesis_block.slots_per_epoch = SLOTS_PER_EPOCH;
    genesis_block.stakers_slot_offset = STAKERS_SLOT_OFFSET;
    genesis_block.epoch_warmup = false; // allows me to do the normal division stuff below

    let parent = frozen(Bank::new(&genesis_block));

    let vote_accounts0: Option<HashMap<_, _>> = parent.epoch_vote_accounts(0).map(|accounts| {
        accounts
            .entries()
            .iter()
            .filter_map(|(pubkey, account)| {
                if let Some(vote_state) = VoteState::deserialize(&account.data) {
                    if vote_state.delegate_id == leader_id {
                        Some((*pubkey, true))
                    } else {
                        None
                    }
                } else {
                    None
                }
            })
            .collect()
    });
    assert!(vote_accounts0.is_some());
    assert!(vote_accounts0.iter().len() != 0);

    let mut i = 1;
    loop {
        if i > STAKERS_SLOT_OFFSET / SLOTS_PER_EPOCH {
            break;
        }
        assert!(parent.epoch_vote_accounts(i).is_some());
        i += 1;
    }

    // child crosses epoch boundary and is the first slot in the epoch
    let child = Bank::new_from_parent(
        &parent,
        &leader_id,
        SLOTS_PER_EPOCH - (STAKERS_SLOT_OFFSET % SLOTS_PER_EPOCH),
    );

    assert!(child.epoch_vote_accounts(i).is_some());

    // child crosses epoch boundary but isn't the first slot in the epoch
    let child = Bank::new_from_parent(
        &parent,
        &leader_id,
        SLOTS_PER_EPOCH - (STAKERS_SLOT_OFFSET % SLOTS_PER_EPOCH) + 1,
    );
    assert!(child.epoch_vote_accounts(i).is_some());
}

#[test]
fn test_zero_signatures() {
    let (genesis_block, mint_keypair) = GenesisBlock::new(500);
    let mut bank = Bank::new(&genesis_block);
    let key = Keypair::new();

    let move_lamports = SystemInstruction::Move { lamports: 1 };

    let mut tx = Transaction::new_with_blockhash_and_fee(
        &mint_keypair.pubkey(),
        &[key.pubkey()],
        &system_program::id(),
        move_lamports.serialize(),
        bank.last_blockhash(),
        2,
    );

    assert_eq!(
        bank.process_transaction(&tx),
        Err(TransactionError::MissingSignatureForFee)
    );

    // Set the fee to 0, this should give an InstructionError
    // but since no signature we cannot look up the error.
    tx.fee = 0;

    assert_eq!(bank.process_transaction(&tx), Ok(()));
    assert_eq!(bank.get_balance(&key.pubkey()), 0);
}

#[test]
fn test_bank_get_slots_in_epoch() {
    let (genesis_block, _) = GenesisBlock::new(500);

    let bank = Bank::new(&genesis_block);

    assert_eq!(bank.get_slots_in_epoch(0), 1);
    assert_eq!(bank.get_slots_in_epoch(2), 4);
    assert_eq!(bank.get_slots_in_epoch(5000), genesis_block.slots_per_epoch);
}

#[test]
fn test_is_delta_true() {
    let (genesis_block, mint_keypair) = GenesisBlock::new(500);
    let mut bank = Bank::new(&genesis_block);
    let key1 = Keypair::new();
    let tx_move_mint_to_1 =
        SystemTransaction::new_move(&mint_keypair, &key1.pubkey(), 1, genesis_block.hash(), 0);
    assert_eq!(bank.process_transaction(&tx_move_mint_to_1), Ok(()));
    assert_eq!(bank.is_delta(), true);
}

#[test]
fn test_is_votable() {
    let (genesis_block, mint_keypair) = GenesisBlock::new(500);
    let mut bank = Bank::new(&genesis_block);
    let key1 = Keypair::new();
    assert_eq!(bank.is_votable(), false);

    // Set is_delta to true
    let tx_move_mint_to_1 =
        SystemTransaction::new_move(&mint_keypair, &key1.pubkey(), 1, genesis_block.hash(), 0);
    assert_eq!(bank.process_transaction(&tx_move_mint_to_1), Ok(()));
    assert_eq!(bank.is_votable(), false);

    // Register enough ticks to hit max tick height
    for i in 0..genesis_block.ticks_per_slot - 1 {
        bank.register_tick(&ledger_core::hash::hash(
            format!("hello world {}", i).as_bytes(),
        ));
    }

    assert_eq!(bank.is_votable(), true);
}

#[test]
fn test_is_in_subtree_of() {
    let (genesis_block, _) = GenesisBlock::new(1);
    let parent = frozen(Bank::new(&genesis_block));
    // Bank 1
    let bank = frozen(new_from_parent(&parent));
    // Bank 2
    let bank2 = new_from_parent(&bank);
    // Bank 5
    let bank5 = Bank::new_from_parent(&bank, &Pubkey::default(), 5);

    // Parents of bank 2: 0 -> 1 -> 2
    assert!(bank2.is_in_subtree_of(0));
    assert!(bank2.is_in_subtree_of(1));
    assert!(bank2.is_in_subtree_of(2));
    assert!(!bank2.is_in_subtree_of(3));

    // Parents of bank 5: 0 -> 1 -> 5
    assert!(bank5.is_in_subtree_of(0));
    assert!(bank5.is_in_subtree_of(1));
    assert!(!bank5.is_in_subtree_of(2));
    assert!(!bank5.is_in_subtree_of(4));
}
