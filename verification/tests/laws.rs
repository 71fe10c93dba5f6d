use ledger_core::bank::Bank;
use ledger_core::epoch_schedule::EpochSchedule;
use ledger_core::genesis_block::GenesisBlock;
use ledger_core::pubkey::Pubkey;
use ledger_core::signature::Keypair;
use ledger_core::system_transaction::SystemTransaction;
use ledger_core::transaction::{InstructionError, TransactionError};
use std::sync::Arc;

#[test]
fn fee_is_paid_when_an_instruction_fails() {
    let leader = Keypair::new().pubkey();
    let (genesis_block, mint_keypair) = GenesisBlock::new_with_leader(10, &leader, 3);
    let mut bank = Bank::new(&genesis_block);
    let other = Keypair::new().pubkey();
    bank.deposit(&other, 5);
    let dest = Keypair::new().pubkey();
    let mint = mint_keypair.pubkey();
    let mint_before = bank.get_balance(&mint);
    let leader_before = bank.get_balance(&leader);
    assert_eq!(mint_before, 7);
    assert_eq!(leader_before, 1);

    // moves more than the mint holds once the fee is taken
    let tx = SystemTransaction::new_move(&mint_keypair, &dest, 7, genesis_block.hash(), 2);
    let results = bank.process_transactions(&vec![tx.clone()]);
    assert_eq!(results, vec![Ok(())]);
    assert_eq!(
        bank.get_signature_status(&tx.signatures[0]),
        Some(Err(TransactionError::InstructionError(
            0,
            InstructionError::ResultWithNegativeLamports
        )))
    );
    assert_eq!(bank.get_balance(&mint), mint_before - 2);
    assert_eq!(bank.get_balance(&leader), leader_before + 2);
    assert_eq!(bank.get_balance(&dest), 0);
    assert_eq!(bank.get_account(&dest), None);
    assert_eq!(bank.get_balance(&other), 5);
    assert_eq!(bank.transaction_count(), 0);
}

#[test]
fn a_signature_is_accepted_once_on_a_fork() {
    let (genesis_block, mint_keypair) = GenesisBlock::new(10);
    let mut bank = Bank::new(&genesis_block);
    let dest = Keypair::new().pubkey();
    let tx = SystemTransaction::new_move(&mint_keypair, &dest, 1, genesis_block.hash(), 0);
    assert!(!bank.has_signature(&tx.signatures[0]));
    assert_eq!(bank.process_transactions(&vec![tx.clone()]), vec![Ok(())]);
    assert!(bank.has_signature(&tx.signatures[0]));
    assert_eq!(
        bank.process_transactions(&vec![tx.clone()]),
        vec![Err(TransactionError::DuplicateSignature)]
    );
    assert_eq!(bank.get_balance(&dest), 1);
    assert_eq!(bank.transaction_count(), 1);

    // and on the forks above it
    bank.freeze();
    let parent = Arc::new(bank);
    let mut child = Bank::new_from_parent(&parent, &Pubkey::default(), 1);
    assert!(child.has_signature(&tx.signatures[0]));
    assert_eq!(
        child.process_transactions(&vec![tx.clone()]),
        vec![Err(TransactionError::DuplicateSignature)]
    );
    assert_eq!(child.get_balance(&dest), 1);
}

#[test]
fn a_transaction_with_an_unknown_blockhash_can_be_sent_again() {
    let (genesis_block, mint_keypair) = GenesisBlock::new(10);
    let mut bank = Bank::new(&genesis_block);
    let dest = Keypair::new().pubkey();
    let stale = ledger_core::hash::hash(b"no such block");
    let tx = SystemTransaction::new_move(&mint_keypair, &dest, 1, stale, 0);
    assert_eq!(
        bank.process_transaction(&tx),
        Err(TransactionError::BlockhashNotFound)
    );
    assert!(!bank.has_signature(&tx.signatures[0]));
    assert_eq!(bank.get_signature_status(&tx.signatures[0]), None);
    assert_eq!(bank.get_balance(&dest), 0);

    let fresh = SystemTransaction::new_move(&mint_keypair, &dest, 1, bank.last_blockhash(), 0);
    assert_eq!(bank.process_transaction(&fresh), Ok(()));
    assert_eq!(bank.get_balance(&dest), 1);
}

#[test]
fn a_transaction_of_a_missing_payer_is_not_recorded() {
    let (genesis_block, _) = GenesisBlock::new(10);
    let mut bank = Bank::new(&genesis_block);
    let nobody = Keypair::new();
    let dest = Keypair::new().pubkey();
    let tx = SystemTransaction::new_move(&nobody, &dest, 1, genesis_block.hash(), 0);
    assert_eq!(
        bank.process_transaction(&tx),
        Err(TransactionError::AccountNotFound)
    );
    assert!(!bank.has_signature(&tx.signatures[0]));

    // once the payer has lamports the same transaction runs
    bank.deposit(&nobody.pubkey(), 2);
    assert_eq!(bank.process_transaction(&tx), Ok(()));
    assert_eq!(bank.get_balance(&dest), 1);
}

#[test]
fn a_batch_leaves_no_lock_held() {
    let (genesis_block, mint_keypair) = GenesisBlock::new(10);
    let mut bank = Bank::new(&genesis_block);
    let key1 = Keypair::new().pubkey();
    let key2 = Keypair::new().pubkey();
    let t1 = SystemTransaction::new_move(&mint_keypair, &key1, 1, genesis_block.hash(), 0);
    let t2 = SystemTransaction::new_move(&mint_keypair, &key2, 1, genesis_block.hash(), 0);
    let batch = vec![t1, t2];
    let results = bank.process_transactions(&batch);
    assert_eq!(results, vec![Ok(()), Err(TransactionError::AccountInUse)]);

    // every account of the batch can be locked again, one transaction at a time
    let first = vec![batch[0].clone()];
    assert_eq!(bank.lock_accounts(&first), vec![Ok(())]);
    bank.unlock_accounts(&first, &vec![Ok(())]);
    let second = vec![batch[1].clone()];
    assert_eq!(bank.lock_accounts(&second), vec![Ok(())]);
    bank.unlock_accounts(&second, &vec![Ok(())]);
}

#[test]
fn locks_of_another_batch_stay_held() {
    let (genesis_block, mint_keypair) = GenesisBlock::new(10);
    let mut bank = Bank::new(&genesis_block);
    let key1 = Keypair::new().pubkey();
    let held = vec![SystemTransaction::new_move(
        &mint_keypair,
        &key1,
        1,
        genesis_block.hash(),
        0,
    )];
    assert_eq!(bank.lock_accounts(&held), vec![Ok(())]);

    let key2 = Keypair::new().pubkey();
    let other = vec![SystemTransaction::new_move(
        &mint_keypair,
        &key2,
        2,
        genesis_block.hash(),
        0,
    )];
    assert_eq!(
        bank.process_transactions(&other),
        vec![Err(TransactionError::AccountInUse)]
    );
    // the mint is still locked by the first batch
    assert_eq!(
        bank.lock_accounts(&other),
        vec![Err(TransactionError::AccountInUse)]
    );
    bank.unlock_accounts(&held, &vec![Ok(())]);
    assert_eq!(bank.lock_accounts(&other), vec![Ok(())]);
}

#[test]
fn a_child_writes_nothing_into_its_parent() {
    let (genesis_block, mint_keypair) = GenesisBlock::new(10);
    let mut parent = Bank::new(&genesis_block);
    let key = Keypair::new().pubkey();
    parent
        .transfer(4, &mint_keypair, &key, genesis_block.hash())
        .unwrap();
    parent.freeze();
    let parent = Arc::new(parent);
    let mut child = Bank::new_from_parent(&parent, &Pubkey::default(), 1);
    assert_eq!(child.get_balance(&key), 4);
    child
        .transfer(3, &mint_keypair, &key, genesis_block.hash())
        .unwrap();
    child.deposit(&key, 10);
    assert_eq!(child.get_balance(&key), 17);
    assert_eq!(child.get_balance(&mint_keypair.pubkey()), 3);
    assert_eq!(parent.get_balance(&key), 4);
    assert_eq!(parent.get_balance(&mint_keypair.pubkey()), 6);
    assert_eq!(parent.get_account_modified_since_parent(&key).unwrap().lamports, 4);
    assert_eq!(child.get_account_modified_since_parent(&key).unwrap().lamports, 17);

    child.squash();
    assert_eq!(child.get_balance(&key), 17);
    assert_eq!(parent.get_balance(&key), 4);
    assert!(child.parent().is_none());
}

#[test]
fn freezing_twice_keeps_the_hash() {
    let (genesis_block, _) = GenesisBlock::new(10);
    let mut bank = Bank::new(&genesis_block);
    assert!(!bank.is_frozen());
    assert_eq!(bank.hash(), ledger_core::hash::Hash::default());
    bank.freeze();
    assert!(bank.is_frozen());
    let first = bank.hash();
    assert_eq!(first, bank.hash_internal_state());
    bank.freeze();
    assert_eq!(bank.hash(), first);
    // a later write changes the state, not the hash
    bank.deposit(&Keypair::new().pubkey(), 1);
    assert_ne!(bank.hash_internal_state(), first);
    bank.freeze();
    assert_eq!(bank.hash(), first);
}

#[test]
fn the_epoch_grows_by_steps_of_one() {
    for (slots_per_epoch, warmup) in [(1u64, true), (5, true), (32, true), (7, false), (64, true)]
    {
        let schedule = EpochSchedule::new(slots_per_epoch, 0, warmup);
        let mut last = schedule.get_epoch_and_slot_index(0).0;
        assert_eq!(last, 0);
        for slot in 0..300u64 {
            let (epoch, index) = schedule.get_epoch_and_slot_index(slot + 1);
            assert!(epoch == last || epoch == last + 1);
            if epoch == last + 1 {
                assert_eq!(index, 0);
            }
            assert!(index < schedule.get_slots_in_epoch(epoch));
            last = epoch;
        }
    }
}

#[test]
fn epoch_schedule_values() {
    let schedule = EpochSchedule::new(32, 16, true);
    assert_eq!(schedule.first_normal_epoch, 5);
    assert_eq!(schedule.first_normal_slot, 31);
    assert_eq!(schedule.get_slots_in_epoch(0), 1);
    assert_eq!(schedule.get_slots_in_epoch(4), 16);
    assert_eq!(schedule.get_slots_in_epoch(5), 32);
    assert_eq!(schedule.get_epoch_and_slot_index(0), (0, 0));
    assert_eq!(schedule.get_epoch_and_slot_index(1), (1, 0));
    assert_eq!(schedule.get_epoch_and_slot_index(2), (1, 1));
    assert_eq!(schedule.get_epoch_and_slot_index(3), (2, 0));
    assert_eq!(schedule.get_epoch_and_slot_index(6), (2, 3));
    assert_eq!(schedule.get_epoch_and_slot_index(30), (4, 15));
    assert_eq!(schedule.get_epoch_and_slot_index(31), (5, 0));
    assert_eq!(schedule.get_epoch_and_slot_index(95), (7, 0));
    assert_eq!(schedule.get_epoch_and_slot_index(100), (7, 5));
    assert_eq!(schedule.get_stakers_epoch(2), 2);
    assert_eq!(schedule.get_stakers_epoch(31), 5);
    assert_eq!(schedule.get_stakers_epoch(47), 6);

    let round = EpochSchedule::new(33, 0, true);
    assert_eq!(round.first_normal_epoch, 6);
    assert_eq!(round.first_normal_slot, 63);

    let plain = EpochSchedule::new(10, 3, false);
    assert_eq!(plain.first_normal_epoch, 0);
    assert_eq!(plain.first_normal_slot, 0);
    assert_eq!(plain.get_epoch_and_slot_index(25), (2, 5));
    assert_eq!(plain.get_stakers_epoch(7), 1);
    assert_eq!(plain.get_slots_in_epoch(0), 10);
    assert_eq!(EpochSchedule::default().slots_per_epoch, 0);
}

#[test]
fn fee_on_failure_goes_to_the_leader() {
    let (genesis_block, mint_keypair) = GenesisBlock::new(2);
    let mut bank = Bank::new(&genesis_block);
    let leader = genesis_block.bootstrap_leader_id;
    let dest = Keypair::new().pubkey();
    assert_eq!(bank.get_balance(&leader), 1);
    let tx = SystemTransaction::new_account(&mint_keypair, &dest, 2, genesis_block.hash(), 1);
    assert_eq!(
        bank.process_transaction(&tx),
        Err(TransactionError::InstructionError(
            0,
            InstructionError::ResultWithNegativeLamports
        ))
    );
    // the mint loses the fee only, and the leader gains it
    assert_eq!(bank.get_balance(&mint_keypair.pubkey()), 1);
    assert_eq!(bank.get_balance(&leader), 2);
    assert_eq!(bank.get_balance(&dest), 0);
}

#[test]
fn a_batch_pays_the_fees_of_its_successes() {
    let leader = Keypair::new().pubkey();
    let (genesis_block, mint_keypair) = GenesisBlock::new_with_leader(100, &leader, 3);
    let mut bank = Bank::new(&genesis_block);
    let alice = Keypair::new();
    let bob = Keypair::new();
    let carol = Keypair::new();
    let bystander = Keypair::new().pubkey();
    let hash = genesis_block.hash();
    bank.transfer(20, &mint_keypair, &alice.pubkey(), hash).unwrap();
    bank.transfer(20, &mint_keypair, &bob.pubkey(), hash).unwrap();
    bank.deposit(&bystander, 9);
    let leader_before = bank.get_balance(&leader);
    let count_before = bank.transaction_count();

    let dest = Keypair::new().pubkey();
    // runs, and pays 3
    let good = SystemTransaction::new_move(&alice, &dest, 5, hash, 3);
    // fails in its instruction, and pays 4 all the same
    let bad = SystemTransaction::new_move(&bob, &Keypair::new().pubkey(), 17, hash, 4);
    // has no account to pay from: pays nothing
    let poor = SystemTransaction::new_move(&carol, &Keypair::new().pubkey(), 1, hash, 5);
    let results = bank.process_transactions(&vec![good.clone(), bad.clone(), poor.clone()]);
    assert_eq!(
        results,
        vec![Ok(()), Ok(()), Err(TransactionError::AccountNotFound)]
    );
    assert_eq!(bank.get_balance(&leader), leader_before + 3 + 4);
    assert_eq!(bank.get_balance(&alice.pubkey()), 20 - 5 - 3);
    assert_eq!(bank.get_balance(&bob.pubkey()), 20 - 4);
    assert_eq!(bank.get_balance(&dest), 5);
    assert_eq!(bank.get_balance(&bystander), 9);
    assert_eq!(bank.get_balance(&carol.pubkey()), 0);
    assert_eq!(bank.transaction_count(), count_before + 1);
    assert_eq!(bank.get_signature_status(&good.signatures[0]), Some(Ok(())));
    assert_eq!(
        bank.get_signature_status(&bad.signatures[0]),
        Some(Err(TransactionError::InstructionError(
            0,
            InstructionError::ResultWithNegativeLamports
        )))
    );
    assert_eq!(bank.get_signature_status(&poor.signatures[0]), None);
    assert!(!bank.has_signature(&poor.signatures[0]));
}

#[test]
fn a_seen_signature_costs_nothing() {
    let leader = Keypair::new().pubkey();
    let (genesis_block, mint_keypair) = GenesisBlock::new_with_leader(50, &leader, 3);
    let mut bank = Bank::new(&genesis_block);
    let dest = Keypair::new().pubkey();
    let hash = genesis_block.hash();
    let tx = SystemTransaction::new_move(&mint_keypair, &dest, 2, hash, 1);
    assert_eq!(bank.process_transaction(&tx), Ok(()));
    let mint = bank.get_balance(&mint_keypair.pubkey());
    let collected = bank.get_balance(&leader);
    let count = bank.transaction_count();
    let other = SystemTransaction::new_move(&mint_keypair, &dest, 2, hash, 1);
    assert_eq!(other.signatures[0], tx.signatures[0]);
    assert_eq!(
        bank.process_transactions(&vec![other]),
        vec![Err(TransactionError::DuplicateSignature)]
    );
    assert_eq!(bank.get_balance(&mint_keypair.pubkey()), mint);
    assert_eq!(bank.get_balance(&leader), collected);
    assert_eq!(bank.get_balance(&dest), 2);
    assert_eq!(bank.transaction_count(), count);
    assert_eq!(bank.get_signature_status(&tx.signatures[0]), Some(Ok(())));
}

#[test]
fn a_slot_is_its_index_behind_the_epochs_before() {
    for schedule in [
        EpochSchedule::new(32, 5, true),
        EpochSchedule::new(10, 0, false),
        EpochSchedule::new(1, 1, true),
    ] {
        for slot in 0..300u64 {
            let (epoch, index) = schedule.get_epoch_and_slot_index(slot);
            let before: u64 = (0..epoch).map(|e| schedule.get_slots_in_epoch(e)).sum();
            assert_eq!(slot, before + index);
            assert!(index < schedule.get_slots_in_epoch(epoch));
        }
    }
}

#[test]
fn only_lasting_outcomes_are_recorded() {
    let (genesis_block, mint_keypair) = GenesisBlock::new(10);
    let mut bank = Bank::new(&genesis_block);
    let dest = Keypair::new().pubkey();
    let hash = genesis_block.hash();
    let txs: Vec<_> = (1..=5u64)
        .map(|n| SystemTransaction::new_move(&mint_keypair, &dest, n, hash, 0))
        .collect();
    let res = vec![
        Err(TransactionError::BlockhashNotFound),
        Err(TransactionError::DuplicateSignature),
        Err(TransactionError::AccountNotFound),
        Err(TransactionError::InsufficientFundsForFee),
        Ok(()),
    ];
    let mint_before = bank.get_balance(&mint_keypair.pubkey());
    bank.update_transaction_statuses(&txs, &res);
    for tx in &txs[0..3] {
        assert!(!bank.has_signature(&tx.signatures[0]));
        assert_eq!(bank.get_signature_status(&tx.signatures[0]), None);
    }
    assert!(bank.has_signature(&txs[3].signatures[0]));
    assert_eq!(
        bank.get_signature_status(&txs[3].signatures[0]),
        Some(Err(TransactionError::InsufficientFundsForFee))
    );
    assert!(bank.has_signature(&txs[4].signatures[0]));
    assert_eq!(bank.get_signature_status(&txs[4].signatures[0]), Some(Ok(())));
    // nothing but the statuses has changed
    assert_eq!(bank.get_balance(&mint_keypair.pubkey()), mint_before);
    assert_eq!(bank.get_balance(&dest), 0);
    assert_eq!(bank.transaction_count(), 0);
}
