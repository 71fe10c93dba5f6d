use ledger_core::account::Account;
use ledger_core::account_locks::AccountLocks;
use ledger_core::account_store::AccountStore;
use ledger_core::bank::Bank;
use ledger_core::blockhash_queue::MAX_RECENT_BLOCKHASHES;
use ledger_core::genesis_block::{GenesisBlock, NUM_TICKS_PER_SECOND};
use ledger_core::native_loader;
use ledger_core::pubkey::Pubkey;
use ledger_core::runtime::SystemProcessor;
use ledger_core::signature::Keypair;
use ledger_core::system_program;
use ledger_core::system_transaction::SystemTransaction;
use ledger_core::transaction::{InstructionError, Transaction, TransactionError};
use ledger_core::vote_state::{self, Lockout, VoteState, VOTE_STATE_SIZE};
use std::sync::Arc;

fn key(n: u8) -> Pubkey {
    Pubkey::new(&[n; 32])
}

fn tick(n: u64) -> ledger_core::hash::Hash {
    ledger_core::hash::hash(&n.to_le_bytes())
}

#[test]
fn genesis_installs_accounts_and_programs() {
    let leader = key(9);
    let (mut genesis_block, mint_keypair) = GenesisBlock::new_with_leader(50, &leader, 7);
    genesis_block
        .native_programs
        .push(("my_program".to_string(), key(33)));
    assert!(genesis_block.is_valid());
    let bank = Bank::new(&genesis_block);
    assert_eq!(bank.slot(), 0);
    assert_eq!(bank.tick_height(), 0);
    assert_eq!(bank.transaction_count(), 0);
    assert_eq!(bank.collector_id(), leader);
    assert_eq!(bank.ticks_per_slot(), genesis_block.ticks_per_slot);
    assert!(!bank.is_frozen());
    assert!(!bank.is_delta());
    assert!(bank.parent().is_none());
    assert!(bank.parents().is_empty());
    assert_eq!(bank.last_blockhash(), genesis_block.hash());
    assert_eq!(
        genesis_block.hash(),
        ledger_core::hash::hash(&genesis_block.to_bytes())
    );
    assert_eq!(bank.get_balance(&mint_keypair.pubkey()), 43);
    assert_eq!(bank.get_balance(&leader), 1);

    let vote = bank
        .get_account(&genesis_block.bootstrap_leader_vote_account_id)
        .unwrap();
    assert_eq!(vote.lamports, 6);
    assert_eq!(vote.owner, vote_state::id());
    assert_eq!(vote.data.len(), VOTE_STATE_SIZE);
    let state = VoteState::deserialize(&vote.data).unwrap();
    assert_eq!(state.delegate_id, leader);
    assert_eq!(state.votes, vec![Lockout { slot: 0, confirmation_count: 1 }]);

    for (id, name) in [
        (system_program::id(), "solana_system_program"),
        (ledger_core::bpf_loader::id(), "solana_bpf_loader"),
        (vote_state::id(), "solana_vote_program"),
        (key(33), "my_program"),
    ] {
        let program = bank.get_account(&id).unwrap();
        assert_eq!(program.data, name.as_bytes().to_vec());
        assert_eq!(program.owner, native_loader::id());
        assert!(program.executable);
        assert_eq!(program.lamports, 1);
    }
    let votes = bank.vote_accounts();
    assert_eq!(votes.len(), 1);
    assert_eq!(
        votes.entries(),
        vec![(genesis_block.bootstrap_leader_vote_account_id, vote.clone())]
    );
    assert_eq!(*votes.get(&genesis_block.bootstrap_leader_vote_account_id).unwrap(), vote);
    assert!(votes.get(&leader).is_none());

    // every epoch up to the one that slot 0 fixes has the genesis stakes
    let last = bank.get_stakers_epoch(0);
    assert_eq!(last, 1);
    for epoch in 0..=last {
        let stakes = bank.epoch_vote_accounts(epoch).unwrap();
        assert_eq!(stakes.len(), 1);
        assert_eq!(*stakes.get(&genesis_block.bootstrap_leader_vote_account_id).unwrap(), vote);
    }
    assert!(bank.epoch_vote_accounts(last + 1).is_none());
}

#[test]
fn genesis_validity() {
    let (mut block, _) = GenesisBlock::new(5);
    assert!(block.is_valid());
    assert_eq!(block.lamports, 7);
    assert_eq!(GenesisBlock::new(u64::MAX).0.lamports, u64::MAX);
    block.bootstrap_leader_lamports = 1;
    assert!(!block.is_valid());
    block.bootstrap_leader_lamports = 8;
    assert!(!block.is_valid());
    block.bootstrap_leader_lamports = 7;
    assert!(block.is_valid());
    block.mint_id = Pubkey::default();
    assert!(!block.is_valid());
    block.mint_id = key(1);
    block.slots_per_epoch = 0;
    assert!(!block.is_valid());
    block.slots_per_epoch = u64::MAX;
    assert!(!block.is_valid());
    block.epoch_warmup = false;
    assert!(block.is_valid());
}

#[test]
fn ticks_register_blockhashes_and_open_shards() {
    let (genesis_block, mint_keypair) = GenesisBlock::new(100);
    let mut bank = Bank::new(&genesis_block);
    let ticks_per_slot = bank.ticks_per_slot();
    assert_eq!(ticks_per_slot, 8);
    let payee = Keypair::new().pubkey();
    let early = SystemTransaction::new_move(&mint_keypair, &payee, 1, genesis_block.hash(), 0);
    assert_eq!(bank.process_transaction(&early), Ok(()));

    for n in 1..ticks_per_slot - 1 {
        bank.register_tick_at(&tick(n), 1000 + n);
        assert_eq!(bank.tick_height(), n);
        assert_eq!(bank.last_blockhash(), genesis_block.hash());
    }
    assert!(!bank.is_votable());
    bank.register_tick_at(&tick(7), 1007);
    // the last tick of the slot gives the slot's blockhash
    assert_eq!(bank.last_blockhash(), tick(7));
    assert!(bank.is_votable());
    bank.register_tick_at(&tick(8), 1008);
    assert_eq!(bank.last_blockhash(), tick(7));
    assert!(!bank.is_votable());

    let recent = SystemTransaction::new_move(&mint_keypair, &payee, 2, tick(7), 0);
    assert_eq!(bank.process_transaction(&recent), Ok(()));
    let unknown = SystemTransaction::new_move(&mint_keypair, &payee, 3, tick(8), 0);
    assert_eq!(
        bank.process_transaction(&unknown),
        Err(TransactionError::BlockhashNotFound)
    );

    // every tenth tick opens a shard; after enough of them the first
    // signatures are forgotten
    assert!(bank.has_signature(&early.signatures[0]));
    let shards = ledger_core::status_cache::MAX_CACHE_ENTRIES as u64;
    let mut n = 9;
    while n <= NUM_TICKS_PER_SECOND * (shards + 1) {
        bank.register_tick_at(&tick(n), 1000 + n);
        n += 1;
    }
    assert!(!bank.has_signature(&early.signatures[0]));
    assert_eq!(bank.get_signature_status(&recent.signatures[0]), None);
}

#[test]
fn old_blockhashes_are_refused() {
    let (genesis_block, mint_keypair) = GenesisBlock::new(100);
    let mut bank = Bank::new(&genesis_block);
    let payee = Keypair::new().pubkey();
    let ticks_per_slot = bank.ticks_per_slot();
    let mut height = 0;
    for _ in 0..5 {
        for _ in 0..ticks_per_slot {
            height += 1;
            bank.register_tick_at(&tick(height), height);
        }
    }
    // five blockhashes were registered after the genesis hash
    let tx = SystemTransaction::new_move(&mint_keypair, &payee, 1, genesis_block.hash(), 0);
    let batch = vec![tx];
    let locks = bank.lock_accounts(&batch);
    let results = bank.load_execute_and_commit_transactions(&batch, locks, 4);
    assert_eq!(results, vec![Err(TransactionError::BlockhashNotFound)]);
    bank.unlock_accounts(&batch, &results);
    let locks = bank.lock_accounts(&batch);
    let results = bank.load_execute_and_commit_transactions(&batch, locks, 5);
    assert_eq!(results, vec![Ok(())]);
    bank.unlock_accounts(&batch, &results);
    assert_eq!(bank.get_balance(&payee), 1);

    // a result that the caller hands in stands
    let other = vec![SystemTransaction::new_move(&mint_keypair, &payee, 2, genesis_block.hash(), 0)];
    let results = bank.load_execute_and_commit_transactions(
        &other,
        vec![Err(TransactionError::AccountInUse)],
        MAX_RECENT_BLOCKHASHES,
    );
    assert_eq!(results, vec![Err(TransactionError::AccountInUse)]);
    assert_eq!(bank.get_balance(&payee), 1);
}

#[test]
fn confirmation_timestamp() {
    let (genesis_block, _) = GenesisBlock::new(100);
    let mut bank = Bank::new(&genesis_block);
    let ticks_per_slot = bank.ticks_per_slot();
    let mut height = 0;
    for _ in 0..6 {
        for _ in 0..ticks_per_slot {
            height += 1;
            bank.register_tick_at(&tick(height), 5000 + height);
        }
    }
    bank.freeze();
    let parent = Arc::new(bank);
    let bank = Bank::new_from_parent(&parent, &Pubkey::default(), 5);
    // the blockhash of height h was registered at tick 8h - 1
    let at = |h: u64| Some(5000 + 8 * h - 1);

    let stakes = vec![(3, 10), (5, 4), (2, 20), (4, 3), (9, 100), (3, 1)];
    // slots 5 and 4 hold 7, with slot 3 it is 18
    assert_eq!(bank.get_confirmation_timestamp(stakes.clone(), 6), at(4));
    assert_eq!(bank.get_confirmation_timestamp(stakes.clone(), 7), at(3));
    assert_eq!(bank.get_confirmation_timestamp(stakes.clone(), 3), at(5));
    assert_eq!(bank.get_confirmation_timestamp(stakes.clone(), 17), at(3));
    assert_eq!(bank.get_confirmation_timestamp(stakes.clone(), 18), at(2));
    assert_eq!(bank.get_confirmation_timestamp(stakes.clone(), 37), at(2));
    // slot 9 is above the bank's, so its stake does not count
    assert_eq!(bank.get_confirmation_timestamp(stakes.clone(), 38), None);
    assert_eq!(bank.get_confirmation_timestamp(vec![], 0), None);
    assert_eq!(bank.get_confirmation_timestamp(vec![(5, 0)], 0), None);
    assert_eq!(bank.get_confirmation_timestamp(vec![(5, 1)], 0), at(5));
    assert_eq!(
        bank.get_confirmation_timestamp(vec![(5, u64::MAX), (5, u64::MAX)], u64::MAX),
        at(5)
    );
    // the genesis hash has height 0; a height that was never registered has no time
    assert!(bank.get_confirmation_timestamp(vec![(0, 1)], 0).is_some());

    let far = Bank::new_from_parent(&parent, &Pubkey::default(), 400);
    // slots more than 300 behind the bank's do not count
    assert_eq!(far.get_confirmation_timestamp(vec![(99, 5), (100, 5)], 5), None);
    assert_eq!(far.get_confirmation_timestamp(vec![(99, 5), (100, 5), (101, 1)], 5), None);
}

#[test]
fn tick_reads_the_clock() {
    let (genesis_block, _) = GenesisBlock::new(100);
    let mut bank = Bank::new(&genesis_block);
    for n in 0..bank.ticks_per_slot() {
        bank.register_tick(&tick(n));
    }
    // after 2020
    let genesis_time = bank.get_confirmation_timestamp(vec![(0, 1)], 0).unwrap();
    assert!(genesis_time > 1_577_836_800_000);
    bank.freeze();
    let child = Bank::new_from_parent(&Arc::new(bank), &Pubkey::default(), 1);
    let first = child.get_confirmation_timestamp(vec![(1, 1)], 0).unwrap();
    assert!(first >= genesis_time);
}

#[test]
fn load_failures() {
    let (genesis_block, mint_keypair) = GenesisBlock::new(10);
    let mut bank = Bank::new(&genesis_block);
    let payee = Keypair::new();

    // the fee is more than the payer has
    let tx = SystemTransaction::new_move(&mint_keypair, &payee.pubkey(), 1, genesis_block.hash(), 11);
    assert_eq!(
        bank.process_transaction(&tx),
        Err(TransactionError::InsufficientFundsForFee)
    );
    assert_eq!(
        bank.get_signature_status(&tx.signatures[0]),
        Some(Err(TransactionError::InsufficientFundsForFee))
    );
    assert_eq!(bank.get_balance(&mint_keypair.pubkey()), 10);
    // it is recorded, so it cannot be sent again
    assert_eq!(
        bank.process_transaction(&tx),
        Err(TransactionError::DuplicateSignature)
    );

    // the same account twice
    let twice = SystemTransaction::new_move(
        &mint_keypair,
        &mint_keypair.pubkey(),
        1,
        genesis_block.hash(),
        0,
    );
    assert_eq!(
        bank.process_transactions(&vec![twice.clone()]),
        vec![Err(TransactionError::AccountLoadedTwice)]
    );

    // a program that does not exist
    let missing = Transaction::new_signed(
        &mint_keypair,
        &[payee.pubkey()],
        &key(50),
        vec![],
        genesis_block.hash(),
        0,
    );
    assert_eq!(
        bank.process_transaction(&missing),
        Err(TransactionError::AccountNotFound)
    );
    // an account that is not executable is no program
    bank.store(&key(50), &Account::new(1, 0, &native_loader::id()));
    assert_eq!(
        bank.process_transaction(&missing),
        Err(TransactionError::AccountNotFound)
    );

    // an instruction that names no program of the transaction
    let mut astray = SystemTransaction::new_move(&mint_keypair, &payee.pubkey(), 2, genesis_block.hash(), 0);
    astray.instructions[0].program_ids_index = 1;
    assert_eq!(
        bank.process_transactions(&vec![astray]),
        vec![Err(TransactionError::AccountNotFound)]
    );
    assert_eq!(bank.transaction_count(), 0);
}

#[test]
fn loader_chains_have_a_depth() {
    let (genesis_block, mint_keypair) = GenesisBlock::new(10);
    let mut bank = Bank::new(&genesis_block);
    let program = |owner: Pubkey| Account { lamports: 1, data: vec![], owner, executable: true };
    // program 1 is loaded by 2, that by 3, and so on up to the native loader
    bank.store(&key(105), &program(native_loader::id()));
    for n in (100..105).rev() {
        bank.store(&key(n), &program(key(n + 1)));
    }
    let run = |bank: &mut Bank<SystemProcessor>, id: Pubkey, fee: u64| {
        let tx = Transaction::new_signed(&mint_keypair, &[], &id, vec![], genesis_block.hash(), fee);
        bank.process_transactions(&vec![tx.clone()])[0]
            .and_then(|_| bank.get_signature_status(&tx.signatures[0]).unwrap())
    };
    // five loaders are loaded, and no handler is found
    assert_eq!(
        run(&mut bank, key(101), 0),
        Err(TransactionError::InstructionError(
            0,
            InstructionError::UnsupportedProgramId
        ))
    );
    assert_eq!(run(&mut bank, key(100), 0), Err(TransactionError::CallChainTooDeep));
    // a loader that the system program owns ends no chain
    bank.store(&key(99), &program(system_program::id()));
    assert_eq!(run(&mut bank, key(99), 0), Err(TransactionError::AccountNotFound));
}

#[test]
fn accounts_of_a_program_on_a_fork() {
    let (genesis_block, _) = GenesisBlock::new(10);
    let mut parent = Bank::new(&genesis_block);
    let owner = key(70);
    parent.store(&key(3), &Account::new(5, 1, &owner));
    parent.freeze();
    let parent = Arc::new(parent);
    let mut child = Bank::new_from_parent(&parent, &Pubkey::default(), 2);
    assert!(child.get_program_accounts_modified_since_parent(&owner).is_empty());
    assert_eq!(child.get_account_modified_since_parent(&key(3)), None);
    assert_eq!(child.get_account(&key(3)), Some(Account::new(5, 1, &owner)));
    child.store(&key(9), &Account::new(1, 0, &owner));
    child.store(&key(4), &Account::new(2, 0, &owner));
    child.store(&key(5), &Account::new(2, 0, &key(71)));
    // an account that holds nothing counts as deleted
    child.store(&key(6), &Account::new(0, 0, &owner));
    child.store(&key(3), &Account::new(0, 0, &owner));
    assert_eq!(
        child.get_program_accounts_modified_since_parent(&owner),
        vec![(key(4), Account::new(2, 0, &owner)), (key(9), Account::new(1, 0, &owner))]
    );
    assert_eq!(child.get_account(&key(6)), None);
    assert_eq!(child.get_account(&key(3)), None);
    assert_eq!(parent.get_account(&key(3)), Some(Account::new(5, 1, &owner)));
    assert_eq!(
        parent.get_program_accounts_modified_since_parent(&owner),
        vec![(key(3), Account::new(5, 1, &owner))]
    );
    assert_eq!(child.withdraw(&key(3), 0), Err(TransactionError::AccountNotFound));
    child.clear_signatures();
}

#[test]
fn child_takes_over_from_its_parent() {
    let (genesis_block, mint_keypair) = GenesisBlock::new(10);
    let mut parent = Bank::new(&genesis_block);
    let payee = Keypair::new().pubkey();
    parent.transfer(1, &mint_keypair, &payee, genesis_block.hash()).unwrap();
    parent.register_tick_at(&tick(1), 1);
    parent.freeze();
    let parent = Arc::new(parent);
    let collector = key(12);
    let mut child = Bank::new_from_parent(&parent, &collector, 3);
    assert_eq!(child.slot(), 3);
    assert_eq!(child.collector_id(), collector);
    assert_eq!(child.tick_height(), 1);
    assert_eq!(child.ticks_per_slot(), parent.ticks_per_slot());
    assert_eq!(child.transaction_count(), 1);
    assert_eq!(child.last_blockhash(), genesis_block.hash());
    assert!(!child.is_frozen());
    assert!(!child.is_delta());
    assert_eq!(child.hash_internal_state(), parent.hash());
    assert_eq!(child.get_epoch_and_slot_index(3), parent.get_epoch_and_slot_index(3));
    assert!(Arc::ptr_eq(&child.parent().unwrap(), &parent));

    // the fees on the child go to its collector
    let tx = SystemTransaction::new_move(&mint_keypair, &payee, 1, genesis_block.hash(), 2);
    assert_eq!(child.process_transaction(&tx), Ok(()));
    assert_eq!(child.get_balance(&collector), 2);
    assert_eq!(child.get_balance(&genesis_block.bootstrap_leader_id), 1);
    assert!(child.is_delta());

    child.freeze();
    let child = Arc::new(child);
    let grandchild = Bank::new_from_parent(&child, &collector, 4);
    assert_eq!(grandchild.parents().len(), 2);
    assert!(Arc::ptr_eq(&grandchild.parents()[1], &parent));
    assert_eq!(grandchild.get_balance(&payee), 2);
    assert_eq!(grandchild.get_signature_status(&tx.signatures[0]), Some(Ok(())));
}

#[test]
fn account_store_keeps_order() {
    let mut store = AccountStore::new();
    assert_eq!(store.len(), 0);
    assert!(store.get(&key(1)).is_none());
    for n in [5u8, 1, 9, 3] {
        store.store(&key(n), Account::new(n as u64, 0, &key(0)));
    }
    store.store(&key(9), Account::new(90, 0, &key(0)));
    assert_eq!(store.len(), 4);
    let keys: Vec<Pubkey> = (0..store.len()).map(|i| store.key_at(i)).collect();
    assert_eq!(keys, vec![key(1), key(3), key(5), key(9)]);
    assert_eq!(store.account_at(3).lamports, 90);
    assert_eq!(store.get(&key(5)).unwrap().lamports, 5);
    assert!(store.get(&key(4)).is_none());

    let mut top = AccountStore::new();
    top.store(&key(3), Account::new(33, 0, &key(0)));
    top.store(&key(4), Account::new(44, 0, &key(0)));
    let copy = store.clone();
    store.overlay(&top);
    assert_eq!(store.len(), 5);
    assert_eq!(store.get(&key(3)).unwrap().lamports, 33);
    assert_eq!(store.get(&key(4)).unwrap().lamports, 44);
    assert_eq!(store.get(&key(1)).unwrap().lamports, 1);
    assert_eq!(copy.len(), 4);
    assert_eq!(copy.get(&key(3)).unwrap().lamports, 3);
    // the bytes do not depend on the order in which the accounts came
    let mut other = AccountStore::new();
    for n in [3u8, 9, 1, 5] {
        other.store(&key(n), copy.get(&key(n)).unwrap().clone());
    }
    assert_eq!(other.to_bytes(), copy.to_bytes());
    assert_eq!(copy.to_bytes().len(), 4 * (32 + 8 + 32 + 1 + 8));
    assert_ne!(store.to_bytes(), copy.to_bytes());
}

#[test]
fn account_locks_are_all_or_nothing() {
    let mut locks = AccountLocks::new();
    let a = Keypair::new();
    let b = Keypair::new();
    let hash = ledger_core::hash::Hash::default();
    let ab = SystemTransaction::new_move(&a, &b.pubkey(), 1, hash, 0);
    let b_alone = SystemTransaction::new_assign(&b, hash, &key(1), 0);
    let a_alone = SystemTransaction::new_assign(&a, hash, &key(1), 0);
    assert!(!locks.contains(&a.pubkey()));
    assert_eq!(locks.lock_transaction(&b_alone), Ok(()));
    assert!(locks.contains(&b.pubkey()));
    assert_eq!(locks.lock_transaction(&ab), Err(TransactionError::AccountInUse));
    assert!(!locks.contains(&a.pubkey()));
    locks.unlock_transaction(&b_alone);
    assert_eq!(
        locks.lock_accounts(&vec![ab.clone(), a_alone.clone(), b_alone.clone()]),
        vec![
            Ok(()),
            Err(TransactionError::AccountInUse),
            Err(TransactionError::AccountInUse)
        ]
    );
    locks.unlock_accounts(
        &vec![ab, a_alone, b_alone],
        &vec![
            Ok(()),
            Err(TransactionError::AccountInUse),
            Err(TransactionError::AccountInUse),
        ],
    );
    assert!(!locks.contains(&a.pubkey()));
    assert!(!locks.contains(&b.pubkey()));
}

#[test]
fn programs_are_read_locked() {
    let mut locks = AccountLocks::new();
    let a = Keypair::new();
    let b = Keypair::new();
    let c = Keypair::new();
    let hash = ledger_core::hash::Hash::default();
    let program = key(60);
    let runs = |from: &Keypair| Transaction::new_signed(from, &[], &program, vec![], hash, 0);
    let writes = SystemTransaction::new_move(&c, &program, 1, hash, 0);

    // two transactions may run the same program
    assert_eq!(locks.lock_transaction(&runs(&a)), Ok(()));
    assert!(locks.is_read_locked(&program));
    assert!(!locks.contains(&program));
    assert_eq!(locks.lock_transaction(&runs(&b)), Ok(()));
    // but none may write to its account meanwhile
    assert_eq!(locks.lock_transaction(&writes), Err(TransactionError::AccountInUse));
    assert!(!locks.contains(&c.pubkey()));
    locks.unlock_transaction(&runs(&a));
    assert!(locks.is_read_locked(&program));
    assert_eq!(locks.lock_transaction(&writes), Err(TransactionError::AccountInUse));
    locks.unlock_transaction(&runs(&b));
    assert!(!locks.is_read_locked(&program));
    assert!(!locks.is_read_locked(&system_program::id()));

    // and while its account is written to, none may run it
    assert_eq!(locks.lock_transaction(&writes), Ok(()));
    assert!(locks.contains(&program));
    assert!(locks.is_read_locked(&system_program::id()));
    assert_eq!(locks.lock_transaction(&runs(&a)), Err(TransactionError::AccountInUse));
    assert!(!locks.contains(&a.pubkey()));
    locks.unlock_transaction(&writes);
    assert_eq!(locks.lock_transaction(&runs(&a)), Ok(()));
}

#[test]
fn child_over_an_open_parent() {
    let (genesis_block, mint_keypair) = GenesisBlock::new(10);
    let mut parent = Bank::new(&genesis_block);
    let payee = Keypair::new().pubkey();
    parent.transfer(1, &mint_keypair, &payee, genesis_block.hash()).unwrap();
    assert!(!parent.is_frozen());
    let state = parent.hash_internal_state();
    let collector = key(12);
    let child = Bank::new_from_open_parent(parent, &collector, 2);
    let parent = child.parent().unwrap();
    assert!(parent.is_frozen());
    assert_eq!(parent.hash(), state);
    assert_eq!(parent.slot(), 0);
    assert_eq!(child.slot(), 2);
    assert_eq!(child.collector_id(), collector);
    assert_eq!(child.hash_internal_state(), state);
    assert_eq!(child.transaction_count(), 1);
    assert_eq!(child.get_balance(&payee), 1);
    assert!(!child.is_frozen());
    assert_eq!(child.parents().len(), 1);
}

#[test]
fn empty_bank_answers_epoch_lengths() {
    let bank: Bank<SystemProcessor> = Bank::default();
    assert_eq!(bank.get_slots_in_epoch(0), 0);
    assert_eq!(bank.get_slots_in_epoch(9), 0);
    let schedule = ledger_core::epoch_schedule::EpochSchedule::default();
    assert_eq!(schedule.get_slots_in_epoch(3), 0);
}
