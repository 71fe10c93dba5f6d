use ledger_core::account::{Account, KeyedAccount};
use ledger_core::bank::Bank;
use ledger_core::genesis_block::GenesisBlock;
use ledger_core::native_loader;
use ledger_core::pubkey::Pubkey;
use ledger_core::runtime::{finish_instruction, InstructionProcessor, Runtime, SystemProcessor};
use ledger_core::signature::Keypair;
use ledger_core::system_instruction::SystemInstruction;
use ledger_core::system_program;
use ledger_core::transaction::{
    CompiledInstruction, InstructionError, Transaction, TransactionError,
};

/// A handler whose behaviour the instruction's first data byte picks.
struct Mischief {}

impl InstructionProcessor for Mischief {
    fn process_instruction(
        &self,
        program_id: &Pubkey,
        keyed_accounts: &mut Vec<KeyedAccount>,
        data: &[u8],
        tick_height: u64,
    ) -> Result<(), InstructionError> {
        match data.first().copied().unwrap_or(0) {
            0 => Ok(()),
            1 => {
                // takes a lamport from an account of another program
                keyed_accounts[0].account.lamports -= 1;
                keyed_accounts[1].account.lamports += 1;
                Ok(())
            }
            2 => {
                // makes a lamport
                keyed_accounts[1].account.lamports += 1;
                Ok(())
            }
            3 => {
                keyed_accounts[0].account.owner = *program_id;
                Ok(())
            }
            4 => {
                keyed_accounts[0].account.data = vec![1, 2, 3];
                Ok(())
            }
            5 => {
                keyed_accounts[0].account.executable = true;
                Ok(())
            }
            6 => {
                keyed_accounts.pop();
                Ok(())
            }
            7 => Err(InstructionError::CustomError(tick_height as u32)),
            8 => {
                // spends from an account that the program owns
                keyed_accounts[1].account.lamports -= 2;
                keyed_accounts[0].account.lamports += 2;
                keyed_accounts[1].account.data = vec![9];
                Ok(())
            }
            9 => {
                keyed_accounts[1].account.data.push(1);
                Ok(())
            }
            10 => {
                keyed_accounts[1].account.owner = keyed_accounts[0].key;
                keyed_accounts[1].account.executable = true;
                Ok(())
            }
            _ => Err(InstructionError::GenericError),
        }
    }
}

fn program_id() -> Pubkey {
    Pubkey::new(&[77u8; 32])
}

fn setup() -> (Bank<Mischief>, GenesisBlock, Keypair, Keypair) {
    let (genesis_block, mint_keypair) = GenesisBlock::new(100);
    let mut bank: Bank<Mischief> = Bank::new_with_paths(&genesis_block, None);
    bank.add_instruction_processor(program_id(), Mischief {});
    let owned = Keypair::new();
    bank.store(
        &owned.pubkey(),
        &Account { lamports: 10, data: vec![0], owner: program_id(), executable: false },
    );
    (bank, genesis_block, mint_keypair, owned)
}

fn run(bank: &mut Bank<Mischief>, genesis: &GenesisBlock, from: &Keypair, to: &Pubkey, byte: u8)
    -> Option<Result<(), TransactionError>>
{
    let tx = Transaction::new_signed(from, &[*to], &program_id(), vec![byte], genesis.hash(), 0);
    assert_eq!(bank.process_transactions(&vec![tx.clone()]), vec![Ok(())]);
    bank.get_signature_status(&tx.signatures[0])
}

#[test]
fn handler_is_called_and_may_do_nothing() {
    let (mut bank, genesis, mint, owned) = setup();
    assert_eq!(bank.get_account(&program_id()).unwrap().owner, native_loader::id());
    assert!(bank.get_account(&program_id()).unwrap().executable);
    assert_eq!(run(&mut bank, &genesis, &mint, &owned.pubkey(), 0), Some(Ok(())));
    assert_eq!(bank.get_balance(&mint.pubkey()), 100);
    assert_eq!(bank.transaction_count(), 1);
}

#[test]
fn handler_may_not_spend_foreign_lamports() {
    let (mut bank, genesis, mint, owned) = setup();
    assert_eq!(
        run(&mut bank, &genesis, &mint, &owned.pubkey(), 1),
        Some(Err(TransactionError::InstructionError(
            0,
            InstructionError::ExternalAccountLamportSpend
        )))
    );
    assert_eq!(bank.get_balance(&mint.pubkey()), 100);
    assert_eq!(bank.get_balance(&owned.pubkey()), 10);
}

#[test]
fn handler_may_not_make_lamports() {
    let (mut bank, genesis, mint, owned) = setup();
    assert_eq!(
        run(&mut bank, &genesis, &mint, &owned.pubkey(), 2),
        Some(Err(TransactionError::InstructionError(
            0,
            InstructionError::UnbalancedInstruction
        )))
    );
    assert_eq!(bank.get_balance(&owned.pubkey()), 10);
}

#[test]
fn handler_may_not_take_an_account_over() {
    let (mut bank, genesis, mint, owned) = setup();
    assert_eq!(
        run(&mut bank, &genesis, &mint, &owned.pubkey(), 3),
        Some(Err(TransactionError::InstructionError(
            0,
            InstructionError::ModifiedProgramId
        )))
    );
    assert_eq!(bank.get_account(&mint.pubkey()).unwrap().owner, system_program::id());
}

#[test]
fn handler_may_not_write_foreign_data() {
    let (mut bank, genesis, mint, owned) = setup();
    assert_eq!(
        run(&mut bank, &genesis, &mint, &owned.pubkey(), 4),
        Some(Err(TransactionError::InstructionError(
            0,
            InstructionError::ExternalAccountDataModified
        )))
    );
    assert_eq!(
        run(&mut bank, &genesis, &mint, &owned.pubkey(), 5),
        Some(Err(TransactionError::InstructionError(
            0,
            InstructionError::ExecutableModified
        )))
    );
    assert!(bank.get_account(&mint.pubkey()).unwrap().data.is_empty());
}

#[test]
fn handler_may_not_drop_accounts_and_its_errors_stand() {
    let (mut bank, genesis, mint, owned) = setup();
    assert_eq!(
        run(&mut bank, &genesis, &mint, &owned.pubkey(), 6),
        Some(Err(TransactionError::InstructionError(
            0,
            InstructionError::AccountsResized
        )))
    );
    assert_eq!(
        run(&mut bank, &genesis, &mint, &owned.pubkey(), 7),
        Some(Err(TransactionError::InstructionError(
            0,
            InstructionError::CustomError(0)
        )))
    );
    assert_eq!(
        run(&mut bank, &genesis, &mint, &owned.pubkey(), 200),
        Some(Err(TransactionError::InstructionError(
            0,
            InstructionError::GenericError
        )))
    );
}

#[test]
fn handler_may_change_what_its_program_owns() {
    let (mut bank, genesis, mint, owned) = setup();
    assert_eq!(run(&mut bank, &genesis, &mint, &owned.pubkey(), 8), Some(Ok(())));
    assert_eq!(bank.get_balance(&mint.pubkey()), 102);
    assert_eq!(bank.get_balance(&owned.pubkey()), 8);
    assert_eq!(bank.get_account(&owned.pubkey()).unwrap().data, vec![9]);
}

#[test]
fn handler_may_not_resize_but_may_hand_over_what_its_program_owns() {
    let (mut bank, genesis, mint, owned) = setup();
    assert_eq!(
        run(&mut bank, &genesis, &mint, &owned.pubkey(), 9),
        Some(Err(TransactionError::InstructionError(
            0,
            InstructionError::AccountDataSizeChanged
        )))
    );
    assert_eq!(bank.get_account(&owned.pubkey()).unwrap().data, vec![0]);
    assert_eq!(run(&mut bank, &genesis, &mint, &owned.pubkey(), 10), Some(Ok(())));
    let handed = bank.get_account(&owned.pubkey()).unwrap();
    assert_eq!(handed.owner, mint.pubkey());
    assert!(handed.executable);
    // now the account is no longer the program's
    assert_eq!(
        run(&mut bank, &genesis, &mint, &owned.pubkey(), 8),
        Some(Err(TransactionError::InstructionError(
            0,
            InstructionError::ExternalAccountLamportSpend
        )))
    );
}

#[test]
fn executable_data_stays() {
    let (mut bank, genesis, mint, _) = setup();
    let program = Keypair::new().pubkey();
    bank.store(
        &program,
        &Account { lamports: 1, data: vec![7], owner: program_id(), executable: true },
    );
    assert_eq!(
        run(&mut bank, &genesis, &mint, &program, 8),
        Some(Err(TransactionError::InstructionError(
            0,
            InstructionError::ExecutableDataModified
        )))
    );
    assert_eq!(bank.get_account(&program).unwrap().data, vec![7]);
}

#[test]
fn programs_without_handler_and_bad_indices_fail() {
    let (mut bank, genesis, mint, owned) = setup();
    let unknown = Pubkey::new(&[78u8; 32]);
    bank.add_native_program("somewhere", &unknown);
    let tx = Transaction::new_signed(&mint, &[owned.pubkey()], &unknown, vec![0], genesis.hash(), 0);
    assert_eq!(bank.process_transactions(&vec![tx.clone()]), vec![Ok(())]);
    assert_eq!(
        bank.get_signature_status(&tx.signatures[0]),
        Some(Err(TransactionError::InstructionError(
            0,
            InstructionError::UnsupportedProgramId
        )))
    );

    for (accounts, want) in [
        (vec![0u8, 0], InstructionError::DuplicateAccountIndex),
        (vec![0u8, 2], InstructionError::AccountIndexOutOfRange),
        (vec![5u8, 5], InstructionError::AccountIndexOutOfRange),
    ] {
        let tx = Transaction::new_with_compiled_instructions(
            &[&mint],
            &[owned.pubkey()],
            genesis.hash(),
            accounts.len() as u64,
            vec![program_id()],
            vec![CompiledInstruction::new(0, vec![0], accounts)],
        );
        assert_eq!(bank.process_transactions(&vec![tx.clone()]), vec![Ok(())]);
        assert_eq!(
            bank.get_signature_status(&tx.signatures[0]),
            Some(Err(TransactionError::InstructionError(0, want)))
        );
    }
}

#[test]
fn execute_transaction_on_loaded_accounts() {
    let mut runtime: Runtime<SystemProcessor> = Runtime::default();
    runtime.add_instruction_processor(program_id(), SystemProcessor {});
    let from = Keypair::new();
    let to = Keypair::new().pubkey();
    let spend = SystemInstruction::Move { lamports: 3 };
    let moves = |programs: Vec<u8>| {
        Transaction::new_with_compiled_instructions(
            &[&from],
            &[to],
            ledger_core::hash::Hash::default(),
            0,
            vec![system_program::id(), program_id()],
            programs
                .into_iter()
                .map(|p| CompiledInstruction::new(p, spend.serialize(), vec![0, 1]))
                .collect(),
        )
    };
    let loaders = vec![vec![], vec![]];
    let tx = moves(vec![0, 0, 0]);
    let mut accounts = vec![Account::new(7, 0, &system_program::id()), Account::default()];
    // the third move finds one lamport only
    assert_eq!(
        runtime.execute_transaction(&tx, &loaders, &mut accounts, 0),
        Err(TransactionError::InstructionError(
            2,
            InstructionError::ResultWithNegativeLamports
        ))
    );
    assert_eq!(accounts[0].lamports, 1);
    assert_eq!(accounts[1].lamports, 6);

    let mut accounts = vec![Account::new(9, 0, &system_program::id()), Account::default()];
    assert_eq!(runtime.execute_transaction(&tx, &loaders, &mut accounts, 0), Ok(()));
    assert_eq!(accounts[0].lamports, 0);
    assert_eq!(accounts[1].lamports, 9);

    // the same move by a program that does not own the source
    let mut accounts = vec![Account::new(9, 0, &system_program::id()), Account::default()];
    assert_eq!(
        runtime.execute_transaction(&moves(vec![0, 1, 0]), &loaders, &mut accounts, 0),
        Err(TransactionError::InstructionError(
            1,
            InstructionError::ExternalAccountLamportSpend
        ))
    );
    assert_eq!(accounts[0].lamports, 6);
    assert_eq!(accounts[1].lamports, 3);

    // a program without loaders
    let mut accounts = vec![Account::new(9, 0, &system_program::id()), Account::default()];
    assert_eq!(
        runtime.execute_transaction(&moves(vec![0, 1]), &vec![vec![]], &mut accounts, 0),
        Err(TransactionError::InstructionError(
            1,
            InstructionError::UnsupportedProgramId
        ))
    );
    assert_eq!(accounts[0].lamports, 6);
    let mut untouched = vec![Account::new(9, 0, &system_program::id()), Account::default()];
    assert_eq!(runtime.execute_transaction(&moves(vec![]), &loaders, &mut untouched, 0), Ok(()));
    assert_eq!(untouched[0].lamports, 9);
}

#[test]
fn finish_instruction_checks_and_writes_back() {
    let program = program_id();
    let mine = Account { lamports: 5, data: vec![1], owner: program, executable: false };
    let theirs = Account::new(5, 0, &system_program::id());
    let keyed = |a: &Account, b: &Account| {
        vec![
            KeyedAccount { key: Pubkey::default(), is_signer: false, account: Account::default() },
            KeyedAccount { key: Pubkey::default(), is_signer: true, account: a.clone() },
            KeyedAccount { key: Pubkey::default(), is_signer: false, account: b.clone() },
        ]
    };
    let indices = vec![2u8, 0];
    let start = || vec![theirs.clone(), Account::default(), mine.clone()];

    // the program moves its own lamports to the other account
    let mut paid_mine = mine.clone();
    paid_mine.lamports = 1;
    paid_mine.data = vec![2];
    let mut paid_theirs = theirs.clone();
    paid_theirs.lamports = 9;
    let mut accounts = start();
    assert_eq!(
        finish_instruction(&program, &indices, &mut accounts, &keyed(&paid_mine, &paid_theirs), 1, Ok(())),
        Ok(())
    );
    assert_eq!(accounts, vec![paid_theirs.clone(), Account::default(), paid_mine.clone()]);

    // the handler's failure stands, and nothing is written
    let mut accounts = start();
    assert_eq!(
        finish_instruction(
            &program,
            &indices,
            &mut accounts,
            &keyed(&paid_mine, &paid_theirs),
            1,
            Err(InstructionError::CustomError(4))
        ),
        Err(InstructionError::CustomError(4))
    );
    assert_eq!(accounts, start());

    // the other way round the program spends what is not its own
    let mut accounts = start();
    let mut rich_mine = mine.clone();
    rich_mine.lamports = 9;
    let mut poor_theirs = theirs.clone();
    poor_theirs.lamports = 1;
    assert_eq!(
        finish_instruction(&program, &indices, &mut accounts, &keyed(&rich_mine, &poor_theirs), 1, Ok(())),
        Err(InstructionError::ExternalAccountLamportSpend)
    );
    assert_eq!(accounts, start());

    // the wrong number of accounts
    let mut accounts = start();
    assert_eq!(
        finish_instruction(&program, &indices, &mut accounts, &keyed(&mine, &theirs), 0, Ok(())),
        Err(InstructionError::AccountsResized)
    );
    assert_eq!(
        finish_instruction(&program, &indices, &mut accounts, &keyed(&mine, &theirs), 1, Ok(())),
        Ok(())
    );
    assert_eq!(accounts, start());
}

/// A handler that answers with its own tag.
struct Tagged {
    tag: u32,
}

impl InstructionProcessor for Tagged {
    fn process_instruction(
        &self,
        _program_id: &Pubkey,
        _keyed_accounts: &mut Vec<KeyedAccount>,
        _data: &[u8],
        _tick_height: u64,
    ) -> Result<(), InstructionError> {
        Err(InstructionError::CustomError(self.tag))
    }
}

#[test]
fn each_program_runs_its_own_handler() {
    let first = Pubkey::new(&[41u8; 32]);
    let second = Pubkey::new(&[42u8; 32]);
    let mut runtime: Runtime<Tagged> = Runtime::default();
    runtime.add_instruction_processor(first, Tagged { tag: 1 });
    runtime.add_instruction_processor(second, Tagged { tag: 2 });
    // a later handler under a taken address is never reached
    runtime.add_instruction_processor(first, Tagged { tag: 3 });
    let from = Keypair::new();
    let to = Keypair::new().pubkey();
    let call = |program: u8| {
        Transaction::new_with_compiled_instructions(
            &[&from],
            &[to],
            ledger_core::hash::Hash::default(),
            0,
            vec![first, second],
            vec![CompiledInstruction::new(program, vec![], vec![0, 1])],
        )
    };
    let loaders = vec![vec![], vec![]];
    let mut accounts = vec![Account::new(5, 0, &system_program::id()), Account::default()];
    assert_eq!(
        runtime.execute_transaction(&call(0), &loaders, &mut accounts, 0),
        Err(TransactionError::InstructionError(0, InstructionError::CustomError(1)))
    );
    assert_eq!(
        runtime.execute_transaction(&call(1), &loaders, &mut accounts, 0),
        Err(TransactionError::InstructionError(0, InstructionError::CustomError(2)))
    );
    assert_eq!(accounts[0].lamports, 5);
    assert_eq!(accounts[1].lamports, 0);
}
