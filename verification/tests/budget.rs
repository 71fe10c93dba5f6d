use ledger_core::budget::{
    check_id, id, BudgetExpr, BudgetInstruction, BudgetTransaction, Condition, Contract, Payment,
    Timestamp, Witness,
};
use ledger_core::instruction::Instruction;
use ledger_core::pubkey::Pubkey;
use ledger_core::signature::Keypair;
use ledger_core::system_program;
use ledger_core::transaction::{CompiledInstruction, Transaction};

fn key(n: u8) -> Pubkey {
    Pubkey::new(&[n; 32])
}

#[test]
fn budget_initialize_account() {
    let payment = Payment { lamports: 9, to: key(2) };
    let pay = BudgetInstruction::new_initialize_account(&key(1), BudgetExpr::Pay(payment));
    assert_eq!(pay.program_id, id());
    assert!(check_id(&pay.program_id));
    assert!(!check_id(&key(1)));
    assert_eq!(pay.accounts, vec![(key(2), false), (key(1), false)]);
    let mut data = vec![0u8, 0, 0, 0, 0, 0, 0, 0, 9, 0, 0, 0, 0, 0, 0, 0];
    data.extend_from_slice(&[2u8; 32]);
    assert_eq!(pay.data, data);
    assert_eq!(pay.data, BudgetInstruction::InitializeAccount(BudgetExpr::Pay(payment)).serialize());

    let dt = Timestamp { seconds: 258, nanos: 3 };
    let after = BudgetExpr::After(Condition::Timestamp(dt, key(3)), payment);
    let wait = BudgetInstruction::new_initialize_account(&key(1), after);
    assert_eq!(wait.accounts, vec![(key(1), false)]);
    let mut data = vec![0u8, 0, 0, 0, 1, 0, 0, 0, 0, 0, 0, 0];
    data.extend_from_slice(&[2, 1, 0, 0, 0, 0, 0, 0, 3, 0, 0, 0]);
    data.extend_from_slice(&[3u8; 32]);
    data.extend_from_slice(&[9, 0, 0, 0, 0, 0, 0, 0]);
    data.extend_from_slice(&[2u8; 32]);
    assert_eq!(wait.data, data);

    let either = BudgetExpr::Or(
        (Condition::Signature(key(4)), payment),
        (Condition::Timestamp(dt, key(3)), Payment { lamports: 9, to: key(5) }),
    );
    let or = BudgetInstruction::new_initialize_account(&key(1), either);
    assert_eq!(or.accounts, vec![(key(1), false)]);
    assert_eq!(or.data.len(), 4 + 4 + (4 + 32 + 40) + (4 + 12 + 32 + 40));
    assert_eq!(&or.data[4..12], &[2, 0, 0, 0, 1, 0, 0, 0]);
    let both = BudgetExpr::And(Condition::Signature(key(4)), Condition::Signature(key(6)), payment);
    assert_eq!(both.serialize().len(), 4 + 36 + 36 + 40);
    assert_eq!(either.serialize(), or.data[4..].to_vec());
    let contract = Contract { lamports: 10, budget_expr: both };
    assert_eq!(contract.clone(), contract);
    assert_ne!(Witness::Signature, Witness::Timestamp(dt));
}

#[test]
fn budget_apply_witnesses() {
    let dt = Timestamp { seconds: -2, nanos: 7 };
    let by_other = BudgetInstruction::new_apply_timestamp(&key(1), &key(2), &key(3), dt);
    assert_eq!(by_other.program_id, id());
    assert_eq!(
        by_other.accounts,
        vec![(key(1), true), (key(2), false), (key(3), false)]
    );
    assert_eq!(
        by_other.data,
        vec![1, 0, 0, 0, 0xfe, 0xff, 0xff, 0xff, 0xff, 0xff, 0xff, 0xff, 7, 0, 0, 0]
    );
    let by_payee = BudgetInstruction::new_apply_timestamp(&key(1), &key(2), &key(1), dt);
    assert_eq!(by_payee.accounts, vec![(key(1), true), (key(2), false)]);

    let sign = BudgetInstruction::new_apply_signature(&key(1), &key(2), &key(3));
    assert_eq!(
        sign,
        Instruction::new(
            id(),
            vec![2, 0, 0, 0],
            vec![(key(1), true), (key(2), false), (key(3), false)]
        )
    );
    let own = BudgetInstruction::new_apply_signature(&key(3), &key(2), &key(3));
    assert_eq!(own.accounts, vec![(key(3), true), (key(2), false)]);
    assert_eq!(own.data, BudgetInstruction::ApplySignature.serialize());
}

#[test]
fn instructions_compile_into_a_transaction() {
    let a = key(1);
    let b = key(2);
    let c = key(3);
    let d = key(4);
    let first = Instruction::new(key(10), vec![1], vec![(a, false), (b, true), (c, false)]);
    let second = Instruction::new(key(11), vec![2, 2], vec![(c, true), (a, false), (d, false)]);
    let third = Instruction::new(key(10), vec![], vec![(d, false), (b, false)]);
    let tx = Transaction::new(vec![first, second, third]).unwrap();
    // the signers first, each key once, in the order of their first mention
    assert_eq!(tx.account_keys, vec![b, c, a, d]);
    assert_eq!(tx.program_ids, vec![key(10), key(11)]);
    assert!(tx.signatures.is_empty());
    assert_eq!(tx.fee, 0);
    assert_eq!(tx.recent_blockhash, ledger_core::hash::Hash::default());
    assert_eq!(
        tx.instructions,
        vec![
            CompiledInstruction::new(0, vec![1], vec![2, 0, 1]),
            CompiledInstruction::new(1, vec![2, 2], vec![1, 2, 3]),
            CompiledInstruction::new(0, vec![], vec![3, 0]),
        ]
    );
    let empty = Transaction::new(vec![]).unwrap();
    assert!(empty.account_keys.is_empty() && empty.instructions.is_empty());

    // more than 256 addresses do not fit
    let crowd = |n: u32| {
        (0..n)
            .map(|i| {
                let mut bytes = [0u8; 32];
                bytes[..4].copy_from_slice(&i.to_le_bytes());
                (Pubkey::new(&bytes), i % 2 == 0)
            })
            .collect::<Vec<_>>()
    };
    let full = Transaction::new(vec![Instruction::new(key(9), vec![], crowd(256))]).unwrap();
    assert_eq!(full.account_keys.len(), 256);
    assert_eq!(full.instructions[0].accounts[1], 128);
    assert_eq!(full.instructions[0].accounts[255], 255);
    assert!(Transaction::new(vec![Instruction::new(key(9), vec![], crowd(257))]).is_none());
}

#[test]
fn transactions_are_signed_by_their_first_accounts() {
    let alice = Keypair::from_seed(&[1; 32]);
    let bob = Keypair::from_seed(&[2; 32]);
    let ix = Instruction::new(
        system_program::id(),
        vec![7],
        vec![(key(5), false), (bob.pubkey(), true), (alice.pubkey(), true)],
    );
    let mut tx = Transaction::new(vec![ix]).unwrap();
    assert_eq!(tx.account_keys, vec![bob.pubkey(), alice.pubkey(), key(5)]);
    let unsigned = tx.clone();
    let blockhash = ledger_core::hash::hash(b"now");
    assert!(!tx.sign(&[&alice, &bob], blockhash));
    assert!(!tx.sign(&[&bob, &alice, &alice, &bob], blockhash));
    assert_eq!(tx, unsigned);
    assert!(tx.sign(&[&bob, &alice], blockhash));
    assert_eq!(tx.recent_blockhash, blockhash);
    assert_eq!(
        tx.signatures,
        vec![bob.sign_message(&tx.message()), alice.sign_message(&tx.message())]
    );
    assert_ne!(tx.message(), unsigned.message());
    assert_eq!(tx.signer_key(0, 1), Some(bob.pubkey()));
    assert_eq!(tx.signer_key(0, 0), None);
    assert!(tx.sign(&[&bob], blockhash));
    assert_eq!(tx.signatures.len(), 1);
}

#[test]
fn budget_witness_transactions() {
    let from = Keypair::from_seed(&[3; 32]);
    let blockhash = ledger_core::hash::hash(b"recent");
    let dt = Timestamp { seconds: 9, nanos: 1 };
    let tx = BudgetTransaction::new_timestamp(&from, &key(2), &key(3), dt, blockhash);
    assert_eq!(tx.account_keys, vec![from.pubkey(), key(2), key(3)]);
    assert_eq!(tx.program_ids, vec![id()]);
    assert_eq!(tx.recent_blockhash, blockhash);
    assert_eq!(
        tx.instructions,
        vec![CompiledInstruction::new(
            0,
            BudgetInstruction::ApplyTimestamp(dt).serialize(),
            vec![0, 1, 2]
        )]
    );
    assert_eq!(tx.signatures, vec![from.sign_message(&tx.message())]);

    let own = BudgetTransaction::new_signature(&from, &key(2), &from.pubkey(), blockhash);
    assert_eq!(own.account_keys, vec![from.pubkey(), key(2)]);
    assert_eq!(own.instructions[0].accounts, vec![0, 1]);
    assert_eq!(own.instructions[0].data, vec![2, 0, 0, 0]);
    assert_eq!(own.signatures, vec![from.sign_message(&own.message())]);
    // a witness that is the contract itself
    let odd = BudgetTransaction::new_signature(&from, &from.pubkey(), &key(3), blockhash);
    assert_eq!(odd.account_keys, vec![from.pubkey(), key(3)]);
    assert_eq!(odd.instructions[0].accounts, vec![0, 0, 1]);
}
