use ledger_core::signature::Keypair;
use ledger_core::system_transaction::SystemTransaction;

#[test]
fn test_move_many() {
    let from = Keypair::new();
    let t1 = Keypair::new();
    let t2 = Keypair::new();
    let moves = vec![(t1.pubkey(), 1), (t2.pubkey(), 2)];

    let tx =
        SystemTransaction::new_move_many(&from, &moves, ledger_core::hash::Hash::default(), 0);
    assert_eq!(tx.account_keys[0], from.pubkey());
    assert_eq!(tx.account_keys[1], t1.pubkey());
    assert_eq!(tx.account_keys[2], t2.pubkey());
    assert_eq!(tx.instructions.len(), 2);
    assert_eq!(tx.instructions[0].accounts, vec![0, 1]);
    assert_eq!(tx.instructions[1].accounts, vec![0, 2]);
}
