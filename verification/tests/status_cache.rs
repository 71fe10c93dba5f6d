use ledger_core::signature::{Keypair, Signature};
use ledger_core::status_cache::{StatusCache, MAX_CACHE_ENTRIES};
use ledger_core::transaction::TransactionError;

fn sig(n: u8) -> Signature {
    Signature::new(&[n; 64])
}

fn id(n: u64) -> ledger_core::hash::Hash {
    ledger_core::hash::hash(&n.to_le_bytes())
}

#[test]
fn cache_add_and_status() {
    let mut cache = StatusCache::new(&id(0));
    assert!(!cache.has_signature(&sig(1)));
    assert_eq!(cache.get_signature_status(&sig(1)), None);
    cache.add(&sig(1));
    cache.add(&sig(1));
    assert!(cache.has_signature(&sig(1)));
    assert!(!cache.has_signature(&sig(2)));
    assert_eq!(cache.get_signature_status(&sig(1)), Some(Ok(())));

    cache.add(&sig(2));
    cache.save_failure_status(&sig(2), TransactionError::AccountInUse);
    assert_eq!(
        cache.get_signature_status(&sig(2)),
        Some(Err(TransactionError::AccountInUse))
    );
    cache.save_failure_status(&sig(2), TransactionError::AccountLoadedTwice);
    assert_eq!(
        cache.get_signature_status(&sig(2)),
        Some(Err(TransactionError::AccountLoadedTwice))
    );
    assert_eq!(cache.get_signature_status(&sig(1)), Some(Ok(())));

    cache.clear();
    assert!(!cache.has_signature(&sig(1)));
    assert_eq!(cache.get_signature_status(&sig(2)), None);
}

#[test]
fn cache_shards_rotate_out() {
    let mut cache = StatusCache::default();
    cache.add(&sig(1));
    cache.save_failure_status(&sig(1), TransactionError::CallChainTooDeep);
    cache.new_cache(&id(1));
    cache.add(&sig(2));
    assert!(cache.has_signature(&sig(1)));
    assert_eq!(
        cache.get_signature_status(&sig(1)),
        Some(Err(TransactionError::CallChainTooDeep))
    );
    for i in 0..(MAX_CACHE_ENTRIES as u64 - 1) {
        cache.new_cache(&id(2 + i));
    }
    // the first shard is the oldest that is kept
    assert!(cache.has_signature(&sig(1)));
    assert!(cache.has_signature(&sig(2)));
    cache.new_cache(&id(1000));
    assert!(!cache.has_signature(&sig(1)));
    assert_eq!(cache.get_signature_status(&sig(1)), None);
    assert!(cache.has_signature(&sig(2)));
    cache.new_cache(&id(1001));
    assert!(!cache.has_signature(&sig(2)));

    // the active shard comes before the earlier ones
    let mut order = StatusCache::default();
    order.add(&sig(3));
    order.save_failure_status(&sig(3), TransactionError::AccountInUse);
    order.new_cache(&id(1));
    order.add(&sig(3));
    assert_eq!(order.get_signature_status(&sig(3)), Some(Ok(())));
}

#[test]
fn cache_squash_takes_the_parents_in() {
    let mut root = StatusCache::new(&id(0));
    root.add(&sig(1));
    root.new_cache(&id(1));
    root.add(&sig(2));
    root.save_failure_status(&sig(2), TransactionError::AccountInUse);

    let mut child = StatusCache::new(&id(2));
    child.add(&sig(3));
    assert!(!child.has_signature(&sig(1)));
    let full = child.squash_parent(&root);
    assert!(!full);
    assert!(child.has_signature(&sig(1)));
    assert!(child.has_signature(&sig(2)));
    assert!(child.has_signature(&sig(3)));
    assert_eq!(
        child.get_signature_status(&sig(2)),
        Some(Err(TransactionError::AccountInUse))
    );
    assert_eq!(child.get_signature_status(&sig(1)), Some(Ok(())));
    assert!(!root.has_signature(&sig(3)));

    let mut deep = StatusCache::new(&id(0));
    for i in 0..(MAX_CACHE_ENTRIES as u64) {
        deep.new_cache(&id(i));
    }
    let mut top = StatusCache::new(&id(5));
    top.new_cache(&id(6));
    assert!(top.squash_parent(&deep));
    let _ = Keypair::new();
}
