use ledger_core::blockhash_queue::{BlockhashQueue, MAX_RECENT_BLOCKHASHES};

fn h(n: u64) -> ledger_core::hash::Hash {
    ledger_core::hash::hash(&n.to_le_bytes())
}

#[test]
fn queue_register_and_age() {
    let mut queue = BlockhashQueue::new(100);
    assert_eq!(queue.last_hash(), None);
    assert!(!queue.check_hash(h(0)));
    assert!(!queue.check_hash_age(h(0), 100));
    queue.register_hash(&h(0), 1000);
    assert_eq!(queue.hash_height(), 1);
    assert_eq!(queue.last_hash(), Some(h(0)));
    assert!(queue.check_hash(h(0)));
    assert!(queue.check_hash_age(h(0), 0));
    for i in 1..=5u64 {
        queue.register_hash(&h(i), 1000 + i);
    }
    // five hashes were registered after the first
    assert!(queue.check_hash_age(h(0), 5));
    assert!(!queue.check_hash_age(h(0), 4));
    assert!(queue.check_hash_age(h(5), 0));
    assert_eq!(queue.hash_height_to_timestamp(1), Some(1000));
    assert_eq!(queue.hash_height_to_timestamp(6), Some(1005));
    assert_eq!(queue.hash_height_to_timestamp(7), None);
    assert_eq!(queue.hash_height_to_timestamp(0), None);
}

#[test]
fn queue_evicts_the_oldest() {
    let mut queue = BlockhashQueue::new(3);
    for i in 0..3u64 {
        queue.register_hash(&h(i), i);
    }
    assert!(queue.check_hash(h(0)));
    queue.register_hash(&h(3), 3);
    assert!(!queue.check_hash(h(0)));
    assert!(queue.check_hash(h(1)));
    assert!(queue.check_hash(h(3)));
    assert!(!queue.check_hash_age(h(0), 1000));
    assert_eq!(queue.hash_height_to_timestamp(1), None);
    assert_eq!(queue.hash_height_to_timestamp(2), Some(1));
}

#[test]
fn queue_duplicate_keeps_the_entry_and_advances_the_height() {
    let mut queue = BlockhashQueue::new(3);
    queue.register_hash(&h(1), 10);
    queue.register_hash(&h(2), 20);
    queue.register_hash(&h(1), 30);
    assert_eq!(queue.hash_height(), 3);
    assert_eq!(queue.last_hash(), Some(h(1)));
    // the entry of the hash is the one of its first registration
    assert_eq!(queue.hash_height_to_timestamp(1), Some(10));
    assert_eq!(queue.hash_height_to_timestamp(3), None);
    assert!(queue.check_hash_age(h(1), 2));
    assert!(!queue.check_hash_age(h(1), 1));
}

#[test]
fn queue_genesis_and_clone() {
    let mut queue = BlockhashQueue::default();
    queue.register_hash(&h(9), 5);
    queue.genesis_hash(&h(7), 77);
    assert_eq!(queue.hash_height(), 0);
    assert_eq!(queue.last_hash(), Some(h(7)));
    assert!(!queue.check_hash(h(9)));
    assert!(queue.check_hash_age(h(7), 0));
    assert_eq!(queue.hash_height_to_timestamp(0), Some(77));

    let copy = queue.clone();
    queue.register_hash(&h(8), 88);
    assert!(queue.check_hash(h(8)));
    assert!(!copy.check_hash(h(8)));
    assert_eq!(copy.last_hash(), Some(h(7)));

    for i in 0..(MAX_RECENT_BLOCKHASHES as u64) {
        queue.register_hash(&h(100 + i), i);
    }
    // the genesis hash and the first hash after it have left
    assert!(!queue.check_hash(h(7)));
    assert!(!queue.check_hash(h(8)));
    assert!(queue.check_hash(h(100)));
    assert!(queue.check_hash_age(h(100), MAX_RECENT_BLOCKHASHES));

    let mut none = BlockhashQueue::new(0);
    none.genesis_hash(&h(1), 1);
    assert!(!none.check_hash(h(1)));
    none.register_hash(&h(2), 2);
    assert!(!none.check_hash(h(2)));
    assert_eq!(none.last_hash(), Some(h(2)));
}
