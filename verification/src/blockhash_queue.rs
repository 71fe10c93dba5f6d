//! The queue of recent blockhashes: each with the height at which it was
//! registered and the wall time of that moment, oldest first. A transaction
//! is only accepted while the blockhash it names is in the queue and young
//! enough.

use vstd::prelude::*;

verus! {

/// The number of blockhashes that a bank keeps, and the greatest age at
/// which a bank still accepts one.
pub const MAX_RECENT_BLOCKHASHES: usize = 300;

#[derive(Clone, Copy, Debug, PartialEq, Eq, Structural)]
pub struct HashQueueEntry {
    pub hash: crate::hash::Hash,
    /// The queue's height when the hash was registered.
    pub hash_height: u64,
    /// Milliseconds since the Unix epoch when the hash was registered.
    pub timestamp: u64,
}

/// A queue as a mathematical value.
pub struct BlockhashQueueView {
    /// The number of hashes registered so far.
    pub hash_height: u64,
    /// The hash registered last.
    pub last_hash: Option<crate::hash::Hash>,
    /// The hashes kept, oldest first.
    pub entries: Seq<HashQueueEntry>,
    /// The number of hashes that the queue keeps.
    pub max_entries: usize,
}

impl BlockhashQueueView {
    pub open spec fn contains(self, hash: crate::hash::Hash) -> bool {
        exists|i: int| 0 <= i < self.entries.len() && #[trigger] self.entries[i].hash == hash
    }

    /// The entry of a hash that the queue holds.
    pub open spec fn entry_of(self, hash: crate::hash::Hash) -> HashQueueEntry {
        self.entries[choose|i: int|
            0 <= i < self.entries.len() && #[trigger] self.entries[i].hash == hash]
    }

    /// A hash passes when the queue holds it and no more than `max_age`
    /// hashes were registered after it.
    pub open spec fn check_hash_age(self, hash: crate::hash::Hash, max_age: usize) -> bool {
        self.contains(hash) && self.hash_height - self.entry_of(hash).hash_height <= max_age
    }

    pub open spec fn has_height(self, height: u64) -> bool {
        exists|i: int| 0 <= i < self.entries.len() && #[trigger] self.entries[i].hash_height == height
    }

    /// The wall time at which the hash of the given height was registered.
    pub open spec fn timestamp_of(self, height: u64) -> Option<u64> {
        if self.has_height(height) {
            Some(
                self.entries[choose|i: int|
                    0 <= i < self.entries.len() && #[trigger] self.entries[i].hash_height
                        == height].timestamp,
            )
        } else {
            None
        }
    }

    /// No hash twice, heights growing from the oldest entry to the newest,
    /// none above the queue's height, and no more entries than the queue keeps.
    pub open spec fn wf(self) -> bool {
        &&& self.entries.len() <= self.max_entries
        &&& forall|i: int, j: int|
            0 <= i < j < self.entries.len() ==> #[trigger] self.entries[i].hash
                != #[trigger] self.entries[j].hash
        &&& forall|i: int, j: int|
            0 <= i < j < self.entries.len() ==> #[trigger] self.entries[i].hash_height
                < #[trigger] self.entries[j].hash_height
        &&& forall|i: int|
            0 <= i < self.entries.len() ==> #[trigger] self.entries[i].hash_height
                <= self.hash_height
    }

    /// The queue with nothing but `hash`, at height 0.
    pub open spec fn genesis(self, hash: crate::hash::Hash, timestamp: u64) -> BlockhashQueueView {
        BlockhashQueueView {
            hash_height: 0,
            last_hash: Some(hash),
            entries: if self.max_entries == 0 {
                Seq::empty()
            } else {
                seq![HashQueueEntry { hash, hash_height: 0, timestamp }]
            },
            max_entries: self.max_entries,
        }
    }

    /// The queue after one more hash: the height grows by one; a hash that
    /// the queue does not hold yet is appended, and the oldest entry leaves
    /// if the queue then holds more than it keeps.
    pub open spec fn register(self, hash: crate::hash::Hash, timestamp: u64) -> BlockhashQueueView {
        let height = (self.hash_height + 1) as u64;
        let pushed = self.entries.push(HashQueueEntry { hash, hash_height: height, timestamp });
        BlockhashQueueView {
            hash_height: height,
            last_hash: Some(hash),
            entries: if self.contains(hash) {
                self.entries
            } else if pushed.len() > self.max_entries {
                pushed.drop_first()
            } else {
                pushed
            },
            max_entries: self.max_entries,
        }
    }

    /// Registering keeps a queue well formed.
    pub proof fn lemma_register_wf(self, hash: crate::hash::Hash, timestamp: u64)
        requires
            self.wf(),
            self.hash_height < u64::MAX,
        ensures
            self.register(hash, timestamp).wf(),
            self.register(hash, timestamp).contains(hash) || self.max_entries == 0,
    {
        let next = self.register(hash, timestamp);
        let height = (self.hash_height + 1) as u64;
        let pushed = self.entries.push(HashQueueEntry { hash, hash_height: height, timestamp });
        if self.contains(hash) {
        } else {
            assert(forall|i: int| 0 <= i < self.entries.len() ==> self.entries[i].hash != hash);
            if pushed.len() > self.max_entries {
                assert(forall|i: int|
                    0 <= i < next.entries.len() ==> next.entries[i] == pushed[i + 1]);
                if self.max_entries > 0 {
                    assert(next.entries[next.entries.len() - 1].hash == hash);
                }
            } else {
                assert(next.entries[next.entries.len() - 1].hash == hash);
            }
        }
    }
}

pub struct BlockhashQueue {
    hash_height: u64,
    last_hash: Option<crate::hash::Hash>,
    entries: Vec<HashQueueEntry>,
    max_entries: usize,
}

impl View for BlockhashQueue {
    type V = BlockhashQueueView;

    closed spec fn view(&self) -> BlockhashQueueView {
        BlockhashQueueView {
            hash_height: self.hash_height,
            last_hash: self.last_hash,
            entries: self.entries@,
            max_entries: self.max_entries,
        }
    }
}

impl Default for BlockhashQueue {
    fn default() -> (r: BlockhashQueue)
        ensures
            r@ == BlockhashQueue::empty_spec(MAX_RECENT_BLOCKHASHES),
            r@.wf(),
    {
        BlockhashQueue::new(MAX_RECENT_BLOCKHASHES)
    }
}

impl Clone for BlockhashQueue {
    fn clone(&self) -> (r: BlockhashQueue)
        ensures
            r@ == self@,
    {
        let mut entries: Vec<HashQueueEntry> = Vec::new();
        let mut i: usize = 0;
        while i < self.entries.len()
            invariant
                i <= self.entries.len(),
                entries@ == self.entries@.subrange(0, i as int),
            decreases self.entries.len() - i,
        {
            entries.push(self.entries[i]);
            proof {
                assert(entries@ =~= self.entries@.subrange(0, i + 1));
            }
            i += 1;
        }
        proof {
            assert(self.entries@.subrange(0, self.entries@.len() as int) =~= self.entries@);
        }
        BlockhashQueue {
            hash_height: self.hash_height,
            last_hash: self.last_hash,
            entries,
            max_entries: self.max_entries,
        }
    }
}

impl BlockhashQueue {
    pub open spec fn empty_spec(max_entries: usize) -> BlockhashQueueView {
        BlockhashQueueView { hash_height: 0, last_hash: None, entries: Seq::empty(), max_entries }
    }

    /// An empty queue that keeps up to `max_entries` hashes.
    pub fn new(max_entries: usize) -> (r: BlockhashQueue)
        ensures
            r@ == BlockhashQueue::empty_spec(max_entries),
            r@.wf(),
    {
        BlockhashQueue { hash_height: 0, last_hash: None, entries: Vec::new(), max_entries }
    }

    /// The number of hashes registered so far.
    pub fn hash_height(&self) -> (r: u64)
        ensures
            r == self@.hash_height,
    {
        self.hash_height
    }

    /// The hash registered last, if any was.
    pub fn last_hash(&self) -> (r: Option<crate::hash::Hash>)
        ensures
            r == self@.last_hash,
    {
        self.last_hash
    }

    fn position(&self, hash: &crate::hash::Hash) -> (r: Option<usize>)
        ensures
            match r {
                Some(i) => i < self@.entries.len() && self@.entries[i as int].hash == *hash,
                None => !self@.contains(*hash),
            },
    {
        let mut i: usize = 0;
        while i < self.entries.len()
            invariant
                i <= self.entries.len(),
                forall|j: int| 0 <= j < i ==> self.entries@[j].hash != *hash,
            decreases self.entries.len() - i,
        {
            if self.entries[i].hash == *hash {
                return Some(i);
            }
            i += 1;
        }
        None
    }

    /// Whether the queue holds `hash` and no more than `max_age` hashes were
    /// registered after it.
    pub fn check_hash_age(&self, hash: crate::hash::Hash, max_age: usize) -> (r: bool)
        requires
            self@.wf(),
        ensures
            r == self@.check_hash_age(hash, max_age),
    {
        match self.position(&hash) {
            Some(i) => {
                proof {
                    let c = choose|c: int|
                        0 <= c < self@.entries.len() && #[trigger] self@.entries[c].hash == hash;
                    assert(c == i);
                }
                let age: u64 = self.hash_height - self.entries[i].hash_height;
                age as u128 <= max_age as u128
            },
            None => false,
        }
    }

    /// Whether the queue holds `hash`.
    pub fn check_hash(&self, hash: crate::hash::Hash) -> (r: bool)
        ensures
            r == self@.contains(hash),
    {
        self.position(&hash).is_some()
    }

    /// Empties the queue and seeds it with the first hash of a ledger.
    pub fn genesis_hash(&mut self, hash: &crate::hash::Hash, timestamp: u64)
        ensures
            final(self)@ == old(self)@.genesis(*hash, timestamp),
            final(self)@.wf(),
    {
        self.entries = Vec::new();
        if self.max_entries > 0 {
            self.entries.push(HashQueueEntry { hash: *hash, hash_height: 0, timestamp });
        }
        self.hash_height = 0;
        self.last_hash = Some(*hash);
        proof {
            assert(self@.entries =~= old(self)@.genesis(*hash, timestamp).entries);
        }
    }

    /// Registers one more hash, at the wall time `timestamp`.
    pub fn register_hash(&mut self, hash: &crate::hash::Hash, timestamp: u64)
        requires
            old(self)@.wf(),
            old(self)@.hash_height < u64::MAX,
        ensures
            final(self)@ == old(self)@.register(*hash, timestamp),
            final(self)@.wf(),
    {
        proof {
            old(self)@.lemma_register_wf(*hash, timestamp);
        }
        self.hash_height = self.hash_height + 1;
        self.last_hash = Some(*hash);
        if self.position(hash).is_none() {
            self.entries.push(
                HashQueueEntry { hash: *hash, hash_height: self.hash_height, timestamp },
            );
            if self.entries.len() > self.max_entries {
                self.entries.remove(0);
            }
        }
        proof {
            assert(self@.entries =~= old(self)@.register(*hash, timestamp).entries);
        }
    }

    /// The wall time at which the hash of height `hash_height` was
    /// registered, if the queue still holds it.
    pub fn hash_height_to_timestamp(&self, hash_height: u64) -> (r: Option<u64>)
        requires
            self@.wf(),
        ensures
            r == self@.timestamp_of(hash_height),
    {
        let mut i: usize = 0;
        while i < self.entries.len()
            invariant
                i <= self.entries.len(),
                self@.wf(),
                forall|j: int| 0 <= j < i ==> self.entries@[j].hash_height != hash_height,
            decreases self.entries.len() - i,
        {
            if self.entries[i].hash_height == hash_height {
                proof {
                    let c = choose|c: int|
                        0 <= c < self@.entries.len() && #[trigger] self@.entries[c].hash_height
                            == hash_height;
                    assert(c == i);
                }
                return Some(self.entries[i].timestamp);
            }
            i += 1;
        }
        None
    }
}

} // verus!
