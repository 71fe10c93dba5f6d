//! The cache of signature statuses: which transaction signatures a bank
//! has seen, and which of them failed and why. The signatures are kept in
//! shards, one for each window of ticks; old shards age out.

use vstd::prelude::*;
use crate::signature::Signature;
use crate::transaction::TransactionError;

verus! {

/// The number of past shards that a cache keeps.
pub const MAX_CACHE_ENTRIES: usize = 30;

/// The status of a transaction that a bank has seen.
pub type Status = Result<(), TransactionError>;

/// One shard as a mathematical value.
pub struct ShardView {
    /// The blockhash of the tick that opened the shard.
    pub id: crate::hash::Hash,
    /// The signatures seen, in the order in which they came.
    pub signatures: Seq<Signature>,
    /// The failures recorded, each with its signature.
    pub failures: Seq<(Signature, TransactionError)>,
}

/// Whether a list of failures holds one for the signature.
pub open spec fn has_failure_in(failures: Seq<(Signature, TransactionError)>, sig: Signature) -> bool {
    exists|i: int| 0 <= i < failures.len() && (#[trigger] failures[i]).0 == sig
}

/// Where a list of failures holds the one for the signature.
pub open spec fn failure_index(failures: Seq<(Signature, TransactionError)>, sig: Signature) -> int {
    choose|i: int| 0 <= i < failures.len() && (#[trigger] failures[i]).0 == sig
}

/// No signature has two failures in the list.
pub open spec fn distinct_failures(failures: Seq<(Signature, TransactionError)>) -> bool {
    forall|i: int, j: int|
        0 <= i < j < failures.len() ==> (#[trigger] failures[i]).0 != (#[trigger] failures[j]).0
}

proof fn lemma_failure_index(failures: Seq<(Signature, TransactionError)>, sig: Signature, i: int)
    requires
        distinct_failures(failures),
        0 <= i < failures.len(),
        failures[i].0 == sig,
    ensures
        has_failure_in(failures, sig),
        failure_index(failures, sig) == i,
{
    let c = failure_index(failures, sig);
    assert(0 <= c < failures.len() && failures[c].0 == sig);
    if c < i {
        assert(failures[c].0 != failures[i].0);
    }
    if i < c {
        assert(failures[i].0 != failures[c].0);
    }
}

impl ShardView {
    pub open spec fn empty(id: crate::hash::Hash) -> ShardView {
        ShardView { id, signatures: Seq::empty(), failures: Seq::empty() }
    }

    pub open spec fn has(self, sig: Signature) -> bool {
        self.signatures.contains(sig)
    }

    pub open spec fn has_failure(self, sig: Signature) -> bool {
        has_failure_in(self.failures, sig)
    }

    /// The failure recorded for a signature that has one.
    pub open spec fn failure_of(self, sig: Signature) -> TransactionError {
        self.failures[failure_index(self.failures, sig)].1
    }

    /// What the shard knows of a signature: its failure, or that it was
    /// seen, or nothing.
    pub open spec fn status(self, sig: Signature) -> Option<Status> {
        if self.has_failure(sig) {
            Some(Err(self.failure_of(sig)))
        } else if self.has(sig) {
            Some(Ok(()))
        } else {
            None
        }
    }

    /// No signature has two failures.
    pub open spec fn wf(self) -> bool {
        distinct_failures(self.failures)
    }

    pub open spec fn add(self, sig: Signature) -> ShardView {
        if self.has(sig) {
            self
        } else {
            ShardView { signatures: self.signatures.push(sig), ..self }
        }
    }

    /// The shard with `err` as the failure of `sig`, in place of an earlier one.
    pub open spec fn save_failure(self, sig: Signature, err: TransactionError) -> ShardView {
        if self.has_failure(sig) {
            ShardView {
                failures: self.failures.update(failure_index(self.failures, sig), (sig, err)),
                ..self
            }
        } else {
            ShardView { failures: self.failures.push((sig, err)), ..self }
        }
    }

    /// After `save_failure` the signature has that failure, and every other
    /// signature has what it had.
    pub proof fn lemma_save_failure(self, sig: Signature, err: TransactionError)
        requires
            self.wf(),
        ensures
            self.save_failure(sig, err).wf(),
            self.save_failure(sig, err).has_failure(sig),
            self.save_failure(sig, err).failure_of(sig) == err,
            forall|other: Signature|
                other != sig ==> #[trigger] self.save_failure(sig, err).status(other)
                    == self.status(other),
            forall|other: Signature|
                #[trigger] self.save_failure(sig, err).has(other) == self.has(other),
    {
        let next = self.save_failure(sig, err);
        let old_f = self.failures;
        let new_f = next.failures;
        let at = if self.has_failure(sig) {
            failure_index(old_f, sig)
        } else {
            old_f.len() as int
        };
        assert(0 <= at < new_f.len() && new_f[at] == (sig, err));
        assert(forall|k: int| 0 <= k < old_f.len() && k != at ==> new_f[k] == old_f[k]);
        assert(forall|k: int| 0 <= k < old_f.len() && k != at ==> old_f[k].0 != sig) by {
            if self.has_failure(sig) {
                assert forall|k: int| 0 <= k < old_f.len() && k != at implies old_f[k].0
                    != sig by {
                    if old_f[k].0 == sig {
                        lemma_failure_index(old_f, sig, k);
                    }
                }
            } else {
                assert forall|k: int| 0 <= k < old_f.len() && k != at implies old_f[k].0
                    != sig by {
                    if old_f[k].0 == sig {
                        assert(has_failure_in(old_f, sig));
                    }
                }
            }
        }
        assert(distinct_failures(new_f)) by {
            assert forall|i: int, j: int| 0 <= i < j < new_f.len() implies (#[trigger] new_f[i]).0
                != (#[trigger] new_f[j]).0 by {
                if i != at && j != at {
                    assert(old_f[i].0 != old_f[j].0);
                }
            }
        }
        lemma_failure_index(new_f, sig, at);
        assert forall|other: Signature| other != sig implies #[trigger] next.status(other)
            == self.status(other) by {
            if has_failure_in(old_f, other) {
                let a = failure_index(old_f, other);
                assert(new_f[a] == old_f[a]);
                lemma_failure_index(new_f, other, a);
            } else if has_failure_in(new_f, other) {
                let b = failure_index(new_f, other);
                assert(old_f[b].0 == other);
            }
        }
    }
}

/// The first status that the shards from index `from` on have of a signature.
pub open spec fn merged_status(merges: Seq<ShardView>, sig: Signature, from: int) -> Option<Status>
    decreases merges.len() - from,
{
    if from < 0 || from >= merges.len() {
        None
    } else if merges[from].status(sig) is Some {
        merges[from].status(sig)
    } else {
        merged_status(merges, sig, from + 1)
    }
}

/// A cache as a mathematical value.
pub struct StatusCacheView {
    /// The shard that new signatures go to.
    pub active: ShardView,
    /// Earlier shards, and after a squash those of the ancestors, newest first.
    pub merges: Seq<ShardView>,
}

impl StatusCacheView {
    pub open spec fn empty(id: crate::hash::Hash) -> StatusCacheView {
        StatusCacheView { active: ShardView::empty(id), merges: Seq::empty() }
    }

    pub open spec fn wf(self) -> bool {
        &&& self.active.wf()
        &&& self.merges.len() <= MAX_CACHE_ENTRIES
        &&& forall|i: int| 0 <= i < self.merges.len() ==> (#[trigger] self.merges[i]).wf()
    }

    pub open spec fn has_signature_merged(self, sig: Signature) -> bool {
        exists|i: int| 0 <= i < self.merges.len() && (#[trigger] self.merges[i]).has(sig)
    }

    /// Whether the cache has seen a signature, in any of its shards.
    pub open spec fn has_signature(self, sig: Signature) -> bool {
        self.active.has(sig) || self.has_signature_merged(sig)
    }

    /// The status of a signature: that of the active shard, else that of
    /// the newest earlier shard that has one.
    pub open spec fn get_signature_status(self, sig: Signature) -> Option<Status> {
        if self.active.status(sig) is Some {
            self.active.status(sig)
        } else {
            merged_status(self.merges, sig, 0)
        }
    }

    pub open spec fn add(self, sig: Signature) -> StatusCacheView {
        StatusCacheView { active: self.active.add(sig), ..self }
    }

    pub open spec fn save_failure_status(
        self,
        sig: Signature,
        err: TransactionError,
    ) -> StatusCacheView {
        StatusCacheView { active: self.active.save_failure(sig, err), ..self }
    }

    pub open spec fn clear(self) -> StatusCacheView {
        StatusCacheView::empty(self.active.id)
    }

    /// The cache with a fresh active shard; the shard that was active
    /// becomes the newest of the earlier ones, and the oldest leaves if
    /// there are too many.
    pub open spec fn new_cache(self, id: crate::hash::Hash) -> StatusCacheView {
        let merges = seq![self.active] + self.merges;
        StatusCacheView {
            active: ShardView::empty(id),
            merges: if merges.len() > MAX_CACHE_ENTRIES {
                merges.subrange(0, MAX_CACHE_ENTRIES as int)
            } else {
                merges
            },
        }
    }

    /// The cache with the shards of a parent behind its own, as far as
    /// there is room.
    pub open spec fn squash_parent(self, parent: StatusCacheView) -> StatusCacheView {
        let merges = self.merges + seq![parent.active] + parent.merges;
        StatusCacheView {
            active: self.active,
            merges: if merges.len() > MAX_CACHE_ENTRIES {
                merges.subrange(0, MAX_CACHE_ENTRIES as int)
            } else {
                merges
            },
        }
    }

    /// A signature that was added is seen, with the status it had or as a
    /// success; every other signature keeps what it had.
    pub proof fn lemma_add(self, sig: Signature)
        ensures
            self.add(sig).has_signature(sig),
            forall|other: Signature|
                other != sig ==> #[trigger] self.add(sig).has_signature(other)
                    == self.has_signature(other),
            forall|other: Signature|
                #[trigger] self.add(sig).get_signature_status(other) is Some
                    == (other == sig || self.get_signature_status(other) is Some),
            forall|other: Signature|
                (other != sig || self.active.status(sig) is Some)
                    ==> #[trigger] self.add(sig).get_signature_status(other)
                    == self.get_signature_status(other),
            self.active.status(sig) is None ==> self.add(sig).get_signature_status(sig) == Some(
                Ok::<(), TransactionError>(()),
            ),
            self.wf() ==> self.add(sig).wf(),
    {
        let next = self.add(sig);
        let old_s = self.active.signatures;
        let new_s = next.active.signatures;
        if !self.active.has(sig) {
            assert(new_s.last() == sig);
            assert forall|other: Signature| other != sig implies new_s.contains(other)
                == old_s.contains(other) by {
                if old_s.contains(other) {
                    let i = choose|i: int| 0 <= i < old_s.len() && old_s[i] == other;
                    assert(new_s[i] == other);
                }
                if new_s.contains(other) {
                    let i = choose|i: int| 0 <= i < new_s.len() && new_s[i] == other;
                    assert(old_s[i] == other);
                }
            }
        }
    }

    /// While there is room, a squash loses nothing: the cache then has seen
    /// what it or the parent had seen.
    pub proof fn lemma_squash_parent_has(self, parent: StatusCacheView, sig: Signature)
        requires
            self.merges.len() + 1 + parent.merges.len() <= MAX_CACHE_ENTRIES,
        ensures
            self.squash_parent(parent).has_signature(sig) == (self.has_signature(sig)
                || parent.has_signature(sig)),
    {
        let next = self.squash_parent(parent);
        let n = self.merges.len() as int;
        if self.has_signature_merged(sig) {
            let i = choose|i: int| 0 <= i < self.merges.len() && (#[trigger] self.merges[i]).has(sig);
            assert(next.merges[i].has(sig));
        }
        if parent.active.has(sig) {
            assert(next.merges[n].has(sig));
        }
        if parent.has_signature_merged(sig) {
            let i = choose|i: int|
                0 <= i < parent.merges.len() && (#[trigger] parent.merges[i]).has(sig);
            assert(next.merges[n + 1 + i].has(sig));
        }
        if next.has_signature_merged(sig) {
            let i = choose|i: int| 0 <= i < next.merges.len() && (#[trigger] next.merges[i]).has(sig);
            if i < n {
                assert(self.merges[i].has(sig));
            } else if i == n {
            } else {
                assert(parent.merges[i - n - 1].has(sig));
            }
        }
    }
}

pub struct StatusShard {
    id: crate::hash::Hash,
    signatures: Vec<Signature>,
    failures: Vec<(Signature, TransactionError)>,
}

impl View for StatusShard {
    type V = ShardView;

    closed spec fn view(&self) -> ShardView {
        ShardView { id: self.id, signatures: self.signatures@, failures: self.failures@ }
    }
}

impl Clone for StatusShard {
    fn clone(&self) -> (r: StatusShard)
        ensures
            r@ == self@,
    {
        let mut signatures: Vec<Signature> = Vec::new();
        let mut i: usize = 0;
        while i < self.signatures.len()
            invariant
                i <= self.signatures.len(),
                signatures@ == self.signatures@.subrange(0, i as int),
            decreases self.signatures.len() - i,
        {
            signatures.push(self.signatures[i]);
            proof {
                assert(signatures@ =~= self.signatures@.subrange(0, i + 1));
            }
            i += 1;
        }
        let mut failures: Vec<(Signature, TransactionError)> = Vec::new();
        let mut j: usize = 0;
        while j < self.failures.len()
            invariant
                j <= self.failures.len(),
                failures@ == self.failures@.subrange(0, j as int),
            decreases self.failures.len() - j,
        {
            failures.push(self.failures[j]);
            proof {
                assert(failures@ =~= self.failures@.subrange(0, j + 1));
            }
            j += 1;
        }
        proof {
            assert(self.signatures@.subrange(0, self.signatures@.len() as int)
                =~= self.signatures@);
            assert(self.failures@.subrange(0, self.failures@.len() as int) =~= self.failures@);
        }
        StatusShard { id: self.id, signatures, failures }
    }
}

impl StatusShard {
    fn new(id: &crate::hash::Hash) -> (r: StatusShard)
        ensures
            r@ == ShardView::empty(*id),
    {
        StatusShard { id: *id, signatures: Vec::new(), failures: Vec::new() }
    }

    fn has(&self, sig: &Signature) -> (r: bool)
        ensures
            r == self@.has(*sig),
    {
        let mut i: usize = 0;
        while i < self.signatures.len()
            invariant
                i <= self.signatures.len(),
                forall|j: int| 0 <= j < i ==> self.signatures@[j] != *sig,
            decreases self.signatures.len() - i,
        {
            if self.signatures[i] == *sig {
                assert(self@.signatures[i as int] == *sig);
                return true;
            }
            i += 1;
        }
        false
    }

    fn failure_position(&self, sig: &Signature) -> (r: Option<usize>)
        requires
            self@.wf(),
        ensures
            match r {
                Some(i) => self@.has_failure(*sig) && i == failure_index(self@.failures, *sig),
                None => !self@.has_failure(*sig),
            },
    {
        let mut i: usize = 0;
        while i < self.failures.len()
            invariant
                i <= self.failures.len(),
                self@.wf(),
                forall|j: int| 0 <= j < i ==> self.failures@[j].0 != *sig,
            decreases self.failures.len() - i,
        {
            if self.failures[i].0 == *sig {
                proof {
                    lemma_failure_index(self@.failures, *sig, i as int);
                }
                return Some(i);
            }
            i += 1;
        }
        None
    }

    fn status(&self, sig: &Signature) -> (r: Option<Status>)
        requires
            self@.wf(),
        ensures
            r == self@.status(*sig),
    {
        match self.failure_position(sig) {
            Some(i) => {
                assert(0 <= failure_index(self@.failures, *sig) < self@.failures.len());
                Some(Err(self.failures[i].1))
            },
            None => {
                if self.has(sig) {
                    Some(Ok(()))
                } else {
                    None
                }
            },
        }
    }
}

/// The status of a signature in the first cache from place `from` on that
/// has one.
pub open spec fn chain_status(checkpoints: Seq<&StatusCache>, sig: Signature, from: int) -> Option<
    Status,
>
    decreases checkpoints.len() - from,
{
    if from < 0 || from >= checkpoints.len() {
        None
    } else if checkpoints[from]@.get_signature_status(sig) is Some {
        checkpoints[from]@.get_signature_status(sig)
    } else {
        chain_status(checkpoints, sig, from + 1)
    }
}

pub struct StatusCache {
    active: StatusShard,
    merges: Vec<StatusShard>,
}

/// The views of a sequence of shards.
pub open spec fn shard_views(shards: Seq<StatusShard>) -> Seq<ShardView> {
    shards.map_values(|s: StatusShard| s@)
}

impl View for StatusCache {
    type V = StatusCacheView;

    closed spec fn view(&self) -> StatusCacheView {
        StatusCacheView { active: self.active@, merges: shard_views(self.merges@) }
    }
}

impl Default for StatusCache {
    fn default() -> (r: StatusCache)
        ensures
            r@ == StatusCacheView::empty(crate::hash::Hash::zero()),
            r@.wf(),
    {
        StatusCache::new(&crate::hash::Hash::default())
    }
}

impl StatusCache {
    /// An empty cache, whose first shard is opened by `id`.
    pub fn new(id: &crate::hash::Hash) -> (r: StatusCache)
        ensures
            r@ == StatusCacheView::empty(*id),
            r@.wf(),
    {
        let r = StatusCache { active: StatusShard::new(id), merges: Vec::new() };
        proof {
            assert(r@.merges =~= Seq::empty());
        }
        r
    }

    /// Whether the cache has seen the signature.
    pub fn has_signature(&self, sig: &Signature) -> (r: bool)
        ensures
            r == self@.has_signature(*sig),
    {
        if self.active.has(sig) {
            return true;
        }
        let mut i: usize = 0;
        while i < self.merges.len()
            invariant
                i <= self.merges.len(),
                forall|j: int| 0 <= j < i ==> !(#[trigger] shard_views(self.merges@)[j]).has(*sig),
            decreases self.merges.len() - i,
        {
            if self.merges[i].has(sig) {
                assert(self@.merges[i as int].has(*sig));
                return true;
            }
            i += 1;
        }
        false
    }

    /// Records a signature as seen.
    pub fn add(&mut self, sig: &Signature)
        ensures
            final(self)@ == old(self)@.add(*sig),
            old(self)@.wf() ==> final(self)@.wf(),
            final(self)@.has_signature(*sig),
    {
        proof {
            old(self)@.lemma_add(*sig);
        }
        if !self.active.has(sig) {
            self.active.signatures.push(*sig);
        }
    }

    /// Records why the transaction of a signature failed.
    pub fn save_failure_status(&mut self, sig: &Signature, err: TransactionError)
        requires
            old(self)@.wf(),
        ensures
            final(self)@ == old(self)@.save_failure_status(*sig, err),
            final(self)@.wf(),
    {
        proof {
            old(self)@.active.lemma_save_failure(*sig, err);
        }
        match self.active.failure_position(sig) {
            Some(i) => {
                assert(0 <= failure_index(self@.active.failures, *sig)
                    < self@.active.failures.len());
                self.active.failures[i] = (*sig, err);
            },
            None => {
                self.active.failures.push((*sig, err));
            },
        }
    }

    /// Forgets every signature.
    pub fn clear(&mut self)
        ensures
            final(self)@ == old(self)@.clear(),
            final(self)@.wf(),
    {
        self.active.signatures = Vec::new();
        self.active.failures = Vec::new();
        self.merges = Vec::new();
        proof {
            assert(self@.merges =~= Seq::empty());
        }
    }

    /// The status of a signature, if the cache has seen it.
    pub fn get_signature_status(&self, sig: &Signature) -> (r: Option<Status>)
        requires
            self@.wf(),
        ensures
            r == self@.get_signature_status(*sig),
    {
        let own = self.active.status(sig);
        if own.is_some() {
            return own;
        }
        let ghost merges = shard_views(self.merges@);
        let mut i: usize = 0;
        while i < self.merges.len()
            invariant
                i <= self.merges.len(),
                self@.wf(),
                merges == shard_views(self.merges@),
                self@.active.status(*sig) is None,
                merged_status(merges, *sig, 0) == merged_status(merges, *sig, i as int),
            decreases self.merges.len() - i,
        {
            assert(merges[i as int] == self.merges@[i as int]@);
            assert(merges[i as int].wf());
            let found = self.merges[i].status(sig);
            if found.is_some() {
                assert(merged_status(merges, *sig, i as int) == found);
                return found;
            }
            assert(merged_status(merges, *sig, i as int) == merged_status(merges, *sig, i + 1));
            i += 1;
        }
        None
    }

    /// Whether one of a chain of caches has seen the signature.
    pub fn has_signature_all(checkpoints: &[&StatusCache], sig: &Signature) -> (r: bool)
        ensures
            r == exists|i: int|
                0 <= i < checkpoints@.len() && (#[trigger] checkpoints@[i])@.has_signature(*sig),
    {
        let mut i: usize = 0;
        while i < checkpoints.len()
            invariant
                i <= checkpoints@.len(),
                forall|j: int| 0 <= j < i ==> !(#[trigger] checkpoints@[j])@.has_signature(*sig),
            decreases checkpoints@.len() - i,
        {
            if checkpoints[i].has_signature(sig) {
                return true;
            }
            i += 1;
        }
        false
    }

    /// The status of a signature in the first of a chain of caches that
    /// has one.
    pub fn get_signature_status_all(checkpoints: &[&StatusCache], sig: &Signature) -> (r: Option<
        Status,
    >)
        requires
            forall|i: int| 0 <= i < checkpoints@.len() ==> (#[trigger] checkpoints@[i])@.wf(),
        ensures
            r == chain_status(checkpoints@, *sig, 0),
    {
        let mut i: usize = 0;
        while i < checkpoints.len()
            invariant
                i <= checkpoints@.len(),
                forall|j: int| 0 <= j < checkpoints@.len() ==> (#[trigger] checkpoints@[j])@.wf(),
                chain_status(checkpoints@, *sig, 0) == chain_status(checkpoints@, *sig, i as int),
            decreases checkpoints@.len() - i,
        {
            assert(checkpoints@[i as int]@.wf());
            let found = checkpoints[i].get_signature_status(sig);
            if found.is_some() {
                return found;
            }
            i += 1;
        }
        None
    }

    /// Opens a fresh shard for the window that starts with `id`.
    pub fn new_cache(&mut self, id: &crate::hash::Hash)
        requires
            old(self)@.wf(),
        ensures
            final(self)@ == old(self)@.new_cache(*id),
            final(self)@.wf(),
    {
        let mut old_active = StatusShard::new(id);
        std::mem::swap(&mut old_active, &mut self.active);
        self.merges.insert(0, old_active);
        if self.merges.len() > MAX_CACHE_ENTRIES {
            self.merges.truncate(MAX_CACHE_ENTRIES);
        }
        proof {
            assert(self@.merges =~= old(self)@.new_cache(*id).merges);
        }
    }

    /// Puts the shards of a parent behind this cache's own, as far as there
    /// is room, and says whether the cache is full.
    pub fn squash_parent(&mut self, parent: &StatusCache) -> (full: bool)
        requires
            old(self)@.wf(),
            parent@.wf(),
        ensures
            final(self)@ == old(self)@.squash_parent(parent@),
            final(self)@.wf(),
            full == (final(self)@.merges.len() == MAX_CACHE_ENTRIES),
    {
        let ghost start = shard_views(self.merges@);
        let head = parent.active.clone();
        self.merges.push(head);
        let mut i: usize = 0;
        proof {
            assert(shard_views(self.merges@) =~= start.push(head@));
            assert(shard_views(self.merges@) =~= start + seq![parent@.active]
                + parent@.merges.subrange(0, 0));
        }
        while i < parent.merges.len()
            invariant
                i <= parent.merges.len(),
                self.active@ == old(self).active@,
                shard_views(self.merges@) == start + seq![parent@.active]
                    + parent@.merges.subrange(0, i as int),
            decreases parent.merges.len() - i,
        {
            let shard = parent.merges[i].clone();
            let ghost prev = shard_views(self.merges@);
            self.merges.push(shard);
            proof {
                assert(shard_views(self.merges@) =~= prev.push(shard@));
                assert(parent@.merges[i as int] == parent.merges@[i as int]@);
                assert(self.merges@.last()@ == parent@.merges[i as int]);
                assert(shard_views(self.merges@) =~= start + seq![parent@.active]
                    + parent@.merges.subrange(0, i + 1));
            }
            i += 1;
        }
        proof {
            assert(parent@.merges.subrange(0, parent@.merges.len() as int) =~= parent@.merges);
        }
        if self.merges.len() > MAX_CACHE_ENTRIES {
            self.merges.truncate(MAX_CACHE_ENTRIES);
        }
        proof {
            assert(self@.merges =~= old(self)@.squash_parent(parent@).merges);
        }
        self.merges.len() == MAX_CACHE_ENTRIES
    }
}

} // verus!
