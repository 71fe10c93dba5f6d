//! The epoch schedule: which epoch a slot falls in, and how long each epoch
//! is. With warmup the first epochs hold 1, 2, 4, ... slots, until an epoch
//! would reach the configured length; from then on every epoch has that
//! length.

use vstd::prelude::*;
use vstd::arithmetic::power2::*;

verus! {

/// The least `e` with `2^e >= n`.
pub open spec fn log2_ceil(n: nat) -> nat
    decreases n,
{
    if n <= 1 {
        0
    } else {
        1 + log2_ceil((n + 1) / 2)
    }
}

/// The warmup epoch of a slot: epoch `e` starts at slot `2^e - 1` and holds
/// `2^e` slots.
pub open spec fn warmup_epoch(slot: nat) -> nat
    decreases slot,
{
    if slot == 0 {
        0
    } else {
        1 + warmup_epoch(((slot - 1) / 2) as nat)
    }
}

/// `log2_ceil(n)` is the least exponent whose power of two reaches `n`.
pub proof fn lemma_log2_ceil_bounds(n: nat)
    ensures
        pow2(log2_ceil(n)) >= n,
        n > 1 ==> log2_ceil(n) > 0 && pow2((log2_ceil(n) - 1) as nat) < n,
    decreases n,
{
    lemma2_to64();
    if n > 1 {
        let h = (n + 1) / 2;
        lemma_log2_ceil_bounds(h);
        lemma_pow2_unfold(log2_ceil(n));
        if h > 1 {
            lemma_pow2_unfold(log2_ceil(h));
        }
    }
}

/// A warmup epoch's slots are those from `2^e - 1` up to `2^(e+1) - 2`.
pub proof fn lemma_warmup_epoch_bounds(slot: nat)
    ensures
        pow2(warmup_epoch(slot)) - 1 <= slot < pow2(warmup_epoch(slot) + 1) - 1,
    decreases slot,
{
    lemma2_to64();
    if slot > 0 {
        let h = ((slot - 1) / 2) as nat;
        lemma_warmup_epoch_bounds(h);
        lemma_pow2_unfold(warmup_epoch(slot));
        lemma_pow2_unfold(warmup_epoch(slot) + 1);
    }
}

proof fn lemma_pow2_order(a: nat, b: nat)
    ensures
        pow2(a) < pow2(b) ==> a < b,
        pow2(a) <= pow2(b) ==> a <= b,
{
    if b < a {
        lemma_pow2_strictly_increases(b, a);
    }
}

/// The bounds of `lemma_warmup_epoch_bounds` hold of one epoch only.
pub proof fn lemma_warmup_epoch_unique(slot: nat, e: nat)
    requires
        pow2(e) - 1 <= slot < pow2(e + 1) - 1,
    ensures
        warmup_epoch(slot) == e,
{
    let w = warmup_epoch(slot);
    lemma_warmup_epoch_bounds(slot);
    lemma_pow2_order(w, e + 1);
    lemma_pow2_order(e, w + 1);
}

proof fn lemma_log2_ceil_unique(n: nat, e: nat)
    requires
        pow2(e) >= n,
        e > 0 ==> pow2((e - 1) as nat) < n,
    ensures
        log2_ceil(n) == e,
{
    let l = log2_ceil(n);
    lemma_log2_ceil_bounds(n);
    lemma2_to64();
    if e > 0 {
        lemma_pow2_order((e - 1) as nat, l);
    }
    if n > 1 {
        lemma_pow2_order((l - 1) as nat, e);
    }
}

fn pow2_u64(e: u64) -> (r: u64)
    requires
        e <= 63,
    ensures
        r == pow2(e as nat),
{
    let mut p: u64 = 1;
    let mut i: u64 = 0;
    proof {
        lemma2_to64();
    }
    while i < e
        invariant
            i <= e <= 63,
            p == pow2(i as nat),
        decreases e - i,
    {
        proof {
            lemma_pow2_unfold((i + 1) as nat);
            lemma2_to64_rest();
            if i + 1 < 63 {
                lemma_pow2_strictly_increases((i + 1) as nat, 63);
            }
        }
        p = p * 2;
        i += 1;
    }
    p
}

#[derive(Debug, PartialEq, Eq, Clone, Copy, Structural)]
pub struct EpochSchedule {
    /// The maximum number of slots in each epoch.
    pub slots_per_epoch: u64,
    /// A number of slots before slot index 0, used to pick the epoch whose
    /// stakes a slot fixes.
    pub stakers_slot_offset: u64,
    /// The first epoch of full length.
    pub first_normal_epoch: u64,
    /// The first slot of `first_normal_epoch`.
    pub first_normal_slot: u64,
}

impl Default for EpochSchedule {
    fn default() -> (r: EpochSchedule)
        ensures
            r == (EpochSchedule {
                slots_per_epoch: 0,
                stakers_slot_offset: 0,
                first_normal_epoch: 0,
                first_normal_slot: 0,
            }),
    {
        EpochSchedule {
            slots_per_epoch: 0,
            stakers_slot_offset: 0,
            first_normal_epoch: 0,
            first_normal_slot: 0,
        }
    }
}

impl EpochSchedule {
    /// What `new` builds.
    pub open spec fn new_spec(
        slots_per_epoch: u64,
        stakers_slot_offset: u64,
        warmup: bool,
    ) -> EpochSchedule {
        if warmup {
            EpochSchedule {
                slots_per_epoch,
                stakers_slot_offset,
                first_normal_epoch: log2_ceil(slots_per_epoch as nat) as u64,
                first_normal_slot: (pow2(log2_ceil(slots_per_epoch as nat)) - 1) as u64,
            }
        } else {
            EpochSchedule {
                slots_per_epoch,
                stakers_slot_offset,
                first_normal_epoch: 0,
                first_normal_slot: 0,
            }
        }
    }

    /// The schedule is one that the queries can work on: epochs are not
    /// empty, and the warmup ends where its last epoch ends.
    pub open spec fn wf(self) -> bool {
        &&& self.slots_per_epoch > 0
        &&& self.first_normal_epoch <= 63
        &&& self.first_normal_slot == pow2(self.first_normal_epoch as nat) - 1
        &&& self.first_normal_epoch > 0 ==> self.slots_per_epoch > pow2(
            (self.first_normal_epoch - 1) as nat,
        )
    }

    /// The length of an epoch, in slots.
    pub open spec fn slots_in_epoch_spec(self, epoch: u64) -> int {
        if epoch < self.first_normal_epoch {
            pow2(epoch as nat) as int
        } else {
            self.slots_per_epoch as int
        }
    }

    /// The epoch of a slot and the slot's index in that epoch.
    pub open spec fn epoch_and_slot_index_spec(self, slot: u64) -> (int, int) {
        if slot < self.first_normal_slot {
            let e = warmup_epoch(slot as nat);
            (e as int, slot - (pow2(e) - 1))
        } else {
            (
                self.first_normal_epoch + (slot - self.first_normal_slot)
                    / (self.slots_per_epoch as int),
                (slot - self.first_normal_slot) % (self.slots_per_epoch as int),
            )
        }
    }

    /// The first slot of an epoch: the lengths of the epochs before it,
    /// summed.
    pub open spec fn first_slot_spec(self, epoch: int) -> int {
        if epoch <= self.first_normal_epoch {
            pow2(epoch as nat) - 1
        } else {
            self.first_normal_slot + (epoch - self.first_normal_epoch) * self.slots_per_epoch
        }
    }

    /// The epoch whose stakes are fixed at a slot.
    pub open spec fn stakers_epoch_spec(self, slot: u64) -> int {
        if slot < self.first_normal_slot {
            self.epoch_and_slot_index_spec(slot).0 + 1
        } else {
            self.first_normal_epoch + (slot - self.first_normal_slot + self.stakers_slot_offset)
                / (self.slots_per_epoch as int)
        }
    }

    /// A schedule with slots in its epochs, few enough for the warmup to
    /// reach them, is one that the queries can work on.
    pub proof fn lemma_new_spec_wf(slots_per_epoch: u64, stakers_slot_offset: u64, warmup: bool)
        requires
            slots_per_epoch > 0,
            warmup ==> slots_per_epoch <= 0x8000_0000_0000_0000,
        ensures
            EpochSchedule::new_spec(slots_per_epoch, stakers_slot_offset, warmup).wf(),
    {
        lemma2_to64();
        lemma2_to64_rest();
        if warmup {
            let l = log2_ceil(slots_per_epoch as nat);
            lemma_log2_ceil_bounds(slots_per_epoch as nat);
            if slots_per_epoch > 1 {
                lemma_pow2_order((l - 1) as nat, 63);
                if l < 63 {
                    lemma_pow2_strictly_increases(l, 63);
                }
            }
        }
    }

    /// Builds a schedule. With `warmup`, the first normal epoch is the least
    /// `e` with `2^e >= slots_per_epoch`, and starts at slot `2^e - 1`.
    pub fn new(slots_per_epoch: u64, stakers_slot_offset: u64, warmup: bool) -> (r: EpochSchedule)
        requires
            warmup ==> slots_per_epoch <= 0x8000_0000_0000_0000,
        ensures
            r == EpochSchedule::new_spec(slots_per_epoch, stakers_slot_offset, warmup),
            slots_per_epoch > 0 ==> r.wf(),
    {
        proof {
            lemma2_to64();
            lemma2_to64_rest();
        }
        if warmup {
            let mut p: u64 = 1;
            let mut e: u64 = 0;
            while p < slots_per_epoch
                invariant
                    p == pow2(e as nat),
                    e <= 63,
                    e > 0 ==> pow2((e - 1) as nat) < slots_per_epoch,
                    slots_per_epoch <= 0x8000_0000_0000_0000,
                    pow2(63) == 0x8000_0000_0000_0000,
                decreases 63 - e,
            {
                proof {
                    lemma_pow2_order(e as nat, 63);
                    lemma_pow2_unfold((e + 1) as nat);
                }
                p = p * 2;
                e += 1;
            }
            proof {
                lemma_log2_ceil_unique(slots_per_epoch as nat, e as nat);
            }
            EpochSchedule {
                slots_per_epoch,
                stakers_slot_offset,
                first_normal_epoch: e,
                first_normal_slot: p - 1,
            }
        } else {
            EpochSchedule {
                slots_per_epoch,
                stakers_slot_offset,
                first_normal_epoch: 0,
                first_normal_slot: 0,
            }
        }
    }

    /// The length of the given epoch, in slots.
    pub fn get_slots_in_epoch(&self, epoch: u64) -> (r: u64)
        requires
            self.first_normal_epoch <= 64,
        ensures
            r == self.slots_in_epoch_spec(epoch),
    {
        if epoch < self.first_normal_epoch {
            pow2_u64(epoch)
        } else {
            self.slots_per_epoch
        }
    }

    /// The epoch for which the given slot fixes the stakes. During warmup
    /// that is the next epoch.
    pub fn get_stakers_epoch(&self, slot: u64) -> (r: u64)
        requires
            self.wf(),
            slot >= self.first_normal_slot ==> slot - self.first_normal_slot
                + self.stakers_slot_offset <= u64::MAX,
        ensures
            r == self.stakers_epoch_spec(slot),
    {
        if slot < self.first_normal_slot {
            let (epoch, _) = self.get_epoch_and_slot_index(slot);
            proof {
                self.lemma_warmup_epoch_below_normal(slot);
            }
            epoch + 1
        } else {
            let span: u64 = slot - self.first_normal_slot + self.stakers_slot_offset;
            proof {
                self.lemma_normal_epoch_fits(span);
            }
            self.first_normal_epoch + span / self.slots_per_epoch
        }
    }

    /// The epoch of the given slot, and the slot's index in it.
    pub fn get_epoch_and_slot_index(&self, slot: u64) -> (r: (u64, u64))
        requires
            self.wf(),
        ensures
            (r.0 as int, r.1 as int) == self.epoch_and_slot_index_spec(slot),
    {
        if slot < self.first_normal_slot {
            let mut epoch: u64 = 0;
            let mut start: u64 = 0;
            let mut len: u64 = 1;
            proof {
                lemma2_to64();
                lemma_pow2_order(0, self.first_normal_epoch as nat);
            }
            while slot - start >= len
                invariant
                    self.wf(),
                    slot < self.first_normal_slot,
                    start == pow2(epoch as nat) - 1,
                    len == pow2(epoch as nat),
                    start <= slot,
                    epoch < self.first_normal_epoch,
                decreases slot - start,
            {
                proof {
                    lemma_pow2_unfold((epoch + 1) as nat);
                    lemma_pow2_order((epoch + 1) as nat, self.first_normal_epoch as nat);
                    lemma_pow2_pos(epoch as nat);
                }
                start = start + len;
                len = len * 2;
                epoch += 1;
            }
            proof {
                lemma_pow2_unfold((epoch + 1) as nat);
                lemma_warmup_epoch_unique(slot as nat, epoch as nat);
            }
            (epoch, slot - start)
        } else {
            let span: u64 = slot - self.first_normal_slot;
            proof {
                self.lemma_normal_epoch_fits(span);
            }
            (self.first_normal_epoch + span / self.slots_per_epoch, span % self.slots_per_epoch)
        }
    }

    proof fn lemma_normal_epoch_fits(self, span: u64)
        requires
            self.wf(),
        ensures
            self.first_normal_epoch + span / self.slots_per_epoch <= u64::MAX,
    {
        lemma2_to64();
        let d = self.slots_per_epoch as int;
        let x = span as int;
        if self.first_normal_epoch > 0 {
            lemma_pow2_pos((self.first_normal_epoch - 1) as nat);
            assert(x / d <= x / 2) by (nonlinear_arith)
                requires
                    d >= 2,
                    x >= 0,
            ;
        } else {
            assert(x / d <= x) by (nonlinear_arith)
                requires
                    d >= 1,
                    x >= 0,
            ;
        }
    }

    proof fn lemma_warmup_epoch_below_normal(self, slot: u64)
        requires
            self.wf(),
            slot < self.first_normal_slot,
        ensures
            warmup_epoch(slot as nat) < self.first_normal_epoch,
    {
        lemma_warmup_epoch_bounds(slot as nat);
        lemma_pow2_order(warmup_epoch(slot as nat), self.first_normal_epoch as nat);
    }

    /// From one slot to the next the epoch stays or grows by one.
    pub proof fn lemma_epoch_step(self, slot: u64)
        requires
            self.wf(),
            slot < u64::MAX,
        ensures
            ({
                let e = self.epoch_and_slot_index_spec(slot).0;
                let next = self.epoch_and_slot_index_spec((slot + 1) as u64).0;
                next == e || next == e + 1
            }),
    {
        let e = self.epoch_and_slot_index_spec(slot).0;
        let s1 = (slot + 1) as u64;
        if s1 < self.first_normal_slot {
            let w = warmup_epoch(slot as nat);
            lemma_warmup_epoch_bounds(slot as nat);
            lemma_pow2_unfold(w + 1);
            lemma_pow2_unfold(w + 2);
            if slot + 1 < pow2(w + 1) - 1 {
                lemma_warmup_epoch_unique(s1 as nat, w);
            } else {
                lemma_warmup_epoch_unique(s1 as nat, w + 1);
            }
        } else if slot < self.first_normal_slot {
            let f = self.first_normal_epoch as nat;
            lemma2_to64();
            lemma_pow2_order(1, f);
            lemma_pow2_unfold(f);
            lemma_warmup_epoch_unique(slot as nat, (f - 1) as nat);
            assert(0int / (self.slots_per_epoch as int) == 0) by (nonlinear_arith)
                requires
                    self.slots_per_epoch > 0,
            ;
        } else {
            let d = self.slots_per_epoch as int;
            let x = slot - self.first_normal_slot;
            assert((x + 1) / d == x / d || (x + 1) / d == x / d + 1) by (nonlinear_arith)
                requires
                    d > 0,
                    x >= 0,
            ;
        }
    }

    /// A slot's index is below the length of its epoch, and the slot is
    /// that many slots behind the first slot of its epoch.
    pub proof fn lemma_slot_index_in_epoch(self, slot: u64)
        requires
            self.wf(),
        ensures
            ({
                let (e, i) = self.epoch_and_slot_index_spec(slot);
                &&& 0 <= i && 0 <= e <= u64::MAX && i < self.slots_in_epoch_spec(e as u64)
                &&& slot == self.first_slot_spec(e) + i
            }),
    {
        if slot < self.first_normal_slot {
            lemma_warmup_epoch_bounds(slot as nat);
            self.lemma_warmup_epoch_below_normal(slot);
            lemma_pow2_unfold(warmup_epoch(slot as nat) + 1);
        } else {
            let d = self.slots_per_epoch as int;
            let x = slot - self.first_normal_slot;
            self.lemma_normal_epoch_fits(x as u64);
            assert(0 <= x % d < d && x / d >= 0 && x == (x / d) * d + x % d) by (nonlinear_arith)
                requires
                    d > 0,
                    x >= 0,
            ;
            let e = self.first_normal_epoch + x / d;
            if x / d == 0 {
                assert(self.first_slot_spec(e) == self.first_normal_slot);
            } else {
                assert(self.first_slot_spec(e) == self.first_normal_slot + (e
                    - self.first_normal_epoch) * d);
                assert((e - self.first_normal_epoch) * d == (x / d) * d);
            }
        }
    }

    /// The first epoch starts at slot 0, and each epoch starts where the
    /// one before it ends.
    pub proof fn lemma_first_slot_step(self, epoch: u64)
        requires
            self.wf(),
        ensures
            self.first_slot_spec(0) == 0,
            self.first_slot_spec(epoch + 1) == self.first_slot_spec(epoch as int)
                + self.slots_in_epoch_spec(epoch),
    {
        lemma2_to64();
        lemma_pow2_unfold((epoch + 1) as nat);
        let d = self.slots_per_epoch as int;
        let f = self.first_normal_epoch as int;
        if epoch >= f {
            assert((epoch + 1 - f) * d == (epoch - f) * d + d) by (nonlinear_arith);
            if epoch == f {
                assert((epoch - f) * d == 0) by (nonlinear_arith)
                    requires
                        epoch - f == 0,
                ;
                assert(self.first_slot_spec(epoch as int) == self.first_normal_slot);
            }
        }
    }
}

} // verus!
