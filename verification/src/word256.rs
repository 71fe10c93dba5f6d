//! 256-bit values held as four 64-bit words, so that equality and ordering
//! are plain integer comparisons.

use vstd::prelude::*;
use vstd::bytes::*;
use vstd::slice::slice_subrange;

verus! {

/// A 32-byte value. Byte `8 * k + j` of the value is byte `j` of word `k`
/// in little-endian order.
#[derive(Clone, Copy, Debug, PartialEq, Eq, Hash, Structural)]
pub struct Word256 {
    pub w0: u64,
    pub w1: u64,
    pub w2: u64,
    pub w3: u64,
}

impl Word256 {
    /// The 32 bytes of the value.
    pub open spec fn to_bytes_spec(self) -> Seq<u8> {
        spec_u64_to_le_bytes(self.w0) + spec_u64_to_le_bytes(self.w1) + spec_u64_to_le_bytes(
            self.w2,
        ) + spec_u64_to_le_bytes(self.w3)
    }

    /// The value whose bytes are the first 32 bytes of `s`.
    pub open spec fn from_bytes_spec(s: Seq<u8>) -> Word256 {
        Word256 {
            w0: spec_u64_from_le_bytes(s.subrange(0, 8)),
            w1: spec_u64_from_le_bytes(s.subrange(8, 16)),
            w2: spec_u64_from_le_bytes(s.subrange(16, 24)),
            w3: spec_u64_from_le_bytes(s.subrange(24, 32)),
        }
    }

    /// Strict order: the words compared in turn, `w0` first.
    pub open spec fn lt(self, other: Word256) -> bool {
        self.w0 < other.w0 || (self.w0 == other.w0 && (self.w1 < other.w1 || (self.w1 == other.w1
            && (self.w2 < other.w2 || (self.w2 == other.w2 && self.w3 < other.w3)))))
    }

    pub open spec fn zero() -> Word256 {
        Word256 { w0: 0, w1: 0, w2: 0, w3: 0 }
    }

    pub fn zeroed() -> (r: Word256)
        ensures
            r == Word256::zero(),
    {
        Word256 { w0: 0, w1: 0, w2: 0, w3: 0 }
    }

    pub fn from_bytes(bytes: &[u8]) -> (r: Word256)
        requires
            bytes@.len() == 32,
        ensures
            r == Word256::from_bytes_spec(bytes@),
    {
        Word256 {
            w0: u64_from_le_bytes(slice_subrange(bytes, 0, 8)),
            w1: u64_from_le_bytes(slice_subrange(bytes, 8, 16)),
            w2: u64_from_le_bytes(slice_subrange(bytes, 16, 24)),
            w3: u64_from_le_bytes(slice_subrange(bytes, 24, 32)),
        }
    }

    pub fn to_bytes(&self) -> (r: Vec<u8>)
        ensures
            r@ == self.to_bytes_spec(),
            r@.len() == 32,
    {
        let mut out = u64_to_le_bytes(self.w0);
        let mut b1 = u64_to_le_bytes(self.w1);
        let mut b2 = u64_to_le_bytes(self.w2);
        let mut b3 = u64_to_le_bytes(self.w3);
        out.append(&mut b1);
        out.append(&mut b2);
        out.append(&mut b3);
        out
    }

    pub fn less_than(&self, other: &Word256) -> (r: bool)
        ensures
            r == self.lt(*other),
    {
        if self.w0 != other.w0 {
            self.w0 < other.w0
        } else if self.w1 != other.w1 {
            self.w1 < other.w1
        } else if self.w2 != other.w2 {
            self.w2 < other.w2
        } else {
            self.w3 < other.w3
        }
    }

    /// Writing a value out and reading it back gives the value again.
    pub proof fn lemma_bytes_round_trip(self)
        ensures
            self.to_bytes_spec().len() == 32,
            Word256::from_bytes_spec(self.to_bytes_spec()) == self,
    {
        lemma_auto_spec_u64_to_from_le_bytes();
        let s = self.to_bytes_spec();
        assert(s.subrange(0, 8) =~= spec_u64_to_le_bytes(self.w0));
        assert(s.subrange(8, 16) =~= spec_u64_to_le_bytes(self.w1));
        assert(s.subrange(16, 24) =~= spec_u64_to_le_bytes(self.w2));
        assert(s.subrange(24, 32) =~= spec_u64_to_le_bytes(self.w3));
    }

    /// Reading 32 bytes and writing the value out gives the bytes again.
    pub proof fn lemma_from_bytes_round_trip(s: Seq<u8>)
        requires
            s.len() == 32,
        ensures
            Word256::from_bytes_spec(s).to_bytes_spec() == s,
    {
        lemma_auto_spec_u64_to_from_le_bytes();
        assert(Word256::from_bytes_spec(s).to_bytes_spec() =~= s.subrange(0, 8) + s.subrange(8, 16)
            + s.subrange(16, 24) + s.subrange(24, 32));
        assert(s.subrange(0, 8) + s.subrange(8, 16) + s.subrange(16, 24) + s.subrange(24, 32)
            =~= s);
    }
}

} // verus!
