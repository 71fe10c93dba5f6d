//! Account addresses.

use vstd::prelude::*;
use crate::word256::Word256;

verus! {

/// A 32-byte account address.
#[derive(Clone, Copy, Debug, PartialEq, Eq, Hash, Structural)]
pub struct Pubkey {
    pub id: Word256,
}

impl Pubkey {
    /// The address whose 32 bytes are `bytes`.
    pub fn new(bytes: &[u8]) -> (r: Pubkey)
        requires
            bytes@.len() == 32,
        ensures
            r.id == Word256::from_bytes_spec(bytes@),
            r.to_bytes_spec() == bytes@,
    {
        proof {
            Word256::lemma_from_bytes_round_trip(bytes@);
        }
        Pubkey { id: Word256::from_bytes(bytes) }
    }

    pub open spec fn to_bytes_spec(self) -> Seq<u8> {
        self.id.to_bytes_spec()
    }

    pub fn to_bytes(&self) -> (r: Vec<u8>)
        ensures
            r@ == self.to_bytes_spec(),
            r@.len() == 32,
    {
        self.id.to_bytes()
    }

    /// The all-zero address, which no account may use.
    pub open spec fn zero() -> Pubkey {
        Pubkey { id: Word256::zero() }
    }

    /// Strict order on addresses.
    pub open spec fn lt(self, other: Pubkey) -> bool {
        self.id.lt(other.id)
    }

    pub fn less_than(&self, other: &Pubkey) -> (r: bool)
        ensures
            r == self.lt(*other),
    {
        self.id.less_than(&other.id)
    }
}

impl Default for Pubkey {
    fn default() -> (r: Pubkey)
        ensures
            r == Pubkey::zero(),
    {
        Pubkey { id: Word256::zeroed() }
    }
}

} // verus!
