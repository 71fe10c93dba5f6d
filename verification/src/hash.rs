//! Content hashes.

use vstd::prelude::*;
use sha2::Digest;
use crate::word256::Word256;

verus! {

/// The SHA-256 digest of a byte string, as the `sha2` crate computes it.
pub uninterp spec fn sha256(data: Seq<u8>) -> Seq<u8>;

/// Calls `sha2::Sha256::digest`. The contract names the digest of the bytes
/// handed in; the type of the result fixes its length at 32.
#[verifier::external_body]
fn sha256_digest(data: &[u8]) -> (r: [u8; 32])
    ensures
        r@ == sha256(data@),
{
    sha2::Sha256::digest(data).into()
}

/// A 32-byte content hash.
#[derive(Clone, Copy, Debug, PartialEq, Eq, Hash, Structural)]
pub struct Hash {
    pub value: Word256,
}

impl Hash {
    /// The hash whose 32 bytes are `bytes`.
    pub fn new(bytes: &[u8]) -> (r: Hash)
        requires
            bytes@.len() == 32,
        ensures
            r.value == Word256::from_bytes_spec(bytes@),
            r.to_bytes_spec() == bytes@,
    {
        proof {
            Word256::lemma_from_bytes_round_trip(bytes@);
        }
        Hash { value: Word256::from_bytes(bytes) }
    }

    pub open spec fn to_bytes_spec(self) -> Seq<u8> {
        self.value.to_bytes_spec()
    }

    pub fn to_bytes(&self) -> (r: Vec<u8>)
        ensures
            r@ == self.to_bytes_spec(),
            r@.len() == 32,
    {
        self.value.to_bytes()
    }

    /// The all-zero hash, which stands for "no hash yet".
    pub open spec fn zero() -> Hash {
        Hash { value: Word256::zero() }
    }
}

impl Default for Hash {
    fn default() -> (r: Hash)
        ensures
            r == Hash::zero(),
    {
        Hash { value: Word256::zeroed() }
    }
}

/// The hash of a byte string.
pub open spec fn hash_spec(data: Seq<u8>) -> Hash {
    Hash { value: Word256::from_bytes_spec(sha256(data)) }
}

/// The hash of `id`'s bytes followed by `val`.
pub open spec fn extend_and_hash_spec(id: Hash, val: Seq<u8>) -> Hash {
    hash_spec(id.to_bytes_spec() + val)
}

/// Hashes a byte string.
pub fn hash(val: &[u8]) -> (r: Hash)
    ensures
        r == hash_spec(val@),
{
    let digest = sha256_digest(val);
    Hash { value: Word256::from_bytes(digest.as_slice()) }
}

/// Hashes `id` followed by `val`: the chaining step of a hash sequence.
pub fn extend_and_hash(id: &Hash, val: &[u8]) -> (r: Hash)
    ensures
        r == extend_and_hash_spec(*id, val@),
{
    let mut bytes = id.to_bytes();
    let mut i: usize = 0;
    while i < val.len()
        invariant
            i <= val.len(),
            bytes@ == id.to_bytes_spec() + val@.subrange(0, i as int),
        decreases val.len() - i,
    {
        bytes.push(val[i]);
        proof {
            assert(val@.subrange(0, i + 1) =~= val@.subrange(0, i as int).push(val@[i as int]));
            assert(bytes@ =~= id.to_bytes_spec() + val@.subrange(0, i + 1));
        }
        i += 1;
    }
    proof {
        assert(val@.subrange(0, val@.len() as int) =~= val@);
    }
    hash(bytes.as_slice())
}

} // verus!
