//! Transaction signatures and the key pairs that make them.

use vstd::prelude::*;
use ed25519_dalek::Signer;
use crate::pubkey::Pubkey;
use crate::word256::Word256;

verus! {

/// The Ed25519 public key that belongs to a 32-byte seed, as
/// `ed25519_dalek` derives it.
pub uninterp spec fn ed25519_public_key(seed: Seq<u8>) -> Seq<u8>;

/// The Ed25519 signature of a message under the key of a 32-byte seed, as
/// `ed25519_dalek` computes it. Ed25519 signing uses no randomness.
pub uninterp spec fn ed25519_signature(seed: Seq<u8>, message: Seq<u8>) -> Seq<u8>;

/// Calls `SigningKey::from_bytes` and `verifying_key` of `ed25519_dalek`.
/// The contract names the public key of the seed handed in.
#[verifier::external_body]
fn derive_public_key(seed: &[u8; 32]) -> (r: [u8; 32])
    ensures
        r@ == ed25519_public_key(seed@),
{
    ed25519_dalek::SigningKey::from_bytes(seed).verifying_key().to_bytes()
}

/// Calls `SigningKey::sign` of `ed25519_dalek`. The contract names the
/// signature of the message under the seed handed in.
#[verifier::external_body]
fn sign_with_seed(seed: &[u8; 32], message: &[u8]) -> (r: [u8; 64])
    ensures
        r@ == ed25519_signature(seed@, message@),
{
    ed25519_dalek::SigningKey::from_bytes(seed).sign(message).to_bytes()
}

/// Calls `rand::random` for 32 bytes from the thread's generator. Nothing
/// is claimed of what comes back.
#[verifier::external_body]
fn random_seed() -> (r: [u8; 32]) {
    rand::random()
}

/// A 64-byte signature, held as its two halves.
#[derive(Clone, Copy, Debug, PartialEq, Eq, Hash, Structural)]
pub struct Signature {
    pub r: Word256,
    pub s: Word256,
}

impl Signature {
    /// The signature whose 64 bytes are `bytes`.
    pub fn new(bytes: &[u8]) -> (r: Signature)
        requires
            bytes@.len() == 64,
        ensures
            r == Signature::from_bytes_spec(bytes@),
    {
        Signature {
            r: Word256::from_bytes(vstd::slice::slice_subrange(bytes, 0, 32)),
            s: Word256::from_bytes(vstd::slice::slice_subrange(bytes, 32, 64)),
        }
    }

    pub open spec fn from_bytes_spec(s: Seq<u8>) -> Signature {
        Signature {
            r: Word256::from_bytes_spec(s.subrange(0, 32)),
            s: Word256::from_bytes_spec(s.subrange(32, 64)),
        }
    }

    pub open spec fn to_bytes_spec(self) -> Seq<u8> {
        self.r.to_bytes_spec() + self.s.to_bytes_spec()
    }

    pub fn to_bytes(&self) -> (r: Vec<u8>)
        ensures
            r@ == self.to_bytes_spec(),
            r@.len() == 64,
    {
        let mut out = self.r.to_bytes();
        let mut tail = self.s.to_bytes();
        out.append(&mut tail);
        out
    }

    pub open spec fn zero() -> Signature {
        Signature { r: Word256::zero(), s: Word256::zero() }
    }
}

impl Default for Signature {
    fn default() -> (r: Signature)
        ensures
            r == Signature::zero(),
    {
        Signature { r: Word256::zeroed(), s: Word256::zeroed() }
    }
}

/// An Ed25519 key pair: the seed and the address derived from it.
#[derive(Debug)]
pub struct Keypair {
    seed: [u8; 32],
    public: Pubkey,
}

impl Keypair {
    /// The seed and the address belong together.
    pub closed spec fn wf(&self) -> bool {
        self.public.id == Word256::from_bytes_spec(ed25519_public_key(self.seed@))
    }

    pub closed spec fn seed_spec(&self) -> Seq<u8> {
        self.seed@
    }

    pub closed spec fn pubkey_spec(&self) -> Pubkey {
        self.public
    }

    /// The address that belongs to a seed.
    pub open spec fn pubkey_of_seed(seed: Seq<u8>) -> Pubkey {
        Pubkey { id: Word256::from_bytes_spec(ed25519_public_key(seed)) }
    }

    /// The signature of `message` under a seed.
    pub open spec fn signature_of(seed: Seq<u8>, message: Seq<u8>) -> Signature {
        Signature::from_bytes_spec(ed25519_signature(seed, message))
    }

    /// The key pair of a given seed.
    pub fn from_seed(seed: &[u8; 32]) -> (r: Keypair)
        ensures
            r.wf(),
            r.seed_spec() == seed@,
            r.pubkey_spec() == Keypair::pubkey_of_seed(seed@),
    {
        let public = derive_public_key(seed);
        Keypair { seed: *seed, public: Pubkey { id: Word256::from_bytes(public.as_slice()) } }
    }

    /// A fresh key pair from a random seed.
    pub fn new() -> (r: Keypair)
        ensures
            r.wf(),
            r.pubkey_spec() == Keypair::pubkey_of_seed(r.seed_spec()),
    {
        let seed = random_seed();
        Keypair::from_seed(&seed)
    }

    pub fn pubkey(&self) -> (r: Pubkey)
        ensures
            r == self.pubkey_spec(),
    {
        self.public
    }

    /// Signs a message.
    pub fn sign_message(&self, message: &[u8]) -> (r: Signature)
        ensures
            r == Keypair::signature_of(self.seed_spec(), message@),
    {
        let bytes = sign_with_seed(&self.seed, message);
        Signature::new(bytes.as_slice())
    }
}

} // verus!
