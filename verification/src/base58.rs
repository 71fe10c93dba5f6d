//! Addresses and signatures as text: base58 with the Bitcoin alphabet.

use vstd::prelude::*;
use crate::pubkey::Pubkey;
use crate::signature::Signature;
use crate::word256::Word256;

verus! {

/// The bytes that a text stands for in base58, as the `bs58` crate decodes
/// it, or `None` where the text is no base58.
pub uninterp spec fn base58_decoded(text: Seq<char>) -> Option<Seq<u8>>;

/// The base58 text of a byte string, as the `bs58` crate encodes it.
pub uninterp spec fn base58_encoded(bytes: Seq<u8>) -> Seq<char>;

/// Calls `bs58::decode(..).into_vec()`, with the default alphabet. The
/// contract names what comes back: the bytes, or nothing where the crate
/// reports an error.
#[verifier::external_body]
fn decode(text: &str) -> (r: Option<Vec<u8>>)
    ensures
        match r {
            Some(bytes) => base58_decoded(text@) == Some(bytes@),
            None => base58_decoded(text@) is None,
        },
{
    bs58::decode(text).into_vec().ok()
}

/// Calls `bs58::encode(..).into_string()`, with the default alphabet. The
/// contract names the text that comes back.
#[verifier::external_body]
fn encode(bytes: &[u8]) -> (r: String)
    ensures
        r@ == base58_encoded(bytes@),
{
    bs58::encode(bytes).into_string()
}

/// The address that a text stands for: the text must be the base58 of 32
/// bytes.
pub open spec fn pubkey_of_text(text: Seq<char>) -> Option<Pubkey> {
    match base58_decoded(text) {
        Some(bytes) => if bytes.len() == 32 {
            Some(Pubkey { id: Word256::from_bytes_spec(bytes) })
        } else {
            None
        },
        None => None,
    }
}

/// The signature that a text stands for: the text must be the base58 of
/// 64 bytes.
pub open spec fn signature_of_text(text: Seq<char>) -> Option<Signature> {
    match base58_decoded(text) {
        Some(bytes) => if bytes.len() == 64 {
            Some(Signature::from_bytes_spec(bytes))
        } else {
            None
        },
        None => None,
    }
}

/// Reads an address from its base58 text.
pub fn parse_pubkey(text: &str) -> (r: Option<Pubkey>)
    ensures
        r == pubkey_of_text(text@),
{
    match decode(text) {
        Some(bytes) => {
            if bytes.len() == 32 {
                Some(Pubkey::new(bytes.as_slice()))
            } else {
                None
            }
        },
        None => None,
    }
}

/// Reads a signature from its base58 text.
pub fn parse_signature(text: &str) -> (r: Option<Signature>)
    ensures
        r == signature_of_text(text@),
{
    match decode(text) {
        Some(bytes) => {
            if bytes.len() == 64 {
                Some(Signature::new(bytes.as_slice()))
            } else {
                None
            }
        },
        None => None,
    }
}

/// The base58 text of an address.
pub fn pubkey_to_string(pubkey: &Pubkey) -> (r: String)
    ensures
        r@ == base58_encoded(pubkey.to_bytes_spec()),
{
    let bytes = pubkey.to_bytes();
    encode(bytes.as_slice())
}

/// The base58 text of a signature.
pub fn signature_to_string(signature: &Signature) -> (r: String)
    ensures
        r@ == base58_encoded(signature.to_bytes_spec()),
{
    let bytes = signature.to_bytes();
    encode(bytes.as_slice())
}

} // verus!
