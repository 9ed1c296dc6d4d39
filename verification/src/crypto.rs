//! Outside cryptographic and clock primitives, behind trusted contracts.

use ed25519_dalek::Signer;
use sha2::Digest;
use vstd::prelude::*;

verus! {

/// The SHA-256 digest of a byte string, as a function of the bytes alone.
pub uninterp spec fn sha256_of(bytes: Seq<u8>) -> Seq<u8>;

/// Relies on `sha2::Sha256`: the digest is a pure function of the input
/// bytes and is 32 bytes long.
#[verifier::external_body]
pub fn sha256(bytes: &[u8]) -> (r: Vec<u8>)
    ensures
        r@ == sha256_of(bytes@),
        r@.len() == 32,
{
    sha2::Sha256::digest(bytes).to_vec()
}

#[verifier::external_type_specification]
#[verifier::external_body]
pub struct ExKeypair(ed25519_dalek::Keypair);

/// Relies on `ed25519_dalek::Keypair::sign` (via the `Signer` trait) and
/// `PublicKey::to_bytes`: a signature is 64 bytes and a public key 32 bytes.
#[verifier::external_body]
pub fn sign_hash(pair: &ed25519_dalek::Keypair, hash: &Vec<u8>) -> (r: (Vec<u8>, Vec<u8>))
    ensures
        r.0@.len() == 64,
        r.1@.len() == 32,
{
    let signature = pair.sign(hash.as_slice());
    (signature.to_bytes().to_vec(), pair.public.to_bytes().to_vec())
}

/// Relies on `chrono::Utc::now`: the wall clock, read as milliseconds since
/// the epoch.  Nothing is assumed of the value.
#[verifier::external_body]
pub fn now_millis() -> u64 {
    chrono::Utc::now().timestamp_millis() as u64
}

} // verus!
