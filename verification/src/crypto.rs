//! Cryptographic primitives, supplied by `sha2` and `ed25519-dalek`.
//!
//! The two algorithms are not verified here.  Each is given a name, and the
//! rest of the crate is proved against that name.

use vstd::prelude::*;
use sha2::Digest;

verus! {

/// Length in bytes of a SHA-256 digest.
pub const DIGEST_LEN: usize = 32;

/// The SHA-256 digest of `data`, as computed by `sha2::Sha256`.
pub uninterp spec fn sha256(data: Seq<u8>) -> Seq<u8>;

/// Whether `signature` is a valid Ed25519 signature of `message` under the
/// public key encoded in `public_key`, as decided by
/// `ed25519_dalek::VerifyingKey::verify_strict`.  Bytes that do not decode to
/// a key or to a signature do not verify.
pub uninterp spec fn ed25519_verifies(
    public_key: Seq<u8>,
    message: Seq<u8>,
    signature: Seq<u8>,
) -> bool;

/// Calls `sha2::Sha256::digest`.  Trusted: the result is the digest that the
/// name `sha256` stands for, and it is 32 bytes long.
#[verifier::external_body]
pub(crate) fn sha256_digest(data: &Vec<u8>) -> (digest: Vec<u8>)
    ensures
        digest@ == sha256(data@),
        digest@.len() == DIGEST_LEN,
{
    sha2::Sha256::digest(data.as_slice()).to_vec()
}

/// Calls `ed25519_dalek::VerifyingKey::verify_strict` on the key and the
/// signature decoded from the given bytes.  Trusted: the result is what the
/// name `ed25519_verifies` stands for.
#[verifier::external_body]
pub(crate) fn ed25519_verify(
    public_key: &Vec<u8>,
    message: &Vec<u8>,
    signature: &Vec<u8>,
) -> (valid: bool)
    ensures
        valid == ed25519_verifies(public_key@, message@, signature@),
{
    let key = ed25519_dalek::VerifyingKey::try_from(public_key.as_slice());
    let sig = ed25519_dalek::Signature::from_slice(signature.as_slice());
    match (key, sig) {
        (Ok(key), Ok(sig)) => key.verify_strict(message.as_slice(), &sig).is_ok(),
        _ => false,
    }
}

} // verus!
