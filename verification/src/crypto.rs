//! The SHA-256 hasher of `sha2` and the ECDSA P-256 verification of `p256`,
//! as far as the image verifier uses them. Nothing in this file is proved:
//! each contract says what the outside function is taken to do.

use vstd::prelude::*;

verus! {

/// Length of a P-256 signature: the scalars `r` and `s`, 32 bytes each.
pub const SIGNATURE_SIZE: usize = 64;

/// The streaming hasher `sha2::Sha256`.
#[verifier::external_type_specification]
#[verifier::external_body]
pub struct ExSha256(sha2::Sha256);

/// The message that a hasher has taken in so far: the bytes of all its
/// updates, in order.
pub uninterp spec fn absorbed(hasher: sha2::Sha256) -> Seq<u8>;

/// Whether `sec1` decodes as a P-256 verifying key: the result of
/// `VerifyingKey::from_sec1_bytes` is `Ok`.
pub uninterp spec fn is_verifying_key(sec1: Seq<u8>) -> bool;

/// Whether `signature`, as `r` followed by `s`, is a P-256 ECDSA signature
/// of the SHA-256 digest of `message` under the key that `sec1_key` encodes:
/// key and signature decode, and `verify_digest` returns `Ok`.
pub uninterp spec fn verifies(sec1_key: Seq<u8>, message: Seq<u8>, signature: Seq<u8>) -> bool;

/// The longest message, in bytes, whose length in bits a hasher can count.
pub open spec fn hasher_capacity() -> int {
    0x1fff_ffff_ffff_ffff
}

/// `sha2::Sha256::default`: a hasher that has taken in nothing.
#[verifier::external_body]
pub(crate) fn new_hasher() -> (hasher: sha2::Sha256)
    ensures
        absorbed(hasher) == Seq::<u8>::empty(),
{
    sha2::Sha256::default()
}

/// `sha2::Digest::update`: the hasher takes in `data` behind what it has
/// taken in before. The hasher counts the message length in bits in a `u64`,
/// so the whole message has to stay below 2^61 bytes.
#[verifier::external_body]
pub(crate) fn absorb(hasher: &mut sha2::Sha256, data: &[u8])
    requires
        absorbed(*old(hasher)).len() + data@.len() <= hasher_capacity(),
    ensures
        absorbed(*final(hasher)) == absorbed(*old(hasher)) + data@,
{
    sha2::Digest::update(hasher, data)
}

/// `p256::ecdsa::VerifyingKey::from_sec1_bytes`: whether the bytes decode as
/// a verifying key.
#[verifier::external_body]
pub(crate) fn decodes_as_key(sec1: &[u8]) -> (decodes: bool)
    ensures
        decodes == is_verifying_key(sec1@),
{
    p256::ecdsa::VerifyingKey::from_sec1_bytes(sec1).is_ok()
}

/// `DigestVerifier::verify_digest` of `p256::ecdsa::VerifyingKey`: verifies
/// `signature` against the digest of what `hasher` has taken in. The key is
/// decoded from its SEC1 bytes and the signature from `r` followed by `s`;
/// where either does not decode, nothing verifies.
#[verifier::external_body]
pub(crate) fn verify_digest(sec1_key: &[u8], hasher: sha2::Sha256, signature: &[u8]) -> (valid:
    bool)
    ensures
        valid == verifies(sec1_key@, absorbed(hasher), signature@),
        valid ==> is_verifying_key(sec1_key@),
{
    let key = p256::ecdsa::VerifyingKey::from_sec1_bytes(sec1_key);
    let signature: Result<p256::ecdsa::Signature, _> =
        p256::ecdsa::signature::Signature::from_bytes(signature);
    match (key, signature) {
        (Ok(key), Ok(signature)) => {
            p256::ecdsa::signature::DigestVerifier::verify_digest(&key, hasher, &signature).is_ok()
        },
        _ => false,
    }
}

} // verus!
