//! The signature that vouches for a firmware image.

use vstd::prelude::*;

use crate::digest::Digest;
use crate::ed25519_with_dalek::DalekSha512;
use crate::error::FirmwareUpdaterError;

verus! {

/// A way to check the signature of a firmware image.
///
/// The signature is expected to have been generated from the SHA-512 digest of
/// the firmware bytes.
pub trait SignatureScheme: Sized {
    /// Computes the digest that is signed.
    type Hash: Digest;

    /// Whether signatures can be checked at all.
    spec fn enabled() -> bool;

    /// Whether the bytes encode a public key.
    spec fn accepts_key(public_key: Seq<u8>) -> bool;

    /// Whether `signature` vouches for `message` under `public_key`.
    spec fn verifies(public_key: Seq<u8>, message: Seq<u8>, signature: Seq<u8>) -> bool;

    /// The signed digest is as long as a SHA-512 digest.
    proof fn signed_digest_len()
        ensures
            Self::Hash::output_size() == 64,
    ;

    /// Whether signatures can be checked at all.
    fn is_enabled() -> (result: bool)
        ensures
            result == Self::enabled(),
    ;

    /// Rejects bytes that encode no public key.
    fn check_key(public_key: &[u8; 32]) -> (result: Result<(), FirmwareUpdaterError>)
        ensures
            result == if Self::accepts_key(public_key@) {
                Ok(())
            } else {
                Err(FirmwareUpdaterError::Signature)
            },
    ;

    /// Rejects a signature that does not vouch for `message`.
    fn verify(public_key: &[u8; 32], message: &[u8], signature: &[u8; 64]) -> (result: Result<
        (),
        FirmwareUpdaterError,
    >)
        requires
            message@.len() == 64,
        ensures
            result == if Self::verifies(public_key@, message@, signature@) {
                Ok(())
            } else {
                Err(FirmwareUpdaterError::Signature)
            },
    ;
}

/// No way to check signatures: every image is rejected.
pub struct NoSignature;

impl SignatureScheme for NoSignature {
    type Hash = DalekSha512;

    open spec fn enabled() -> bool {
        false
    }

    open spec fn accepts_key(public_key: Seq<u8>) -> bool {
        false
    }

    open spec fn verifies(public_key: Seq<u8>, message: Seq<u8>, signature: Seq<u8>) -> bool {
        false
    }

    proof fn signed_digest_len() {
    }

    fn is_enabled() -> (result: bool) {
        false
    }

    fn check_key(public_key: &[u8; 32]) -> (result: Result<(), FirmwareUpdaterError>) {
        Err(FirmwareUpdaterError::Signature)
    }

    fn verify(public_key: &[u8; 32], message: &[u8], signature: &[u8; 64]) -> (result: Result<
        (),
        FirmwareUpdaterError,
    >) {
        Err(FirmwareUpdaterError::Signature)
    }
}

/// Without a way to check signatures nothing vouches for an image.
pub proof fn law_nothing_vouches_without_signatures(
    public_key: Seq<u8>,
    message: Seq<u8>,
    signature: Seq<u8>,
)
    ensures
        !NoSignature::enabled(),
        !NoSignature::accepts_key(public_key),
        !NoSignature::verifies(public_key, message, signature),
{
}

} // verus!
