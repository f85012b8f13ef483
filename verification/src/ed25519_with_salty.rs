//! Ed25519 signatures and SHA-512 digests by `salty`.

use vstd::prelude::*;

use crate::digest::Digest;
use crate::error::FirmwareUpdaterError;
use crate::signature::SignatureScheme;

verus! {

/// Errors of `salty`.
#[verifier::external_type_specification]
#[verifier::external_body]
pub struct ExError(salty::Error);

/// The SHA-512 hasher of `salty`, which holds the message that it was fed.
#[verifier::external_type_specification]
#[verifier::external_body]
pub struct ExSha512(salty::Sha512);

/// The bytes that a hasher was fed, in order.
pub uninterp spec fn salty_sha512_absorbed(hasher: salty::Sha512) -> Seq<u8>;

/// The digest that `salty::Sha512` computes of a message on a machine with pointers of
/// `pointer_bits` bits: the message length is counted in a `usize`.
pub uninterp spec fn salty_sha512(message: Seq<u8>, pointer_bits: nat) -> Seq<u8>;

/// Whether `salty` takes the bytes for a public key.
pub uninterp spec fn salty_accepts_key(public_key: Seq<u8>) -> bool;

/// Whether `salty` finds that the signature vouches for the message.
pub uninterp spec fn salty_verifies(
    public_key: Seq<u8>,
    message: Seq<u8>,
    signature: Seq<u8>,
) -> bool;

/// Calls `salty::Sha512::new`: a new hasher was fed nothing.
#[verifier::external_body]
fn sha512_new() -> (hasher: salty::Sha512)
    ensures
        salty_sha512_absorbed(hasher) == Seq::<u8>::empty(),
{
    salty::Sha512::new()
}

/// Calls `salty::Sha512::update`: the data are fed after what was fed before. The length of
/// all that was fed is counted in a `usize`, and overflowing it panics.
#[verifier::external_body]
fn sha512_update(hasher: &mut salty::Sha512, data: &[u8])
    requires
        salty_sha512_absorbed(*old(hasher)).len() + data@.len() <= usize::MAX,
    ensures
        salty_sha512_absorbed(*final(hasher)) == salty_sha512_absorbed(*old(hasher)) + data@,
{
    hasher.update(data)
}

/// Calls `salty::Sha512::finalize`: the result is the digest of what the hasher was fed,
/// however it was divided, and has 64 bytes.
#[verifier::external_body]
fn sha512_finalize(hasher: salty::Sha512) -> (output: Vec<u8>)
    ensures
        output@ == salty_sha512(salty_sha512_absorbed(hasher), usize::BITS as nat),
        output@.len() == 64,
{
    hasher.finalize().to_vec()
}

/// Calls `salty::PublicKey::try_from`: whether it succeeds depends on the bytes alone.
#[verifier::external_body]
fn parse_key(public_key: &[u8; 32]) -> (result: Result<(), salty::Error>)
    ensures
        result is Ok == salty_accepts_key(public_key@),
{
    salty::PublicKey::try_from(public_key).map(|_key| ())
}

/// Calls `salty::PublicKey::verify` of the key with these bytes: whether it succeeds depends
/// on the key, the message and the signature alone. It fails where the bytes are no key.
#[verifier::external_body]
fn verify_message(public_key: &[u8; 32], message: &[u8], signature: &[u8; 64]) -> (result: Result<
    (),
    salty::Error,
>)
    requires
        message@.len() == 64,
    ensures
        result is Ok == salty_verifies(public_key@, message@, signature@),
{
    let key = salty::PublicKey::try_from(public_key)?;
    key.verify(message, &salty::Signature::from(signature))
}

/// A SHA-512 digest by `salty`.
pub struct SaltySha512 {
    hasher: salty::Sha512,
}

impl SaltySha512 {
    /// The bytes that were taken in, in order.
    pub closed spec fn fed(&self) -> Seq<u8> {
        salty_sha512_absorbed(self.hasher)
    }
}

impl Digest for SaltySha512 {
    open spec fn absorbed(&self) -> Seq<u8> {
        self.fed()
    }

    open spec fn digest_of(message: Seq<u8>) -> Seq<u8> {
        salty_sha512(message, usize::BITS as nat)
    }

    open spec fn output_size() -> nat {
        64
    }

    fn new() -> (result: Self) {
        SaltySha512 { hasher: sha512_new() }
    }

    fn update(&mut self, data: &[u8]) {
        sha512_update(&mut self.hasher, data)
    }

    fn finalize(self) -> (output: Vec<u8>) {
        sha512_finalize(self.hasher)
    }
}

/// Ed25519 as `salty` checks it.
pub struct Ed25519Salty;

impl SignatureScheme for Ed25519Salty {
    type Hash = SaltySha512;

    open spec fn enabled() -> bool {
        true
    }

    open spec fn accepts_key(public_key: Seq<u8>) -> bool {
        salty_accepts_key(public_key)
    }

    open spec fn verifies(public_key: Seq<u8>, message: Seq<u8>, signature: Seq<u8>) -> bool {
        salty_verifies(public_key, message, signature)
    }

    proof fn signed_digest_len() {
    }

    fn is_enabled() -> (result: bool) {
        true
    }

    fn check_key(public_key: &[u8; 32]) -> (result: Result<(), FirmwareUpdaterError>) {
        match parse_key(public_key) {
            Ok(()) => Ok(()),
            Err(_) => Err(FirmwareUpdaterError::Signature),
        }
    }

    fn verify(public_key: &[u8; 32], message: &[u8], signature: &[u8; 64]) -> (result: Result<
        (),
        FirmwareUpdaterError,
    >) {
        match verify_message(public_key, message, signature) {
            Ok(()) => Ok(()),
            Err(_) => Err(FirmwareUpdaterError::Signature),
        }
    }
}

/// The verdict on a key and on a signature is that of `salty`, whatever they are, and the digest
/// that is signed is the one that `salty` computes. Signatures can be checked.
pub proof fn law_salty_decides(
    public_key: Seq<u8>,
    message: Seq<u8>,
    signature: Seq<u8>,
)
    ensures
        Ed25519Salty::enabled(),
        Ed25519Salty::accepts_key(public_key) == salty_accepts_key(public_key),
        Ed25519Salty::verifies(public_key, message, signature) == salty_verifies(
            public_key,
            message,
            signature,
        ),
        <Ed25519Salty as SignatureScheme>::Hash::digest_of(message) == salty_sha512(
            message,
            usize::BITS as nat,
        ),
        SaltySha512::digest_of(message) == salty_sha512(message, usize::BITS as nat),
        SaltySha512::output_size() == 64,
{
}

} // verus!
