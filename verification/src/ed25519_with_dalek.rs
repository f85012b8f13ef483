//! Ed25519 signatures and SHA-512 digests by `ed25519_dalek`.

use vstd::prelude::*;

use crate::digest::Digest;
use crate::error::FirmwareUpdaterError;
use crate::signature::SignatureScheme;

verus! {

/// Errors of `ed25519_dalek`, which is `signature::Error`. It says nothing of its cause.
#[verifier::external_type_specification]
#[verifier::external_body]
pub struct ExSignatureError(ed25519_dalek::SignatureError);

/// The SHA-512 hasher of `ed25519_dalek`, which holds the message that it was fed.
#[verifier::external_body]
pub struct DalekSha512 {
    hasher: ed25519_dalek::Sha512,
}

/// The bytes that a hasher was fed, in order.
pub uninterp spec fn dalek_sha512_absorbed(hasher: DalekSha512) -> Seq<u8>;

/// The digest that `ed25519_dalek::Sha512` computes of a message.
pub uninterp spec fn dalek_sha512(message: Seq<u8>) -> Seq<u8>;

/// Whether `ed25519_dalek` takes the bytes for a public key.
pub uninterp spec fn dalek_accepts_key(public_key: Seq<u8>) -> bool;

/// Whether `ed25519_dalek` finds that the signature vouches for the message.
pub uninterp spec fn dalek_verifies(
    public_key: Seq<u8>,
    message: Seq<u8>,
    signature: Seq<u8>,
) -> bool;

/// Calls `Digest::new` of `ed25519_dalek::Sha512`: a new hasher was fed nothing.
#[verifier::external_body]
fn sha512_new() -> (hasher: DalekSha512)
    ensures
        dalek_sha512_absorbed(hasher) == Seq::<u8>::empty(),
{
    DalekSha512 { hasher: <ed25519_dalek::Sha512 as ed25519_dalek::Digest>::new() }
}

/// Calls `Digest::update` of `ed25519_dalek::Sha512`: the data are fed after what was fed
/// before.
#[verifier::external_body]
fn sha512_update(hasher: &mut DalekSha512, data: &[u8])
    ensures
        dalek_sha512_absorbed(*final(hasher)) == dalek_sha512_absorbed(*old(hasher)) + data@,
{
    ed25519_dalek::Digest::update(&mut hasher.hasher, data)
}

/// Calls `Digest::finalize` of `ed25519_dalek::Sha512`: the result is the digest of what the
/// hasher was fed, however it was divided, and has 64 bytes.
#[verifier::external_body]
fn sha512_finalize(hasher: DalekSha512) -> (output: Vec<u8>)
    ensures
        output@ == dalek_sha512(dalek_sha512_absorbed(hasher)),
        output@.len() == 64,
{
    ed25519_dalek::Digest::finalize(hasher.hasher).to_vec()
}

/// Calls `ed25519_dalek::VerifyingKey::from_bytes`: whether it succeeds depends on the bytes
/// alone.
#[verifier::external_body]
fn parse_key(public_key: &[u8; 32]) -> (result: Result<(), ed25519_dalek::SignatureError>)
    ensures
        result is Ok == dalek_accepts_key(public_key@),
{
    ed25519_dalek::VerifyingKey::from_bytes(public_key).map(|_key| ())
}

/// Calls `Verifier::verify` of the `ed25519_dalek::VerifyingKey` with these bytes: whether it
/// succeeds depends on the key, the message and the signature alone. It fails where the bytes
/// are no key.
#[verifier::external_body]
fn verify_message(public_key: &[u8; 32], message: &[u8], signature: &[u8; 64]) -> (result: Result<
    (),
    ed25519_dalek::SignatureError,
>)
    ensures
        result is Ok == dalek_verifies(public_key@, message@, signature@),
{
    let key = ed25519_dalek::VerifyingKey::from_bytes(public_key)?;
    let signature = ed25519_dalek::Signature::from_bytes(signature);
    ed25519_dalek::Verifier::verify(&key, message, &signature)
}

impl Digest for DalekSha512 {
    open spec fn absorbed(&self) -> Seq<u8> {
        dalek_sha512_absorbed(*self)
    }

    open spec fn digest_of(message: Seq<u8>) -> Seq<u8> {
        dalek_sha512(message)
    }

    open spec fn output_size() -> nat {
        64
    }

    fn new() -> (result: Self) {
        sha512_new()
    }

    fn update(&mut self, data: &[u8]) {
        sha512_update(self, data)
    }

    fn finalize(self) -> (output: Vec<u8>) {
        sha512_finalize(self)
    }
}

/// Ed25519 as `ed25519_dalek` checks it.
pub struct Ed25519Dalek;

impl SignatureScheme for Ed25519Dalek {
    type Hash = DalekSha512;

    open spec fn enabled() -> bool {
        true
    }

    open spec fn accepts_key(public_key: Seq<u8>) -> bool {
        dalek_accepts_key(public_key)
    }

    open spec fn verifies(public_key: Seq<u8>, message: Seq<u8>, signature: Seq<u8>) -> bool {
        dalek_verifies(public_key, message, signature)
    }

    proof fn signed_digest_len() {
    }

    fn is_enabled() -> (result: bool) {
        true
    }

    fn check_key(public_key: &[u8; 32]) -> (result: Result<(), FirmwareUpdaterError>) {
        match parse_key(public_key) {
            Ok(()) => Ok(()),
            Err(_) => Err(FirmwareUpdaterError::Signature),
        }
    }

    fn verify(public_key: &[u8; 32], message: &[u8], signature: &[u8; 64]) -> (result: Result<
        (),
        FirmwareUpdaterError,
    >) {
        match verify_message(public_key, message, signature) {
            Ok(()) => Ok(()),
            Err(_) => Err(FirmwareUpdaterError::Signature),
        }
    }
}

/// The verdict on a key and on a signature is that of `ed25519_dalek`, whatever they are, and the digest
/// that is signed is the one that `ed25519_dalek` computes. Signatures can be checked.
pub proof fn law_dalek_decides(
    public_key: Seq<u8>,
    message: Seq<u8>,
    signature: Seq<u8>,
    hasher: DalekSha512,
)
    ensures
        hasher.absorbed() == dalek_sha512_absorbed(hasher),
        Ed25519Dalek::enabled(),
        Ed25519Dalek::accepts_key(public_key) == dalek_accepts_key(public_key),
        Ed25519Dalek::verifies(public_key, message, signature) == dalek_verifies(
            public_key,
            message,
            signature,
        ),
        <Ed25519Dalek as SignatureScheme>::Hash::digest_of(message) == dalek_sha512(message),
        DalekSha512::digest_of(message) == dalek_sha512(message),
        DalekSha512::output_size() == 64,
{
}

} // verus!
