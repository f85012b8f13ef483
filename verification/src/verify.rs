//! Checking the signature of an image and marking it for the bootloader.

use vstd::prelude::*;

use crate::digest::Digest;
use crate::error::{FirmwareUpdaterError, Outcome};
use crate::firmware_state::{
    booted_result, mark_access, mark_buffer, mark_next, state_read, MarkStage, Marking,
};
use crate::firmware_updater::FirmwareUpdater;
use crate::flash::{Access, NorFlashParams, Progress, Request};
use crate::hash::{chunk_read, hash_next, Hashing};
use crate::signature::SignatureScheme;
use crate::state::SWAP_MAGIC;

verus! {

/// The length of the chunks in which a signed image is digested.
pub const SIGNED_CHUNK_LEN: usize = 2;

/// Which flash access a [`VerifyAndMark`] waits for.
#[derive(Debug)]
pub enum VerifyStage<H> {
    /// The read of the bootloader state.
    CheckBooted,
    /// A read of the image.
    Hash(Hashing<H>),
    /// An access of the marking.
    Mark(Marking),
}

/// The mathematical view of a [`VerifyStage`].
#[verifier::ext_equal]
pub enum VerifyStep {
    CheckBooted,
    Hash { offset: u32, absorbed: Seq<u8> },
    Mark(MarkStage),
}

/// The access that checking and marking waits for.
pub open spec fn verify_access(params: NorFlashParams, step: VerifyStep) -> Access {
    match step {
        VerifyStep::CheckBooted => state_read(params),
        VerifyStep::Hash { offset, .. } => chunk_read(offset, SIGNED_CHUNK_LEN as nat),
        VerifyStep::Mark(stage) => mark_access(params, SWAP_MAGIC, stage),
    }
}

/// What happens once all of the image is digested: a swap is marked if the signature vouches
/// for the digest, and nothing more is done if it does not.
pub open spec fn judgement<S: SignatureScheme>(
    public_key: Seq<u8>,
    signature: Seq<u8>,
    image: Seq<u8>,
) -> Progress<VerifyStep, Result<(), FirmwareUpdaterError>> {
    if S::verifies(public_key, S::Hash::digest_of(image), signature) {
        Progress::Pending(VerifyStep::Mark(MarkStage::ReadMagic))
    } else {
        Progress::Done(Err(FirmwareUpdaterError::Signature))
    }
}

/// How checking and marking goes on after an access. `buffer` is what a read of the state
/// brought, `chunk` what a read of the image brought.
///
/// The key is looked at once the running firmware is known to have been booted, and before any
/// of the image is read.
pub open spec fn verify_next<S: SignatureScheme>(
    params: NorFlashParams,
    public_key: Seq<u8>,
    signature: Seq<u8>,
    update_len: u32,
    step: VerifyStep,
    outcome: Outcome,
    buffer: Seq<u8>,
    chunk: Seq<u8>,
) -> Progress<VerifyStep, Result<(), FirmwareUpdaterError>> {
    match step {
        VerifyStep::CheckBooted => match booted_result(
            outcome,
            buffer.subrange(0, params.write_size as int),
        ) {
            Err(error) => Progress::Done(Err(error)),
            Ok(()) => if !S::accepts_key(public_key) {
                Progress::Done(Err(FirmwareUpdaterError::Signature))
            } else if update_len == 0 {
                judgement::<S>(public_key, signature, Seq::empty())
            } else {
                Progress::Pending(VerifyStep::Hash { offset: 0, absorbed: Seq::empty() })
            },
        },
        VerifyStep::Hash { offset, absorbed } => match hash_next(
            update_len,
            SIGNED_CHUNK_LEN as nat,
            offset,
            absorbed,
            outcome,
            chunk,
        ) {
            Progress::Done(Err(error)) => Progress::Done(Err(error)),
            Progress::Done(Ok(image)) => judgement::<S>(public_key, signature, image),
            Progress::Pending((offset, absorbed)) => Progress::Pending(
                VerifyStep::Hash { offset, absorbed },
            ),
        },
        VerifyStep::Mark(stage) => match mark_next(params, SWAP_MAGIC, stage, outcome, buffer) {
            Progress::Done(result) => Progress::Done(result),
            Progress::Pending(stage) => Progress::Pending(VerifyStep::Mark(stage)),
        },
    }
}

/// A signed image being checked and marked.
pub struct VerifyAndMark<'k, S: SignatureScheme> {
    public_key: &'k [u8; 32],
    signature: &'k [u8; 64],
    update_len: u32,
    stage: VerifyStage<S::Hash>,
}

impl<'k, S: SignatureScheme> VerifyAndMark<'k, S> {
    /// The key that the image is signed with.
    pub closed spec fn public_key(&self) -> Seq<u8> {
        self.public_key@
    }

    /// The signature of the image.
    pub closed spec fn signature(&self) -> Seq<u8> {
        self.signature@
    }

    /// The length of the image.
    pub closed spec fn update_len(&self) -> u32 {
        self.update_len
    }

    /// The access that is waited for.
    pub closed spec fn stage(&self) -> VerifyStage<S::Hash> {
        self.stage
    }

    /// A digest that is under way is that of the image, and a marking that is under way calls
    /// for a swap.
    pub open spec fn wf(&self, updater: &FirmwareUpdater) -> bool {
        &&& updater.wf()
        &&& self.stage() matches VerifyStage::Hash(hashing) ==> {
            &&& hashing.wf()
            &&& hashing.update_len() == self.update_len()
            &&& hashing.chunk_len() == SIGNED_CHUNK_LEN
        }
        &&& self.stage() matches VerifyStage::Mark(marking) ==> {
            &&& marking.wf(&updater.firmware_state())
            &&& marking.magic() == SWAP_MAGIC
        }
    }

    /// `next` is about the same image.
    pub open spec fn same_image(&self, next: &Self) -> bool {
        &&& next.public_key() == self.public_key()
        &&& next.signature() == self.signature()
        &&& next.update_len() == self.update_len()
    }

    /// The mathematical view of the access that is waited for.
    pub open spec fn step(&self) -> VerifyStep {
        match self.stage() {
            VerifyStage::CheckBooted => VerifyStep::CheckBooted,
            VerifyStage::Hash(hashing) => VerifyStep::Hash {
                offset: hashing.offset(),
                absorbed: hashing.absorbed(),
            },
            VerifyStage::Mark(marking) => VerifyStep::Mark(marking.stage()),
        }
    }

    /// The access that is waited for. A read of the state goes to
    /// [`crate::firmware_state::FirmwareState::aligned_mut`], one of the image to a buffer of the
    /// caller.
    pub fn request<'s>(&self, updater: &'s FirmwareUpdater<'_>) -> (request: Request<'s>)
        requires
            self.wf(updater),
        ensures
            request@ == verify_access(updater.firmware_state().params(), self.step()),
    {
        match &self.stage {
            VerifyStage::CheckBooted => updater.state().state_request(),
            VerifyStage::Hash(hashing) => hashing.request(),
            VerifyStage::Mark(marking) => marking.request(updater.state()),
        }
    }

    /// Judges the signature by the digest of the image.
    fn judge(
        public_key: &'k [u8; 32],
        signature: &'k [u8; 64],
        update_len: u32,
        message: &Vec<u8>,
        updater: &FirmwareUpdater<'_>,
    ) -> (result: Progress<VerifyAndMark<'k, S>, Result<(), FirmwareUpdaterError>>)
        requires
            updater.wf(),
            message@.len() == 64,
        ensures
            if S::verifies(public_key@, message@, signature@) {
                &&& result matches Progress::Pending(next)
                &&& next.wf(updater)
                &&& next.public_key() == public_key@
                &&& next.signature() == signature@
                &&& next.update_len() == update_len
                &&& next.step() == VerifyStep::Mark(MarkStage::ReadMagic)
            } else {
                result matches Progress::Done(Err(e)) && e == FirmwareUpdaterError::Signature
            },
    {
        match S::verify(public_key, message.as_slice(), signature) {
            Err(error) => Progress::Done(Err(error)),
            Ok(()) => Progress::Pending(
                VerifyAndMark {
                    public_key,
                    signature,
                    update_len,
                    stage: VerifyStage::Mark(updater.mark_updated()),
                },
            ),
        }
    }

    /// Goes on after the access that was waited for. `chunk` is what a read of the image
    /// brought.
    pub fn resume(self, updater: &mut FirmwareUpdater<'_>, outcome: Outcome, chunk: &[u8]) -> (result:
        Progress<VerifyAndMark<'k, S>, Result<(), FirmwareUpdaterError>>)
        requires
            self.wf(old(updater)),
            self.stage() is Hash ==> chunk@.len() == SIGNED_CHUNK_LEN,
        ensures
            final(updater).wf(),
            final(updater).dfu_params() == old(updater).dfu_params(),
            final(updater).last_erased() == old(updater).last_erased(),
            final(updater).firmware_state().params() == old(updater).firmware_state().params(),
            final(updater).firmware_state().buffer() == match self.step() {
                VerifyStep::Mark(stage) => mark_buffer(
                    old(updater).firmware_state().params(),
                    SWAP_MAGIC,
                    stage,
                    outcome,
                    old(updater).firmware_state().buffer(),
                ),
                _ => old(updater).firmware_state().buffer(),
            },
            match verify_next::<S>(
                old(updater).firmware_state().params(),
                self.public_key(),
                self.signature(),
                self.update_len(),
                self.step(),
                outcome,
                old(updater).firmware_state().buffer(),
                chunk@,
            ) {
                Progress::Done(ended) => result matches Progress::Done(r) && r == ended,
                Progress::Pending(step) => {
                    &&& result matches Progress::Pending(next)
                    &&& next.wf(final(updater))
                    &&& self.same_image(&next)
                    &&& next.step() == step
                },
            },
    {
        let VerifyAndMark { public_key, signature, update_len, stage } = self;
        proof {
            S::signed_digest_len();
        }
        match stage {
            VerifyStage::CheckBooted => {
                match updater.state().verify_booted(outcome) {
                    Err(error) => {
                        return Progress::Done(Err(error));
                    },
                    Ok(()) => {},
                }
                match S::check_key(public_key) {
                    Err(error) => {
                        return Progress::Done(Err(error));
                    },
                    Ok(()) => {},
                }
                match updater.hash::<S::Hash>(update_len, SIGNED_CHUNK_LEN) {
                    Progress::Done(message) => Self::judge(
                        public_key,
                        signature,
                        update_len,
                        &message,
                        updater,
                    ),
                    Progress::Pending(hashing) => Progress::Pending(
                        VerifyAndMark {
                            public_key,
                            signature,
                            update_len,
                            stage: VerifyStage::Hash(hashing),
                        },
                    ),
                }
            },
            VerifyStage::Hash(hashing) => match hashing.resume(outcome, chunk) {
                Progress::Done(Err(error)) => Progress::Done(Err(error)),
                Progress::Done(Ok(message)) => Self::judge(
                    public_key,
                    signature,
                    update_len,
                    &message,
                    updater,
                ),
                Progress::Pending(next) => Progress::Pending(
                    VerifyAndMark {
                        public_key,
                        signature,
                        update_len,
                        stage: VerifyStage::Hash(next),
                    },
                ),
            },
            VerifyStage::Mark(marking) => match marking.resume(updater.state_mut(), outcome) {
                Progress::Done(ended) => Progress::Done(ended),
                Progress::Pending(next) => Progress::Pending(
                    VerifyAndMark {
                        public_key,
                        signature,
                        update_len,
                        stage: VerifyStage::Mark(next),
                    },
                ),
            },
        }
    }
}

impl<'d> FirmwareUpdater<'d> {
    /// Verify the DFU given a public key. If there is an error then DO NOT
    /// proceed with updating the firmware as it must be signed with a
    /// corresponding private key (otherwise it could be malicious firmware).
    ///
    /// Mark to trigger firmware swap on next boot if verify succeeds.
    ///
    /// The signature is expected to have been generated from a SHA-512 digest of the firmware
    /// bytes.
    ///
    /// If signatures cannot be checked then this always ends with a signature error.
    pub fn verify_and_mark_updated<'k, S: SignatureScheme>(
        &self,
        public_key: &'k [u8; 32],
        signature: &'k [u8; 64],
        update_len: u32,
    ) -> (result: Progress<VerifyAndMark<'k, S>, Result<(), FirmwareUpdaterError>>)
        requires
            self.wf(),
            update_len <= self.dfu_params().capacity as u32,
        ensures
            if S::enabled() {
                &&& result matches Progress::Pending(verifying)
                &&& verifying.wf(self)
                &&& verifying.step() == VerifyStep::CheckBooted
                &&& verifying.public_key() == public_key@
                &&& verifying.signature() == signature@
                &&& verifying.update_len() == update_len
            } else {
                result matches Progress::Done(Err(e)) && e == FirmwareUpdaterError::Signature
            },
    {
        if S::is_enabled() {
            Progress::Pending(
                VerifyAndMark {
                    public_key,
                    signature,
                    update_len,
                    stage: VerifyStage::CheckBooted,
                },
            )
        } else {
            Progress::Done(Err(FirmwareUpdaterError::Signature))
        }
    }
}

} // verus!
