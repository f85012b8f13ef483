//! A mathematical NOR flash, and what the operations do to it.
//!
//! Each `.._run` function carries an operation through from its first access to
//! its end, by the same step functions that the contracts of the operation
//! speak of. Any access may fail: `faults` says, by the number of the access,
//! which ones do. A failed access leaves the flash as it was, so the run that
//! stops at a fault is also the run that power loss cuts off between accesses.

use vstd::prelude::*;

use crate::digest::Digest;
use crate::error::{FirmwareUpdaterError, NorFlashErrorKind, Outcome};
use crate::firmware_state::{
    booted_result, mark_access, mark_next, state_read, state_result, MarkStage,
};
use crate::firmware_updater::{dfu_erasure, last_erased_after, write_plan};
use crate::flash::{Access, NorFlashParams, Partition, Progress};
use crate::hash::{chunk_read, hash_next};
use crate::signature::SignatureScheme;
use crate::state::{State, DFU_DETACH_MAGIC};
use crate::verify::{verify_access, verify_next, VerifyStep};

verus! {

/// The dimensions of both partitions.
pub struct Setup {
    pub dfu: NorFlashParams,
    pub state: NorFlashParams,
}

/// What both partitions hold.
#[verifier::ext_equal]
pub struct Flashes {
    pub dfu: Seq<u8>,
    pub state: Seq<u8>,
}

/// Which accesses fail, and how.
pub type Faults = spec_fn(nat) -> Option<NorFlashErrorKind>;

/// No access fails but for its own arguments.
pub open spec fn no_faults() -> Faults {
    |access: nat| None
}

/// The dimensions make sense, and offsets fit in the arguments of an access.
pub open spec fn sound_params(params: NorFlashParams) -> bool {
    &&& 0 < params.read_size
    &&& 0 < params.write_size
    &&& 0 < params.erase_size
    &&& params.capacity <= u32::MAX
}

/// What byte `i` of the partition reads after an erasure.
pub open spec fn erased_byte(params: NorFlashParams, i: int) -> u8 {
    params.erase_value@[i % (params.erase_value@.len() as int)]
}

/// The bytes from `from` up to `to` read as erased.
pub open spec fn reads_erased(params: NorFlashParams, bytes: Seq<u8>, from: int, to: int) -> bool {
    forall|i: int| from <= i < to ==> #[trigger] bytes[i] == erased_byte(params, i)
}

/// Whether a range lies in the partition and is aligned.
pub open spec fn range_outcome(
    params: NorFlashParams,
    alignment: usize,
    offset: int,
    len: int,
) -> Outcome {
    if offset + len > params.capacity {
        Err(NorFlashErrorKind::OutOfBounds)
    } else if offset % (alignment as int) != 0 || len % (alignment as int) != 0 {
        Err(NorFlashErrorKind::NotAligned)
    } else {
        Ok(())
    }
}

/// What a partition makes of the arguments of an access.
pub open spec fn argument_outcome(params: NorFlashParams, access: Access) -> Outcome {
    match access {
        Access::Read { offset, len, .. } => range_outcome(
            params,
            params.read_size,
            offset as int,
            len as int,
        ),
        Access::Write { offset, data, .. } => range_outcome(
            params,
            params.write_size,
            offset as int,
            data.len() as int,
        ),
        Access::Erase { from, to, .. } => if from > to {
            Err(NorFlashErrorKind::OutOfBounds)
        } else {
            range_outcome(params, params.erase_size, from as int, to - from)
        },
    }
}

/// What a partition holds after an access that succeeded.
pub open spec fn bytes_after(params: NorFlashParams, bytes: Seq<u8>, access: Access) -> Seq<u8> {
    match access {
        Access::Read { .. } => bytes,
        Access::Write { offset, data, .. } => Seq::new(
            bytes.len(),
            |i: int|
                if offset <= i < offset + data.len() {
                    data[i - offset]
                } else {
                    bytes[i]
                },
        ),
        Access::Erase { from, to, .. } => Seq::new(
            bytes.len(),
            |i: int|
                if from <= i < to {
                    erased_byte(params, i)
                } else {
                    bytes[i]
                },
        ),
    }
}

/// The partition that an access is about.
pub open spec fn partition_of(access: Access) -> Partition {
    match access {
        Access::Read { partition, .. } => partition,
        Access::Write { partition, .. } => partition,
        Access::Erase { partition, .. } => partition,
    }
}

impl Setup {
    /// The dimensions of a partition.
    pub open spec fn params(self, partition: Partition) -> NorFlashParams {
        match partition {
            Partition::Dfu => self.dfu,
            Partition::State => self.state,
        }
    }

    /// How access number `k` ends.
    pub open spec fn outcome(self, access: Access, faults: Faults, k: nat) -> Outcome {
        match faults(k) {
            Some(kind) => Err(kind),
            None => argument_outcome(self.params(partition_of(access)), access),
        }
    }
}

impl Flashes {
    /// The partitions are as large as `setup` says.
    pub open spec fn fit(self, setup: Setup) -> bool {
        &&& self.dfu.len() == setup.dfu.capacity
        &&& self.state.len() == setup.state.capacity
    }

    /// What a partition holds.
    pub open spec fn bytes(self, partition: Partition) -> Seq<u8> {
        match partition {
            Partition::Dfu => self.dfu,
            Partition::State => self.state,
        }
    }

    /// What the partitions hold after an access that ended with `outcome`.
    pub open spec fn after(self, setup: Setup, access: Access, outcome: Outcome) -> Flashes {
        if outcome is Err {
            self
        } else {
            match partition_of(access) {
                Partition::Dfu => Flashes {
                    dfu: bytes_after(setup.dfu, self.dfu, access),
                    state: self.state,
                },
                Partition::State => Flashes {
                    dfu: self.dfu,
                    state: bytes_after(setup.state, self.state, access),
                },
            }
        }
    }

    /// What a read of the state partition brings.
    pub open spec fn read_state(self, access: Access) -> Seq<u8> {
        match access {
            Access::Read { offset, len, .. } => self.state.subrange(offset as int, offset + len),
            _ => Seq::empty(),
        }
    }

    /// What a read of the DFU partition brings.
    pub open spec fn read_dfu(self, access: Access) -> Seq<u8> {
        match access {
            Access::Read { offset, len, .. } => self.dfu.subrange(offset as int, offset + len),
            _ => Seq::empty(),
        }
    }

    /// The first word of the state partition.
    pub open spec fn magic_word(self, setup: Setup) -> Seq<u8> {
        self.state.subrange(0, setup.state.write_size as int)
    }

    /// The second word of the state partition.
    pub open spec fn progress_word(self, setup: Setup) -> Seq<u8> {
        self.state.subrange(setup.state.write_size as int, 2 * setup.state.write_size)
    }
}

/// How far a marking has `stage` before it at most.
pub open spec fn stages_left(stage: MarkStage) -> nat {
    match stage {
        MarkStage::ReadMagic => 4,
        MarkStage::ReadProgress => 3,
        MarkStage::InvalidateProgress => 2,
        MarkStage::Erase => 1,
        MarkStage::WriteMagic => 0,
    }
}

/// Sets `magic`, from `stage` on.
pub open spec fn mark_run(
    setup: Setup,
    flashes: Flashes,
    magic: u8,
    stage: MarkStage,
    faults: Faults,
    k: nat,
) -> (Result<(), FirmwareUpdaterError>, Flashes)
    decreases stages_left(stage),
{
    let access = mark_access(setup.state, magic, stage);
    let outcome = setup.outcome(access, faults, k);
    let after = flashes.after(setup, access, outcome);
    match mark_next(setup.state, magic, stage, outcome, flashes.read_state(access)) {
        Progress::Done(result) => (result, after),
        Progress::Pending(next) => mark_run(setup, after, magic, next, faults, k + 1),
    }
}

/// The accesses by which `magic` is set, from `stage` on, each with what the partitions held
/// before it.
pub open spec fn mark_history(
    setup: Setup,
    flashes: Flashes,
    magic: u8,
    stage: MarkStage,
    faults: Faults,
    k: nat,
) -> Seq<(Access, Flashes)>
    decreases stages_left(stage),
{
    let access = mark_access(setup.state, magic, stage);
    let outcome = setup.outcome(access, faults, k);
    let after = flashes.after(setup, access, outcome);
    match mark_next(setup.state, magic, stage, outcome, flashes.read_state(access)) {
        Progress::Done(result) => seq![(access, flashes)],
        Progress::Pending(next) => seq![(access, flashes)] + mark_history(
            setup,
            after,
            magic,
            next,
            faults,
            k + 1,
        ),
    }
}

/// Reads the bootloader state.
pub open spec fn get_state_run(setup: Setup, flashes: Flashes, faults: Faults, k: nat) -> Result<
    State,
    FirmwareUpdaterError,
> {
    let access = state_read(setup.state);
    state_result(
        setup.outcome(access, faults, k),
        flashes.read_state(access).subrange(0, setup.state.write_size as int),
    )
}

/// Checks that the running firmware has been booted.
pub open spec fn verify_booted_run(
    setup: Setup,
    flashes: Flashes,
    faults: Faults,
    k: nat,
) -> Result<(), FirmwareUpdaterError> {
    let access = state_read(setup.state);
    booted_result(
        setup.outcome(access, faults, k),
        flashes.read_state(access).subrange(0, setup.state.write_size as int),
    )
}

/// Marks for USB DFU.
pub open spec fn mark_dfu_run(setup: Setup, flashes: Flashes, faults: Faults) -> (
    Result<(), FirmwareUpdaterError>,
    Flashes,
) {
    match verify_booted_run(setup, flashes, faults, 0) {
        Err(error) => (Err(error), flashes),
        Ok(()) => mark_run(setup, flashes, DFU_DETACH_MAGIC, MarkStage::ReadMagic, faults, 1),
    }
}

/// Erases the DFU partition for an update.
pub open spec fn prepare_update_run(setup: Setup, flashes: Flashes, faults: Faults) -> (
    Result<(), FirmwareUpdaterError>,
    Flashes,
) {
    match verify_booted_run(setup, flashes, faults, 0) {
        Err(error) => (Err(error), flashes),
        Ok(()) => plan_run(setup, flashes, seq![dfu_erasure(setup.dfu)], faults, 1),
    }
}

/// Makes the accesses of a plan until one fails.
pub open spec fn plan_run(
    setup: Setup,
    flashes: Flashes,
    plan: Seq<Access>,
    faults: Faults,
    k: nat,
) -> (Result<(), FirmwareUpdaterError>, Flashes)
    decreases plan.len(),
{
    if plan.len() == 0 {
        (Ok(()), flashes)
    } else {
        let outcome = setup.outcome(plan[0], faults, k);
        let after = flashes.after(setup, plan[0], outcome);
        match outcome {
            Err(kind) => (Err(FirmwareUpdaterError::Flash(kind)), after),
            Ok(()) => plan_run(setup, after, plan.drop_first(), faults, k + 1),
        }
    }
}

/// What a partition holds after all accesses of a plan have succeeded.
pub open spec fn plan_effect(params: NorFlashParams, bytes: Seq<u8>, plan: Seq<Access>) -> Seq<u8>
    decreases plan.len(),
{
    if plan.len() == 0 {
        bytes
    } else {
        plan_effect(params, bytes_after(params, bytes, plan[0]), plan.drop_first())
    }
}

/// Writes firmware data.
pub open spec fn write_firmware_run(
    setup: Setup,
    flashes: Flashes,
    last_erased: Option<int>,
    offset: int,
    data: Seq<u8>,
    faults: Faults,
) -> (Result<(), FirmwareUpdaterError>, Flashes) {
    match verify_booted_run(setup, flashes, faults, 0) {
        Err(error) => (Err(error), flashes),
        Ok(()) => plan_run(
            setup,
            flashes,
            write_plan(setup.dfu.erase_size as int, last_erased, offset, data),
            faults,
            1,
        ),
    }
}

/// Writes firmware data in consecutive pieces, one call after the other.
pub open spec fn write_pieces_run(
    setup: Setup,
    flashes: Flashes,
    last_erased: Option<int>,
    offset: int,
    pieces: Seq<Seq<u8>>,
    faults: spec_fn(nat) -> Faults,
) -> (Result<(), FirmwareUpdaterError>, Flashes)
    decreases pieces.len(),
{
    if pieces.len() == 0 {
        (Ok(()), flashes)
    } else {
        let piece = pieces[0];
        let len = piece.len() as int;
        let (result, after) = write_firmware_run(
            setup,
            flashes,
            last_erased,
            offset,
            piece,
            faults(0),
        );
        match result {
            Err(error) => (Err(error), after),
            Ok(()) => write_pieces_run(
                setup,
                after,
                last_erased_after(setup.dfu.erase_size as int, last_erased, offset, len),
                offset + len,
                pieces.drop_first(),
                |call: nat| faults(call + 1),
            ),
        }
    }
}

/// Digests the image from `offset` on, where `absorbed` was digested before.
pub open spec fn hash_run<D: Digest>(
    setup: Setup,
    flashes: Flashes,
    absorbed: Seq<u8>,
    offset: u32,
    update_len: u32,
    chunk_len: nat,
    faults: Faults,
    k: nat,
) -> Result<Seq<u8>, FirmwareUpdaterError>
    decreases update_len - offset,
{
    if chunk_len == 0 || offset >= update_len {
        Ok(D::digest_of(absorbed))
    } else {
        let access = chunk_read(offset, chunk_len);
        match hash_next(
            update_len,
            chunk_len,
            offset,
            absorbed,
            setup.outcome(access, faults, k),
            flashes.read_dfu(access),
        ) {
            Progress::Done(Err(error)) => Err(error),
            Progress::Done(Ok(image)) => Ok(D::digest_of(image)),
            Progress::Pending((next, longer)) => hash_run::<D>(
                setup,
                flashes,
                longer,
                next,
                update_len,
                chunk_len,
                faults,
                k + 1,
            ),
        }
    }
}

/// The number of reads in which an image is digested.
pub open spec fn hash_reads(update_len: int, chunk_len: int) -> nat {
    ((update_len + chunk_len - 1) / chunk_len) as nat
}

/// How far a check has `step` before it at most.
pub open spec fn steps_left(step: VerifyStep, update_len: u32) -> (nat, nat) {
    match step {
        VerifyStep::CheckBooted => (2, 0),
        VerifyStep::Hash { offset, .. } => (
            1,
            if offset < update_len {
                (update_len - offset) as nat
            } else {
                0
            },
        ),
        VerifyStep::Mark(stage) => (0, stages_left(stage)),
    }
}

/// Checks a signed image and marks it for a swap, from `step` on.
pub open spec fn verify_run<S: SignatureScheme>(
    setup: Setup,
    flashes: Flashes,
    public_key: Seq<u8>,
    signature: Seq<u8>,
    update_len: u32,
    step: VerifyStep,
    faults: Faults,
    k: nat,
) -> (Result<(), FirmwareUpdaterError>, Flashes)
    decreases steps_left(step, update_len).0, steps_left(step, update_len).1,
{
    let access = verify_access(setup.state, step);
    let outcome = setup.outcome(access, faults, k);
    let after = flashes.after(setup, access, outcome);
    match verify_next::<S>(
        setup.state,
        public_key,
        signature,
        update_len,
        step,
        outcome,
        flashes.read_state(access),
        flashes.read_dfu(access),
    ) {
        Progress::Done(result) => (result, after),
        Progress::Pending(next) => verify_run::<S>(
            setup,
            after,
            public_key,
            signature,
            update_len,
            next,
            faults,
            k + 1,
        ),
    }
}

/// Checks a signed image and marks it for a swap.
pub open spec fn verify_and_mark_run<S: SignatureScheme>(
    setup: Setup,
    flashes: Flashes,
    public_key: Seq<u8>,
    signature: Seq<u8>,
    update_len: u32,
    faults: Faults,
) -> (Result<(), FirmwareUpdaterError>, Flashes) {
    if S::enabled() {
        verify_run::<S>(
            setup,
            flashes,
            public_key,
            signature,
            update_len,
            VerifyStep::CheckBooted,
            faults,
            0,
        )
    } else {
        (Err(FirmwareUpdaterError::Signature), flashes)
    }
}

} // verus!
