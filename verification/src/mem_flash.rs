//! Two flash partitions in memory, and the operations carried through on them.
//!
//! Here the executable steps of every operation meet the mathematical flash: each function makes
//! the accesses that an operation asks for until it ends, and ends as the run of that operation
//! does in [`crate::model`].

use vstd::prelude::*;

use crate::digest::Digest;
use crate::error::{FirmwareUpdaterError, NorFlashErrorKind, Outcome};
use crate::firmware_state::{FirmwareState, MarkStage, Marking};
use crate::firmware_updater::{
    dfu_erasure, last_erased_after, law_fitting_data_can_be_resumed, write_fits, write_plan,
    FirmwareUpdater, MarkDfuStage, PrepareStage, WriteFirmware, WriteStage,
};
use crate::flash::{Access, NorFlashParams, Partition, Progress, Request};
use crate::model::{
    erased_byte, get_state_run, hash_run, mark_dfu_run, mark_run, plan_run, prepare_update_run,
    range_outcome, reads_erased, stages_left, steps_left, verify_and_mark_run, verify_booted_run,
    verify_run, write_firmware_run, Faults, Flashes, Setup,
};
use crate::signature::SignatureScheme;
use crate::state::{State, BOOT_MAGIC, DFU_DETACH_MAGIC, SWAP_MAGIC};

verus! {

/// A DFU and a state partition in memory. Accesses can be made to fail.
pub struct MemFlash {
    dfu_params: NorFlashParams,
    state_params: NorFlashParams,
    dfu: Vec<u8>,
    state: Vec<u8>,
    faults: Vec<Option<NorFlashErrorKind>>,
    made: usize,
}

impl MemFlash {
    /// The dimensions of both partitions.
    pub closed spec fn setup(&self) -> Setup {
        Setup { dfu: self.dfu_params, state: self.state_params }
    }

    /// What both partitions hold.
    pub closed spec fn flashes(&self) -> Flashes {
        Flashes { dfu: self.dfu@, state: self.state@ }
    }

    /// How many of the accesses that can be made to fail were made since the operation began.
    pub closed spec fn made(&self) -> int {
        self.made as int
    }

    /// Which accesses of an operation are made to fail, by their number, and how.
    pub closed spec fn planned(&self) -> Seq<Option<NorFlashErrorKind>> {
        self.faults@
    }

    /// The accesses that fail whatever their arguments are.
    pub open spec fn faults(&self) -> Faults {
        let planned = self.planned();
        |k: nat|
            if k < planned.len() {
                planned[k as int]
            } else {
                None
            }
    }

    /// The partitions are as large as their dimensions say, and the dimensions make sense.
    pub open spec fn wf(&self) -> bool {
        &&& self.flashes().fit(self.setup())
        &&& self.setup().dfu.read_size > 0
        &&& self.setup().dfu.write_size > 0
        &&& self.setup().dfu.erase_size > 0
        &&& self.setup().state.read_size > 0
        &&& self.setup().state.write_size > 0
        &&& self.setup().state.erase_size > 0
        &&& self.setup().dfu.erase_value@.len() > 0
        &&& self.setup().state.erase_value@.len() > 0
    }

    /// `k` accesses were made since the operation began.
    pub open spec fn counts(&self, k: nat) -> bool {
        self.made() == if k < self.planned().len() {
            k as int
        } else {
            self.planned().len() as int
        }
    }

    /// `other` is this flash after access number `k`, which was `access` and ended with
    /// `outcome`.
    pub open spec fn accessed(
        &self,
        other: &MemFlash,
        access: Access,
        outcome: Outcome,
        k: nat,
    ) -> bool {
        &&& other.wf()
        &&& other.counts(k + 1)
        &&& other.setup() == self.setup()
        &&& other.planned() == self.planned()
        &&& outcome == self.setup().outcome(access, self.faults(), k)
        &&& other.flashes() == self.flashes().after(self.setup(), access, outcome)
    }

    /// Counts an access, and says whether it is made to fail.
    fn count(&mut self, k: Ghost<nat>) -> (fault: Option<NorFlashErrorKind>)
        requires
            old(self).wf(),
            old(self).counts(k@),
        ensures
            final(self).wf(),
            final(self).counts(k@ + 1),
            final(self).setup() == old(self).setup(),
            final(self).flashes() == old(self).flashes(),
            final(self).planned() == old(self).planned(),
            fault == (old(self).faults())(k@),
    {
        if self.made < self.faults.len() {
            let fault = self.faults[self.made];
            self.made = self.made + 1;
            fault
        } else {
            None
        }
    }

    /// Two erased partitions. Access number `k` of an operation fails as `faults[k]` says.
    pub fn new(
        dfu_params: NorFlashParams,
        state_params: NorFlashParams,
        faults: Vec<Option<NorFlashErrorKind>>,
    ) -> (flash: MemFlash)
        requires
            0 < dfu_params.read_size,
            0 < dfu_params.write_size,
            0 < dfu_params.erase_size,
            0 < dfu_params.erase_value@.len(),
            0 < state_params.read_size,
            0 < state_params.write_size,
            0 < state_params.erase_size,
            0 < state_params.erase_value@.len(),
        ensures
            flash.wf(),
            flash.setup() == (Setup { dfu: dfu_params, state: state_params }),
            flash.planned() == faults@,
            reads_erased(dfu_params, flash.flashes().dfu, 0, dfu_params.capacity as int),
            reads_erased(state_params, flash.flashes().state, 0, state_params.capacity as int),
    {
        let dfu = erased(&dfu_params);
        let state = erased(&state_params);
        MemFlash { dfu_params, state_params, dfu, state, faults, made: 0 }
    }

    /// Begins an operation: no access of it was made.
    fn begin(&mut self)
        requires
            old(self).wf(),
        ensures
            final(self).wf(),
            final(self).counts(0),
            final(self).setup() == old(self).setup(),
            final(self).flashes() == old(self).flashes(),
            final(self).planned() == old(self).planned(),
    {
        self.made = 0;
    }

    /// Reads a partition into `bytes`.
    fn read(&mut self, k: Ghost<nat>, partition: Partition, offset: u32, bytes: &mut [u8]) -> (outcome:
        Outcome)
        requires
            old(self).wf(),
            old(self).counts(k@),
        ensures
            old(self).accessed(
                final(self),
                (Access::Read { partition, offset, len: old(bytes)@.len() }),
                outcome,
                k@,
            ),
            final(self).flashes() == old(self).flashes(),
            final(bytes)@.len() == old(bytes)@.len(),
            outcome is Ok ==> final(bytes)@ == old(self).flashes().bytes(partition).subrange(
                offset as int,
                offset + old(bytes)@.len(),
            ),
    {
        match self.count(k) {
            Some(kind) => {
                return Err(kind);
            },
            None => {},
        }
        let len: usize = bytes.len();
        let (params, held) = match partition {
            Partition::Dfu => (&self.dfu_params, &self.dfu),
            Partition::State => (&self.state_params, &self.state),
        };
        match check(params, params.read_size, offset, len) {
            Err(kind) => {
                return Err(kind);
            },
            Ok(()) => {},
        }
        let start: usize = offset as usize;
        let held_len: usize = held.len();
        let mut i: usize = 0;
        while i < len
            invariant
                i <= len,
                len == bytes@.len(),
                held_len == held@.len(),
                start + len <= held_len,
                forall|j: int| 0 <= j < i ==> bytes@[j] == held@[start + j],
            decreases len - i,
        {
            bytes[i] = held[start + i];
            i = i + 1;
        }
        assert(bytes@ =~= held@.subrange(start as int, start + len));
        Ok(())
    }

    /// Writes `data` to a partition.
    fn write(&mut self, k: Ghost<nat>, partition: Partition, offset: u32, data: &[u8]) -> (outcome:
        Outcome)
        requires
            old(self).wf(),
            old(self).counts(k@),
        ensures
            old(self).accessed(
                final(self),
                (Access::Write { partition, offset, data: data@ }),
                outcome,
                k@,
            ),
    {
        let ghost before = self.flashes();
        match self.count(k) {
            Some(kind) => {
                return Err(kind);
            },
            None => {},
        }
        let len: usize = data.len();
        let params = match partition {
            Partition::Dfu => self.dfu_params,
            Partition::State => self.state_params,
        };
        match check(&params, params.write_size, offset, len) {
            Err(kind) => {
                return Err(kind);
            },
            Ok(()) => {},
        }
        match partition {
            Partition::Dfu => overwrite(&mut self.dfu, offset as usize, data),
            Partition::State => overwrite(&mut self.state, offset as usize, data),
        }
        proof {
            let access = Access::Write { partition, offset, data: data@ };
            assert(self.flashes() =~= before.after(self.setup(), access, Ok(())));
        }
        Ok(())
    }

    /// Erases a range of a partition.
    fn erase(&mut self, k: Ghost<nat>, partition: Partition, from: u32, to: u32) -> (outcome: Outcome)
        requires
            old(self).wf(),
            old(self).counts(k@),
        ensures
            old(self).accessed(
                final(self),
                (Access::Erase { partition, from, to }),
                outcome,
                k@,
            ),
    {
        let ghost before = self.flashes();
        match self.count(k) {
            Some(kind) => {
                return Err(kind);
            },
            None => {},
        }
        let params = match partition {
            Partition::Dfu => self.dfu_params,
            Partition::State => self.state_params,
        };
        if from > to {
            return Err(NorFlashErrorKind::OutOfBounds);
        }
        match check(&params, params.erase_size, from, (to - from) as usize) {
            Err(kind) => {
                return Err(kind);
            },
            Ok(()) => {},
        }
        match partition {
            Partition::Dfu => clear(&params, &mut self.dfu, from as usize, to as usize),
            Partition::State => clear(&params, &mut self.state, from as usize, to as usize),
        }
        proof {
            let access = Access::Erase { partition, from, to };
            assert(self.flashes() =~= before.after(self.setup(), access, Ok(())));
        }
        Ok(())
    }
}

impl MemFlash {
    /// The updater works on partitions of these dimensions.
    pub open spec fn serves(&self, updater: &FirmwareUpdater) -> bool {
        &&& updater.wf()
        &&& updater.dfu_params() == self.setup().dfu
        &&& updater.firmware_state().params() == self.setup().state
    }

    /// `other` is this flash, but for what its partitions hold.
    pub open spec fn same_flash(&self, other: &MemFlash) -> bool {
        &&& other.wf()
        &&& other.setup() == self.setup()
        &&& other.planned() == self.planned()
    }

    /// Carries a marking through.
    #[verifier::loop_isolation(false)]
    fn mark(&mut self, k: Ghost<nat>, state: &mut FirmwareState<'_>, marking: Marking) -> (result:
        Result<(), FirmwareUpdaterError>)
        requires
            old(self).wf(),
            old(self).counts(k@),
            marking.wf(old(state)),
            marking.stage() == MarkStage::ReadMagic,
            old(state).params() == old(self).setup().state,
        ensures
            old(self).same_flash(final(self)),
            final(state).wf(),
            final(state).params() == old(state).params(),
            (result, final(self).flashes()) == mark_run(
                old(self).setup(),
                old(self).flashes(),
                marking.magic(),
                MarkStage::ReadMagic,
                old(self).faults(),
                k@,
            ),
    {
        let ghost setup = self.setup();
        let ghost planned = self.planned();
        let ghost magic = marking.magic();
        let ghost run = mark_run(
            setup,
            self.flashes(),
            magic,
            MarkStage::ReadMagic,
            self.faults(),
            k@,
        );
        let mut marking = marking;
        let mut k = k;
        loop
            invariant
                self.wf(),
                self.counts(k@),
                self.setup() == setup,
                self.planned() == planned,
                marking.wf(state),
                marking.magic() == magic,
                state.params() == setup.state,
                run == mark_run(
                    setup,
                    self.flashes(),
                    magic,
                    marking.stage(),
                    self.faults(),
                    k@,
                ),
            decreases stages_left(marking.stage()),
        {
            let outcome = match marking.request(state) {
                Request::Read { partition, offset, .. } => self.read(
                    k,
                    partition,
                    offset,
                    state.aligned_mut(),
                ),
                Request::Write { partition, offset, data } => self.write(k, partition, offset, data),
                Request::Erase { partition, from, to } => self.erase(k, partition, from, to),
            };
            match marking.resume(state, outcome) {
                Progress::Done(result) => {
                    return result;
                },
                Progress::Pending(next) => {
                    marking = next;
                },
            }
            proof {
                k@ = k@ + 1;
            }
        }
    }

    /// Obtains the current state.
    pub fn get_state(&mut self, updater: &mut FirmwareUpdater<'_>) -> (result: Result<
        State,
        FirmwareUpdaterError,
    >)
        requires
            old(self).wf(),
            old(self).serves(old(updater)),
        ensures
            old(self).same_flash(final(self)),
            final(self).serves(final(updater)),
            final(updater).last_erased() == old(updater).last_erased(),
            final(self).flashes() == old(self).flashes(),
            result == get_state_run(old(self).setup(), old(self).flashes(), old(self).faults(), 0),
    {
        self.begin();
        let read = match updater.state().state_request() {
            Request::Read { partition, offset, .. } => self.read(
                Ghost(0),
                partition,
                offset,
                updater.state_mut().aligned_mut(),
            ),
            Request::Write { partition, offset, data } => self.write(
                Ghost(0),
                partition,
                offset,
                data,
            ),
            Request::Erase { partition, from, to } => self.erase(Ghost(0), partition, from, to),
        };
        updater.get_state(read)
    }

    /// Marks to trigger firmware swap on next boot.
    pub fn mark_updated(&mut self, updater: &mut FirmwareUpdater<'_>) -> (result: Result<
        (),
        FirmwareUpdaterError,
    >)
        requires
            old(self).wf(),
            old(self).serves(old(updater)),
        ensures
            old(self).same_flash(final(self)),
            final(self).serves(final(updater)),
            final(updater).last_erased() == old(updater).last_erased(),
            (result, final(self).flashes()) == mark_run(
                old(self).setup(),
                old(self).flashes(),
                SWAP_MAGIC,
                MarkStage::ReadMagic,
                old(self).faults(),
                0,
            ),
    {
        self.begin();
        let marking = updater.mark_updated();
        self.mark(Ghost(0), updater.state_mut(), marking)
    }

    /// Marks firmware boot successful and stops rollback on reset.
    pub fn mark_booted(&mut self, updater: &mut FirmwareUpdater<'_>) -> (result: Result<
        (),
        FirmwareUpdaterError,
    >)
        requires
            old(self).wf(),
            old(self).serves(old(updater)),
        ensures
            old(self).same_flash(final(self)),
            final(self).serves(final(updater)),
            final(updater).last_erased() == old(updater).last_erased(),
            (result, final(self).flashes()) == mark_run(
                old(self).setup(),
                old(self).flashes(),
                BOOT_MAGIC,
                MarkStage::ReadMagic,
                old(self).faults(),
                0,
            ),
    {
        self.begin();
        let marking = updater.mark_booted();
        self.mark(Ghost(0), updater.state_mut(), marking)
    }

    /// Marks to trigger USB DFU on next boot.
    #[verifier::loop_isolation(false)]
    pub fn mark_dfu(&mut self, updater: &mut FirmwareUpdater<'_>) -> (result: Result<
        (),
        FirmwareUpdaterError,
    >)
        requires
            old(self).wf(),
            old(self).serves(old(updater)),
        ensures
            old(self).same_flash(final(self)),
            final(self).serves(final(updater)),
            final(updater).last_erased() == old(updater).last_erased(),
            (result, final(self).flashes()) == mark_dfu_run(
                old(self).setup(),
                old(self).flashes(),
                old(self).faults(),
            ),
    {
        self.begin();
        let ghost setup = self.setup();
        let ghost planned = self.planned();
        let ghost run = mark_dfu_run(setup, self.flashes(), self.faults());
        let ghost flashes = self.flashes();
        let mut marking = updater.mark_dfu();
        let mut k: Ghost<nat> = Ghost(0);
        loop
            invariant
                self.wf(),
                self.counts(k@),
                self.setup() == setup,
                self.planned() == planned,
                self.serves(updater),
                updater.last_erased() == old(updater).last_erased(),
                marking.wf(updater),
                match marking.stage() {
                    MarkDfuStage::CheckBooted => k@ == 0 && self.flashes() == flashes,
                    MarkDfuStage::Mark(inner) => k@ > 0 && run == mark_run(
                        setup,
                        self.flashes(),
                        DFU_DETACH_MAGIC,
                        inner.stage(),
                        self.faults(),
                        k@,
                    ),
                },
            decreases
                    match marking.stage() {
                        MarkDfuStage::CheckBooted => 5,
                        MarkDfuStage::Mark(inner) => stages_left(inner.stage()),
                    },
        {
            let outcome = match marking.request(updater) {
                Request::Read { partition, offset, .. } => self.read(
                    k,
                    partition,
                    offset,
                    updater.state_mut().aligned_mut(),
                ),
                Request::Write { partition, offset, data } => self.write(k, partition, offset, data),
                Request::Erase { partition, from, to } => self.erase(k, partition, from, to),
            };
            match marking.resume(updater, outcome) {
                Progress::Done(result) => {
                    return result;
                },
                Progress::Pending(next) => {
                    marking = next;
                },
            }
            proof {
                k@ = k@ + 1;
            }
        }
    }

    /// Erases the DFU partition for an update.
    #[verifier::loop_isolation(false)]
    pub fn prepare_update(&mut self, updater: &mut FirmwareUpdater<'_>) -> (result: Result<
        (),
        FirmwareUpdaterError,
    >)
        requires
            old(self).wf(),
            old(self).serves(old(updater)),
        ensures
            old(self).same_flash(final(self)),
            final(self).serves(final(updater)),
            final(updater).last_erased() == old(updater).last_erased(),
            (result, final(self).flashes()) == prepare_update_run(
                old(self).setup(),
                old(self).flashes(),
                old(self).faults(),
            ),
    {
        self.begin();
        let mut preparing = updater.prepare_update();
        let mut k: Ghost<nat> = Ghost(0);
        loop
            invariant
                old(self).same_flash(self),
                self.counts(k@),
                self.serves(updater),
                updater.last_erased() == old(updater).last_erased(),
                self.flashes() == old(self).flashes(),
                match preparing.stage() {
                    PrepareStage::CheckBooted => k@ == 0,
                    PrepareStage::Erase => k@ == 1 && verify_booted_run(
                        self.setup(),
                        self.flashes(),
                        self.faults(),
                        0,
                    ) is Ok,
                },
            decreases
                    match preparing.stage() {
                        PrepareStage::CheckBooted => 1int,
                        PrepareStage::Erase => 0int,
                    },
        {
            let outcome = match preparing.request(updater) {
                Request::Read { partition, offset, .. } => self.read(
                    k,
                    partition,
                    offset,
                    updater.state_mut().aligned_mut(),
                ),
                Request::Write { partition, offset, data } => self.write(k, partition, offset, data),
                Request::Erase { partition, from, to } => self.erase(k, partition, from, to),
            };
            match preparing.resume(updater, outcome) {
                Progress::Done(result) => {
                    proof {
                        reveal_with_fuel(plan_run, 2);
                        let plan = seq![dfu_erasure(self.setup().dfu)];
                        assert(plan.drop_first() =~= Seq::empty());
                    }
                    return result;
                },
                Progress::Pending(next) => {
                    preparing = next;
                },
            }
            proof {
                k@ = k@ + 1;
            }
        }
    }

    /// Reads the DFU partition into `buffer`.
    pub fn read_dfu(&mut self, updater: &FirmwareUpdater<'_>, offset: u32, buffer: &mut [u8]) -> (result:
        Result<(), FirmwareUpdaterError>)
        requires
            old(self).wf(),
            old(self).serves(updater),
        ensures
            old(self).same_flash(final(self)),
            final(self).flashes() == old(self).flashes(),
            final(buffer)@.len() == old(buffer)@.len(),
            result == match old(self).setup().outcome(
                Access::Read { partition: Partition::Dfu, offset, len: old(buffer)@.len() },
                old(self).faults(),
                0,
            ) {
                Ok(()) => Ok::<(), FirmwareUpdaterError>(()),
                Err(kind) => Err(FirmwareUpdaterError::Flash(kind)),
            },
            result is Ok ==> final(buffer)@ == old(self).flashes().dfu.subrange(
                offset as int,
                offset + old(buffer)@.len(),
            ),
    {
        self.begin();
        let reading = updater.read_dfu(offset, buffer.len());
        let outcome = match reading.request() {
            Request::Read { partition, offset, .. } => self.read(
                Ghost(0),
                partition,
                offset,
                buffer,
            ),
            Request::Write { partition, offset, data } => self.write(
                Ghost(0),
                partition,
                offset,
                data,
            ),
            Request::Erase { partition, from, to } => self.erase(Ghost(0), partition, from, to),
        };
        reading.resume(outcome)
    }
}

impl MemFlash {
    /// Writes firmware data to the DFU partition.
    #[verifier::loop_isolation(false)]
    pub fn write_firmware(
        &mut self,
        updater: &mut FirmwareUpdater<'_>,
        offset: usize,
        data: &[u8],
    ) -> (result: Result<(), FirmwareUpdaterError>)
        requires
            old(self).wf(),
            old(self).serves(old(updater)),
            write_fits(old(self).setup().dfu.erase_size as int, offset as int, data@.len() as int),
        ensures
            old(self).same_flash(final(self)),
            final(self).serves(final(updater)),
            (result, final(self).flashes()) == write_firmware_run(
                old(self).setup(),
                old(self).flashes(),
                old(updater).last_erased(),
                offset as int,
                data@,
                old(self).faults(),
            ),
            result is Ok ==> final(updater).last_erased() == last_erased_after(
                old(self).setup().dfu.erase_size as int,
                old(updater).last_erased(),
                offset as int,
                data@.len() as int,
            ),
    {
        self.begin();
        let ghost setup = self.setup();
        let ghost flashes = self.flashes();
        let ghost faults = self.faults();
        let ghost erase_size = setup.dfu.erase_size as int;
        let ghost plan = write_plan(
            erase_size,
            old(updater).last_erased(),
            offset as int,
            data@,
        );
        let mut writing = updater.write_firmware(offset, data);
        let mut k: Ghost<nat> = Ghost(0);
        loop
            invariant
                old(self).same_flash(self),
                self.counts(k@),
                self.serves(updater),
                writing.wf(updater),
                write_fits(erase_size, writing.offset(), writing.data().len() as int),
                writing.offset() + writing.data().len() == offset + data@.len(),
                writing.offset() >= offset,
                if writing.stage() == WriteStage::CheckBooted {
                    &&& k@ == 0
                    &&& self.flashes() == flashes
                    &&& updater.last_erased() == old(updater).last_erased()
                    &&& writing.offset() == offset
                    &&& writing.data() == data@
                } else {
                    &&& verify_booted_run(setup, flashes, faults, 0) is Ok
                    &&& plan_run(setup, flashes, plan, faults, 1) == plan_run(
                        setup,
                        self.flashes(),
                        writing.todo(updater),
                        faults,
                        k@,
                    )
                },
            decreases writing.todo(updater).len(),
        {
            let ghost todo = writing.todo(updater);
            proof {
                law_fitting_data_can_be_resumed(writing, *updater);
                lemma_todo_begins(writing, *updater);
            }
            let outcome = match writing.request(updater) {
                Request::Read { partition, offset, .. } => self.read(
                    k,
                    partition,
                    offset,
                    updater.state_mut().aligned_mut(),
                ),
                Request::Write { partition, offset, data } => self.write(k, partition, offset, data),
                Request::Erase { partition, from, to } => self.erase(k, partition, from, to),
            };
            assert(writing.todo(updater) == todo);
            match writing.resume(updater, outcome) {
                Progress::Done(result) => {
                    proof {
                        reveal_with_fuel(plan_run, 2);
                    }
                    return result;
                },
                Progress::Pending(next) => {
                    writing = next;
                },
            }
            proof {
                k@ = k@ + 1;
            }
        }
    }
}

impl MemFlash {
    /// Digests the image in the DFU partition, by way of a buffer for chunks of it.
    #[verifier::loop_isolation(false)]
    pub fn hash<D: Digest>(
        &mut self,
        updater: &FirmwareUpdater<'_>,
        update_len: u32,
        chunk: &mut [u8],
    ) -> (result: Result<Vec<u8>, FirmwareUpdaterError>)
        requires
            old(self).wf(),
            old(self).serves(updater),
            old(chunk)@.len() > 0,
        ensures
            old(self).same_flash(final(self)),
            final(self).flashes() == old(self).flashes(),
            match hash_run::<D>(
                old(self).setup(),
                old(self).flashes(),
                Seq::empty(),
                0,
                update_len,
                old(chunk)@.len(),
                old(self).faults(),
                0,
            ) {
                Ok(digest) => result matches Ok(output) && output@ == digest,
                Err(error) => result matches Err(e) && e == error,
            },
    {
        self.begin();
        let ghost setup = self.setup();
        let ghost flashes = self.flashes();
        let ghost faults = self.faults();
        let ghost chunk_len = chunk@.len();
        let ghost run = hash_run::<D>(
            setup,
            flashes,
            Seq::empty(),
            0,
            update_len,
            chunk_len,
            faults,
            0,
        );
        let mut hashing = match updater.hash::<D>(update_len, chunk.len()) {
            Progress::Done(digest) => {
                return Ok(digest);
            },
            Progress::Pending(hashing) => hashing,
        };
        let mut k: Ghost<nat> = Ghost(0);
        loop
            invariant
                old(self).same_flash(self),
                self.counts(k@),
                self.flashes() == flashes,
                chunk@.len() == chunk_len,
                hashing.wf(),
                hashing.update_len() == update_len,
                hashing.chunk_len() == chunk_len,
                run == hash_run::<D>(
                    setup,
                    flashes,
                    hashing.absorbed(),
                    hashing.offset(),
                    update_len,
                    chunk_len,
                    faults,
                    k@,
                ),
            decreases update_len - hashing.offset(),
        {
            let outcome = match hashing.request() {
                Request::Read { partition, offset, .. } => self.read(k, partition, offset, chunk),
                Request::Write { partition, offset, data } => self.write(k, partition, offset, data),
                Request::Erase { partition, from, to } => self.erase(k, partition, from, to),
            };
            match hashing.resume(outcome, chunk) {
                Progress::Done(result) => {
                    return result;
                },
                Progress::Pending(next) => {
                    hashing = next;
                },
            }
            proof {
                k@ = k@ + 1;
            }
        }
    }

    /// Checks a signed image and marks it for a swap.
    #[verifier::loop_isolation(false)]
    pub fn verify_and_mark_updated<S: SignatureScheme>(
        &mut self,
        updater: &mut FirmwareUpdater<'_>,
        public_key: &[u8; 32],
        signature: &[u8; 64],
        update_len: u32,
    ) -> (result: Result<(), FirmwareUpdaterError>)
        requires
            old(self).wf(),
            old(self).serves(old(updater)),
            update_len <= old(self).setup().dfu.capacity as u32,
        ensures
            old(self).same_flash(final(self)),
            final(self).serves(final(updater)),
            final(updater).last_erased() == old(updater).last_erased(),
            (result, final(self).flashes()) == verify_and_mark_run::<S>(
                old(self).setup(),
                old(self).flashes(),
                public_key@,
                signature@,
                update_len,
                old(self).faults(),
            ),
    {
        self.begin();
        let ghost setup = self.setup();
        let ghost faults = self.faults();
        let ghost run = verify_and_mark_run::<S>(
            setup,
            self.flashes(),
            public_key@,
            signature@,
            update_len,
            faults,
        );
        let mut verifying = match updater.verify_and_mark_updated::<S>(
            public_key,
            signature,
            update_len,
        ) {
            Progress::Done(result) => {
                return result;
            },
            Progress::Pending(verifying) => verifying,
        };
        let mut chunk: [u8; 2] = [0, 0];
        let mut k: Ghost<nat> = Ghost(0);
        loop
            invariant
                old(self).same_flash(self),
                self.counts(k@),
                self.serves(updater),
                updater.last_erased() == old(updater).last_erased(),
                verifying.wf(updater),
                verifying.public_key() == public_key@,
                verifying.signature() == signature@,
                verifying.update_len() == update_len,
                run == verify_run::<S>(
                    setup,
                    self.flashes(),
                    public_key@,
                    signature@,
                    update_len,
                    verifying.step(),
                    faults,
                    k@,
                ),
            decreases
                    steps_left(verifying.step(), update_len).0,
                    steps_left(verifying.step(), update_len).1,
        {
            let outcome = match verifying.request(updater) {
                Request::Read { partition: Partition::Dfu, offset, .. } => self.read(
                    k,
                    Partition::Dfu,
                    offset,
                    &mut chunk,
                ),
                Request::Read { partition: Partition::State, offset, .. } => self.read(
                    k,
                    Partition::State,
                    offset,
                    updater.state_mut().aligned_mut(),
                ),
                Request::Write { partition, offset, data } => self.write(k, partition, offset, data),
                Request::Erase { partition, from, to } => self.erase(k, partition, from, to),
            };
            match verifying.resume(updater, outcome, &chunk) {
                Progress::Done(result) => {
                    return result;
                },
                Progress::Pending(next) => {
                    verifying = next;
                },
            }
            proof {
                k@ = k@ + 1;
            }
        }
    }
}

/// Whether a range lies in a partition and is aligned.
fn check(params: &NorFlashParams, alignment: usize, offset: u32, len: usize) -> (outcome: Outcome)
    requires
        alignment > 0,
    ensures
        outcome == range_outcome(*params, alignment, offset as int, len as int),
{
    let start: usize = offset as usize;
    if start > params.capacity || len > params.capacity - start {
        Err(NorFlashErrorKind::OutOfBounds)
    } else if start % alignment != 0 || len % alignment != 0 {
        Err(NorFlashErrorKind::NotAligned)
    } else {
        Ok(())
    }
}

/// A writing that has not ended waits for an access. The first is the read of the state, and all
/// others are about the DFU partition.
proof fn lemma_todo_begins(writing: WriteFirmware, updater: FirmwareUpdater)
    requires
        writing.wf(&updater),
    ensures
        writing.todo(&updater).len() > 0,
        writing.stage() == WriteStage::CheckBooted ==> writing.todo(&updater).drop_first()
            == write_plan(
            updater.dfu_params().erase_size as int,
            updater.last_erased(),
            writing.offset(),
            writing.data(),
        ),
{
    if writing.stage() == WriteStage::CheckBooted {
        assert(writing.todo(&updater).drop_first() =~= write_plan(
            updater.dfu_params().erase_size as int,
            updater.last_erased(),
            writing.offset(),
            writing.data(),
        ));
    }
}

/// What an erased partition of these dimensions holds.
fn erased(params: &NorFlashParams) -> (bytes: Vec<u8>)
    requires
        params.erase_value@.len() > 0,
    ensures
        bytes@.len() == params.capacity,
        reads_erased(*params, bytes@, 0, params.capacity as int),
{
    let mut bytes: Vec<u8> = Vec::new();
    let mut i: usize = 0;
    while i < params.capacity
        invariant
            i <= params.capacity,
            bytes@.len() == i,
            params.erase_value@.len() > 0,
            reads_erased(*params, bytes@, 0, i as int),
        decreases params.capacity - i,
    {
        let erase_value: &[u8] = params.erase_value;
        bytes.push(erase_value[i % erase_value.len()]);
        i = i + 1;
    }
    bytes
}

/// Writes `data` over what `bytes` hold from `offset` on.
fn overwrite(bytes: &mut Vec<u8>, offset: usize, data: &[u8])
    requires
        offset + data@.len() <= old(bytes)@.len(),
    ensures
        final(bytes)@ == Seq::new(
            old(bytes)@.len(),
            |i: int|
                if offset <= i < offset + data@.len() {
                    data@[i - offset]
                } else {
                    old(bytes)@[i]
                },
        ),
{
    let ghost before = bytes@;
    let len: usize = data.len();
    let held_len: usize = bytes.len();
    let mut i: usize = 0;
    while i < len
        invariant
            i <= len,
            len == data@.len(),
            bytes@.len() == held_len,
            before.len() == held_len,
            offset + len <= held_len,
            forall|j: int|
                0 <= j < before.len() ==> bytes@[j] == if offset <= j < offset + i {
                    data@[j - offset]
                } else {
                    before[j]
                },
        decreases len - i,
    {
        bytes.set(offset + i, data[i]);
        i = i + 1;
    }
    assert(bytes@ =~= Seq::new(
        before.len(),
        |i: int|
            if offset <= i < offset + data@.len() {
                data@[i - offset]
            } else {
                before[i]
            },
    ));
}

/// Erases what `bytes` hold from `from` up to, but without, `to`.
fn clear(params: &NorFlashParams, bytes: &mut Vec<u8>, from: usize, to: usize)
    requires
        params.erase_value@.len() > 0,
        from <= to <= old(bytes)@.len(),
    ensures
        final(bytes)@ == Seq::new(
            old(bytes)@.len(),
            |i: int|
                if from <= i < to {
                    erased_byte(*params, i)
                } else {
                    old(bytes)@[i]
                },
        ),
{
    let ghost before = bytes@;
    let erase_value: &[u8] = params.erase_value;
    let mut i: usize = from;
    while i < to
        invariant
            from <= i <= to <= before.len(),
            bytes@.len() == before.len(),
            erase_value@ == params.erase_value@,
            erase_value@.len() > 0,
            forall|j: int|
                0 <= j < before.len() ==> bytes@[j] == if from <= j < i {
                    erased_byte(*params, j)
                } else {
                    before[j]
                },
        decreases to - i,
    {
        bytes.set(i, erase_value[i % erase_value.len()]);
        i = i + 1;
    }
    assert(bytes@ =~= Seq::new(
        before.len(),
        |i: int|
            if from <= i < to {
                erased_byte(*params, i)
            } else {
                before[i]
            },
    ));
}

} // verus!
