//! The firmware updater: receiving a new image, checking it and marking it
//! for the bootloader.

use vstd::prelude::*;

use vstd::arithmetic::div_mod::{
    lemma_div_is_ordered, lemma_fundamental_div_mod, lemma_fundamental_div_mod_converse,
    lemma_mod_bound,
};

use crate::config::FirmwareUpdaterConfig;
use crate::error::{FirmwareUpdaterError, Outcome};
use crate::firmware_state::{
    booted_result, erase_value_is_distinct, mark_access, mark_buffer, mark_next, state_read,
    state_result, FirmwareState, MarkStage, Marking,
};
use crate::flash::{Access, NorFlashParams, Partition, Progress, Request};
use crate::state::{State, BOOT_MAGIC, DFU_DETACH_MAGIC, SWAP_MAGIC};

verus! {

/// FirmwareUpdater is an application API for interacting with the BootLoader without the ability
/// to 'mess up' the internal bootloader state
pub struct FirmwareUpdater<'d> {
    dfu: NorFlashParams,
    state: FirmwareState<'d>,
    last_erased_dfu_sector_index: Option<usize>,
}

impl<'d> FirmwareUpdater<'d> {
    /// The dimensions of the DFU partition.
    pub closed spec fn dfu_params(&self) -> NorFlashParams {
        self.dfu
    }

    /// The state partition and its buffer.
    pub closed spec fn firmware_state(&self) -> FirmwareState<'d> {
        self.state
    }

    /// The sector of the DFU partition that was erased last.
    pub closed spec fn last_erased(&self) -> Option<int> {
        match self.last_erased_dfu_sector_index {
            Some(index) => Some(index as int),
            None => None,
        }
    }

    /// The state partition can be read and marked.
    pub open spec fn wf(&self) -> bool {
        self.firmware_state().wf()
    }

    /// `other` is this updater, but for the sector that was erased last.
    pub open spec fn same_but_erased(&self, other: &FirmwareUpdater) -> bool {
        &&& other.dfu_params() == self.dfu_params()
        &&& other.firmware_state().params() == self.firmware_state().params()
        &&& other.firmware_state().buffer() == self.firmware_state().buffer()
    }

    /// Create a firmware updater instance with partition ranges for the update and state
    /// partitions.
    pub fn new(
        config: FirmwareUpdaterConfig<NorFlashParams, NorFlashParams>,
        aligned: &'d mut [u8],
    ) -> (result: Self)
        requires
            old(aligned)@.len() == config.state.buffer_len(),
            erase_value_is_distinct(config.state.erase_value@),
        ensures
            result.wf(),
            result.dfu_params() == config.dfu,
            result.firmware_state().params() == config.state,
            result.firmware_state().buffer() == old(aligned)@,
            result.last_erased() is None,
    {
        FirmwareUpdater {
            dfu: config.dfu,
            state: FirmwareState::new(config.state, aligned),
            last_erased_dfu_sector_index: None,
        }
    }

    /// The state partition and its buffer.
    pub fn state(&self) -> (state: &FirmwareState<'d>)
        ensures
            *state == self.firmware_state(),
    {
        &self.state
    }

    /// The state partition and its buffer, to be read into or marked.
    pub fn state_mut(&mut self) -> (state: &mut FirmwareState<'d>)
        ensures
            *state == old(self).firmware_state(),
            final(self).firmware_state() == *final(state),
            final(self).dfu_params() == old(self).dfu_params(),
            final(self).last_erased() == old(self).last_erased(),
    {
        &mut self.state
    }

    /// Obtain the current state from the outcome of [`FirmwareState::state_request`].
    ///
    /// This is useful to check if the bootloader has just done a swap, in order
    /// to do verifications and self-tests of the new image before calling
    /// `mark_booted`.
    pub fn get_state(&self, read: Outcome) -> (result: Result<State, FirmwareUpdaterError>)
        requires
            self.wf(),
        ensures
            result == state_result(read, self.firmware_state().word()),
    {
        self.state.get_state(read)
    }

    /// Mark to trigger firmware swap on next boot.
    pub fn mark_updated(&self) -> (marking: Marking)
        requires
            self.wf(),
        ensures
            marking.wf(&self.firmware_state()),
            marking.magic() == SWAP_MAGIC,
            marking.stage() == MarkStage::ReadMagic,
    {
        self.state.mark_updated()
    }

    /// Mark firmware boot successful and stop rollback on reset.
    pub fn mark_booted(&self) -> (marking: Marking)
        requires
            self.wf(),
        ensures
            marking.wf(&self.firmware_state()),
            marking.magic() == BOOT_MAGIC,
            marking.stage() == MarkStage::ReadMagic,
    {
        self.state.mark_booted()
    }
}

// ---------------------------------------------------------------------------
// Writing firmware

/// The first byte of the sector that holds `offset`.
pub open spec fn sector_start(erase_size: int, offset: int) -> int {
    offset - offset % erase_size
}

/// The first byte after the sector that holds `offset`.
pub open spec fn sector_end(erase_size: int, offset: int) -> int {
    sector_start(erase_size, offset) + erase_size
}

/// How many of `len` bytes from `offset` on lie in the sector that holds `offset`.
pub open spec fn sector_share(erase_size: int, offset: int, len: int) -> int {
    let room = sector_end(erase_size, offset) - offset;
    if len <= room {
        len
    } else {
        room
    }
}

/// The accesses that write `data` from `offset` on, sector by sector, where
/// the sector `last_erased` needs no erasure.
pub open spec fn write_plan(
    erase_size: int,
    last_erased: Option<int>,
    offset: int,
    data: Seq<u8>,
) -> Seq<Access>
    decreases data.len(),
{
    if erase_size <= 0 || data.len() == 0 {
        Seq::empty()
    } else {
        proof {
            lemma_mod_bound(offset, erase_size);
        }
        let sector = offset / erase_size;
        let share = sector_share(erase_size, offset, data.len() as int);
        let erasure = if last_erased == Some(sector) {
            Seq::<Access>::empty()
        } else {
            seq![
                Access::Erase {
                    partition: Partition::Dfu,
                    from: sector_start(erase_size, offset) as u32,
                    to: sector_end(erase_size, offset) as u32,
                },
            ]
        };
        let write = Access::Write {
            partition: Partition::Dfu,
            offset: offset as u32,
            data: data.take(share),
        };
        erasure + seq![write] + write_plan(
            erase_size,
            Some(sector),
            offset + share,
            data.skip(share),
        )
    }
}

/// The sector that was erased last once `len` bytes were written from `offset` on.
pub open spec fn last_erased_after(
    erase_size: int,
    last_erased: Option<int>,
    offset: int,
    len: int,
) -> Option<int> {
    if len == 0 {
        last_erased
    } else {
        Some((offset + len - 1) / erase_size)
    }
}

/// The sector that `len` bytes from `offset` on begin in ends where a `usize` can say.
pub open spec fn sector_fits(erase_size: int, offset: int, len: int) -> bool {
    len == 0 || (erase_size > 0 && sector_end(erase_size, offset) <= usize::MAX)
}

/// All sectors of `len` bytes from `offset` on end where a `usize` can say.
pub open spec fn write_fits(erase_size: int, offset: int, len: int) -> bool {
    len == 0 || sector_fits(erase_size, offset + len - 1, 1)
}

/// The bounds of the sector that holds `offset`, by its index.
pub(crate) proof fn lemma_sector_bounds(erase_size: int, offset: int)
    requires
        erase_size > 0,
        offset >= 0,
    ensures
        offset / erase_size >= 0,
        (offset / erase_size) * erase_size == sector_start(erase_size, offset),
        0 <= sector_start(erase_size, offset) <= offset < sector_end(erase_size, offset),
{
    lemma_fundamental_div_mod(offset, erase_size);
    lemma_mod_bound(offset, erase_size);
    assert(offset / erase_size >= 0 && (offset / erase_size) * erase_size == erase_size * (offset
        / erase_size)) by (nonlinear_arith)
        requires
            offset >= 0,
            erase_size > 0,
    ;
    assert((offset / erase_size) * erase_size >= 0) by (nonlinear_arith)
        requires
            offset / erase_size >= 0,
            erase_size > 0,
    ;
}

/// All bytes of a sector have its index.
pub(crate) proof fn lemma_same_sector(erase_size: int, offset: int, other: int)
    requires
        erase_size > 0,
        offset >= 0,
        sector_start(erase_size, offset) <= other < sector_end(erase_size, offset),
    ensures
        other / erase_size == offset / erase_size,
        sector_start(erase_size, other) == sector_start(erase_size, offset),
{
    let sector = offset / erase_size;
    lemma_sector_bounds(erase_size, offset);
    lemma_fundamental_div_mod_converse(other, erase_size, sector, other - sector * erase_size);
}

/// A later byte lies in no earlier sector.
pub(crate) proof fn lemma_sectors_ordered(erase_size: int, offset: int, later: int)
    requires
        erase_size > 0,
        0 <= offset <= later,
    ensures
        0 <= sector_start(erase_size, offset) <= sector_start(erase_size, later) <= later,
{
    lemma_sector_bounds(erase_size, offset);
    lemma_sector_bounds(erase_size, later);
    lemma_div_is_ordered(offset, later, erase_size);
    assert((offset / erase_size) * erase_size <= (later / erase_size) * erase_size)
        by (nonlinear_arith)
        requires
            offset / erase_size <= later / erase_size,
            erase_size > 0,
    ;
}

/// Which flash access a [`WriteFirmware`] waits for.
#[derive(Debug, Clone, Copy, PartialEq, Eq, Structural)]
pub enum WriteStage {
    /// The read of the bootloader state.
    CheckBooted,
    /// The erasure of the sector that is written next.
    Erase,
    /// The write of the data that belong in the current sector.
    Write,
}

/// Firmware data being written.
#[derive(Debug, Clone, Copy)]
pub struct WriteFirmware<'a> {
    stage: WriteStage,
    offset: usize,
    data: &'a [u8],
}

impl<'a> WriteFirmware<'a> {
    /// The access that is waited for.
    pub closed spec fn stage(&self) -> WriteStage {
        self.stage
    }

    /// Where the remaining data go.
    pub closed spec fn offset(&self) -> int {
        self.offset as int
    }

    /// The data that are not written yet.
    pub closed spec fn data(&self) -> Seq<u8> {
        self.data@
    }

    /// The accesses that are still to be made if none of them fails.
    pub open spec fn todo(&self, updater: &FirmwareUpdater) -> Seq<Access> {
        let erase_size = updater.dfu_params().erase_size as int;
        match self.stage() {
            WriteStage::CheckBooted => seq![state_read(updater.firmware_state().params())]
                + write_plan(erase_size, updater.last_erased(), self.offset(), self.data()),
            WriteStage::Erase => write_plan(erase_size, None, self.offset(), self.data()),
            WriteStage::Write => write_plan(
                erase_size,
                Some(self.offset() / erase_size),
                self.offset(),
                self.data(),
            ),
        }
    }

    /// The error that ends the writing, if there is one.
    pub open spec fn refusal(&self, updater: &FirmwareUpdater, outcome: Outcome) -> Option<
        FirmwareUpdaterError,
    > {
        if self.stage() == WriteStage::CheckBooted {
            match booted_result(outcome, updater.firmware_state().word()) {
                Ok(()) => None,
                Err(error) => Some(error),
            }
        } else {
            match outcome {
                Ok(()) => None,
                Err(kind) => Some(FirmwareUpdaterError::Flash(kind)),
            }
        }
    }

    /// How much of the data is dealt with once the access that is waited for has succeeded.
    pub open spec fn advance(&self, updater: &FirmwareUpdater) -> int {
        if self.stage() == WriteStage::Write {
            sector_share(
                updater.dfu_params().erase_size as int,
                self.offset(),
                self.data().len() as int,
            )
        } else {
            0
        }
    }

    /// The sector that comes next, if any does, ends where a `usize` can say.
    pub open spec fn can_proceed(&self, updater: &FirmwareUpdater) -> bool {
        let advance = self.advance(updater);
        sector_fits(
            updater.dfu_params().erase_size as int,
            self.offset() + advance,
            self.data().len() - advance,
        )
    }

    /// The sector that is at hand can be erased and written.
    pub open spec fn wf(&self, updater: &FirmwareUpdater) -> bool {
        let erase_size = updater.dfu_params().erase_size as int;
        &&& updater.wf()
        &&& 0 <= self.offset() <= usize::MAX
        &&& self.stage() != WriteStage::CheckBooted ==> {
            &&& self.data().len() > 0
            &&& sector_fits(erase_size, self.offset(), self.data().len() as int)
        }
        &&& self.stage() == WriteStage::Write ==> updater.last_erased() == Some(
            self.offset() / erase_size,
        )
    }

    /// The access that is waited for. A read goes to [`FirmwareState::aligned_mut`].
    pub fn request(&self, updater: &FirmwareUpdater<'_>) -> (request: Request<'a>)
        requires
            self.wf(updater),
        ensures
            request@ == self.todo(updater)[0],
    {
        let erase_size: usize = updater.dfu.erase_size;
        match self.stage {
            WriteStage::CheckBooted => updater.state.state_request(),
            WriteStage::Erase => {
                proof {
                    lemma_sector_bounds(erase_size as int, self.offset as int);
                }
                let start: usize = (self.offset / erase_size) * erase_size;
                let end: usize = start + erase_size;
                Request::Erase { partition: Partition::Dfu, from: start as u32, to: end as u32 }
            },
            WriteStage::Write => {
                let share: usize = self.share(updater);
                let data: &'a [u8] = vstd::slice::slice_subrange(self.data, 0, share);
                assert(data@ =~= self.data@.take(share as int));
                Request::Write { partition: Partition::Dfu, offset: self.offset as u32, data }
            },
        }
    }

    /// How much of the data belongs in the current sector.
    fn share(&self, updater: &FirmwareUpdater<'_>) -> (share: usize)
        requires
            self.wf(updater),
            self.stage() != WriteStage::CheckBooted,
        ensures
            share == sector_share(
                updater.dfu_params().erase_size as int,
                self.offset(),
                self.data().len() as int,
            ),
            0 < share <= self.data().len(),
            self.offset() + share <= usize::MAX,
    {
        let erase_size: usize = updater.dfu.erase_size;
        proof {
            lemma_sector_bounds(erase_size as int, self.offset as int);
        }
        let sector_end: usize = (self.offset / erase_size) * erase_size + erase_size;
        let room: usize = sector_end - self.offset;
        if self.data.len() <= room {
            self.data.len()
        } else {
            room
        }
    }

    /// The step towards the remaining data.
    fn proceed(updater: &FirmwareUpdater<'_>, offset: usize, data: &'a [u8]) -> (result: Progress<
        WriteFirmware<'a>,
        Result<(), FirmwareUpdaterError>,
    >)
        requires
            updater.wf(),
            sector_fits(updater.dfu_params().erase_size as int, offset as int, data@.len() as int),
        ensures
            ({
                let plan = write_plan(
                    updater.dfu_params().erase_size as int,
                    updater.last_erased(),
                    offset as int,
                    data@,
                );
                if plan.len() == 0 {
                    result matches Progress::Done(ended) && ended == Ok::<(), FirmwareUpdaterError>(
                        (),
                    )
                } else {
                    &&& result matches Progress::Pending(next)
                    &&& next.wf(updater)
                    &&& next.stage() != WriteStage::CheckBooted
                    &&& next.offset() == offset
                    &&& next.data() == data@
                    &&& next.todo(updater) == plan
                }
            }),
    {
        if data.len() == 0 {
            return Progress::Done(Ok(()));
        }
        let sector: usize = offset / updater.dfu.erase_size;
        let need_erase = match updater.last_erased_dfu_sector_index {
            Some(last_erased_sector) => sector != last_erased_sector,
            None => true,
        };
        let stage = if need_erase {
            WriteStage::Erase
        } else {
            WriteStage::Write
        };
        Progress::Pending(WriteFirmware { stage, offset, data })
    }

    /// Whether [`Self::resume`] may be called: it may not where the outcome leads on to a sector
    /// whose end is beyond what a `usize` can say.
    pub fn can_resume(&self, updater: &FirmwareUpdater<'_>, outcome: Outcome) -> (result: bool)
        requires
            self.wf(updater),
        ensures
            result == (self.refusal(updater, outcome) is None ==> self.can_proceed(updater)),
    {
        let refused = match self.stage {
            WriteStage::CheckBooted => updater.state.verify_booted(outcome).is_err(),
            _ => outcome.is_err(),
        };
        if refused {
            return true;
        }
        let advance: usize = match self.stage {
            WriteStage::Write => self.share(updater),
            _ => 0,
        };
        let offset: usize = self.offset + advance;
        let erase_size: usize = updater.dfu.erase_size;
        if self.data.len() == advance {
            true
        } else if erase_size == 0 {
            false
        } else {
            proof {
                lemma_sector_bounds(erase_size as int, offset as int);
            }
            offset - offset % erase_size <= usize::MAX - erase_size
        }
    }

    /// Goes on after the access that was waited for.
    pub fn resume(self, updater: &mut FirmwareUpdater<'_>, outcome: Outcome) -> (result: Progress<
        WriteFirmware<'a>,
        Result<(), FirmwareUpdaterError>,
    >)
        requires
            self.wf(old(updater)),
            self.refusal(old(updater), outcome) is None ==> self.can_proceed(old(updater)),
        ensures
            final(updater).wf(),
            old(updater).same_but_erased(final(updater)),
            final(updater).last_erased() == if self.stage() == WriteStage::Erase && outcome is Ok {
                Some(self.offset() / (old(updater).dfu_params().erase_size as int))
            } else {
                old(updater).last_erased()
            },
            match self.refusal(old(updater), outcome) {
                Some(error) => result matches Progress::Done(Err(e)) && e == error,
                None => {
                    let rest = self.todo(old(updater)).drop_first();
                    if rest.len() == 0 {
                        &&& result matches Progress::Done(ended)
                        &&& ended == Ok::<(), FirmwareUpdaterError>(())
                        &&& final(updater).last_erased() == last_erased_after(
                            old(updater).dfu_params().erase_size as int,
                            old(updater).last_erased(),
                            self.offset(),
                            self.data().len() as int,
                        )
                    } else {
                        &&& result matches Progress::Pending(next)
                        &&& next.wf(final(updater))
                        &&& next.stage() != WriteStage::CheckBooted
                        &&& next.offset() == self.offset() + self.advance(old(updater))
                        &&& next.data() == self.data().skip(self.advance(old(updater)))
                        &&& next.todo(final(updater)) == rest
                    }
                },
            },
    {
        let ghost todo = self.todo(old(updater));
        match self.stage {
            WriteStage::CheckBooted => match updater.state.verify_booted(outcome) {
                Err(error) => Progress::Done(Err(error)),
                Ok(()) => {
                    assert(todo.drop_first() =~= write_plan(
                        updater.dfu.erase_size as int,
                        updater.last_erased(),
                        self.offset as int,
                        self.data@,
                    ));
                    Self::proceed(updater, self.offset, self.data)
                },
            },
            WriteStage::Erase => match outcome {
                Err(kind) => Progress::Done(Err(FirmwareUpdaterError::Flash(kind))),
                Ok(()) => {
                    updater.last_erased_dfu_sector_index = Some(self.offset / updater.dfu.erase_size);
                    let next = WriteFirmware {
                        stage: WriteStage::Write,
                        offset: self.offset,
                        data: self.data,
                    };
                    assert(todo.drop_first() =~= next.todo(updater));
                    Progress::Pending(next)
                },
            },
            WriteStage::Write => match outcome {
                Err(kind) => Progress::Done(Err(FirmwareUpdaterError::Flash(kind))),
                Ok(()) => {
                    let share: usize = self.share(updater);
                    let rest = vstd::slice::slice_subrange(self.data, share, self.data.len());
                    proof {
                        lemma_same_sector(
                            updater.dfu.erase_size as int,
                            self.offset as int,
                            self.offset + share - 1,
                        );
                    }
                    assert(rest@ =~= self.data@.skip(share as int));
                    assert(todo.drop_first() =~= write_plan(
                        updater.dfu.erase_size as int,
                        updater.last_erased(),
                        self.offset + share,
                        rest@,
                    ));
                    Self::proceed(updater, self.offset + share, rest)
                },
            },
        }
    }
}

/// Data all sectors of which end where a `usize` can say are written without a stop: there is
/// always a next step, and the same holds of the data that are left.
pub proof fn law_fitting_data_can_be_resumed<'a>(writing: WriteFirmware<'a>, updater: FirmwareUpdater)
    requires
        writing.wf(&updater),
        write_fits(
            updater.dfu_params().erase_size as int,
            writing.offset(),
            writing.data().len() as int,
        ),
    ensures
        writing.can_proceed(&updater),
        ({
            let advance = writing.advance(&updater);
            write_fits(
                updater.dfu_params().erase_size as int,
                writing.offset() + advance,
                writing.data().len() - advance,
            )
        }),
{
    let erase_size = updater.dfu_params().erase_size as int;
    let advance = writing.advance(&updater);
    let last = writing.offset() + writing.data().len() - 1;
    if writing.data().len() > 0 {
        lemma_sector_bounds(erase_size, writing.offset());
        if advance < writing.data().len() {
            lemma_sectors_ordered(erase_size, writing.offset() + advance, last);
        }
    }
}

impl<'d> FirmwareUpdater<'d> {
    /// Writes firmware data to the device.
    ///
    /// The given data go to the firmware area from the specified offset on. The bootloader state
    /// is checked first. Then each sector that the data reach is written, and erased before that
    /// unless it is the sector that was erased last.
    ///
    /// # Arguments
    ///
    /// * `offset` - The starting offset within the firmware area where data writing should begin.
    /// * `data` - A slice of bytes representing the firmware data to be written. It must be a
    /// multiple of the write size of the flash.
    ///
    /// # Errors
    ///
    /// The writing ends with an error if:
    ///
    /// - The device is not in a proper state to receive firmware updates (e.g., not booted).
    /// - There is a failure erasing a sector before writing.
    /// - There is a failure writing data to the device.
    pub fn write_firmware<'a>(&self, offset: usize, data: &'a [u8]) -> (writing: WriteFirmware<'a>)
        requires
            self.wf(),
        ensures
            writing.wf(self),
            writing.stage() == WriteStage::CheckBooted,
            writing.offset() == offset,
            writing.data() == data@,
    {
        WriteFirmware { stage: WriteStage::CheckBooted, offset, data }
    }
}

// ---------------------------------------------------------------------------
// Preparing for an update

/// The erasure of the whole DFU partition.
pub open spec fn dfu_erasure(params: NorFlashParams) -> Access {
    Access::Erase { partition: Partition::Dfu, from: 0, to: params.capacity as u32 }
}

/// Which flash access a [`PrepareUpdate`] waits for.
#[derive(Debug, Clone, Copy, PartialEq, Eq, Structural)]
pub enum PrepareStage {
    /// The read of the bootloader state.
    CheckBooted,
    /// The erasure of the DFU partition.
    Erase,
}

/// The DFU partition being erased for an update.
#[derive(Debug, Clone, Copy)]
pub struct PrepareUpdate {
    stage: PrepareStage,
}

impl PrepareUpdate {
    /// The access that is waited for.
    pub closed spec fn stage(&self) -> PrepareStage {
        self.stage
    }

    /// The access that is waited for. A read goes to [`FirmwareState::aligned_mut`].
    pub fn request(&self, updater: &FirmwareUpdater<'_>) -> (request: Request<'static>)
        requires
            updater.wf(),
        ensures
            request@ == match self.stage() {
                PrepareStage::CheckBooted => state_read(updater.firmware_state().params()),
                PrepareStage::Erase => dfu_erasure(updater.dfu_params()),
            },
    {
        match self.stage {
            PrepareStage::CheckBooted => updater.state.state_request(),
            PrepareStage::Erase => Request::Erase {
                partition: Partition::Dfu,
                from: 0,
                to: updater.dfu.capacity as u32,
            },
        }
    }

    /// Goes on after the access that was waited for. After success the DFU partition is ready
    /// to be written directly.
    pub fn resume(self, updater: &FirmwareUpdater<'_>, outcome: Outcome) -> (result: Progress<
        PrepareUpdate,
        Result<(), FirmwareUpdaterError>,
    >)
        requires
            updater.wf(),
        ensures
            match self.stage() {
                PrepareStage::CheckBooted => match booted_result(
                    outcome,
                    updater.firmware_state().word(),
                ) {
                    Err(error) => result matches Progress::Done(Err(e)) && e == error,
                    Ok(()) => result matches Progress::Pending(next) && next.stage()
                        == PrepareStage::Erase,
                },
                PrepareStage::Erase => match outcome {
                    Err(kind) => result matches Progress::Done(Err(e)) && e
                        == FirmwareUpdaterError::Flash(kind),
                    Ok(()) => result matches Progress::Done(ended) && ended == Ok::<
                        (),
                        FirmwareUpdaterError,
                    >(()),
                },
            },
    {
        match self.stage {
            PrepareStage::CheckBooted => match updater.state.verify_booted(outcome) {
                Err(error) => Progress::Done(Err(error)),
                Ok(()) => Progress::Pending(PrepareUpdate { stage: PrepareStage::Erase }),
            },
            PrepareStage::Erase => match outcome {
                Err(kind) => Progress::Done(Err(FirmwareUpdaterError::Flash(kind))),
                Ok(()) => Progress::Done(Ok(())),
            },
        }
    }
}

impl<'d> FirmwareUpdater<'d> {
    /// Prepare for an incoming DFU update by erasing the entire DFU area.
    ///
    /// Using this instead of `write_firmware` allows for an optimized API in
    /// exchange for added complexity.
    pub fn prepare_update(&self) -> (preparing: PrepareUpdate)
        requires
            self.wf(),
        ensures
            preparing.stage() == PrepareStage::CheckBooted,
    {
        PrepareUpdate { stage: PrepareStage::CheckBooted }
    }
}

// ---------------------------------------------------------------------------
// Marking for USB DFU

/// Which flash access a [`MarkDfu`] waits for.
#[derive(Debug, Clone, Copy)]
pub enum MarkDfuStage {
    /// The read of the bootloader state.
    CheckBooted,
    /// An access of the marking itself.
    Mark(Marking),
}

/// The request for USB DFU being marked.
#[derive(Debug, Clone, Copy)]
pub struct MarkDfu {
    stage: MarkDfuStage,
}

impl MarkDfu {
    /// The access that is waited for.
    pub closed spec fn stage(&self) -> MarkDfuStage {
        self.stage
    }

    /// A marking that is under way sets the magic for USB DFU.
    pub open spec fn wf(&self, updater: &FirmwareUpdater) -> bool {
        &&& updater.wf()
        &&& self.stage() matches MarkDfuStage::Mark(marking) ==> {
            &&& marking.wf(&updater.firmware_state())
            &&& marking.magic() == DFU_DETACH_MAGIC
        }
    }

    /// The access that is waited for. A read goes to [`FirmwareState::aligned_mut`].
    pub fn request<'s>(&self, updater: &'s FirmwareUpdater<'_>) -> (request: Request<'s>)
        requires
            self.wf(updater),
        ensures
            request@ == match self.stage() {
                MarkDfuStage::CheckBooted => state_read(updater.firmware_state().params()),
                MarkDfuStage::Mark(marking) => mark_access(
                    updater.firmware_state().params(),
                    DFU_DETACH_MAGIC,
                    marking.stage(),
                ),
            },
    {
        match &self.stage {
            MarkDfuStage::CheckBooted => updater.state.state_request(),
            MarkDfuStage::Mark(marking) => marking.request(&updater.state),
        }
    }

    /// Goes on after the access that was waited for.
    pub fn resume(self, updater: &mut FirmwareUpdater<'_>, outcome: Outcome) -> (result: Progress<
        MarkDfu,
        Result<(), FirmwareUpdaterError>,
    >)
        requires
            self.wf(old(updater)),
        ensures
            final(updater).wf(),
            final(updater).dfu_params() == old(updater).dfu_params(),
            final(updater).last_erased() == old(updater).last_erased(),
            final(updater).firmware_state().params() == old(updater).firmware_state().params(),
            final(updater).firmware_state().buffer() == match self.stage() {
                MarkDfuStage::CheckBooted => old(updater).firmware_state().buffer(),
                MarkDfuStage::Mark(marking) => mark_buffer(
                    old(updater).firmware_state().params(),
                    DFU_DETACH_MAGIC,
                    marking.stage(),
                    outcome,
                    old(updater).firmware_state().buffer(),
                ),
            },
            match self.stage() {
                MarkDfuStage::CheckBooted => match booted_result(
                    outcome,
                    old(updater).firmware_state().word(),
                ) {
                    Err(error) => result matches Progress::Done(Err(e)) && e == error,
                    Ok(()) => {
                        &&& result matches Progress::Pending(next)
                        &&& next.wf(final(updater))
                        &&& next.stage() matches MarkDfuStage::Mark(marking)
                        &&& marking.stage() == MarkStage::ReadMagic
                    },
                },
                MarkDfuStage::Mark(marking) => match mark_next(
                    old(updater).firmware_state().params(),
                    DFU_DETACH_MAGIC,
                    marking.stage(),
                    outcome,
                    old(updater).firmware_state().buffer(),
                ) {
                    Progress::Done(ended) => result matches Progress::Done(r) && r == ended,
                    Progress::Pending(stage) => {
                        &&& result matches Progress::Pending(next)
                        &&& next.wf(final(updater))
                        &&& next.stage() matches MarkDfuStage::Mark(next_marking)
                        &&& next_marking.stage() == stage
                    },
                },
            },
    {
        match self.stage {
            MarkDfuStage::CheckBooted => match updater.state.verify_booted(outcome) {
                Err(error) => Progress::Done(Err(error)),
                Ok(()) => Progress::Pending(
                    MarkDfu { stage: MarkDfuStage::Mark(updater.state.mark_dfu()) },
                ),
            },
            MarkDfuStage::Mark(marking) => match marking.resume(&mut updater.state, outcome) {
                Progress::Done(ended) => Progress::Done(ended),
                Progress::Pending(next) => Progress::Pending(
                    MarkDfu { stage: MarkDfuStage::Mark(next) },
                ),
            },
        }
    }
}

impl<'d> FirmwareUpdater<'d> {
    /// Mark to trigger USB DFU on next boot.
    pub fn mark_dfu(&self) -> (marking: MarkDfu)
        requires
            self.wf(),
        ensures
            marking.wf(self),
            marking.stage() is CheckBooted,
    {
        MarkDfu { stage: MarkDfuStage::CheckBooted }
    }
}

// ---------------------------------------------------------------------------
// Reading the DFU partition

/// A read of the DFU partition.
#[derive(Debug, Clone, Copy)]
pub struct ReadDfu {
    offset: u32,
    len: usize,
}

impl ReadDfu {
    /// The read that is waited for.
    pub closed spec fn access(&self) -> Access {
        Access::Read { partition: Partition::Dfu, offset: self.offset, len: self.len as nat }
    }

    /// The read that is waited for. It goes to the buffer of the caller.
    pub fn request(&self) -> (request: Request<'static>)
        ensures
            request@ == self.access(),
    {
        Request::Read { partition: Partition::Dfu, offset: self.offset, len: self.len }
    }

    /// Ends with the outcome of the read.
    pub fn resume(self, outcome: Outcome) -> (result: Result<(), FirmwareUpdaterError>)
        ensures
            result == match outcome {
                Ok(()) => Ok(()),
                Err(kind) => Err(FirmwareUpdaterError::Flash(kind)),
            },
    {
        match outcome {
            Ok(()) => Ok(()),
            Err(kind) => Err(FirmwareUpdaterError::Flash(kind)),
        }
    }
}

impl<'d> FirmwareUpdater<'d> {
    /// Read a slice of data from the DFU storage peripheral, starting the read
    /// operation at the given address offset, and reading `len` bytes.
    ///
    /// # Errors
    ///
    /// Ends with an error if the arguments are not aligned or out of bounds.
    pub fn read_dfu(&self, offset: u32, len: usize) -> (reading: ReadDfu)
        ensures
            reading.access() == (Access::Read {
                partition: Partition::Dfu,
                offset,
                len: len as nat,
            }),
    {
        ReadDfu { offset, len }
    }
}

/// An updater that is the same but for its last erased sector has the same partitions and the
/// same buffer.
pub proof fn law_only_the_erased_sector_differs(updater: FirmwareUpdater, other: FirmwareUpdater)
    ensures
        updater.same_but_erased(&other) <==> other.dfu_params() == updater.dfu_params()
            && other.firmware_state().params() == updater.firmware_state().params()
            && other.firmware_state().buffer() == updater.firmware_state().buffer(),
{
}

} // verus!
