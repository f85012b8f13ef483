//! The state partition: reading the bootloader state and marking a new one.

use vstd::prelude::*;

use crate::config::FirmwareUpdaterConfig;
use crate::error::{FirmwareUpdaterError, Outcome};
use crate::flash::{Access, NorFlashParams, Partition, Progress, Request};
use crate::state::{
    decode_state, fill_of, filled_with, is_filled_with, is_magic, State, BOOT_MAGIC,
    DFU_DETACH_MAGIC, PROGRESS_MAGIC, REVERT_MAGIC, SWAP_MAGIC,
};

verus! {

/// An erased word holds a byte that is no magic, so it is mistaken for none.
pub open spec fn erase_value_is_distinct(erase_value: Seq<u8>) -> bool {
    exists|i: int| 0 <= i < erase_value.len() && !is_magic(#[trigger] erase_value[i])
}

/// The access by which the bootloader state is read.
pub open spec fn state_read(params: NorFlashParams) -> Access {
    Access::Read { partition: Partition::State, offset: 0, len: params.buffer_len() }
}

/// What reading the state ends with, where `word` is what the read brought.
pub open spec fn state_result(read: Outcome, word: Seq<u8>) -> Result<State, FirmwareUpdaterError> {
    match read {
        Err(kind) => Err(FirmwareUpdaterError::Flash(kind)),
        Ok(()) => Ok(decode_state(word)),
    }
}

/// What the check that the running firmware has been booted ends with.
pub open spec fn booted_result(read: Outcome, word: Seq<u8>) -> Result<(), FirmwareUpdaterError> {
    match state_result(read, word) {
        Err(error) => Err(error),
        Ok(State::Swap) => Err(FirmwareUpdaterError::BadState),
        Ok(_) => Ok(()),
    }
}

/// Manages the state partition of the firmware update.
///
/// Can be used standalone for more fine grained control, or as part of the updater.
pub struct FirmwareState<'d> {
    state: NorFlashParams,
    aligned: &'d mut [u8],
}

impl<'d> FirmwareState<'d> {
    /// The dimensions of the state partition.
    pub closed spec fn params(&self) -> NorFlashParams {
        self.state
    }

    /// What the buffer holds.
    pub closed spec fn buffer(&self) -> Seq<u8> {
        self.aligned@
    }

    /// The first word in the buffer.
    pub open spec fn word(&self) -> Seq<u8> {
        self.buffer().subrange(0, self.params().write_size as int)
    }

    /// The buffer takes a word and a smallest read, and an erased word can be
    /// told from a marked one.
    pub open spec fn wf(&self) -> bool {
        &&& self.buffer().len() == self.params().buffer_len()
        &&& erase_value_is_distinct(self.params().erase_value@)
    }

    /// Create a firmware state instance from a FirmwareUpdaterConfig with a buffer for magic
    /// content and state partition.
    ///
    /// The `aligned` buffer has the larger of the state partition's write and read size, and
    /// follows the alignment rules of that flash.
    pub fn from_config<DFU>(
        config: FirmwareUpdaterConfig<DFU, NorFlashParams>,
        aligned: &'d mut [u8],
    ) -> (result: Self)
        requires
            old(aligned)@.len() == config.state.buffer_len(),
            erase_value_is_distinct(config.state.erase_value@),
        ensures
            result.wf(),
            result.params() == config.state,
            result.buffer() == old(aligned)@,
    {
        Self::new(config.state, aligned)
    }

    /// Create a firmware state instance with a buffer for magic content and state partition.
    ///
    /// The `aligned` buffer has the larger of the state partition's write and read size, and
    /// follows the alignment rules of that flash. At least one byte of an erased word is none
    /// of the magic bytes.
    pub fn new(state: NorFlashParams, aligned: &'d mut [u8]) -> (result: Self)
        requires
            old(aligned)@.len() == state.buffer_len(),
            erase_value_is_distinct(state.erase_value@),
        ensures
            result.wf(),
            result.params() == state,
            result.buffer() == old(aligned)@,
    {
        FirmwareState { state, aligned }
    }

    /// Whether [`Self::new`] takes a buffer of `aligned_len` bytes for a partition of these
    /// dimensions.
    pub fn accepts(state: &NorFlashParams, aligned_len: usize) -> (result: bool)
        ensures
            result == (aligned_len == state.buffer_len() && erase_value_is_distinct(
                state.erase_value@,
            )),
    {
        let buffer_len: usize = if state.write_size >= state.read_size {
            state.write_size
        } else {
            state.read_size
        };
        let erase_value: &[u8] = state.erase_value;
        let mut i: usize = 0;
        while i < erase_value.len()
            invariant
                i <= erase_value.len(),
                erase_value@ == state.erase_value@,
                buffer_len == state.buffer_len(),
                forall|j: int| 0 <= j < i ==> is_magic(#[trigger] erase_value@[j]),
            decreases erase_value.len() - i,
        {
            let b: u8 = erase_value[i];
            if !(b == PROGRESS_MAGIC || b == BOOT_MAGIC || b == SWAP_MAGIC || b == DFU_DETACH_MAGIC
                || b == REVERT_MAGIC) {
                assert(!is_magic(state.erase_value@[i as int]));
                return aligned_len == buffer_len;
            }
            i = i + 1;
        }
        false
    }

    /// The buffer that a read of the state partition fills.
    pub fn aligned_mut(&mut self) -> (buffer: &mut [u8])
        ensures
            buffer@ == old(self).buffer(),
            final(self).params() == old(self).params(),
            final(self).buffer() == final(buffer)@,
    {
        &mut *self.aligned
    }

    /// The read that [`Self::get_state`] and [`Self::verify_booted`] judge.
    pub fn state_request(&self) -> (request: Request<'static>)
        requires
            self.wf(),
        ensures
            request@ == state_read(self.params()),
    {
        Request::Read { partition: Partition::State, offset: 0, len: self.aligned.len() }
    }

    /// The first word in the buffer.
    fn first_word(&self) -> (word: &[u8])
        requires
            self.wf(),
        ensures
            word@ == self.word(),
    {
        vstd::slice::slice_subrange(&*self.aligned, 0, self.state.write_size)
    }

    /// Obtain the current state from the outcome of [`Self::state_request`].
    ///
    /// This is useful to check if the bootloader has just done a swap, in order
    /// to do verifications and self-tests of the new image before calling
    /// `mark_booted`.
    pub fn get_state(&self, read: Outcome) -> (result: Result<State, FirmwareUpdaterError>)
        requires
            self.wf(),
        ensures
            result == state_result(read, self.word()),
    {
        match read {
            Err(kind) => Err(FirmwareUpdaterError::Flash(kind)),
            Ok(()) => Ok(State::from(self.first_word())),
        }
    }

    /// Make sure we are running a booted firmware to avoid reverting to a bad state.
    pub fn verify_booted(&self, read: Outcome) -> (result: Result<(), FirmwareUpdaterError>)
        requires
            self.wf(),
        ensures
            result == booted_result(read, self.word()),
    {
        match self.get_state(read) {
            Err(error) => Err(error),
            Ok(state) => {
                if state == State::Boot || state == State::DfuDetach || state == State::Revert {
                    Ok(())
                } else {
                    Err(FirmwareUpdaterError::BadState)
                }
            },
        }
    }
}

/// Which flash access a [`Marking`] waits for.
#[derive(Debug, Clone, Copy, PartialEq, Eq, Structural)]
pub enum MarkStage {
    /// The read of the current magic.
    ReadMagic,
    /// The read of the progress word.
    ReadProgress,
    /// The write that makes the progress void.
    InvalidateProgress,
    /// The erasure of magic and progress.
    Erase,
    /// The write of the new magic.
    WriteMagic,
}

/// The access that marking waits for.
pub open spec fn mark_access(params: NorFlashParams, magic: u8, stage: MarkStage) -> Access {
    let word_len = params.write_size as nat;
    match stage {
        MarkStage::ReadMagic => state_read(params),
        MarkStage::ReadProgress => Access::Read {
            partition: Partition::State,
            offset: params.write_size as u32,
            len: params.buffer_len(),
        },
        MarkStage::InvalidateProgress => Access::Write {
            partition: Partition::State,
            offset: params.write_size as u32,
            data: fill_of(PROGRESS_MAGIC, word_len),
        },
        MarkStage::Erase => Access::Erase {
            partition: Partition::State,
            from: 0,
            to: params.capacity as u32,
        },
        MarkStage::WriteMagic => Access::Write {
            partition: Partition::State,
            offset: 0,
            data: fill_of(magic, word_len),
        },
    }
}

/// The step after the progress word is known: progress that still counts is
/// made void before anything is erased.
pub open spec fn after_progress(params: NorFlashParams, progress: Seq<u8>) -> MarkStage {
    if progress == params.erase_value@ {
        MarkStage::InvalidateProgress
    } else {
        MarkStage::Erase
    }
}

/// How marking goes on after an access. `buffer` is what a read brought.
///
/// Nothing is written where the magic is there already. A read that brought
/// more than two words brought the progress word with the magic, and it is not
/// read again.
pub open spec fn mark_next(
    params: NorFlashParams,
    magic: u8,
    stage: MarkStage,
    outcome: Outcome,
    buffer: Seq<u8>,
) -> Progress<MarkStage, Result<(), FirmwareUpdaterError>> {
    let word_len = params.write_size as int;
    if outcome is Err {
        Progress::Done(Err(FirmwareUpdaterError::Flash(outcome->Err_0)))
    } else {
        match stage {
            MarkStage::ReadMagic => if filled_with(buffer.subrange(0, word_len), magic) {
                Progress::Done(Ok(()))
            } else if params.read_size <= 2 * params.write_size {
                Progress::Pending(MarkStage::ReadProgress)
            } else {
                Progress::Pending(after_progress(params, buffer.subrange(word_len, 2 * word_len)))
            },
            MarkStage::ReadProgress => Progress::Pending(
                after_progress(params, buffer.subrange(0, word_len)),
            ),
            MarkStage::InvalidateProgress => Progress::Pending(MarkStage::Erase),
            MarkStage::Erase => Progress::Pending(MarkStage::WriteMagic),
            MarkStage::WriteMagic => Progress::Done(Ok(())),
        }
    }
}

/// The buffer with its first `count` bytes moved behind all others.
pub open spec fn rotated(buffer: Seq<u8>, count: int) -> Seq<u8> {
    buffer.skip(count) + buffer.take(count)
}

/// The buffer once the progress word in its front is known: it holds the void mark where that is
/// about to be written, and is as it was where it is not.
pub open spec fn progress_buffer(params: NorFlashParams, buffer: Seq<u8>) -> Seq<u8> {
    if buffer.subrange(0, params.write_size as int) == params.erase_value@ {
        fill_of(PROGRESS_MAGIC, buffer.len())
    } else {
        buffer
    }
}

/// What the buffer holds once marking goes on, or ends, after an access. `buffer` is what it held
/// after that access.
///
/// A read that brought the progress word with the magic is rotated, so that the progress word
/// comes to the front.
pub open spec fn mark_buffer(
    params: NorFlashParams,
    magic: u8,
    stage: MarkStage,
    outcome: Outcome,
    buffer: Seq<u8>,
) -> Seq<u8> {
    let word_len = params.write_size as int;
    if outcome is Err {
        buffer
    } else {
        match stage {
            MarkStage::ReadMagic => if filled_with(buffer.subrange(0, word_len), magic)
                || params.read_size <= 2 * params.write_size {
                buffer
            } else {
                progress_buffer(params, rotated(buffer, word_len))
            },
            MarkStage::ReadProgress => progress_buffer(params, buffer),
            MarkStage::InvalidateProgress => buffer,
            MarkStage::Erase => fill_of(magic, buffer.len()),
            MarkStage::WriteMagic => buffer,
        }
    }
}

/// A state being marked: the magic to be set, and how far that has come.
#[derive(Debug, Clone, Copy)]
pub struct Marking {
    magic: u8,
    stage: MarkStage,
}

impl Marking {
    /// The magic to be set.
    pub closed spec fn magic(&self) -> u8 {
        self.magic
    }

    /// The access that is waited for.
    pub closed spec fn stage(&self) -> MarkStage {
        self.stage
    }

    /// What is about to be written lies in the buffer of `state`.
    pub open spec fn wf(&self, state: &FirmwareState) -> bool {
        &&& state.wf()
        &&& self.stage() == MarkStage::InvalidateProgress ==> filled_with(
            state.buffer(),
            PROGRESS_MAGIC,
        )
        &&& self.stage() == MarkStage::WriteMagic ==> filled_with(state.buffer(), self.magic())
    }

    /// The access that is waited for. A read goes to [`FirmwareState::aligned_mut`].
    pub fn request<'s>(&self, state: &'s FirmwareState<'_>) -> (request: Request<'s>)
        requires
            self.wf(state),
        ensures
            request@ == mark_access(state.params(), self.magic(), self.stage()),
    {
        let partition = Partition::State;
        let word_len: usize = state.state.write_size;
        let request = match self.stage {
            MarkStage::ReadMagic => state.state_request(),
            MarkStage::ReadProgress => Request::Read {
                partition,
                offset: word_len as u32,
                len: state.aligned.len(),
            },
            MarkStage::InvalidateProgress => Request::Write {
                partition,
                offset: word_len as u32,
                data: state.first_word(),
            },
            MarkStage::Erase => Request::Erase {
                partition,
                from: 0,
                to: state.state.capacity as u32,
            },
            MarkStage::WriteMagic => Request::Write {
                partition,
                offset: 0,
                data: state.first_word(),
            },
        };
        assert(request@ =~= mark_access(state.params(), self.magic(), self.stage()));
        request
    }

    /// Goes on after the access that was waited for.
    pub fn resume(self, state: &mut FirmwareState<'_>, outcome: Outcome) -> (result: Progress<
        Marking,
        Result<(), FirmwareUpdaterError>,
    >)
        requires
            self.wf(old(state)),
        ensures
            final(state).wf(),
            final(state).params() == old(state).params(),
            final(state).buffer() == mark_buffer(
                old(state).params(),
                self.magic(),
                self.stage(),
                outcome,
                old(state).buffer(),
            ),
            match mark_next(
                old(state).params(),
                self.magic(),
                self.stage(),
                outcome,
                old(state).buffer(),
            ) {
                Progress::Done(ended) => result == Progress::<Marking, _>::Done(ended),
                Progress::Pending(stage) => {
                    &&& result matches Progress::Pending(next)
                    &&& next.stage() == stage
                    &&& next.magic() == self.magic()
                    &&& next.wf(final(state))
                },
            },
    {
        match outcome {
            Err(kind) => {
                return Progress::Done(Err(FirmwareUpdaterError::Flash(kind)));
            },
            Ok(()) => {},
        }
        let word_len: usize = state.state.write_size;
        let stage = match self.stage {
            MarkStage::ReadMagic => {
                if is_filled_with(state.first_word(), self.magic) {
                    return Progress::Done(Ok(()));
                }
                let read_len: usize = state.state.read_size;
                if read_len <= word_len || read_len - word_len <= word_len {
                    MarkStage::ReadProgress
                } else {
                    state.rotate_left(word_len);
                    assert(state.word() =~= old(state).buffer().subrange(
                        word_len as int,
                        2 * word_len,
                    ));
                    state.begin_erasure()
                }
            },
            MarkStage::ReadProgress => state.begin_erasure(),
            MarkStage::InvalidateProgress => MarkStage::Erase,
            MarkStage::Erase => {
                state.fill(self.magic);
                MarkStage::WriteMagic
            },
            MarkStage::WriteMagic => {
                return Progress::Done(Ok(()));
            },
        };
        Progress::Pending(Marking { magic: self.magic, stage })
    }
}

impl<'d> FirmwareState<'d> {
    /// Fills the buffer.
    fn fill(&mut self, value: u8)
        ensures
            final(self).params() == old(self).params(),
            final(self).buffer() == fill_of(value, old(self).buffer().len()),
    {
        let len: usize = self.aligned.len();
        let mut i: usize = 0;
        while i < len
            invariant
                i <= len,
                len == self.aligned@.len(),
                len == old(self).buffer().len(),
                self.state == old(self).state,
                forall|j: int| 0 <= j < i ==> self.aligned@[j] == value,
            decreases len - i,
        {
            self.aligned[i] = value;
            i = i + 1;
        }
        assert(self.buffer() =~= fill_of(value, old(self).buffer().len()));
    }

    /// Reverses the bytes of the buffer from `from` up to, but without, `to`.
    fn reverse(&mut self, from: usize, to: usize)
        requires
            from <= to <= old(self).buffer().len(),
        ensures
            final(self).params() == old(self).params(),
            final(self).buffer() == Seq::new(
                old(self).buffer().len(),
                |i: int|
                    if from <= i < to {
                        old(self).buffer()[from + to - 1 - i]
                    } else {
                        old(self).buffer()[i]
                    },
            ),
    {
        let ghost before = self.aligned@;
        let len: usize = self.aligned.len();
        let mut low: usize = from;
        let mut high: usize = to;
        while low < high
            invariant
                from <= low,
                high <= to <= len,
                low <= high + 1,
                low + high == from + to,
                before.len() == len,
                self.aligned@.len() == len,
                self.state == old(self).state,
                forall|i: int|
                    0 <= i < len ==> self.aligned@[i] == if from <= i < low || high <= i < to {
                        before[from + to - 1 - i]
                    } else {
                        before[i]
                    },
            decreases high - from,
        {
            high = high - 1;
            let byte: u8 = self.aligned[low];
            let other: u8 = self.aligned[high];
            self.aligned[low] = other;
            self.aligned[high] = byte;
            low = low + 1;
        }
        assert(self.buffer() =~= Seq::new(
            before.len(),
            |i: int|
                if from <= i < to {
                    before[from + to - 1 - i]
                } else {
                    before[i]
                },
        ));
    }

    /// Rotates the buffer, so that its first `count` bytes come behind all others.
    fn rotate_left(&mut self, count: usize)
        requires
            old(self).wf(),
            count <= old(self).buffer().len(),
        ensures
            final(self).wf(),
            final(self).params() == old(self).params(),
            final(self).buffer() == rotated(old(self).buffer(), count as int),
    {
        let len: usize = self.aligned.len();
        self.reverse(0, count);
        self.reverse(count, len);
        self.reverse(0, len);
        assert(self.buffer() =~= rotated(old(self).buffer(), count as int));
    }

    /// The step after the progress word was read into the front of the buffer. Where progress
    /// is to be made void, the buffer is filled with the void mark.
    fn begin_erasure(&mut self) -> (stage: MarkStage)
        requires
            old(self).wf(),
        ensures
            final(self).wf(),
            final(self).params() == old(self).params(),
            stage == after_progress(old(self).params(), old(self).word()),
            final(self).buffer() == progress_buffer(old(self).params(), old(self).buffer()),
    {
        if is_same(self.first_word(), self.state.erase_value) {
            self.fill(PROGRESS_MAGIC);
            MarkStage::InvalidateProgress
        } else {
            // The current progress validity marker is invalid
            MarkStage::Erase
        }
    }

    /// Begins to set `magic`.
    pub fn set_magic(&self, magic: u8) -> (marking: Marking)
        requires
            self.wf(),
        ensures
            marking.wf(self),
            marking.magic() == magic,
            marking.stage() == MarkStage::ReadMagic,
    {
        Marking { magic, stage: MarkStage::ReadMagic }
    }

    /// Mark to trigger firmware swap on next boot.
    pub fn mark_updated(&self) -> (marking: Marking)
        requires
            self.wf(),
        ensures
            marking.wf(self),
            marking.magic() == SWAP_MAGIC,
            marking.stage() == MarkStage::ReadMagic,
    {
        self.set_magic(SWAP_MAGIC)
    }

    /// Mark to trigger USB DFU on next boot.
    pub fn mark_dfu(&self) -> (marking: Marking)
        requires
            self.wf(),
        ensures
            marking.wf(self),
            marking.magic() == DFU_DETACH_MAGIC,
            marking.stage() == MarkStage::ReadMagic,
    {
        self.set_magic(DFU_DETACH_MAGIC)
    }

    /// Mark firmware boot successful and stop rollback on reset.
    pub fn mark_booted(&self) -> (marking: Marking)
        requires
            self.wf(),
        ensures
            marking.wf(self),
            marking.magic() == BOOT_MAGIC,
            marking.stage() == MarkStage::ReadMagic,
    {
        self.set_magic(BOOT_MAGIC)
    }
}

/// Whether two byte strings are equal.
fn is_same(a: &[u8], b: &[u8]) -> (result: bool)
    ensures
        result == (a@ == b@),
{
    if a.len() != b.len() {
        return false;
    }
    let mut i: usize = 0;
    while i < a.len()
        invariant
            i <= a.len(),
            a.len() == b.len(),
            forall|j: int| 0 <= j < i ==> a@[j] == b@[j],
        decreases a.len() - i,
    {
        if a[i] != b[i] {
            return false;
        }
        i = i + 1;
    }
    assert(a@ =~= b@);
    true
}

} // verus!
