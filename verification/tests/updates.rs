//! Updates on two partitions in memory, where any access can be made to fail.

use ed25519_dalek::Signer;
use firmware_updater::config::{FirmwareUpdaterConfig, Region};
use firmware_updater::digest::Digest;
use firmware_updater::ed25519_with_dalek::{DalekSha512, Ed25519Dalek};
use firmware_updater::ed25519_with_salty::{Ed25519Salty, SaltySha512};
use firmware_updater::error::{FirmwareUpdaterError, NorFlashErrorKind, Outcome};
use firmware_updater::firmware_state::{FirmwareState, Marking};
use firmware_updater::firmware_updater::FirmwareUpdater;
use firmware_updater::flash::{NorFlashParams, Partition, Progress, Request};
use firmware_updater::signature::{NoSignature, SignatureScheme};
use firmware_updater::state::{
    is_filled_with, State, BOOT_MAGIC, DFU_DETACH_MAGIC, PROGRESS_MAGIC, REVERT_MAGIC, SWAP_MAGIC,
};

const KINDS: [NorFlashErrorKind; 3] = [
    NorFlashErrorKind::NotAligned,
    NorFlashErrorKind::OutOfBounds,
    NorFlashErrorKind::Other,
];

/// A flash access with the data that it writes.
#[derive(Debug, Clone, PartialEq)]
enum Access {
    Read(Partition, u32, usize),
    Write(Partition, u32, Vec<u8>),
    Erase(Partition, u32, u32),
}

fn access(request: Request) -> Access {
    match request {
        Request::Read { partition, offset, len } => Access::Read(partition, offset, len),
        Request::Write { partition, offset, data } => {
            Access::Write(partition, offset, data.to_vec())
        }
        Request::Erase { partition, from, to } => Access::Erase(partition, from, to),
    }
}

/// Two partitions in memory. Access number `fault.0` fails with `fault.1`.
struct Flashes {
    dfu_params: NorFlashParams,
    state_params: NorFlashParams,
    dfu: Vec<u8>,
    state: Vec<u8>,
    log: Vec<Access>,
    fault: Option<(usize, NorFlashErrorKind)>,
}

fn params(read_size: usize, write_size: usize, erase_size: usize, capacity: usize) -> NorFlashParams {
    const ERASED: [u8; 16] = [0xFF; 16];
    const ERASED_REF: &[u8] = &ERASED;
    NorFlashParams {
        read_size,
        write_size,
        erase_size,
        capacity,
        erase_value: &ERASED_REF[..write_size],
    }
}

fn check(alignment: usize, capacity: usize, offset: u32, len: usize) -> Outcome {
    let offset = offset as usize;
    if offset + len > capacity {
        Err(NorFlashErrorKind::OutOfBounds)
    } else if offset % alignment != 0 || len % alignment != 0 {
        Err(NorFlashErrorKind::NotAligned)
    } else {
        Ok(())
    }
}

impl Flashes {
    fn new(dfu_params: NorFlashParams, state_params: NorFlashParams) -> Self {
        Flashes {
            dfu_params,
            state_params,
            dfu: vec![0xFF; dfu_params.capacity],
            state: vec![0xFF; state_params.capacity],
            log: Vec::new(),
            fault: None,
        }
    }

    /// A DFU partition of 8 sectors of 16 bytes, and a state partition of 2.
    fn small() -> Self {
        Flashes::new(params(1, 4, 16, 128), params(1, 4, 16, 32))
    }

    fn config(&self) -> FirmwareUpdaterConfig<NorFlashParams, NorFlashParams> {
        FirmwareUpdaterConfig { dfu: self.dfu_params, state: self.state_params }
    }

    fn with_magic(mut self, magic: u8) -> Self {
        self.state[..self.state_params.write_size].fill(magic);
        self
    }

    /// Makes an access. A read goes to `buffer`.
    fn perform(&mut self, access: &Access, buffer: &mut [u8]) -> Outcome {
        let number = self.log.len();
        self.log.push(access.clone());
        if let Some((at, kind)) = self.fault {
            if at == number {
                return Err(kind);
            }
        }
        let partition = match access {
            Access::Read(partition, ..) => *partition,
            Access::Write(partition, ..) => *partition,
            Access::Erase(partition, ..) => *partition,
        };
        let (params, bytes) = match partition {
            Partition::Dfu => (self.dfu_params, &mut self.dfu),
            Partition::State => (self.state_params, &mut self.state),
        };
        match access {
            Access::Read(_, offset, len) => {
                check(params.read_size, params.capacity, *offset, *len)?;
                assert_eq!(buffer.len(), *len);
                let offset = *offset as usize;
                buffer.copy_from_slice(&bytes[offset..offset + *len]);
            }
            Access::Write(_, offset, data) => {
                check(params.write_size, params.capacity, *offset, data.len())?;
                let offset = *offset as usize;
                bytes[offset..offset + data.len()].copy_from_slice(data);
            }
            Access::Erase(_, from, to) => {
                if from > to {
                    return Err(NorFlashErrorKind::OutOfBounds);
                }
                check(params.erase_size, params.capacity, *from, (*to - *from) as usize)?;
                bytes[*from as usize..*to as usize].fill(0xFF);
            }
        }
        Ok(())
    }

    fn get_state(&mut self, updater: &mut FirmwareUpdater) -> Result<State, FirmwareUpdaterError> {
        let access = access(updater.state().state_request());
        let read = self.perform(&access, updater.state_mut().aligned_mut());
        updater.get_state(read)
    }

    fn mark(
        &mut self,
        state: &mut FirmwareState,
        mut marking: Marking,
    ) -> Result<(), FirmwareUpdaterError> {
        loop {
            let access = access(marking.request(state));
            let outcome = self.perform(&access, state.aligned_mut());
            match marking.resume(state, outcome) {
                Progress::Pending(next) => marking = next,
                Progress::Done(result) => return result,
            }
        }
    }

    fn mark_updated(&mut self, updater: &mut FirmwareUpdater) -> Result<(), FirmwareUpdaterError> {
        let marking = updater.mark_updated();
        self.mark(updater.state_mut(), marking)
    }

    fn mark_booted(&mut self, updater: &mut FirmwareUpdater) -> Result<(), FirmwareUpdaterError> {
        let marking = updater.mark_booted();
        self.mark(updater.state_mut(), marking)
    }

    fn mark_dfu(&mut self, updater: &mut FirmwareUpdater) -> Result<(), FirmwareUpdaterError> {
        let mut marking = updater.mark_dfu();
        loop {
            let access = access(marking.request(updater));
            let outcome = self.perform(&access, updater.state_mut().aligned_mut());
            match marking.resume(updater, outcome) {
                Progress::Pending(next) => marking = next,
                Progress::Done(result) => return result,
            }
        }
    }

    fn write_firmware(
        &mut self,
        updater: &mut FirmwareUpdater,
        offset: usize,
        data: &[u8],
    ) -> Result<(), FirmwareUpdaterError> {
        let mut writing = updater.write_firmware(offset, data);
        loop {
            let access = access(writing.request(updater));
            let outcome = self.perform(&access, updater.state_mut().aligned_mut());
            assert!(writing.can_resume(updater, outcome));
            match writing.resume(updater, outcome) {
                Progress::Pending(next) => writing = next,
                Progress::Done(result) => return result,
            }
        }
    }

    fn prepare_update(&mut self, updater: &mut FirmwareUpdater) -> Result<(), FirmwareUpdaterError> {
        let mut preparing = updater.prepare_update();
        loop {
            let access = access(preparing.request(updater));
            let outcome = self.perform(&access, updater.state_mut().aligned_mut());
            match preparing.resume(updater, outcome) {
                Progress::Pending(next) => preparing = next,
                Progress::Done(result) => return result,
            }
        }
    }

    fn read_dfu(
        &mut self,
        updater: &FirmwareUpdater,
        offset: u32,
        buffer: &mut [u8],
    ) -> Result<(), FirmwareUpdaterError> {
        let reading = updater.read_dfu(offset, buffer.len());
        let access = access(reading.request());
        let outcome = self.perform(&access, buffer);
        reading.resume(outcome)
    }

    fn hash<D: Digest>(
        &mut self,
        updater: &FirmwareUpdater,
        update_len: u32,
        chunk_len: usize,
    ) -> Result<Vec<u8>, FirmwareUpdaterError> {
        let mut chunk = vec![0; chunk_len];
        let mut hashing = match updater.hash::<D>(update_len, chunk_len) {
            Progress::Pending(hashing) => hashing,
            Progress::Done(digest) => return Ok(digest),
        };
        loop {
            let access = access(hashing.request());
            let outcome = self.perform(&access, &mut chunk);
            match hashing.resume(outcome, &chunk) {
                Progress::Pending(next) => hashing = next,
                Progress::Done(result) => return result,
            }
        }
    }

    fn verify_and_mark_updated<S: SignatureScheme>(
        &mut self,
        updater: &mut FirmwareUpdater,
        public_key: &[u8; 32],
        signature: &[u8; 64],
        update_len: u32,
    ) -> Result<(), FirmwareUpdaterError> {
        let mut chunk = [0; 2];
        let begun = updater.verify_and_mark_updated::<S>(public_key, signature, update_len);
        let mut verifying = match begun {
            Progress::Pending(verifying) => verifying,
            Progress::Done(result) => return result,
        };
        loop {
            let access = access(verifying.request(updater));
            let outcome = if let Access::Read(Partition::Dfu, ..) = access {
                self.perform(&access, &mut chunk)
            } else {
                self.perform(&access, updater.state_mut().aligned_mut())
            };
            match verifying.resume(updater, outcome, &chunk) {
                Progress::Pending(next) => verifying = next,
                Progress::Done(result) => return result,
            }
        }
    }
}

fn read_state(offset: u32, len: usize) -> Access {
    Access::Read(Partition::State, offset, len)
}

fn write_state(offset: u32, data: &[u8]) -> Access {
    Access::Write(Partition::State, offset, data.to_vec())
}

fn write_dfu(offset: u32, data: &[u8]) -> Access {
    Access::Write(Partition::Dfu, offset, data.to_vec())
}

fn erase_dfu(from: u32, to: u32) -> Access {
    Access::Erase(Partition::Dfu, from, to)
}

fn pattern(len: usize) -> Vec<u8> {
    (0..len).map(|i| i as u8).collect()
}

fn bytes<const N: usize>(hex: &str) -> [u8; N] {
    assert_eq!(hex.len(), 2 * N);
    let mut result = [0; N];
    for (i, byte) in result.iter_mut().enumerate() {
        *byte = u8::from_str_radix(&hex[2 * i..2 * i + 2], 16).unwrap();
    }
    result
}

// ---------------------------------------------------------------------------
// The bootloader state

#[test]
fn words_are_decoded_by_their_magic() {
    assert_eq!(State::from(&[SWAP_MAGIC; 4][..]), State::Swap);
    assert_eq!(State::from(&[REVERT_MAGIC; 4][..]), State::Revert);
    assert_eq!(State::from(&[DFU_DETACH_MAGIC; 4][..]), State::DfuDetach);
    assert_eq!(State::from(&[BOOT_MAGIC; 4][..]), State::Boot);
    assert_eq!(State::from(&[PROGRESS_MAGIC; 4][..]), State::Boot);
    assert_eq!(State::from(&[0xFF; 4][..]), State::Boot);
    assert_eq!(State::from(&[SWAP_MAGIC, SWAP_MAGIC, SWAP_MAGIC, 0xFF][..]), State::Boot);
    assert_eq!(State::from(&[REVERT_MAGIC][..]), State::Revert);
}

#[test]
fn a_filled_slice_holds_one_byte_throughout() {
    assert!(is_filled_with(&[7, 7, 7], 7));
    assert!(!is_filled_with(&[7, 7, 8], 7));
    assert!(!is_filled_with(&[8, 7, 7], 7));
    assert!(is_filled_with(&[], 7));
}

#[test]
fn linker_symbols_become_regions() {
    let config = FirmwareUpdaterConfig::from_linkerfile(0x1_0000, 0x2_0000, 0x6000, 0x7000);
    assert_eq!(config.dfu, Region { offset: 0x1_0000, size: 0x1_0000 });
    assert_eq!(config.state, Region { offset: 0x6000, size: 0x1000 });
}

#[test]
fn a_state_partition_takes_a_buffer_of_its_larger_size() {
    assert!(FirmwareState::accepts(&params(1, 4, 16, 32), 4));
    assert!(!FirmwareState::accepts(&params(1, 4, 16, 32), 3));
    assert!(!FirmwareState::accepts(&params(1, 4, 16, 32), 8));
    assert!(FirmwareState::accepts(&params(16, 4, 16, 32), 16));
    assert!(!FirmwareState::accepts(&params(16, 4, 16, 32), 4));
}

#[test]
fn an_erased_word_must_differ_from_every_magic() {
    let with = |erase_value: &'static [u8]| NorFlashParams { erase_value, ..params(1, 4, 16, 32) };
    assert!(FirmwareState::accepts(&with(&[0x00, 0x00, 0x00, 0x00]), 4));
    assert!(FirmwareState::accepts(&with(&[0xF0, 0xF0, 0xF0, 0x00]), 4));
    assert!(!FirmwareState::accepts(&with(&[0xF0, 0xF0, 0xF0, 0xF0]), 4));
    assert!(!FirmwareState::accepts(
        &with(&[PROGRESS_MAGIC, BOOT_MAGIC, DFU_DETACH_MAGIC, REVERT_MAGIC]),
        4
    ));
    assert!(!FirmwareState::accepts(&with(&[]), 4));
}

#[test]
fn the_state_is_read_from_the_first_word() {
    for (magic, expected) in [
        (0xFF, State::Boot),
        (BOOT_MAGIC, State::Boot),
        (SWAP_MAGIC, State::Swap),
        (REVERT_MAGIC, State::Revert),
        (DFU_DETACH_MAGIC, State::DfuDetach),
    ] {
        let mut flashes = Flashes::small().with_magic(magic);
        let mut aligned = [0; 4];
        let mut updater = FirmwareUpdater::new(flashes.config(), &mut aligned);
        assert_eq!(flashes.get_state(&mut updater), Ok(expected));
        assert_eq!(flashes.log, [read_state(0, 4)]);
    }
}

#[test]
fn a_failed_read_of_the_state_is_reported() {
    for kind in KINDS {
        let mut flashes = Flashes::small();
        flashes.fault = Some((0, kind));
        let mut aligned = [0; 4];
        let mut updater = FirmwareUpdater::new(flashes.config(), &mut aligned);
        assert_eq!(flashes.get_state(&mut updater), Err(FirmwareUpdaterError::Flash(kind)));
    }
}

#[test]
fn only_a_marked_swap_is_no_booted_firmware() {
    let flashes = Flashes::small();
    for (magic, expected) in [
        (0xFF, Ok(())),
        (BOOT_MAGIC, Ok(())),
        (SWAP_MAGIC, Err(FirmwareUpdaterError::BadState)),
        (REVERT_MAGIC, Ok(())),
        (DFU_DETACH_MAGIC, Ok(())),
    ] {
        let mut aligned = [magic; 4];
        let state = FirmwareState::from_config(flashes.config(), &mut aligned);
        assert_eq!(state.verify_booted(Ok(())), expected);
        assert_eq!(
            state.verify_booted(Err(NorFlashErrorKind::Other)),
            Err(FirmwareUpdaterError::Flash(NorFlashErrorKind::Other))
        );
    }
}

// ---------------------------------------------------------------------------
// Marking

#[test]
fn marking_voids_progress_erases_and_writes() {
    let mut flashes = Flashes::small();
    let mut aligned = [0; 4];
    let mut updater = FirmwareUpdater::new(flashes.config(), &mut aligned);
    assert_eq!(flashes.mark_updated(&mut updater), Ok(()));
    assert_eq!(
        flashes.log,
        [
            read_state(0, 4),
            read_state(4, 4),
            write_state(4, &[PROGRESS_MAGIC; 4]),
            Access::Erase(Partition::State, 0, 32),
            write_state(0, &[SWAP_MAGIC; 4]),
        ]
    );
    assert_eq!(flashes.state[..4], [0xF0; 4]);
    assert!(flashes.state[4..].iter().all(|&b| b == 0xFF));
}

#[test]
fn void_progress_is_not_voided_again() {
    let mut flashes = Flashes::small();
    flashes.state[4..8].fill(PROGRESS_MAGIC);
    let mut aligned = [0; 4];
    let mut updater = FirmwareUpdater::new(flashes.config(), &mut aligned);
    assert_eq!(flashes.mark_booted(&mut updater), Ok(()));
    assert_eq!(
        flashes.log,
        [
            read_state(0, 4),
            read_state(4, 4),
            Access::Erase(Partition::State, 0, 32),
            write_state(0, &[BOOT_MAGIC; 4]),
        ]
    );
}

#[test]
fn a_wide_read_brings_the_progress_with_the_magic() {
    let mut flashes = Flashes::new(params(1, 4, 16, 128), params(16, 4, 16, 32));
    let mut aligned = [0; 16];
    let mut updater = FirmwareUpdater::new(flashes.config(), &mut aligned);
    assert_eq!(flashes.mark_updated(&mut updater), Ok(()));
    assert_eq!(
        flashes.log,
        [
            read_state(0, 16),
            write_state(4, &[PROGRESS_MAGIC; 4]),
            Access::Erase(Partition::State, 0, 32),
            write_state(0, &[SWAP_MAGIC; 4]),
        ]
    );
    assert_eq!(flashes.get_state(&mut updater), Ok(State::Swap));

    // What follows the progress word does not count.
    flashes.log.clear();
    flashes.state[5] = 0x00;
    assert_eq!(flashes.mark_booted(&mut updater), Ok(()));
    assert_eq!(
        flashes.log,
        [
            read_state(0, 16),
            Access::Erase(Partition::State, 0, 32),
            write_state(0, &[BOOT_MAGIC; 4]),
        ]
    );

    flashes.log.clear();
    flashes.state[8] = 0x00;
    assert_eq!(flashes.mark_updated(&mut updater), Ok(()));
    assert_eq!(flashes.log[1], write_state(4, &[PROGRESS_MAGIC; 4]));
}

#[test]
fn a_wide_read_is_rotated_in_the_buffer() {
    let mut flashes = Flashes::new(params(1, 4, 16, 128), params(16, 4, 16, 32));
    flashes.state[..16].copy_from_slice(&pattern(16));
    flashes.fault = Some((1, NorFlashErrorKind::Other));
    let mut aligned = [0; 16];
    let mut updater = FirmwareUpdater::new(flashes.config(), &mut aligned);
    let failed = Err(FirmwareUpdaterError::Flash(NorFlashErrorKind::Other));
    assert_eq!(flashes.mark_updated(&mut updater), failed);
    assert_eq!(flashes.log[1], Access::Erase(Partition::State, 0, 32));
    assert_eq!(
        updater.state_mut().aligned_mut(),
        [4, 5, 6, 7, 8, 9, 10, 11, 12, 13, 14, 15, 0, 1, 2, 3]
    );

    // Progress that still counts leaves the mark that was to be written.
    flashes.log.clear();
    flashes.state[4..8].fill(0xFF);
    assert_eq!(flashes.mark_updated(&mut updater), failed);
    assert_eq!(flashes.log[1], write_state(4, &[PROGRESS_MAGIC; 4]));
    assert_eq!(updater.state_mut().aligned_mut(), [PROGRESS_MAGIC; 16]);
}

#[test]
fn a_read_of_two_words_is_made_for_the_progress_again() {
    // The second read starts in the middle of a smallest read.
    let mut flashes = Flashes::new(params(1, 4, 16, 128), params(8, 4, 16, 32));
    let mut aligned = [0; 8];
    let mut updater = FirmwareUpdater::new(flashes.config(), &mut aligned);
    assert_eq!(
        flashes.mark_updated(&mut updater),
        Err(FirmwareUpdaterError::Flash(NorFlashErrorKind::NotAligned))
    );
    assert_eq!(flashes.log, [read_state(0, 8), read_state(4, 8)]);
    assert!(flashes.state.iter().all(|&b| b == 0xFF));
}

#[test]
fn marking_what_is_marked_only_reads() {
    let mut flashes = Flashes::small().with_magic(SWAP_MAGIC);
    flashes.state[20] = 0x12;
    let before = flashes.state.clone();
    let mut aligned = [0; 4];
    let mut updater = FirmwareUpdater::new(flashes.config(), &mut aligned);
    assert_eq!(flashes.mark_updated(&mut updater), Ok(()));
    assert_eq!(flashes.log, [read_state(0, 4)]);
    assert_eq!(flashes.state, before);
}

#[test]
fn a_marked_state_is_read_back() {
    let mut flashes = Flashes::small();
    let mut aligned = [0; 4];
    let mut updater = FirmwareUpdater::new(flashes.config(), &mut aligned);
    flashes.mark_updated(&mut updater).unwrap();
    assert_eq!(flashes.get_state(&mut updater), Ok(State::Swap));
    flashes.mark_booted(&mut updater).unwrap();
    assert_eq!(flashes.get_state(&mut updater), Ok(State::Boot));
    flashes.mark_dfu(&mut updater).unwrap();
    assert_eq!(flashes.get_state(&mut updater), Ok(State::DfuDetach));
    let marking = updater.state().set_magic(REVERT_MAGIC);
    flashes.mark(updater.state_mut(), marking).unwrap();
    assert_eq!(flashes.get_state(&mut updater), Ok(State::Revert));
}

#[test]
fn the_state_partition_can_be_used_standalone() {
    let mut flashes = Flashes::small();
    let mut aligned = [0; 4];
    let mut state = FirmwareState::new(flashes.state_params, &mut aligned);
    let marking = state.mark_dfu();
    assert_eq!(flashes.mark(&mut state, marking), Ok(()));
    assert_eq!(flashes.state[..4], [DFU_DETACH_MAGIC; 4]);
    let marking = state.mark_updated();
    assert_eq!(flashes.mark(&mut state, marking), Ok(()));
    assert_eq!(flashes.state[..4], [SWAP_MAGIC; 4]);
    let marking = state.mark_booted();
    assert_eq!(flashes.mark(&mut state, marking), Ok(()));
    assert_eq!(flashes.state[..4], [BOOT_MAGIC; 4]);
}

#[test]
fn marking_that_is_cut_off_leaves_the_old_state_or_boot() {
    for kind in KINDS {
        for (fault, expected) in [
            (0, State::DfuDetach),
            (1, State::DfuDetach),
            (2, State::DfuDetach),
            (3, State::DfuDetach),
            (4, State::Boot),
        ] {
            let mut flashes = Flashes::small().with_magic(DFU_DETACH_MAGIC);
            flashes.fault = Some((fault, kind));
            let mut aligned = [0; 4];
            let mut updater = FirmwareUpdater::new(flashes.config(), &mut aligned);
            assert_eq!(
                flashes.mark_updated(&mut updater),
                Err(FirmwareUpdaterError::Flash(kind))
            );
            assert_eq!(flashes.log.len(), fault + 1);
            assert_eq!(State::from(&flashes.state[..4]), expected);
            if fault == 3 {
                // The progress is void before anything is erased.
                assert_eq!(flashes.state[4..8], [PROGRESS_MAGIC; 4]);
            }
        }
    }
}

#[test]
fn usb_dfu_is_not_requested_while_a_swap_is_marked() {
    let mut flashes = Flashes::small().with_magic(SWAP_MAGIC);
    let before = flashes.state.clone();
    let mut aligned = [0; 4];
    let mut updater = FirmwareUpdater::new(flashes.config(), &mut aligned);
    assert_eq!(flashes.mark_dfu(&mut updater), Err(FirmwareUpdaterError::BadState));
    assert_eq!(flashes.log, [read_state(0, 4)]);
    assert_eq!(flashes.state, before);
}

#[test]
fn a_request_for_usb_dfu_checks_and_marks() {
    let mut flashes = Flashes::small().with_magic(REVERT_MAGIC);
    let mut aligned = [0; 4];
    let mut updater = FirmwareUpdater::new(flashes.config(), &mut aligned);
    assert_eq!(flashes.mark_dfu(&mut updater), Ok(()));
    assert_eq!(
        flashes.log,
        [
            read_state(0, 4),
            read_state(0, 4),
            read_state(4, 4),
            write_state(4, &[PROGRESS_MAGIC; 4]),
            Access::Erase(Partition::State, 0, 32),
            write_state(0, &[DFU_DETACH_MAGIC; 4]),
        ]
    );
    for fault in 0..6 {
        let mut flashes = Flashes::small();
        flashes.fault = Some((fault, NorFlashErrorKind::Other));
        let mut aligned = [0; 4];
        let mut updater = FirmwareUpdater::new(flashes.config(), &mut aligned);
        assert_eq!(
            flashes.mark_dfu(&mut updater),
            Err(FirmwareUpdaterError::Flash(NorFlashErrorKind::Other))
        );
    }
}

#[test]
fn marking_booted_ends_a_swap() {
    let mut flashes = Flashes::small();
    let mut aligned = [0; 4];
    let mut updater = FirmwareUpdater::new(flashes.config(), &mut aligned);
    flashes.mark_updated(&mut updater).unwrap();
    assert_eq!(flashes.prepare_update(&mut updater), Err(FirmwareUpdaterError::BadState));
    flashes.mark_booted(&mut updater).unwrap();
    assert_eq!(flashes.prepare_update(&mut updater), Ok(()));
}

// ---------------------------------------------------------------------------
// Writing

#[test]
fn sectors_are_erased_as_the_data_reach_them() {
    let mut flashes = Flashes::small();
    flashes.dfu.fill(0x5A);
    let data = pattern(24);
    let mut aligned = [0; 4];
    let mut updater = FirmwareUpdater::new(flashes.config(), &mut aligned);
    assert_eq!(flashes.write_firmware(&mut updater, 24, &data), Ok(()));
    assert_eq!(
        flashes.log,
        [
            read_state(0, 4),
            erase_dfu(16, 32),
            write_dfu(24, &data[..8]),
            erase_dfu(32, 48),
            write_dfu(32, &data[8..]),
        ]
    );
    assert!(flashes.dfu[..16].iter().all(|&b| b == 0x5A));
    assert!(flashes.dfu[16..24].iter().all(|&b| b == 0xFF));
    assert_eq!(flashes.dfu[24..48], data[..]);
    assert!(flashes.dfu[48..].iter().all(|&b| b == 0x5A));
}

#[test]
fn the_sector_that_was_erased_last_is_not_erased_again() {
    let mut flashes = Flashes::small();
    let mut aligned = [0; 4];
    let mut updater = FirmwareUpdater::new(flashes.config(), &mut aligned);
    flashes.write_firmware(&mut updater, 0, &[1; 8]).unwrap();
    flashes.log.clear();
    flashes.write_firmware(&mut updater, 8, &[2; 16]).unwrap();
    assert_eq!(
        flashes.log,
        [read_state(0, 4), write_dfu(8, &[2; 8]), erase_dfu(16, 32), write_dfu(16, &[2; 8])]
    );
    // Going back erases, as another sector was erased since.
    flashes.log.clear();
    flashes.write_firmware(&mut updater, 0, &[3; 4]).unwrap();
    assert_eq!(flashes.log, [read_state(0, 4), erase_dfu(0, 16), write_dfu(0, &[3; 4])]);
    assert!(flashes.dfu[4..16].iter().all(|&b| b == 0xFF));
}

#[test]
fn pieces_of_any_size_write_like_the_whole() {
    let data = pattern(96);
    for piece_len in [4, 8, 12, 16, 20, 28, 32, 44, 96] {
        let mut flashes = Flashes::small();
        flashes.dfu.fill(0x5A);
        let mut aligned = [0; 4];
        let mut updater = FirmwareUpdater::new(flashes.config(), &mut aligned);
        let mut offset = 8;
        for piece in data.chunks(piece_len) {
            flashes.write_firmware(&mut updater, offset, piece).unwrap();
            offset += piece.len();
        }
        let mut expected = vec![0x5A; 128];
        expected[..112].fill(0xFF);
        expected[8..104].copy_from_slice(&data);
        assert_eq!(flashes.dfu, expected);
        // Every sector is erased once, in order, whatever the pieces are.
        let erasures: Vec<Access> = flashes
            .log
            .iter()
            .filter(|access| matches!(access, Access::Erase(..)))
            .cloned()
            .collect();
        let expected: Vec<Access> = (0..7).map(|i| erase_dfu(16 * i, 16 * i + 16)).collect();
        assert_eq!(erasures, expected);
    }
}

#[test]
fn a_failed_erasure_is_made_up_for() {
    let mut flashes = Flashes::small();
    flashes.fault = Some((1, NorFlashErrorKind::Other));
    let mut aligned = [0; 4];
    let mut updater = FirmwareUpdater::new(flashes.config(), &mut aligned);
    assert_eq!(
        flashes.write_firmware(&mut updater, 0, &[1; 8]),
        Err(FirmwareUpdaterError::Flash(NorFlashErrorKind::Other))
    );
    flashes.fault = None;
    flashes.log.clear();
    flashes.write_firmware(&mut updater, 0, &[1; 8]).unwrap();
    assert_eq!(flashes.log, [read_state(0, 4), erase_dfu(0, 16), write_dfu(0, &[1; 8])]);
}

#[test]
fn a_failed_write_leaves_its_sector_erased() {
    let mut flashes = Flashes::small();
    flashes.dfu.fill(0x5A);
    flashes.fault = Some((4, NorFlashErrorKind::Other));
    let mut aligned = [0; 4];
    let mut updater = FirmwareUpdater::new(flashes.config(), &mut aligned);
    assert_eq!(
        flashes.write_firmware(&mut updater, 0, &[1; 32]),
        Err(FirmwareUpdaterError::Flash(NorFlashErrorKind::Other))
    );
    assert_eq!(flashes.dfu[..16], [1; 16]);
    assert_eq!(flashes.dfu[16..32], [0xFF; 16]);
    assert!(flashes.dfu[32..].iter().all(|&b| b == 0x5A));
    // The sector was erased, so it is written at once.
    flashes.log.clear();
    flashes.write_firmware(&mut updater, 16, &[1; 16]).unwrap();
    assert_eq!(flashes.log, [read_state(0, 4), write_dfu(16, &[1; 16])]);
}

#[test]
fn nothing_is_written_while_a_swap_is_marked() {
    let mut flashes = Flashes::small().with_magic(SWAP_MAGIC);
    flashes.dfu.fill(0x5A);
    let mut aligned = [0; 4];
    let mut updater = FirmwareUpdater::new(flashes.config(), &mut aligned);
    assert_eq!(
        flashes.write_firmware(&mut updater, 0, &[1; 8]),
        Err(FirmwareUpdaterError::BadState)
    );
    assert_eq!(flashes.prepare_update(&mut updater), Err(FirmwareUpdaterError::BadState));
    assert_eq!(flashes.log, [read_state(0, 4), read_state(0, 4)]);
    assert!(flashes.dfu.iter().all(|&b| b == 0x5A));
}

#[test]
fn no_data_need_no_access_beyond_the_check() {
    let mut flashes = Flashes::small();
    let mut aligned = [0; 4];
    let mut updater = FirmwareUpdater::new(flashes.config(), &mut aligned);
    assert_eq!(flashes.write_firmware(&mut updater, usize::MAX, &[]), Ok(()));
    assert_eq!(flashes.log, [read_state(0, 4)]);
}

#[test]
fn data_must_be_whole_words_in_the_partition() {
    let mut flashes = Flashes::small();
    let mut aligned = [0; 4];
    let mut updater = FirmwareUpdater::new(flashes.config(), &mut aligned);
    assert_eq!(
        flashes.write_firmware(&mut updater, 0, &[1; 7]),
        Err(FirmwareUpdaterError::Flash(NorFlashErrorKind::NotAligned))
    );
    assert_eq!(
        flashes.write_firmware(&mut updater, 2, &[1; 4]),
        Err(FirmwareUpdaterError::Flash(NorFlashErrorKind::NotAligned))
    );
    assert_eq!(
        flashes.write_firmware(&mut updater, 120, &[1; 16]),
        Err(FirmwareUpdaterError::Flash(NorFlashErrorKind::OutOfBounds))
    );
    assert_eq!(flashes.write_firmware(&mut updater, 120, &[1; 8]), Ok(()));
}

#[test]
fn a_sector_without_an_end_is_not_reached() {
    let flashes = Flashes::small();
    let mut aligned = [0xFF; 4];
    let mut updater = FirmwareUpdater::new(flashes.config(), &mut aligned);
    let writing = updater.write_firmware(usize::MAX - 3, &[1; 4]);
    assert!(!writing.can_resume(&updater, Ok(())));
    assert!(writing.can_resume(&updater, Err(NorFlashErrorKind::Other)));
    assert!(matches!(
        writing.resume(&mut updater, Err(NorFlashErrorKind::Other)),
        Progress::Done(Err(FirmwareUpdaterError::Flash(NorFlashErrorKind::Other)))
    ));
    // Where the writing is refused, the sector does not matter.
    updater.state_mut().aligned_mut().fill(SWAP_MAGIC);
    let writing = updater.write_firmware(usize::MAX - 3, &[1; 4]);
    assert!(writing.can_resume(&updater, Ok(())));
    assert!(matches!(
        writing.resume(&mut updater, Ok(())),
        Progress::Done(Err(FirmwareUpdaterError::BadState))
    ));
    // The last sector that a `usize` can tell the end of is another matter.
    updater.state_mut().aligned_mut().fill(BOOT_MAGIC);
    let writing = updater.write_firmware(usize::MAX - 31, &[1; 4]);
    assert!(writing.can_resume(&updater, Ok(())));
}

#[test]
fn a_sector_that_cannot_be_named_leaves_the_partitions() {
    // The end of the sector at this offset is one more than an access can name.
    let mut flashes = Flashes::small();
    let (dfu, state) = (flashes.dfu.clone(), flashes.state.clone());
    let mut aligned = [0; 4];
    let mut updater = FirmwareUpdater::new(flashes.config(), &mut aligned);
    assert_eq!(
        flashes.write_firmware(&mut updater, 0xFFFF_FFF0, &[1; 4]),
        Err(FirmwareUpdaterError::Flash(NorFlashErrorKind::OutOfBounds))
    );
    assert_eq!(flashes.log, [read_state(0, 4), erase_dfu(0xFFFF_FFF0, 0)]);
    assert_eq!(flashes.dfu, dfu);
    assert_eq!(flashes.state, state);
}

#[test]
fn marking_leaves_only_the_magic() {
    let mut flashes = Flashes::small();
    flashes.state.fill(0x5A);
    let mut aligned = [0; 4];
    let mut updater = FirmwareUpdater::new(flashes.config(), &mut aligned);
    assert_eq!(flashes.mark_booted(&mut updater), Ok(()));
    let mut expected = [0xFF; 32];
    expected[..4].fill(BOOT_MAGIC);
    assert_eq!(flashes.state, expected);
}

#[test]
fn preparing_erases_the_whole_partition() {
    let mut flashes = Flashes::small();
    flashes.dfu.fill(0x5A);
    let mut aligned = [0; 4];
    let mut updater = FirmwareUpdater::new(flashes.config(), &mut aligned);
    assert_eq!(flashes.prepare_update(&mut updater), Ok(()));
    assert_eq!(flashes.log, [read_state(0, 4), erase_dfu(0, 128)]);
    assert!(flashes.dfu.iter().all(|&b| b == 0xFF));
    for kind in KINDS {
        for fault in 0..2 {
            let mut flashes = Flashes::small();
            flashes.dfu.fill(0x5A);
            flashes.fault = Some((fault, kind));
            assert_eq!(
                flashes.prepare_update(&mut updater),
                Err(FirmwareUpdaterError::Flash(kind))
            );
            assert!(flashes.dfu.iter().all(|&b| b == 0x5A));
        }
    }
}

// ---------------------------------------------------------------------------
// Reading and digesting

#[test]
fn the_dfu_partition_can_be_read() {
    let mut flashes = Flashes::new(params(4, 4, 16, 128), params(1, 4, 16, 32));
    let mut aligned = [0; 4];
    let mut updater = FirmwareUpdater::new(flashes.config(), &mut aligned);
    flashes.write_firmware(&mut updater, 0, &pattern(32)).unwrap();
    let mut buffer = [0; 8];
    assert_eq!(flashes.read_dfu(&updater, 12, &mut buffer), Ok(()));
    assert_eq!(buffer, [12, 13, 14, 15, 16, 17, 18, 19]);
    assert_eq!(
        flashes.read_dfu(&updater, 10, &mut buffer),
        Err(FirmwareUpdaterError::Flash(NorFlashErrorKind::NotAligned))
    );
    assert_eq!(
        flashes.read_dfu(&updater, 124, &mut buffer),
        Err(FirmwareUpdaterError::Flash(NorFlashErrorKind::OutOfBounds))
    );
}

const SHA512_OF_ABC: &str = "ddaf35a193617abacc417349ae20413112e6fa4e89a97ea20a9eeee64b55d39a\
    2192992a274fc1a836ba3c23a3feebbd454d4423643ce80e2a9ac94fa54ca49f";
const SHA512_OF_NOTHING: &str = "cf83e1357eefb8bdf1542850d66d8007d620e4050b5715dc83f4a921d36ce9ce\
    47d0d13c5d85f2b0ff8318d2877eec2f63b931bd47417a81a538327af927da3e";

#[test]
fn both_hashers_compute_sha512() {
    fn digest<D: Digest>(pieces: &[&[u8]]) -> Vec<u8> {
        let mut digest = D::new();
        for piece in pieces {
            digest.update(piece);
        }
        digest.finalize()
    }
    for (pieces, expected) in [
        (&[b"abc".as_slice()][..], SHA512_OF_ABC),
        (&[b"a".as_slice(), b"bc".as_slice()][..], SHA512_OF_ABC),
        (&[b"ab".as_slice(), b"".as_slice(), b"c".as_slice()][..], SHA512_OF_ABC),
        (&[][..], SHA512_OF_NOTHING),
    ] {
        assert_eq!(digest::<DalekSha512>(pieces), bytes::<64>(expected));
        assert_eq!(digest::<SaltySha512>(pieces), bytes::<64>(expected));
    }
    let long = pattern(1000);
    let halves = [&long[..333], &long[333..]];
    assert_eq!(digest::<DalekSha512>(&[&long]), digest::<SaltySha512>(&halves));
}

#[test]
fn the_digest_is_that_of_the_image_in_any_chunks() {
    let mut flashes = Flashes::small();
    flashes.dfu[..3].copy_from_slice(b"abc");
    let mut aligned = [0; 4];
    let updater = FirmwareUpdater::new(flashes.config(), &mut aligned);
    for chunk_len in [1, 2, 3, 4, 5, 16, 128] {
        assert_eq!(
            flashes.hash::<DalekSha512>(&updater, 3, chunk_len),
            Ok(bytes::<64>(SHA512_OF_ABC).to_vec())
        );
        assert_eq!(
            flashes.hash::<SaltySha512>(&updater, 3, chunk_len),
            Ok(bytes::<64>(SHA512_OF_ABC).to_vec())
        );
    }
}

#[test]
fn an_image_is_read_chunk_by_chunk() {
    let mut flashes = Flashes::small();
    let mut aligned = [0; 4];
    let updater = FirmwareUpdater::new(flashes.config(), &mut aligned);
    flashes.hash::<DalekSha512>(&updater, 7, 3).unwrap();
    assert_eq!(
        flashes.log,
        [
            Access::Read(Partition::Dfu, 0, 3),
            Access::Read(Partition::Dfu, 3, 3),
            Access::Read(Partition::Dfu, 6, 3),
        ]
    );
    flashes.log.clear();
    flashes.hash::<DalekSha512>(&updater, 6, 3).unwrap();
    assert_eq!(flashes.log.len(), 2);
}

#[test]
fn an_empty_image_is_not_read() {
    let mut flashes = Flashes::small();
    let mut aligned = [0; 4];
    let updater = FirmwareUpdater::new(flashes.config(), &mut aligned);
    assert_eq!(
        flashes.hash::<SaltySha512>(&updater, 0, 2),
        Ok(bytes::<64>(SHA512_OF_NOTHING).to_vec())
    );
    assert!(flashes.log.is_empty());
}

#[test]
fn a_failed_read_of_the_image_is_reported() {
    for kind in KINDS {
        let mut flashes = Flashes::small();
        flashes.fault = Some((1, kind));
        let mut aligned = [0; 4];
        let updater = FirmwareUpdater::new(flashes.config(), &mut aligned);
        assert_eq!(
            flashes.hash::<DalekSha512>(&updater, 8, 2),
            Err(FirmwareUpdaterError::Flash(kind))
        );
        assert_eq!(flashes.log.len(), 2);
    }
}

#[test]
fn the_last_chunk_is_read_in_full() {
    let mut flashes = Flashes::small();
    let mut aligned = [0; 4];
    let updater = FirmwareUpdater::new(flashes.config(), &mut aligned);
    assert_eq!(
        flashes.hash::<DalekSha512>(&updater, 128, 48),
        Err(FirmwareUpdaterError::Flash(NorFlashErrorKind::OutOfBounds))
    );
    assert!(flashes.hash::<DalekSha512>(&updater, 128, 32).is_ok());
}

#[test]
fn written_firmware_has_the_digest_of_its_data() {
    let data = pattern(64);
    let mut expected = DalekSha512::new();
    expected.update(&data[..50]);
    let mut flashes = Flashes::small();
    let mut aligned = [0; 4];
    let mut updater = FirmwareUpdater::new(flashes.config(), &mut aligned);
    flashes.write_firmware(&mut updater, 0, &data).unwrap();
    assert_eq!(flashes.hash::<DalekSha512>(&updater, 50, 7), Ok(expected.finalize()));
}

// ---------------------------------------------------------------------------
// Signatures

/// An Ed25519 key pair, and a signature of the SHA-512 digest of `abc`.
const SECRET_KEY: &str = "833fe62409237b9d62ec77587520911e9a759cec1d19755b7da901b96dca3d42";
const SIGNATURE: &str = "dc2a4459e7369633a52b1bf277839a00201009a3efbf3ecb69bea2186c26b589\
    09351fc9ac90b3ecfdfbc7c66431e0303dca179c138ac17ad9bef1177331a704";

fn public_key() -> [u8; 32] {
    ed25519_dalek::SigningKey::from_bytes(&bytes(SECRET_KEY)).verifying_key().to_bytes()
}

/// The bytes of no point on the curve.
fn no_key() -> [u8; 32] {
    let mut key = [0; 32];
    key[0] = 2;
    key
}

fn with_abc() -> Flashes {
    let mut flashes = Flashes::small();
    flashes.dfu[..3].copy_from_slice(b"abc");
    flashes
}

fn check_signed_image<S: SignatureScheme>() {
    let mut flashes = with_abc();
    let mut aligned = [0; 4];
    let mut updater = FirmwareUpdater::new(flashes.config(), &mut aligned);
    assert_eq!(
        flashes.verify_and_mark_updated::<S>(&mut updater, &public_key(), &bytes(SIGNATURE), 3),
        Ok(())
    );
    assert_eq!(
        flashes.log,
        [
            read_state(0, 4),
            Access::Read(Partition::Dfu, 0, 2),
            Access::Read(Partition::Dfu, 2, 2),
            read_state(0, 4),
            read_state(4, 4),
            write_state(4, &[PROGRESS_MAGIC; 4]),
            Access::Erase(Partition::State, 0, 32),
            write_state(0, &[SWAP_MAGIC; 4]),
        ]
    );
    assert_eq!(flashes.get_state(&mut updater), Ok(State::Swap));
    assert_eq!(flashes.dfu, with_abc().dfu);
}

#[test]
fn a_signed_image_is_marked_by_dalek() {
    check_signed_image::<Ed25519Dalek>();
}

#[test]
fn a_signed_image_is_marked_by_salty() {
    check_signed_image::<Ed25519Salty>();
}

fn check_rejected_image<S: SignatureScheme>(
    image: &[u8],
    public_key: &[u8; 32],
    signature: &[u8; 64],
    accesses: usize,
) {
    let mut flashes = Flashes::small();
    flashes.dfu[..image.len()].copy_from_slice(image);
    let (dfu, state) = (flashes.dfu.clone(), flashes.state.clone());
    let mut aligned = [0; 4];
    let mut updater = FirmwareUpdater::new(flashes.config(), &mut aligned);
    assert_eq!(
        flashes.verify_and_mark_updated::<S>(
            &mut updater,
            public_key,
            signature,
            image.len() as u32
        ),
        Err(FirmwareUpdaterError::Signature)
    );
    assert_eq!(flashes.log.len(), accesses);
    assert_eq!(flashes.dfu, dfu);
    assert_eq!(flashes.state, state);
}

fn check_rejections<S: SignatureScheme>() {
    let signature = bytes::<64>(SIGNATURE);
    check_rejected_image::<S>(b"abd", &public_key(), &signature, 3);
    check_rejected_image::<S>(b"ab", &public_key(), &signature, 2);
    check_rejected_image::<S>(b"", &public_key(), &signature, 1);
    let mut wrong = signature;
    wrong[0] ^= 1;
    check_rejected_image::<S>(b"abc", &public_key(), &wrong, 3);
    let other = ed25519_dalek::SigningKey::from_bytes(&[7; 32]).verifying_key().to_bytes();
    check_rejected_image::<S>(b"abc", &other, &signature, 3);
    // Bytes that are no key are rejected before the image is read.
    check_rejected_image::<S>(b"abc", &no_key(), &signature, 1);
}

#[test]
fn unsigned_images_are_rejected_by_dalek() {
    check_rejections::<Ed25519Dalek>();
}

#[test]
fn unsigned_images_are_rejected_by_salty() {
    check_rejections::<Ed25519Salty>();
}

#[test]
fn keys_are_checked_on_their_own() {
    assert_eq!(Ed25519Dalek::check_key(&public_key()), Ok(()));
    assert_eq!(Ed25519Dalek::check_key(&no_key()), Err(FirmwareUpdaterError::Signature));
    assert_eq!(Ed25519Salty::check_key(&public_key()), Ok(()));
    assert_eq!(Ed25519Salty::check_key(&no_key()), Err(FirmwareUpdaterError::Signature));
}

#[test]
fn an_empty_image_can_be_signed() {
    let key = ed25519_dalek::SigningKey::from_bytes(&[9; 32]);
    let signature = key.sign(&bytes::<64>(SHA512_OF_NOTHING)).to_bytes();
    let public_key = key.verifying_key().to_bytes();
    let mut flashes = Flashes::small();
    let mut aligned = [0; 4];
    let mut updater = FirmwareUpdater::new(flashes.config(), &mut aligned);
    assert_eq!(
        flashes.verify_and_mark_updated::<Ed25519Salty>(&mut updater, &public_key, &signature, 0),
        Ok(())
    );
    assert_eq!(flashes.get_state(&mut updater), Ok(State::Swap));
    assert!(flashes.log.iter().all(|access| !matches!(access, Access::Read(Partition::Dfu, ..))));
}

#[test]
fn without_signatures_every_image_is_rejected() {
    assert!(!NoSignature::is_enabled());
    assert!(Ed25519Dalek::is_enabled());
    assert!(Ed25519Salty::is_enabled());
    for magic in [BOOT_MAGIC, SWAP_MAGIC] {
        let mut flashes = with_abc().with_magic(magic);
        let mut aligned = [0; 4];
        let mut updater = FirmwareUpdater::new(flashes.config(), &mut aligned);
        assert_eq!(
            flashes.verify_and_mark_updated::<NoSignature>(
                &mut updater,
                &public_key(),
                &bytes(SIGNATURE),
                3
            ),
            Err(FirmwareUpdaterError::Signature)
        );
        assert!(flashes.log.is_empty());
    }
}

#[test]
fn no_image_is_marked_while_a_swap_is_marked() {
    for key in [public_key(), no_key()] {
        let mut flashes = with_abc().with_magic(SWAP_MAGIC);
        let mut aligned = [0; 4];
        let mut updater = FirmwareUpdater::new(flashes.config(), &mut aligned);
        assert_eq!(
            flashes.verify_and_mark_updated::<Ed25519Dalek>(
                &mut updater,
                &key,
                &bytes(SIGNATURE),
                3
            ),
            Err(FirmwareUpdaterError::BadState)
        );
        assert_eq!(flashes.log, [read_state(0, 4)]);
    }
}

#[test]
fn every_access_of_a_check_can_fail() {
    for fault in 0..8 {
        let mut flashes = with_abc();
        flashes.fault = Some((fault, NorFlashErrorKind::Other));
        let mut aligned = [0; 4];
        let mut updater = FirmwareUpdater::new(flashes.config(), &mut aligned);
        assert_eq!(
            flashes.verify_and_mark_updated::<Ed25519Dalek>(
                &mut updater,
                &public_key(),
                &bytes(SIGNATURE),
                3
            ),
            Err(FirmwareUpdaterError::Flash(NorFlashErrorKind::Other))
        );
        assert_eq!(flashes.log.len(), fault + 1);
        assert_ne!(State::from(&flashes.state[..4]), State::Swap);
        assert_eq!(flashes.dfu, with_abc().dfu);
        if fault <= 5 {
            // Nothing was written before the image was read and the state looked at.
            assert_eq!(flashes.state, with_abc().state);
        }
    }
}
