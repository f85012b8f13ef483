//! Updates on partitions of one flash behind a mutex.

use embassy_embedded_hal::flash::partition::Partition as FlashPartition;
use embassy_sync::blocking_mutex::raw::NoopRawMutex;
use embassy_sync::mutex::Mutex;
use embedded_storage_async::nor_flash::{
    ErrorType, NorFlash, NorFlashError, NorFlashErrorKind, ReadNorFlash,
};
use firmware_updater::config::FirmwareUpdaterConfig;
use firmware_updater::digest::Digest as FirmwareDigest;
use firmware_updater::error::{FirmwareUpdaterError, NorFlashErrorKind as Kind, Outcome};
use firmware_updater::firmware_updater::FirmwareUpdater;
use firmware_updater::flash::{NorFlashParams, Partition, Progress, Request};
use firmware_updater::state::State;
use futures::executor::block_on;
use sha1::{Digest, Sha1};

/// Checks that a range lies in a flash of `size` bytes and is aligned.
fn check(size: usize, align: usize, offset: u32, len: usize) -> Result<(), NorFlashErrorKind> {
    let offset = offset as usize;
    if offset + len > size {
        Err(NorFlashErrorKind::OutOfBounds)
    } else if offset % align != 0 || len % align != 0 {
        Err(NorFlashErrorKind::NotAligned)
    } else {
        Ok(())
    }
}

/// A flash in memory. A write to bytes that are not erased is a mistake of the test.
struct MemFlash<const SIZE: usize, const ERASE_SIZE: usize, const WRITE_SIZE: usize> {
    mem: Vec<u8>,
}

impl<const SIZE: usize, const ERASE_SIZE: usize, const WRITE_SIZE: usize> Default
    for MemFlash<SIZE, ERASE_SIZE, WRITE_SIZE>
{
    fn default() -> Self {
        MemFlash { mem: vec![0xFF; SIZE] }
    }
}

impl<const SIZE: usize, const ERASE_SIZE: usize, const WRITE_SIZE: usize> ErrorType
    for MemFlash<SIZE, ERASE_SIZE, WRITE_SIZE>
{
    type Error = NorFlashErrorKind;
}

impl<const SIZE: usize, const ERASE_SIZE: usize, const WRITE_SIZE: usize> ReadNorFlash
    for MemFlash<SIZE, ERASE_SIZE, WRITE_SIZE>
{
    const READ_SIZE: usize = 1;

    async fn read(&mut self, offset: u32, bytes: &mut [u8]) -> Result<(), Self::Error> {
        check(SIZE, Self::READ_SIZE, offset, bytes.len())?;
        let offset = offset as usize;
        bytes.copy_from_slice(&self.mem[offset..offset + bytes.len()]);
        Ok(())
    }

    fn capacity(&self) -> usize {
        SIZE
    }
}

impl<const SIZE: usize, const ERASE_SIZE: usize, const WRITE_SIZE: usize> NorFlash
    for MemFlash<SIZE, ERASE_SIZE, WRITE_SIZE>
{
    const WRITE_SIZE: usize = WRITE_SIZE;
    const ERASE_SIZE: usize = ERASE_SIZE;

    async fn erase(&mut self, from: u32, to: u32) -> Result<(), Self::Error> {
        check(SIZE, ERASE_SIZE, from, (to - from) as usize)?;
        self.mem[from as usize..to as usize].fill(0xFF);
        Ok(())
    }

    async fn write(&mut self, offset: u32, bytes: &[u8]) -> Result<(), Self::Error> {
        check(SIZE, WRITE_SIZE, offset, bytes.len())?;
        let offset = offset as usize;
        let target = &mut self.mem[offset..offset + bytes.len()];
        assert!(target.iter().all(|&b| b == 0xFF), "offset {} is not erased", offset);
        target.copy_from_slice(bytes);
        Ok(())
    }
}

/// A SHA-1 hasher for the updater.
struct Sha1Hasher(Sha1);

impl FirmwareDigest for Sha1Hasher {
    fn new() -> Self {
        Sha1Hasher(Sha1::new())
    }

    fn update(&mut self, data: &[u8]) {
        Digest::update(&mut self.0, data)
    }

    fn finalize(self) -> Vec<u8> {
        Digest::finalize(self.0).to_vec()
    }
}

fn outcome<E: NorFlashError>(result: Result<(), E>) -> Outcome {
    result.map_err(|error| match error.kind() {
        NorFlashErrorKind::NotAligned => Kind::NotAligned,
        NorFlashErrorKind::OutOfBounds => Kind::OutOfBounds,
        _ => Kind::Other,
    })
}

fn params<F: NorFlash>(flash: &F) -> NorFlashParams {
    NorFlashParams {
        read_size: F::READ_SIZE,
        write_size: F::WRITE_SIZE,
        erase_size: F::ERASE_SIZE,
        capacity: flash.capacity(),
        erase_value: &[0xFF; 8],
    }
}

/// An updater together with the partitions that it works on.
struct Driver<'d, DFU, STATE> {
    updater: FirmwareUpdater<'d>,
    dfu: DFU,
    state: STATE,
}

impl<'d, DFU: NorFlash, STATE: NorFlash> Driver<'d, DFU, STATE> {
    fn new(dfu: DFU, state: STATE, aligned: &'d mut [u8]) -> Self {
        let config = FirmwareUpdaterConfig { dfu: params(&dfu), state: params(&state) };
        Driver { updater: FirmwareUpdater::new(config, aligned), dfu, state }
    }

    async fn write_firmware(
        &mut self,
        offset: usize,
        data: &[u8],
    ) -> Result<(), FirmwareUpdaterError> {
        let mut writing = self.updater.write_firmware(offset, data);
        loop {
            let outcome = match writing.request(&self.updater) {
                Request::Read { partition: Partition::State, offset, .. } => {
                    let buffer = self.updater.state_mut().aligned_mut();
                    outcome(self.state.read(offset, buffer).await)
                }
                Request::Write { partition: Partition::Dfu, offset, data } => {
                    outcome(self.dfu.write(offset, data).await)
                }
                Request::Erase { partition: Partition::Dfu, from, to } => {
                    outcome(self.dfu.erase(from, to).await)
                }
                request => panic!("writing firmware needs no {:?}", request),
            };
            assert!(writing.can_resume(&self.updater, outcome));
            match writing.resume(&mut self.updater, outcome) {
                Progress::Pending(next) => writing = next,
                Progress::Done(result) => return result,
            }
        }
    }

    async fn hash<D: FirmwareDigest>(
        &mut self,
        update_len: u32,
        chunk_buf: &mut [u8],
        output: &mut [u8],
    ) -> Result<(), FirmwareUpdaterError> {
        let mut hashing = match self.updater.hash::<D>(update_len, chunk_buf.len()) {
            Progress::Pending(hashing) => hashing,
            Progress::Done(digest) => {
                output.copy_from_slice(&digest);
                return Ok(());
            }
        };
        loop {
            let outcome = match hashing.request() {
                Request::Read { partition: Partition::Dfu, offset, len } => {
                    assert_eq!(len, chunk_buf.len());
                    outcome(self.dfu.read(offset, chunk_buf).await)
                }
                request => panic!("hashing needs no {:?}", request),
            };
            match hashing.resume(outcome, chunk_buf) {
                Progress::Pending(next) => hashing = next,
                Progress::Done(result) => {
                    output.copy_from_slice(&result?);
                    return Ok(());
                }
            }
        }
    }

    async fn mark_updated(&mut self) -> Result<(), FirmwareUpdaterError> {
        let mut marking = self.updater.mark_updated();
        loop {
            let outcome = match marking.request(self.updater.state()) {
                Request::Read { partition: Partition::State, offset, .. } => {
                    let buffer = self.updater.state_mut().aligned_mut();
                    outcome(self.state.read(offset, buffer).await)
                }
                Request::Write { partition: Partition::State, offset, data } => {
                    outcome(self.state.write(offset, data).await)
                }
                Request::Erase { partition: Partition::State, from, to } => {
                    outcome(self.state.erase(from, to).await)
                }
                request => panic!("marking needs no {:?}", request),
            };
            match marking.resume(self.updater.state_mut(), outcome) {
                Progress::Pending(next) => marking = next,
                Progress::Done(result) => return result,
            }
        }
    }

    async fn get_state(&mut self) -> Result<State, FirmwareUpdaterError> {
        let read = outcome(self.state.read(0, self.updater.state_mut().aligned_mut()).await);
        self.updater.get_state(read)
    }
}

#[test]
fn can_verify_sha1() {
    let flash = Mutex::<NoopRawMutex, _>::new(MemFlash::<131072, 4096, 8>::default());
    let state = FlashPartition::new(&flash, 0, 4096);
    let dfu = FlashPartition::new(&flash, 65536, 65536);
    let mut aligned = [0; 8];

    let update = [0x00, 0x11, 0x22, 0x33, 0x44, 0x55, 0x66];
    let mut to_write = [0; 4096];
    to_write[..7].copy_from_slice(update.as_slice());

    let mut updater = Driver::new(dfu, state, &mut aligned);
    block_on(updater.write_firmware(0, to_write.as_slice())).unwrap();
    let mut chunk_buf = [0; 2];
    let mut hash = [0; 20];
    block_on(updater.hash::<Sha1Hasher>(update.len() as u32, &mut chunk_buf, &mut hash)).unwrap();

    assert_eq!(Sha1::digest(update).as_slice(), hash);
}

#[test]
fn can_verify_sha1_sector_bigger_than_chunk() {
    let flash = Mutex::<NoopRawMutex, _>::new(MemFlash::<131072, 4096, 8>::default());
    let state = FlashPartition::new(&flash, 0, 4096);
    let dfu = FlashPartition::new(&flash, 65536, 65536);
    let mut aligned = [0; 8];

    let update = [0x00, 0x11, 0x22, 0x33, 0x44, 0x55, 0x66];
    let mut to_write = [0; 4096];
    to_write[..7].copy_from_slice(update.as_slice());

    let mut updater = Driver::new(dfu, state, &mut aligned);
    let mut offset = 0;
    for chunk in to_write.chunks(1024) {
        block_on(updater.write_firmware(offset, chunk)).unwrap();
        offset += chunk.len();
    }
    let mut chunk_buf = [0; 2];
    let mut hash = [0; 20];
    block_on(updater.hash::<Sha1Hasher>(update.len() as u32, &mut chunk_buf, &mut hash)).unwrap();

    assert_eq!(Sha1::digest(update).as_slice(), hash);
}

#[test]
fn can_verify_sha1_sector_smaller_than_chunk() {
    let flash = Mutex::<NoopRawMutex, _>::new(MemFlash::<131072, 1024, 8>::default());
    let state = FlashPartition::new(&flash, 0, 4096);
    let dfu = FlashPartition::new(&flash, 65536, 65536);
    let mut aligned = [0; 8];

    let update = [0x00, 0x11, 0x22, 0x33, 0x44, 0x55, 0x66];
    let mut to_write = [0; 4096];
    to_write[..7].copy_from_slice(update.as_slice());

    let mut updater = Driver::new(dfu, state, &mut aligned);
    let mut offset = 0;
    for chunk in to_write.chunks(2048) {
        block_on(updater.write_firmware(offset, chunk)).unwrap();
        offset += chunk.len();
    }
    let mut chunk_buf = [0; 2];
    let mut hash = [0; 20];
    block_on(updater.hash::<Sha1Hasher>(update.len() as u32, &mut chunk_buf, &mut hash)).unwrap();

    assert_eq!(Sha1::digest(update).as_slice(), hash);
}

#[test]
fn can_verify_sha1_cross_sector_boundary() {
    let flash = Mutex::<NoopRawMutex, _>::new(MemFlash::<131072, 1024, 8>::default());
    let state = FlashPartition::new(&flash, 0, 4096);
    let dfu = FlashPartition::new(&flash, 65536, 65536);
    let mut aligned = [0; 8];

    let update = [0x00, 0x11, 0x22, 0x33, 0x44, 0x55, 0x66];
    let mut to_write = [0; 4096];
    to_write[..7].copy_from_slice(update.as_slice());

    let mut updater = Driver::new(dfu, state, &mut aligned);
    let mut offset = 0;
    for chunk in to_write.chunks(896) {
        block_on(updater.write_firmware(offset, chunk)).unwrap();
        offset += chunk.len();
    }
    let mut chunk_buf = [0; 2];
    let mut hash = [0; 20];
    block_on(updater.hash::<Sha1Hasher>(update.len() as u32, &mut chunk_buf, &mut hash)).unwrap();

    assert_eq!(Sha1::digest(update).as_slice(), hash);
}

#[test]
fn an_update_touches_only_its_partitions() {
    let flash = Mutex::<NoopRawMutex, _>::new(MemFlash::<131072, 4096, 8>::default());
    block_on(async { flash.lock().await.mem[4096..65536].fill(0x5A) });
    let state = FlashPartition::new(&flash, 0, 4096);
    let dfu = FlashPartition::new(&flash, 65536, 65536);
    let mut aligned = [0; 8];

    let mut updater = Driver::new(dfu, state, &mut aligned);
    block_on(updater.write_firmware(0, &[0x77; 8192])).unwrap();
    block_on(updater.mark_updated()).unwrap();
    assert_eq!(block_on(updater.get_state()), Ok(State::Swap));
    assert_eq!(
        block_on(updater.write_firmware(0, &[0x77; 8])),
        Err(FirmwareUpdaterError::BadState)
    );

    let mem = block_on(async { flash.lock().await.mem.clone() });
    assert_eq!(mem[..8], [0xF0; 8]);
    assert!(mem[8..4096].iter().all(|&b| b == 0xFF));
    assert!(mem[4096..65536].iter().all(|&b| b == 0x5A));
    assert!(mem[65536..65536 + 8192].iter().all(|&b| b == 0x77));
    assert!(mem[65536 + 8192..].iter().all(|&b| b == 0xFF));
}

#[test]
fn a_partition_refuses_a_write_beyond_its_end() {
    let flash = Mutex::<NoopRawMutex, _>::new(MemFlash::<131072, 4096, 8>::default());
    let state = FlashPartition::new(&flash, 0, 4096);
    let dfu = FlashPartition::new(&flash, 65536, 8192);
    let mut aligned = [0; 8];

    let mut updater = Driver::new(dfu, state, &mut aligned);
    assert_eq!(
        block_on(updater.write_firmware(8192, &[1; 8])),
        Err(FirmwareUpdaterError::Flash(Kind::OutOfBounds))
    );
}
