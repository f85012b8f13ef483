//! The digest of the image in the DFU partition.

use vstd::prelude::*;

use crate::digest::Digest;
use crate::error::{FirmwareUpdaterError, Outcome};
use crate::firmware_updater::FirmwareUpdater;
use crate::flash::{Access, Partition, Progress, Request};

verus! {

/// How many bytes of the chunk at `offset` belong to the image.
pub open spec fn chunk_share(update_len: int, offset: int, chunk_len: int) -> int {
    if update_len - offset <= chunk_len {
        update_len - offset
    } else {
        chunk_len
    }
}

/// The read of the chunk at `offset`. It is as long as the chunk buffer, also where less of it
/// belongs to the image.
pub open spec fn chunk_read(offset: u32, chunk_len: nat) -> Access {
    Access::Read { partition: Partition::Dfu, offset, len: chunk_len }
}

/// How digesting goes on after the read of a chunk, where `absorbed` was digested before it and
/// `chunk` is what the read brought. It waits for the next chunk, or has the whole image.
pub open spec fn hash_next(
    update_len: u32,
    chunk_len: nat,
    offset: u32,
    absorbed: Seq<u8>,
    outcome: Outcome,
    chunk: Seq<u8>,
) -> Progress<(u32, Seq<u8>), Result<Seq<u8>, FirmwareUpdaterError>> {
    if outcome is Err {
        Progress::Done(Err(FirmwareUpdaterError::Flash(outcome->Err_0)))
    } else {
        let share = chunk_share(update_len as int, offset as int, chunk_len as int);
        let longer = absorbed + chunk.take(share);
        if offset + chunk_len >= update_len {
            Progress::Done(Ok(longer))
        } else {
            Progress::Pending(((offset + chunk_len) as u32, longer))
        }
    }
}

/// The image in the DFU partition being digested.
#[derive(Debug)]
pub struct Hashing<D> {
    digest: D,
    offset: u32,
    update_len: u32,
    chunk_len: usize,
}

impl<D: Digest> Hashing<D> {
    /// What was digested so far.
    pub closed spec fn absorbed(&self) -> Seq<u8> {
        self.digest.absorbed()
    }

    /// Where the next chunk starts.
    pub closed spec fn offset(&self) -> u32 {
        self.offset
    }

    /// The length of the image.
    pub closed spec fn update_len(&self) -> u32 {
        self.update_len
    }

    /// The length of the chunk buffer.
    pub closed spec fn chunk_len(&self) -> nat {
        self.chunk_len as nat
    }

    /// As much was digested as lies before the next chunk, and there is a next chunk.
    pub open spec fn wf(&self) -> bool {
        &&& 0 < self.chunk_len() <= usize::MAX
        &&& self.offset() < self.update_len()
        &&& self.absorbed().len() == self.offset()
    }

    /// The read that is waited for. It goes to the chunk buffer of the caller.
    pub fn request(&self) -> (request: Request<'static>)
        ensures
            request@ == chunk_read(self.offset(), self.chunk_len()),
    {
        Request::Read { partition: Partition::Dfu, offset: self.offset, len: self.chunk_len }
    }

    /// Goes on after the read that was waited for. `chunk` is what it brought.
    pub fn resume(self, outcome: Outcome, chunk: &[u8]) -> (result: Progress<
        Hashing<D>,
        Result<Vec<u8>, FirmwareUpdaterError>,
    >)
        requires
            self.wf(),
            chunk@.len() == self.chunk_len(),
        ensures
            match hash_next(
                self.update_len(),
                self.chunk_len(),
                self.offset(),
                self.absorbed(),
                outcome,
                chunk@,
            ) {
                Progress::Done(Err(error)) => result matches Progress::Done(Err(e)) && e == error,
                Progress::Done(Ok(image)) => {
                    &&& result matches Progress::Done(Ok(output))
                    &&& output@ == D::digest_of(image)
                    &&& output@.len() == D::output_size()
                },
                Progress::Pending((offset, absorbed)) => {
                    &&& result matches Progress::Pending(next)
                    &&& next.wf()
                    &&& next.absorbed() == absorbed
                    &&& next.offset() == offset
                    &&& next.update_len() == self.update_len()
                    &&& next.chunk_len() == self.chunk_len()
                },
            },
    {
        match outcome {
            Err(kind) => {
                return Progress::Done(Err(FirmwareUpdaterError::Flash(kind)));
            },
            Ok(()) => {},
        }
        let left: usize = (self.update_len - self.offset) as usize;
        let share: usize = if left <= self.chunk_len {
            left
        } else {
            self.chunk_len
        };
        let part = vstd::slice::slice_subrange(chunk, 0, share);
        assert(part@ =~= chunk@.take(share as int));
        let mut digest = self.digest;
        digest.update(part);
        if left <= self.chunk_len {
            Progress::Done(Ok(digest.finalize()))
        } else {
            Progress::Pending(
                Hashing {
                    digest,
                    offset: self.offset + self.chunk_len as u32,
                    update_len: self.update_len,
                    chunk_len: self.chunk_len,
                },
            )
        }
    }
}

impl<'d> FirmwareUpdater<'d> {
    /// Verify the update in DFU with any digest.
    ///
    /// The first `update_len` bytes are digested, in chunks of `chunk_len` bytes.
    pub fn hash<D: Digest>(&self, update_len: u32, chunk_len: usize) -> (result: Progress<
        Hashing<D>,
        Vec<u8>,
    >)
        requires
            chunk_len > 0,
        ensures
            if update_len == 0 {
                &&& result matches Progress::Done(output)
                &&& output@ == D::digest_of(Seq::empty())
                &&& output@.len() == D::output_size()
            } else {
                &&& result matches Progress::Pending(hashing)
                &&& hashing.wf()
                &&& hashing.absorbed() == Seq::<u8>::empty()
                &&& hashing.offset() == 0
                &&& hashing.update_len() == update_len
                &&& hashing.chunk_len() == chunk_len
            },
    {
        let digest = D::new();
        if update_len == 0 {
            Progress::Done(digest.finalize())
        } else {
            Progress::Pending(Hashing { digest, offset: 0, update_len, chunk_len })
        }
    }
}

} // verus!
