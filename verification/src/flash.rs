//! NOR flash as the updater sees it: its dimensions and the accesses that an
//! operation asks for.

use vstd::prelude::*;

verus! {

/// The dimensions of a NOR flash partition.
#[derive(Debug, Clone, Copy)]
pub struct NorFlashParams {
    /// The smallest number of bytes that can be read.
    pub read_size: usize,
    /// The smallest number of bytes that can be written: one word.
    pub write_size: usize,
    /// The smallest number of bytes that can be erased: one sector.
    pub erase_size: usize,
    /// The number of bytes in the partition.
    pub capacity: usize,
    /// What an erased word holds.
    pub erase_value: &'static [u8],
}

impl NorFlashParams {
    /// The length of a buffer that takes one word and one smallest read.
    pub open spec fn buffer_len(self) -> nat {
        if self.write_size >= self.read_size {
            self.write_size as nat
        } else {
            self.read_size as nat
        }
    }
}

/// A partition of the updater.
#[derive(Debug, Clone, Copy, PartialEq, Eq, Structural)]
pub enum Partition {
    /// Receives the new firmware.
    Dfu,
    /// Holds the bootloader state.
    State,
}

/// A flash access that an operation waits for.
#[derive(Debug, Clone, Copy)]
pub enum Request<'a> {
    /// Read `len` bytes from `offset` on.
    Read { partition: Partition, offset: u32, len: usize },
    /// Write `data` from `offset` on.
    Write { partition: Partition, offset: u32, data: &'a [u8] },
    /// Erase the bytes from `from` up to, but without, `to`.
    Erase { partition: Partition, from: u32, to: u32 },
}

/// The mathematical view of a [`Request`].
#[verifier::ext_equal]
pub enum Access {
    Read { partition: Partition, offset: u32, len: nat },
    Write { partition: Partition, offset: u32, data: Seq<u8> },
    Erase { partition: Partition, from: u32, to: u32 },
}

impl<'a> View for Request<'a> {
    type V = Access;

    open spec fn view(&self) -> Access {
        match *self {
            Request::Read { partition, offset, len } => Access::Read {
                partition,
                offset,
                len: len as nat,
            },
            Request::Write { partition, offset, data } => Access::Write {
                partition,
                offset,
                data: data@,
            },
            Request::Erase { partition, from, to } => Access::Erase { partition, from, to },
        }
    }
}

/// Where an operation stands after a flash access: it waits for the next one,
/// or it has ended with a result.
#[derive(Debug)]
pub enum Progress<Op, T> {
    Pending(Op),
    Done(T),
}

/// The view of a request names the access in full, and a buffer is as long as the longer of a
/// word and a smallest read.
pub proof fn law_requests_are_seen_in_full(
    params: NorFlashParams,
    partition: Partition,
    offset: u32,
    len: usize,
    data: &[u8],
    end: u32,
)
    ensures
        (Request::Read { partition, offset, len })@ == (Access::Read {
            partition,
            offset,
            len: len as nat,
        }),
        (Request::Write { partition, offset, data })@ == (Access::Write {
            partition,
            offset,
            data: data@,
        }),
        (Request::Erase { partition, from: offset, to: end })@ == (Access::Erase {
            partition,
            from: offset,
            to: end,
        }),
        params.buffer_len() >= params.write_size,
        params.buffer_len() >= params.read_size,
        params.buffer_len() == params.write_size || params.buffer_len() == params.read_size,
{
}

} // verus!
