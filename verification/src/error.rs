//! What can go wrong while firmware is updated.

use vstd::prelude::*;

verus! {

/// The kinds of failure that a NOR flash reports.
#[derive(Debug, Clone, Copy, PartialEq, Eq, Structural)]
pub enum NorFlashErrorKind {
    /// The arguments are not properly aligned.
    NotAligned,
    /// The arguments are out of bounds.
    OutOfBounds,
    /// Any other failure of the flash.
    Other,
}

/// Errors of the firmware updater.
#[derive(Debug, Clone, Copy, PartialEq, Eq, Structural)]
pub enum FirmwareUpdaterError {
    /// A flash access failed.
    Flash(NorFlashErrorKind),
    /// The public key or the signature was rejected.
    Signature,
    /// The bootloader state does not allow the operation.
    BadState,
}

/// How a flash access ended.
pub type Outcome = Result<(), NorFlashErrorKind>;

} // verus!
