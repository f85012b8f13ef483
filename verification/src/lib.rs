//! Firmware update rules for a bootloader with an active, a DFU and a state
//! partition on NOR flash.
//!
//! The library decides; it touches no flash itself. Every operation names the
//! flash access that it needs next as a [`flash::Request`], and is resumed
//! with the outcome of that access until it ends.

pub mod config;
pub mod digest;
pub mod ed25519_with_dalek;
pub mod ed25519_with_salty;
pub mod error;
pub mod firmware_state;
pub mod firmware_updater;
pub mod flash;
pub mod hash;
pub mod image_laws;
pub mod marking_laws;
pub mod mem_flash;
pub mod model;
pub mod signature;
pub mod state;
pub mod verify;
pub mod writing_laws;
