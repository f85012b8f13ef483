//! Which partitions an updater works on.

use vstd::prelude::*;

verus! {

/// The partitions that a firmware updater works on.
#[derive(Debug)]
pub struct FirmwareUpdaterConfig<DFU, STATE> {
    /// Receives the new firmware.
    pub dfu: DFU,
    /// Holds the bootloader state.
    pub state: STATE,
}

/// A range of a flash that makes up a partition.
#[derive(Debug, Clone, Copy, PartialEq, Eq, Structural)]
pub struct Region {
    /// The first byte of the range.
    pub offset: u32,
    /// The number of bytes in the range.
    pub size: u32,
}

impl FirmwareUpdaterConfig<Region, Region> {
    /// Create a firmware updater config from the address symbols defined in the linkerfile
    pub fn from_linkerfile(
        dfu_start: u32,
        dfu_end: u32,
        state_start: u32,
        state_end: u32,
    ) -> (config: Self)
        requires
            dfu_start <= dfu_end,
            state_start <= state_end,
        ensures
            config.dfu == (Region { offset: dfu_start, size: (dfu_end - dfu_start) as u32 }),
            config.state == (Region {
                offset: state_start,
                size: (state_end - state_start) as u32,
            }),
    {
        FirmwareUpdaterConfig {
            dfu: Region { offset: dfu_start, size: dfu_end - dfu_start },
            state: Region { offset: state_start, size: state_end - state_start },
        }
    }
}

/// Each region that is made of address symbols begins at the one and ends at the other.
pub proof fn law_regions_lie_between_their_symbols(
    dfu_start: u32,
    dfu_end: u32,
    state_start: u32,
    state_end: u32,
    config: FirmwareUpdaterConfig<Region, Region>,
)
    requires
        dfu_start <= dfu_end,
        state_start <= state_end,
        call_ensures(
            FirmwareUpdaterConfig::<Region, Region>::from_linkerfile,
            (dfu_start, dfu_end, state_start, state_end),
            config,
        ),
    ensures
        config.dfu.offset == dfu_start,
        config.dfu.offset + config.dfu.size == dfu_end,
        config.state.offset == state_start,
        config.state.offset + config.state.size == state_end,
{
}

} // verus!
