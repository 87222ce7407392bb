//! The receiver inputs of an observation: one per antenna and polarisation.

use vstd::prelude::*;

verus! {

/// Polarisation of a receiver input.
#[derive(Debug, Clone, Copy, PartialEq, Eq, Structural)]
pub enum Pol {
    X,
    Y,
}

/// One receiver input, as the observation's header lists it.
#[allow(non_camel_case_types)]
#[derive(Debug, Clone)]
pub struct mwalibRFInput {
    /// Place of this input in the header's list.
    pub input: u32,
    /// Antenna that the input belongs to, counted from 0.
    pub antenna: u32,
    /// Number of the antenna's tile.
    pub tile_id: u32,
    /// Name of the antenna's tile.
    pub tile_name: String,
    /// Polarisation of the input.
    pub pol: Pol,
    /// Place of the input in the output of the legacy filter bank.
    pub vcs_order: u32,
    /// Target position of the input in canonical order: antenna by
    /// antenna, X before Y.
    pub subfile_order: u32,
    /// Whether the input is flagged as unusable.
    pub flagged: bool,
}

/// Place of an input in the output of the legacy filter bank, given its
/// place in the header's list: bits 4 and 5 move down to bits 0 and 1, bits
/// 0 to 3 move up to bits 2 to 5, and bits 6 and 7 stay.
pub open spec fn vcs_order_of(input: u32) -> u32 {
    (input & 0xC0) | ((input & 0x30) >> 4) | ((input & 0x0F) << 2)
}

/// Target position of polarisation `pol` of antenna `antenna`.
pub open spec fn mwax_order_of(antenna: u32, pol: Pol) -> int {
    antenna * 2 + (if pol == Pol::Y {
        1int
    } else {
        0int
    })
}

/// Place of an input in the output of the legacy filter bank.
pub fn get_vcs_order(input: u32) -> (order: u32)
    ensures
        order == vcs_order_of(input),
{
    (input & 0xC0) | ((input & 0x30) >> 4) | ((input & 0x0F) << 2)
}

/// Target position of an input in canonical order.
pub fn get_mwax_order(antenna: u32, pol: Pol) -> (order: u32)
    requires
        mwax_order_of(antenna, pol) <= u32::MAX,
    ensures
        order == mwax_order_of(antenna, pol),
{
    match pol {
        Pol::Y => antenna * 2 + 1,
        Pol::X => antenna * 2,
    }
}

impl mwalibRFInput {
    /// A receiver input with its two orders worked out.
    pub fn new(
        input: u32,
        antenna: u32,
        tile_id: u32,
        tile_name: String,
        pol: Pol,
        flagged: bool,
    ) -> (rf_input: Self)
        requires
            mwax_order_of(antenna, pol) <= u32::MAX,
        ensures
            rf_input.input == input,
            rf_input.antenna == antenna,
            rf_input.tile_id == tile_id,
            rf_input.tile_name == tile_name,
            rf_input.pol == pol,
            rf_input.flagged == flagged,
            rf_input.vcs_order == vcs_order_of(input),
            rf_input.subfile_order == mwax_order_of(antenna, pol),
    {
        mwalibRFInput {
            input,
            antenna,
            tile_id,
            tile_name,
            pol,
            vcs_order: get_vcs_order(input),
            subfile_order: get_mwax_order(antenna, pol),
            flagged,
        }
    }
}

} // verus!
