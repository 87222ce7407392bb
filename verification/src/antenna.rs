//! The antennas (tiles) of an observation.

use crate::rfinput::mwalibRFInput;
use vstd::prelude::*;

verus! {

/// One antenna.
#[allow(non_camel_case_types)]
#[derive(Debug, Clone)]
pub struct mwalibAntenna {
    /// The antenna's number, counted from 0.
    pub antenna: u32,
    /// Number of the antenna's tile.
    pub tile_id: u32,
    /// Name of the antenna's tile.
    pub tile_name: String,
}

impl mwalibAntenna {
    /// The antennas of the receiver inputs, which are in ascending order
    /// of target position: two inputs to an antenna, of which the first
    /// names it. An input without a partner at the end is left out.
    pub fn populate_antennas(rf_inputs: &Vec<mwalibRFInput>) -> (antennas: Vec<mwalibAntenna>)
        ensures
            antennas@.len() == rf_inputs@.len() / 2,
            forall|i: int|
                0 <= i < antennas@.len() ==> (#[trigger] antennas@[i]).antenna == rf_inputs@[2
                    * i].antenna && antennas@[i].tile_id == rf_inputs@[2 * i].tile_id
                    && antennas@[i].tile_name@ == rf_inputs@[2 * i].tile_name@,
    {
        let mut antennas: Vec<mwalibAntenna> = Vec::new();
        let len: usize = rf_inputs.len();
        let count: usize = len / 2;
        let mut i: usize = 0;
        while i < count
            invariant
                len == rf_inputs@.len(),
                count == len / 2,
                i <= count,
                antennas@.len() == i,
                forall|j: int|
                    0 <= j < i ==> (#[trigger] antennas@[j]).antenna == rf_inputs@[2 * j].antenna
                        && antennas@[j].tile_id == rf_inputs@[2 * j].tile_id
                        && antennas@[j].tile_name@ == rf_inputs@[2 * j].tile_name@,
            decreases count - i,
        {
            let first: &mwalibRFInput = &rf_inputs[2 * i];
            antennas.push(
                mwalibAntenna {
                    antenna: first.antenna,
                    tile_id: first.tile_id,
                    tile_name: first.tile_name.clone(),
                },
            );
            i = i + 1;
        }
        antennas
    }
}

} // verus!
