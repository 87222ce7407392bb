//! Read-side access to MWA correlator observations: which hardware generation
//! wrote a set of data files, where each (time, coarse channel) record lives,
//! and how a raw record is brought into baseline or frequency order.

pub mod antenna;
pub mod baseline;
pub mod coarse_channel;
pub mod context;
pub mod conversion_table;
pub mod convert;
pub mod error;
pub mod ffi;
pub mod gpubox;
pub mod metafits;
pub mod ordered;
pub mod metafits_context;
pub mod misc;
pub mod permutation;
pub mod rfinput;
pub mod sorted;
pub mod text;
pub mod time_map;
pub mod timestep;
pub mod visibility_pol;
pub mod voltage_files;
