//! The errors that building an observation context or reading from it can
//! give.

use vstd::prelude::*;

verus! {

/// Which of the two image axes of a data record a dimension check is about.
#[derive(Debug, Clone, Copy, PartialEq, Eq, Structural)]
pub enum Axis {
    /// The fastest-varying axis (NAXIS1).
    First,
    /// The slowest-varying axis (NAXIS2).
    Second,
}

/// Everything that can go wrong while an observation is put together from
/// its files, or while a record is read from it.
#[derive(Debug, Clone, Copy, PartialEq, Eq, Structural)]
pub enum ErrorKind {
    /// No data file was given.
    NoGpuboxFiles,
    /// The name of the data file at `file_index` follows none of the known
    /// naming conventions.
    Unrecognised { file_index: usize },
    /// The data file at `file_index` follows another naming convention than
    /// the files before it.
    Mixture { file_index: usize },
    /// The version marker in the primary record of the file at `file_index`
    /// disagrees with the generation that its name implies.
    VersionMismatch { file_index: usize },
    /// The file at `file_index` has the batch number and the channel of an
    /// earlier file.
    DuplicateFile { file_index: usize },
    /// The batch with the number `batch_number` lacks a channel that another
    /// batch holds.
    UnevenChannelsForBatch { batch_number: usize },
    /// A record of the file at `file_index` holds `actual` scalars where the
    /// first record that was seen holds `expected`.
    UnequalHduSizes { file_index: usize, expected: usize, actual: usize },
    /// A record's size, in scalars or in bytes, does not fit the machine.
    HduSizeOverflow { file_index: usize },
    /// The time index holds no record at all.
    EmptyTimeIndex,
    /// The lists of version markers and of records do not have one entry
    /// for each data file.
    FileListMismatch,
    /// The header's `DATE-OBS` is no date and time.
    InvalidDateTime,
    /// The observation would end before it starts.
    NegativeDuration { start_ms: u64, end_ms: u64 },
    /// The end of the observation does not fit in 64 bits.
    DurationOverflow,
    /// An axis of the first data record has `found` elements where the
    /// header's fine channels, baselines and polarisations call for
    /// `wanted`, which is `None` where that number is beyond the machine's
    /// range.
    AxisMismatch {
        axis: Axis,
        wanted: Option<usize>,
        found: usize,
        fine_channels: usize,
        baselines: usize,
        pols: usize,
    },
    /// The receiver inputs do not number each target position and each
    /// input position exactly once, or their two polarisations are not
    /// stored side by side.
    InvalidInputOrdering,
    /// A conversion table does not name every source offset exactly once.
    InvalidConversionTable,
    /// A header value that is needed to size the observation is zero, or
    /// too large for the machine.
    InvalidMetadata,
    /// A list of numbers in the header holds something else than digits.
    ParseInt,
    /// The timestep index is beyond the last timestep.
    InvalidTimeStepIndex { index: usize, count: usize },
    /// The coarse channel index is beyond the last coarse channel.
    InvalidCoarseChannelIndex { index: usize, count: usize },
    /// No file holds the wanted coarse channel at the wanted time.
    NoDataForTimeStepCoarseChannel { timestep_index: usize, coarse_channel_index: usize },
    /// The record that was read holds `actual` scalars where every record
    /// of the observation holds `expected`.
    RecordSizeMismatch { expected: usize, actual: usize },
}

} // verus!
