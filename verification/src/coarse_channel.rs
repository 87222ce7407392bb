//! The coarse channels of an observation.

use crate::context::CorrelatorVersion;
use crate::error::ErrorKind;
use crate::time_map::{has_time, is_time_counts, time_counts, GpuboxTimeMap, TimeCount};
use vstd::prelude::*;

verus! {

/// One coarse channel of an observation.
#[derive(Debug, Clone, Copy, PartialEq, Eq, Structural)]
pub struct CoarseChannel {
    /// Number of the channel in the correlator, counted from 0.
    pub corr_chan_number: usize,
    /// Number of the channel in the receiver; its centre frequency is
    /// this number of channel widths.
    pub rec_chan_number: usize,
    /// Channel identifier in the names of the data files: the gpubox
    /// number of legacy files, the receiver channel number of MWAX files.
    pub gpubox_number: usize,
    /// Width of the channel in Hz.
    pub chan_width_hz: u32,
    /// Lower edge of the channel in Hz.
    pub chan_start_hz: u32,
    /// Centre of the channel in Hz.
    pub chan_centre_hz: u32,
    /// Upper edge of the channel in Hz.
    pub chan_end_hz: u32,
}

/// Whether the frequencies of a channel fit in 32 bits.
pub open spec fn frequencies_fit(rec_chan_number: usize, width_hz: u32) -> bool {
    &&& rec_chan_number * width_hz + width_hz / 2 <= u32::MAX
    &&& rec_chan_number * width_hz - width_hz / 2 >= 0
}

/// The coarse channel with the given numbers and width.
pub open spec fn coarse_channel_of(
    corr_chan_number: usize,
    rec_chan_number: usize,
    gpubox_number: usize,
    width_hz: u32,
) -> CoarseChannel {
    CoarseChannel {
        corr_chan_number,
        rec_chan_number,
        gpubox_number,
        chan_width_hz: width_hz,
        chan_start_hz: (rec_chan_number * width_hz - width_hz / 2) as u32,
        chan_centre_hz: (rec_chan_number * width_hz) as u32,
        chan_end_hz: (rec_chan_number * width_hz + width_hz / 2) as u32,
    }
}

/// Place of the first receiver channel above 128 among the first `upto`,
/// if there is one.
pub open spec fn first_over_128(rec_chans: Seq<usize>, upto: int) -> Option<int>
    decreases upto,
{
    if upto <= 0 {
        None
    } else {
        match first_over_128(rec_chans, upto - 1) {
            Some(j) => Some(j),
            None => if rec_chans[upto - 1] > 128 {
                Some(upto - 1)
            } else {
                None
            },
        }
    }
}

/// Number in the correlator of the receiver channel at place `i`. The
/// legacy correlator numbers the channels above 128 in descending order,
/// from the last number down.
pub open spec fn correlator_number(version: CorrelatorVersion, rec_chans: Seq<usize>, i: int) -> int {
    if version != CorrelatorVersion::V2 && rec_chans[i] > 128 {
        (rec_chans.len() - 1) - (i - first_over_128(rec_chans, i + 1).unwrap())
    } else {
        i
    }
}

/// Channel identifier, in the names of the data files, of the receiver
/// channel at place `i`.
pub open spec fn gpubox_number_of(version: CorrelatorVersion, rec_chans: Seq<usize>, i: int) -> int {
    if version == CorrelatorVersion::V2 {
        rec_chans[i] as int
    } else {
        correlator_number(version, rec_chans, i) + 1
    }
}

/// Whether the earliest time of the index holds a record of the channel.
pub open spec fn provided(time_map: GpuboxTimeMap, channel_identifier: int) -> bool {
    let times = time_counts(time_map@);
    &&& times.len() > 0
    &&& 0 <= channel_identifier <= usize::MAX
    &&& time_map@.map[times[0].unix_time_ms].contains_key(channel_identifier as usize)
}

/// Whether the receiver channel at place `i` becomes a coarse channel of
/// the observation: with a time index, only where a data file for it was
/// provided.
pub open spec fn is_wanted(
    version: CorrelatorVersion,
    rec_chans: Seq<usize>,
    time_map: Option<&GpuboxTimeMap>,
    i: int,
) -> bool {
    match time_map {
        Some(map) => provided(*map, gpubox_number_of(version, rec_chans, i)),
        None => true,
    }
}

/// The coarse channels that come of the first `upto` receiver channels.
pub open spec fn coarse_channels_upto(
    version: CorrelatorVersion,
    rec_chans: Seq<usize>,
    width_hz: u32,
    time_map: Option<&GpuboxTimeMap>,
    upto: int,
) -> Seq<CoarseChannel>
    decreases upto,
{
    if upto <= 0 {
        Seq::empty()
    } else {
        let rest = coarse_channels_upto(version, rec_chans, width_hz, time_map, upto - 1);
        if is_wanted(version, rec_chans, time_map, upto - 1) {
            rest.push(
                coarse_channel_of(
                    correlator_number(version, rec_chans, upto - 1) as usize,
                    rec_chans[upto - 1],
                    gpubox_number_of(version, rec_chans, upto - 1) as usize,
                    width_hz,
                ),
            )
        } else {
            rest
        }
    }
}

/// Place of the first wanted receiver channel whose frequencies do not
/// fit in 32 bits, if there is one among the first `upto`.
pub open spec fn first_misfit(
    version: CorrelatorVersion,
    rec_chans: Seq<usize>,
    width_hz: u32,
    time_map: Option<&GpuboxTimeMap>,
    upto: int,
) -> Option<int>
    decreases upto,
{
    if upto <= 0 {
        None
    } else {
        match first_misfit(version, rec_chans, width_hz, time_map, upto - 1) {
            Some(j) => Some(j),
            None => if is_wanted(version, rec_chans, time_map, upto - 1) && !frequencies_fit(
                rec_chans[upto - 1],
                width_hz,
            ) {
                Some(upto - 1)
            } else {
                None
            },
        }
    }
}

/// A channel that does not fit stays the first that does not fit, however
/// many channels follow.
proof fn lemma_misfit_stays(
    version: CorrelatorVersion,
    rec_chans: Seq<usize>,
    width_hz: u32,
    time_map: Option<&GpuboxTimeMap>,
    upto: int,
    end: int,
)
    requires
        0 <= upto <= end,
        first_misfit(version, rec_chans, width_hz, time_map, upto) is Some,
    ensures
        first_misfit(version, rec_chans, width_hz, time_map, end) == first_misfit(
            version,
            rec_chans,
            width_hz,
            time_map,
            upto,
        ),
    decreases end - upto,
{
    if upto < end {
        lemma_misfit_stays(version, rec_chans, width_hz, time_map, upto, end - 1);
    }
}

impl CoarseChannel {
    /// A coarse channel with its frequencies worked out from the receiver
    /// channel number and the width.
    pub fn new(
        corr_chan_number: usize,
        rec_chan_number: usize,
        gpubox_number: usize,
        coarse_chan_width_hz: u32,
    ) -> (channel: Self)
        requires
            frequencies_fit(rec_chan_number, coarse_chan_width_hz),
        ensures
            channel == coarse_channel_of(
                corr_chan_number,
                rec_chan_number,
                gpubox_number,
                coarse_chan_width_hz,
            ),
    {
        let half: u32 = coarse_chan_width_hz / 2;
        let centre: u32 = if coarse_chan_width_hz == 0 {
            assert(rec_chan_number * coarse_chan_width_hz == 0) by (nonlinear_arith)
                requires
                    coarse_chan_width_hz == 0,
            ;
            0
        } else {
            assert(rec_chan_number <= rec_chan_number * coarse_chan_width_hz) by (nonlinear_arith)
                requires
                    coarse_chan_width_hz >= 1,
                    rec_chan_number >= 0,
            ;
            (rec_chan_number as u32) * coarse_chan_width_hz
        };
        CoarseChannel {
            corr_chan_number,
            rec_chan_number,
            gpubox_number,
            chan_width_hz: coarse_chan_width_hz,
            chan_start_hz: centre - half,
            chan_centre_hz: centre,
            chan_end_hz: centre + half,
        }
    }
}

/// Whether the earliest time of the index holds a record of the channel.
pub fn channel_provided(time_map: &GpuboxTimeMap, channel_identifier: usize) -> (found: bool)
    ensures
        found == provided(*time_map, channel_identifier as int),
{
    broadcast use vstd::std_specs::btree::group_btree_axioms;

    let times: Vec<TimeCount> = time_map.count_channels_by_time();
    if times.len() == 0 {
        return false;
    }
    let earliest: u64 = times[0].unix_time_ms;
    proof {
        assert(is_time_counts(time_map@.map, time_counts(time_map@))) by {
            assert(is_time_counts(time_map@.map, times@));
        }
        assert(has_time(times@, earliest));
        assert(time_map@.map.contains_key(earliest));
    }
    match time_map.map.get(&earliest) {
        Some(channels) => channels.contains_key(&channel_identifier),
        None => false,
    }
}

impl CoarseChannel {
    /// The coarse channels of an observation, from the receiver channel
    /// numbers of its header in ascending order. With a time index, only
    /// the channels for which a data file was provided are kept.
    pub fn populate_coarse_channels(
        corr_version: CorrelatorVersion,
        metafits_coarse_chan_vec: &Vec<usize>,
        metafits_coarse_chan_width_hz: u32,
        gpubox_time_map: Option<&GpuboxTimeMap>,
    ) -> (result: Result<Vec<Self>, ErrorKind>)
        ensures
            match result {
                Ok(channels) => {
                    &&& first_misfit(
                        corr_version,
                        metafits_coarse_chan_vec@,
                        metafits_coarse_chan_width_hz,
                        gpubox_time_map,
                        metafits_coarse_chan_vec@.len() as int,
                    ) is None
                    &&& channels@ == coarse_channels_upto(
                        corr_version,
                        metafits_coarse_chan_vec@,
                        metafits_coarse_chan_width_hz,
                        gpubox_time_map,
                        metafits_coarse_chan_vec@.len() as int,
                    )
                },
                Err(e) => e == ErrorKind::InvalidMetadata && first_misfit(
                    corr_version,
                    metafits_coarse_chan_vec@,
                    metafits_coarse_chan_width_hz,
                    gpubox_time_map,
                    metafits_coarse_chan_vec@.len() as int,
                ) is Some,
            },
    {
        let ghost recs = metafits_coarse_chan_vec@;
        let width: u32 = metafits_coarse_chan_width_hz;
        let num_coarse_chans: usize = metafits_coarse_chan_vec.len();
        let mut coarse_chans: Vec<CoarseChannel> = Vec::new();
        let mut first_chan_index_over_128: Option<usize> = None;
        let mut i: usize = 0;
        while i < num_coarse_chans
            invariant
                recs == metafits_coarse_chan_vec@,
                width == metafits_coarse_chan_width_hz,
                num_coarse_chans == recs.len(),
                i <= num_coarse_chans,
                first_chan_index_over_128 matches Some(j) ==> j < i,
                corr_version.spec_is_legacy() ==> match first_chan_index_over_128 {
                    Some(j) => first_over_128(recs, i as int) == Some(j as int),
                    None => first_over_128(recs, i as int) is None,
                },
                first_misfit(corr_version, recs, width, gpubox_time_map, i as int) is None,
                coarse_chans@ == coarse_channels_upto(
                    corr_version,
                    recs,
                    width,
                    gpubox_time_map,
                    i as int,
                ),
            decreases num_coarse_chans - i,
        {
            let rec_chan_number: usize = metafits_coarse_chan_vec[i];
            let mut correlator_chan_number: usize = i;
            let gpubox_chan_number: usize;
            if corr_version.is_legacy() {
                if rec_chan_number > 128 {
                    let first: usize = match first_chan_index_over_128 {
                        Some(first) => first,
                        None => {
                            first_chan_index_over_128 = Some(i);
                            i
                        },
                    };
                    correlator_chan_number = (num_coarse_chans - 1) - (i - first);
                }
                gpubox_chan_number = correlator_chan_number + 1;
            } else {
                gpubox_chan_number = rec_chan_number;
            }
            assert(correlator_chan_number == correlator_number(corr_version, recs, i as int));
            assert(gpubox_chan_number == gpubox_number_of(corr_version, recs, i as int));
            let wanted: bool = match gpubox_time_map {
                Some(map) => channel_provided(map, gpubox_chan_number),
                None => true,
            };
            assert(wanted == is_wanted(corr_version, recs, gpubox_time_map, i as int));
            if wanted {
                let half: u32 = width / 2;
                let fits: bool = if width == 0 {
                    assert(rec_chan_number * width == 0) by (nonlinear_arith)
                        requires
                            width == 0,
                    ;
                    true
                } else if rec_chan_number > u32::MAX as usize {
                    assert(rec_chan_number <= rec_chan_number * width) by (nonlinear_arith)
                        requires
                            width >= 1,
                            rec_chan_number >= 0,
                    ;
                    false
                } else {
                    assert(rec_chan_number * width <= 0xffff_ffff * 0xffff_ffff) by (nonlinear_arith)
                        requires
                            0 <= rec_chan_number <= 0xffff_ffff,
                            0 <= width <= 0xffff_ffff,
                    ;
                    assert(rec_chan_number * width >= 0) by (nonlinear_arith)
                        requires
                            0 <= rec_chan_number,
                            0 <= width,
                    ;
                    let centre: u64 = (rec_chan_number as u64) * (width as u64);
                    centre >= half as u64 && centre + half as u64 <= u32::MAX as u64
                };
                assert(fits == frequencies_fit(rec_chan_number, width));
                if !fits {
                    proof {
                        lemma_misfit_stays(
                            corr_version,
                            recs,
                            width,
                            gpubox_time_map,
                            i as int + 1,
                            recs.len() as int,
                        );
                    }
                    return Err(ErrorKind::InvalidMetadata);
                }
                coarse_chans.push(
                    CoarseChannel::new(
                        correlator_chan_number,
                        rec_chan_number,
                        gpubox_chan_number,
                        width,
                    ),
                );
            }
            i = i + 1;
        }
        Ok(coarse_chans)
    }
}

/// One coarse channel of an observation, as the observation context
/// holds it.
#[allow(non_camel_case_types)]
#[derive(Debug, Clone, Copy, PartialEq, Eq, Structural)]
pub struct mwalibCoarseChannel {
    /// Number of the channel in the correlator, counted from 0.
    pub correlator_channel_number: usize,
    /// Number of the channel in the receiver.
    pub receiver_channel_number: usize,
    /// Channel identifier in the names of the data files.
    pub gpubox_number: usize,
    /// Width of the channel in Hz.
    pub channel_width_hz: u32,
    /// Lower edge of the channel in Hz.
    pub channel_start_hz: u32,
    /// Centre of the channel in Hz.
    pub channel_centre_hz: u32,
    /// Upper edge of the channel in Hz.
    pub channel_end_hz: u32,
}

/// The same channel under the names of the observation context.
pub open spec fn context_channel(channel: CoarseChannel) -> mwalibCoarseChannel {
    mwalibCoarseChannel {
        correlator_channel_number: channel.corr_chan_number,
        receiver_channel_number: channel.rec_chan_number,
        gpubox_number: channel.gpubox_number,
        channel_width_hz: channel.chan_width_hz,
        channel_start_hz: channel.chan_start_hz,
        channel_centre_hz: channel.chan_centre_hz,
        channel_end_hz: channel.chan_end_hz,
    }
}

impl mwalibCoarseChannel {
    /// The coarse channels of an observation, from the receiver channel
    /// numbers of its header in ascending order, its bandwidth and its time
    /// index: the channels for which a data file was provided, their count,
    /// and the width of each, which is the bandwidth divided by the count of
    /// the header's channels.
    pub fn populate_coarse_channels(
        corr_version: CorrelatorVersion,
        metafits_coarse_chan_vec: &Vec<usize>,
        observation_bandwidth_hz: u32,
        gpubox_time_map: &GpuboxTimeMap,
    ) -> (result: Result<(Vec<Self>, usize, u32), ErrorKind>)
        ensures
            match result {
                Ok((channels, count, width_hz)) => {
                    let rec_chans = metafits_coarse_chan_vec@;
                    &&& 0 < rec_chans.len() <= u32::MAX
                    &&& width_hz == observation_bandwidth_hz as int / rec_chans.len() as int
                    &&& first_misfit(
                        corr_version,
                        rec_chans,
                        width_hz,
                        Some(gpubox_time_map),
                        rec_chans.len() as int,
                    ) is None
                    &&& channels@ == coarse_channels_upto(
                        corr_version,
                        rec_chans,
                        width_hz,
                        Some(gpubox_time_map),
                        rec_chans.len() as int,
                    ).map_values(|c: CoarseChannel| context_channel(c))
                    &&& count == channels@.len()
                },
                Err(e) => {
                    let rec_chans = metafits_coarse_chan_vec@;
                    &&& e == ErrorKind::InvalidMetadata
                    &&& rec_chans.len() == 0 || rec_chans.len() > u32::MAX || first_misfit(
                        corr_version,
                        rec_chans,
                        (observation_bandwidth_hz as int / rec_chans.len() as int) as u32,
                        Some(gpubox_time_map),
                        rec_chans.len() as int,
                    ) is Some
                },
            },
    {
        let num: usize = metafits_coarse_chan_vec.len();
        if num == 0 || num > u32::MAX as usize {
            return Err(ErrorKind::InvalidMetadata);
        }
        let width_hz: u32 = observation_bandwidth_hz / (num as u32);
        let found: Vec<CoarseChannel> = match CoarseChannel::populate_coarse_channels(
            corr_version,
            metafits_coarse_chan_vec,
            width_hz,
            Some(gpubox_time_map),
        ) {
            Ok(found) => found,
            Err(e) => {
                return Err(e);
            },
        };
        let mut channels: Vec<mwalibCoarseChannel> = Vec::new();
        let mut i: usize = 0;
        while i < found.len()
            invariant
                i <= found@.len(),
                channels@.len() == i,
                forall|j: int| 0 <= j < i ==> channels@[j] == context_channel(found@[j]),
            decreases found@.len() - i,
        {
            let c: CoarseChannel = found[i];
            channels.push(
                mwalibCoarseChannel {
                    correlator_channel_number: c.corr_chan_number,
                    receiver_channel_number: c.rec_chan_number,
                    gpubox_number: c.gpubox_number,
                    channel_width_hz: c.chan_width_hz,
                    channel_start_hz: c.chan_start_hz,
                    channel_centre_hz: c.chan_centre_hz,
                    channel_end_hz: c.chan_end_hz,
                },
            );
            i = i + 1;
        }
        assert(channels@ =~= found@.map_values(|c: CoarseChannel| context_channel(c)));
        let count: usize = channels.len();
        Ok((channels, count, width_hz))
    }
}

} // verus!
