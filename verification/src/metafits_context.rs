//! The metafits context: what the header of an observation says, on its
//! own.

use crate::antenna::mwalibAntenna;
use crate::baseline::Baseline;
use crate::coarse_channel::{coarse_channels_upto, first_misfit, CoarseChannel};
use crate::context::{
    header_baselines, header_fine_channels, header_rec_chans, header_width, schedule_error,
    count_baselines, CorrelatorVersion, MetafitsHeader,
};
use crate::error::ErrorKind;
use crate::metafits::{
    is_stable_sort, number_list, parse_date_obs, parse_number_list, rfc3339_timestamp_millis,
    scheduled_times, sort_by_subfile_order, Schedule,
};
use crate::misc::{baseline_count, baseline_index};
use crate::rfinput::mwalibRFInput;
use crate::sorted::sort_ascending;
use crate::visibility_pol::VisibilityPol;
use vstd::prelude::*;
use vstd::utf8::encode_utf8;

verus! {

/// The basic metadata of an observation.
#[derive(Debug, Clone)]
pub struct MetafitsContext {
    /// Observation identifier.
    pub obs_id: u32,
    /// Scheduled start of the observation in GPS time.
    pub sched_start_gps_time_ms: u64,
    /// Scheduled end of the observation in GPS time.
    pub sched_end_gps_time_ms: u64,
    /// Scheduled start of the observation in UNIX time.
    pub sched_start_unix_time_ms: u64,
    /// Scheduled end of the observation in UNIX time.
    pub sched_end_unix_time_ms: u64,
    /// Scheduled start in UTC, in milliseconds from the start of 1970.
    pub sched_start_utc: i64,
    /// Scheduled end in UTC, in milliseconds from the start of 1970.
    pub sched_end_utc: i64,
    /// Scheduled length of the observation.
    pub sched_duration_ms: u64,
    /// Hour angle of the pointing centre.
    pub hour_angle_string: String,
    /// Name of the pointing grid.
    pub grid_name: String,
    /// Number of the pointing grid.
    pub grid_number: i32,
    /// Who scheduled the observation.
    pub creator: String,
    /// Project that the observation belongs to.
    pub project_id: String,
    /// Name of the observation.
    pub obs_name: String,
    /// Observing mode.
    pub mode: String,
    /// Width of a fine channel of the correlator.
    pub corr_fine_chan_width_hz: u32,
    /// Length of one record of the correlator.
    pub corr_int_time_ms: u64,
    /// Fine channels in each coarse channel of the correlator.
    pub num_corr_fine_chans_per_coarse: usize,
    /// Receiver numbers.
    pub receivers: Vec<usize>,
    /// Delays.
    pub delays: Vec<u32>,
    /// Bad data at the start of the observation.
    pub quack_time_duration_ms: u64,
    /// First good moment of the observation in UNIX time.
    pub good_time_unix_ms: u64,
    /// First good moment of the observation in GPS time.
    pub good_time_gps_ms: u64,
    /// Antennas: half the receiver inputs.
    pub num_ants: usize,
    /// The antennas, in the order of the receiver inputs.
    pub antennas: Vec<mwalibAntenna>,
    /// Receiver inputs.
    pub num_rf_inputs: usize,
    /// The receiver inputs, ascending by target position.
    pub rf_inputs: Vec<mwalibRFInput>,
    /// Polarisations per antenna.
    pub num_ant_pols: usize,
    /// Coarse channels of the header.
    pub num_coarse_chans: usize,
    /// The receiver channel numbers of the header, ascending.
    pub metafits_coarse_chans: Vec<usize>,
    /// Bandwidth of the observation, all coarse channels taken together.
    pub obs_bandwidth_hz: u32,
    /// Width of a coarse channel.
    pub coarse_chan_width_hz: u32,
    /// Centre frequency of the observation.
    pub centre_freq_hz: u32,
    /// Baselines, by the context's count.
    pub num_baselines: usize,
    /// The pairs of antennas, each antenna with itself included.
    pub baselines: Vec<Baseline>,
    /// Polarisation products per baseline.
    pub num_visibility_pols: usize,
    /// The polarisation products.
    pub visibility_pols: Vec<VisibilityPol>,
    /// Name of the header file.
    pub metafits_filename: String,
}

/// Whether each number of the list fits in 32 bits.
pub open spec fn all_fit_u32(numbers: Seq<usize>) -> bool {
    forall|i: int| 0 <= i < numbers.len() ==> #[trigger] numbers[i] <= u32::MAX
}

/// The error that the header gives, if it gives one: that of the first
/// thing that is wrong with it, in this order.
pub open spec fn metafits_error(header: MetafitsHeader) -> Option<ErrorKind> {
    if header_baselines(header) > usize::MAX {
        Some(ErrorKind::InvalidMetadata)
    } else if schedule_error(header) is Some {
        schedule_error(header)
    } else if !all_fit_u32(number_list(encode_utf8(header.delays@)).unwrap()) {
        Some(ErrorKind::ParseInt)
    } else if header.obsid * 1000 + header.quack_time_duration_milliseconds > u64::MAX {
        Some(ErrorKind::InvalidMetadata)
    } else if number_list(encode_utf8(header.channels@)) is None {
        Some(ErrorKind::ParseInt)
    } else if header_rec_chans(header).len() == 0 || header_rec_chans(header).len() > u32::MAX {
        Some(ErrorKind::InvalidMetadata)
    } else if header.fine_channel_width_hz == 0 {
        Some(ErrorKind::InvalidMetadata)
    } else {
        None
    }
}

/// Whether `context` is the metafits context of the header and the
/// receiver inputs.
pub open spec fn metafits_context_of(
    context: MetafitsContext,
    header: MetafitsHeader,
    rf_inputs: Seq<mwalibRFInput>,
) -> bool {
    &&& context.obs_id == header.obsid
    &&& rfc3339_timestamp_millis(header.date_obs@ + "+00:00"@) == Some(context.sched_start_utc)
    &&& context.sched_duration_ms == header.exposure_seconds * 1000
    &&& context.sched_end_utc == context.sched_start_utc + context.sched_duration_ms
    &&& context.sched_start_gps_time_ms == header.obsid * 1000
    &&& context.sched_end_gps_time_ms == header.obsid * 1000 + context.sched_duration_ms
    &&& context.sched_start_unix_time_ms == header.good_time_unix_milliseconds
        - header.quack_time_duration_milliseconds
    &&& context.sched_end_unix_time_ms == context.sched_start_unix_time_ms
        + context.sched_duration_ms
    &&& context.quack_time_duration_ms == header.quack_time_duration_milliseconds
    &&& context.good_time_unix_ms == header.good_time_unix_milliseconds
    &&& context.good_time_gps_ms == header.obsid * 1000
        + header.quack_time_duration_milliseconds
    &&& context.hour_angle_string == header.hour_angle_string
    &&& context.grid_name == header.grid_name
    &&& context.grid_number == header.grid_number
    &&& context.creator == header.creator
    &&& context.project_id == header.project_id
    &&& context.obs_name == header.observation_name
    &&& context.mode == header.mode
    &&& context.metafits_filename == header.metafits_filename
    &&& context.corr_fine_chan_width_hz == header.fine_channel_width_hz
    &&& context.corr_int_time_ms == header.integration_time_milliseconds
    &&& context.num_corr_fine_chans_per_coarse == header_fine_channels(header)
    &&& number_list(encode_utf8(header.receivers@)) == Some(context.receivers@)
    &&& number_list(encode_utf8(header.delays@)) == Some(
        context.delays@.map_values(|d: u32| d as usize),
    )
    &&& context.num_rf_inputs == header.num_rf_inputs
    &&& context.num_ants == header.num_rf_inputs / 2
    &&& context.num_ant_pols == 2
    &&& exists|places: Seq<int>| is_stable_sort(context.rf_inputs@, rf_inputs, places)
    &&& context.rf_inputs@.to_multiset() == rf_inputs.to_multiset()
    &&& context.antennas@.len() == context.rf_inputs@.len() / 2
    &&& forall|i: int|
        0 <= i < context.antennas@.len() ==> (#[trigger] context.antennas@[i]).antenna
            == context.rf_inputs@[2 * i].antenna && context.antennas@[i].tile_id
            == context.rf_inputs@[2 * i].tile_id && context.antennas@[i].tile_name@
            == context.rf_inputs@[2 * i].tile_name@
    &&& context.num_baselines == baseline_count(context.num_ants as int)
    &&& context.baselines@.len() == context.num_baselines
    &&& forall|a1: int, a2: int|
        0 <= a1 <= a2 < context.num_ants ==> context.baselines@[#[trigger] baseline_index(
            a1,
            a2,
            context.num_ants as int,
        )] == (Baseline { ant1_index: a1 as usize, ant2_index: a2 as usize })
    &&& context.num_visibility_pols == 4
    &&& context.visibility_pols@.len() == 4
    &&& context.visibility_pols@[0].polarisation@ == "XX"@
    &&& context.visibility_pols@[1].polarisation@ == "XY"@
    &&& context.visibility_pols@[2].polarisation@ == "YX"@
    &&& context.visibility_pols@[3].polarisation@ == "YY"@
    &&& context.metafits_coarse_chans@ == header_rec_chans(header)
    &&& context.num_coarse_chans == header_rec_chans(header).len()
    &&& context.obs_bandwidth_hz == header.observation_bandwidth_hz
    &&& context.coarse_chan_width_hz == header_width(header)
    &&& context.centre_freq_hz == header.centre_freq_hz
}

/// The numbers of a list as 32-bit numbers, where all fit.
pub fn to_u32_list(numbers: &Vec<usize>) -> (result: Option<Vec<u32>>)
    ensures
        result is Some <==> all_fit_u32(numbers@),
        result matches Some(list) ==> list@.map_values(|d: u32| d as usize) == numbers@,
{
    let mut list: Vec<u32> = Vec::new();
    let mut i: usize = 0;
    while i < numbers.len()
        invariant
            i <= numbers@.len(),
            list@.len() == i,
            forall|j: int| 0 <= j < i ==> #[trigger] numbers@[j] <= u32::MAX && list@[j] == numbers@[j],
        decreases numbers@.len() - i,
    {
        if numbers[i] > u32::MAX as usize {
            return None;
        }
        list.push(numbers[i] as u32);
        i = i + 1;
    }
    assert(list@.map_values(|d: u32| d as usize) =~= numbers@);
    Some(list)
}

impl MetafitsContext {
    /// The metafits context of a header and the receiver inputs of its
    /// table, which may come in any order.
    pub fn new(header: MetafitsHeader, rf_inputs: Vec<mwalibRFInput>) -> (result: Result<
        Self,
        ErrorKind,
    >)
        ensures
            match result {
                Ok(context) => metafits_error(header) is None && metafits_context_of(
                    context,
                    header,
                    rf_inputs@,
                ),
                Err(e) => metafits_error(header) == Some(e),
            },
    {
        let num_rf_inputs: usize = header.num_rf_inputs;
        let num_ants: usize = num_rf_inputs / 2;
        let num_baselines: usize = match count_baselines(num_ants) {
            Some(n) => n,
            None => {
                return Err(ErrorKind::InvalidMetadata);
            },
        };
        let sched_start_utc: i64 = match parse_date_obs(header.date_obs.as_str()) {
            Some(millis) => millis,
            None => {
                return Err(ErrorKind::InvalidDateTime);
            },
        };
        let schedule: Schedule = match scheduled_times(
            sched_start_utc,
            header.obsid,
            header.exposure_seconds,
            header.quack_time_duration_milliseconds,
            header.good_time_unix_milliseconds,
        ) {
            Ok(schedule) => schedule,
            Err(e) => {
                return Err(e);
            },
        };
        let receivers: Vec<usize> = match parse_number_list(header.receivers.as_str()) {
            Ok(numbers) => numbers,
            Err(e) => {
                return Err(e);
            },
        };
        let delays: Vec<u32> = match parse_number_list(header.delays.as_str()) {
            Ok(numbers) => match to_u32_list(&numbers) {
                Some(list) => list,
                None => {
                    return Err(ErrorKind::ParseInt);
                },
            },
            Err(e) => {
                return Err(e);
            },
        };
        let good_time_gps_ms: u64 = match schedule.start_gpstime_ms.checked_add(
            header.quack_time_duration_milliseconds,
        ) {
            Some(t) => t,
            None => {
                return Err(ErrorKind::InvalidMetadata);
            },
        };
        let metafits_coarse_chans: Vec<usize> = match parse_number_list(header.channels.as_str()) {
            Ok(numbers) => sort_ascending(numbers),
            Err(e) => {
                return Err(e);
            },
        };
        let num_coarse_chans: usize = metafits_coarse_chans.len();
        if num_coarse_chans == 0 || num_coarse_chans > u32::MAX as usize {
            return Err(ErrorKind::InvalidMetadata);
        }
        let coarse_chan_width_hz: u32 = header.observation_bandwidth_hz / (num_coarse_chans as u32);
        if header.fine_channel_width_hz == 0 {
            return Err(ErrorKind::InvalidMetadata);
        }
        let num_corr_fine_chans_per_coarse: usize = (coarse_chan_width_hz
            / header.fine_channel_width_hz) as usize;
        let rf_inputs: Vec<mwalibRFInput> = sort_by_subfile_order(rf_inputs);
        let antennas: Vec<mwalibAntenna> = mwalibAntenna::populate_antennas(&rf_inputs);
        let baselines: Vec<Baseline> = Baseline::populate_baselines(num_ants);
        let visibility_pols: Vec<VisibilityPol> = VisibilityPol::populate_visibility_pols();
        let num_visibility_pols: usize = visibility_pols.len();
        Ok(
            MetafitsContext {
                obs_id: header.obsid,
                sched_start_gps_time_ms: schedule.start_gpstime_ms,
                sched_end_gps_time_ms: schedule.end_gpstime_ms,
                sched_start_unix_time_ms: schedule.start_unix_time_ms,
                sched_end_unix_time_ms: schedule.end_unix_time_ms,
                sched_start_utc: schedule.start_utc_ms,
                sched_end_utc: schedule.end_utc_ms,
                sched_duration_ms: schedule.duration_ms,
                hour_angle_string: header.hour_angle_string,
                grid_name: header.grid_name,
                grid_number: header.grid_number,
                creator: header.creator,
                project_id: header.project_id,
                obs_name: header.observation_name,
                mode: header.mode,
                corr_fine_chan_width_hz: header.fine_channel_width_hz,
                corr_int_time_ms: header.integration_time_milliseconds,
                num_corr_fine_chans_per_coarse,
                receivers,
                delays,
                quack_time_duration_ms: header.quack_time_duration_milliseconds,
                good_time_unix_ms: header.good_time_unix_milliseconds,
                good_time_gps_ms,
                num_ants,
                antennas,
                num_rf_inputs,
                rf_inputs,
                num_ant_pols: 2,
                num_coarse_chans,
                metafits_coarse_chans,
                obs_bandwidth_hz: header.observation_bandwidth_hz,
                coarse_chan_width_hz,
                centre_freq_hz: header.centre_freq_hz,
                num_baselines,
                baselines,
                num_visibility_pols,
                visibility_pols,
                metafits_filename: header.metafits_filename,
            },
        )
    }

    /// The coarse channels that an observation of this header has for a
    /// correlator of the given generation, where a data file is provided
    /// for every channel.
    pub fn get_expected_coarse_channels(&self, corr_version: CorrelatorVersion) -> (result: Result<
        Vec<CoarseChannel>,
        ErrorKind,
    >)
        ensures
            match result {
                Ok(channels) => {
                    &&& first_misfit(
                        corr_version,
                        self.metafits_coarse_chans@,
                        self.coarse_chan_width_hz,
                        None,
                        self.metafits_coarse_chans@.len() as int,
                    ) is None
                    &&& channels@ == coarse_channels_upto(
                        corr_version,
                        self.metafits_coarse_chans@,
                        self.coarse_chan_width_hz,
                        None,
                        self.metafits_coarse_chans@.len() as int,
                    )
                },
                Err(e) => e == ErrorKind::InvalidMetadata && first_misfit(
                    corr_version,
                    self.metafits_coarse_chans@,
                    self.coarse_chan_width_hz,
                    None,
                    self.metafits_coarse_chans@.len() as int,
                ) is Some,
            },
    {
        CoarseChannel::populate_coarse_channels(
            corr_version,
            &self.metafits_coarse_chans,
            self.coarse_chan_width_hz,
            None,
        )
    }
}

} // verus!
