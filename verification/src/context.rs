//! The observation context: what is known of an observation once its
//! header and its data files have been looked at, and the read path.

use crate::antenna::mwalibAntenna;
use crate::coarse_channel::{
    coarse_channels_upto, context_channel, first_misfit, mwalibCoarseChannel, CoarseChannel,
};
use crate::conversion_table::{
    follows_raw_order, generate_conversion_array, input_numbers, legacy_raw_order, raw_order_valid,
    ConversionTable,
};
use crate::convert::{
    convert_legacy_hdu_to_mwax_baseline_order, convert_legacy_hdu_to_mwax_frequency_order,
    convert_mwax_hdu_to_frequency_order, legacy_to_baseline_order, legacy_to_frequency_order,
    lemma_frequency_order_same_scalars, lemma_legacy_orders_agree, to_frequency_order,
};
use crate::error::{Axis, ErrorKind};
use crate::gpubox::{
    batch_channels, batches_hold, batches_wf, determine_gpubox_batches, file_at, first_duplicate,
    first_name_error, lacks_channel, lemma_batches_hold_every_file, names_of, parsed_names,
    GPUBoxBatch, GPUBoxFile, GpuboxName,
};
use crate::metafits::{
    is_stable_sort, number_list, parse_date_obs, parse_number_list,
    rfc3339_timestamp_millis, schedule_fits, scheduled_times, sort_by_subfile_order, Schedule,
};
use crate::misc::baseline_count;
use crate::permutation::is_permutation;
use crate::rfinput::mwalibRFInput;
use crate::sorted::{find_sorted, sort_ascending, sorted_numbers};
use crate::time_map::{
    comes_before, complete_times_of, complete_upto, create_time_map, determine_obs_times,
    distinct_times, faithful_upto, files_listed, hdu_size, hdus_of, index_len,
    is_first_record_at, is_record, lemma_every_record_indexed, lemma_index_holds_every_record,
    lemma_index_keys_distinct, lemma_located_as_many_as_keys, located, lookup, record_at, records_in_batches, sizes_upto, stops_walk,
    time_counts, GpuboxTimeMap, HduInfo, ObsTimes,
};
use crate::timestep::{mwalibTimeStep, timesteps_of};
use vstd::prelude::*;
use vstd::utf8::encode_utf8;

verus! {

/// The generations of correlator whose files this library reads.
#[derive(Debug, Clone, Copy, PartialEq, Eq, Structural)]
pub enum CorrelatorVersion {
    /// MWAX correlator (v2.0): records are in canonical order already.
    V2,
    /// MWA correlator (v1.0), with data files that carry "gpubox" and a
    /// batch number in their names.
    Legacy,
    /// MWA correlator (v1.0), with data files without any batch number.
    OldLegacy,
}

impl CorrelatorVersion {
    /// Whether records of this generation need the gather table.
    pub open spec fn spec_is_legacy(&self) -> bool {
        *self != CorrelatorVersion::V2
    }

    /// Whether records of this generation need the gather table.
    pub fn is_legacy(&self) -> (legacy: bool)
        ensures
            legacy == self.spec_is_legacy(),
    {
        match self {
            CorrelatorVersion::V2 => false,
            CorrelatorVersion::Legacy => true,
            CorrelatorVersion::OldLegacy => true,
        }
    }

    /// The name of the generation, as it is shown to people.
    pub fn description(&self) -> (text: String)
        ensures
            text@ == (match *self {
                CorrelatorVersion::V2 => "v2 MWAX"@,
                CorrelatorVersion::Legacy => "v1 Legacy"@,
                CorrelatorVersion::OldLegacy => "v1 Legacy (no file indices)"@,
            }),
    {
        match self {
            CorrelatorVersion::V2 => "v2 MWAX".to_owned(),
            CorrelatorVersion::Legacy => "v1 Legacy".to_owned(),
            CorrelatorVersion::OldLegacy => "v1 Legacy (no file indices)".to_owned(),
        }
    }
}

/// Length that the fastest-varying axis of a data record must have.
pub open spec fn expected_naxis1(
    version: CorrelatorVersion,
    fine_channels: usize,
    baselines: usize,
    pols: usize,
) -> int {
    if version.spec_is_legacy() {
        baselines * pols * 2
    } else {
        fine_channels * pols * 2
    }
}

/// Length that the slowest-varying axis of a data record must have.
pub open spec fn expected_naxis2(
    version: CorrelatorVersion,
    fine_channels: usize,
    baselines: usize,
    pols: usize,
) -> int {
    if version.spec_is_legacy() {
        fine_channels as int
    } else {
        baselines as int
    }
}

/// A length as the machine holds it, or `None` where it is beyond the
/// machine's range.
pub open spec fn as_length(n: int) -> Option<usize> {
    if 0 <= n <= usize::MAX {
        Some(n as usize)
    } else {
        None
    }
}

/// `a * b * 2`, where that fits the machine.
fn twice_product(a: usize, b: usize) -> (twice: Option<usize>)
    ensures
        twice == as_length(a * b * 2),
{
    assert(a * b >= 0) by (nonlinear_arith)
        requires
            a >= 0,
            b >= 0,
    ;
    match a.checked_mul(b) {
        Some(product) => product.checked_mul(2),
        None => None,
    }
}

/// The error that the axes of a data record give, if they are not what
/// the header calls for. The fastest-varying axis is looked at first.
pub open spec fn axes_error(
    version: CorrelatorVersion,
    fine_channels: usize,
    baselines: usize,
    pols: usize,
    naxis1: usize,
    naxis2: usize,
) -> Option<ErrorKind> {
    let wanted1 = expected_naxis1(version, fine_channels, baselines, pols);
    let wanted2 = expected_naxis2(version, fine_channels, baselines, pols);
    if naxis1 != wanted1 {
        Some(
            ErrorKind::AxisMismatch {
                axis: Axis::First,
                wanted: as_length(wanted1),
                found: naxis1,
                fine_channels,
                baselines,
                pols,
            },
        )
    } else if naxis2 != wanted2 {
        Some(
            ErrorKind::AxisMismatch {
                axis: Axis::Second,
                wanted: as_length(wanted2),
                found: naxis2,
                fine_channels,
                baselines,
                pols,
            },
        )
    } else {
        None
    }
}

/// Whether the version marker of a file's primary record suits the
/// generation that the file names imply: MWAX files carry the marker 2,
/// legacy files carry none.
pub open spec fn marker_suits(version: CorrelatorVersion, marker: Option<u8>) -> bool {
    if version == CorrelatorVersion::V2 {
        marker == Some(2u8)
    } else {
        marker is None
    }
}

/// Place of the first marker from `from` on that does not suit the
/// generation, if there is one.
pub open spec fn first_unsuited(version: CorrelatorVersion, markers: Seq<Option<u8>>, from: int) -> Option<
    int,
>
    decreases markers.len() - from,
{
    if from < 0 || from >= markers.len() {
        None
    } else if !marker_suits(version, markers[from]) {
        Some(from)
    } else {
        first_unsuited(version, markers, from + 1)
    }
}

/// Confirms the generation that the file names imply by the version
/// markers of the files' primary records.
pub fn validate_version_markers(version: CorrelatorVersion, markers: &Vec<Option<u8>>) -> (result:
    Result<(), ErrorKind>)
    ensures
        match result {
            Ok(()) => first_unsuited(version, markers@, 0) is None,
            Err(e) => first_unsuited(version, markers@, 0) is Some && e
                == (ErrorKind::VersionMismatch {
                file_index: first_unsuited(version, markers@, 0).unwrap() as usize,
            }),
        },
{
    let mut i: usize = 0;
    while i < markers.len()
        invariant
            i <= markers@.len(),
            first_unsuited(version, markers@, 0) == first_unsuited(version, markers@, i as int),
        decreases markers@.len() - i,
    {
        let suits: bool = match version {
            CorrelatorVersion::V2 => match markers[i] {
                Some(v) => v == 2,
                None => false,
            },
            _ => markers[i].is_none(),
        };
        if !suits {
            return Err(ErrorKind::VersionMismatch { file_index: i });
        }
        i = i + 1;
    }
    Ok(())
}

/// What looking at the data files gives: their batches, their generation,
/// the time index and the size of their records.
#[derive(Debug, Clone)]
pub struct GpuboxInfo {
    /// The batches, ascending by batch number.
    pub gpubox_batches: Vec<GPUBoxBatch>,
    /// The generation of correlator that wrote the files.
    pub corr_version: CorrelatorVersion,
    /// The time index.
    pub gpubox_time_map: GpuboxTimeMap,
    /// Scalars in each data record.
    pub hdu_size: usize,
    /// Data files in each batch.
    pub num_gpubox_files: usize,
}

impl GpuboxInfo {
    /// The batches are well formed and the time index is that of the
    /// files' records.
    pub open spec fn wf(&self, hdus: Seq<Vec<HduInfo>>) -> bool {
        let end = self.gpubox_batches@.len() as int;
        &&& batches_wf(self.gpubox_batches@)
        &&& files_listed(self.gpubox_batches@, hdus.len() as int)
        &&& self.num_gpubox_files == self.gpubox_batches@[0].gpubox_files@.len()
        &&& self.gpubox_time_map.wf()
        &&& self.gpubox_time_map.channels@ == batch_channels(self.gpubox_batches@)
        &&& faithful_upto(self.gpubox_time_map@, self.gpubox_batches@, hdus, end, 0, 1)
        &&& complete_upto(self.gpubox_time_map@, self.gpubox_batches@, hdus, end, 0, 1)
        &&& sizes_upto(self.gpubox_batches@, hdus, self.hdu_size as int, end, 0, 1)
        &&& index_len(self.gpubox_time_map@) <= records_in_batches(
            self.gpubox_batches@,
            hdus,
            end,
        )
        &&& distinct_times(self.gpubox_batches@, hdus) ==> index_len(
            self.gpubox_time_map@,
        ) == records_in_batches(self.gpubox_batches@, hdus, end)
    }
}

impl GpuboxInfo {
    /// The time index holds each record once. Where no two records of one
    /// channel have the same time and every file holds `per_file` records,
    /// the index holds as many records as there are files, times
    /// `per_file`; and each record stands under its own time and channel.
    pub proof fn lemma_time_index_holds_each_record_once(self, hdus: Seq<Vec<HduInfo>>, per_file: nat)
        requires
            self.wf(hdus),
            distinct_times(self.gpubox_batches@, hdus),
            forall|b: int, c: int|
                0 <= b < self.gpubox_batches@.len() && 0 <= c < self.num_gpubox_files ==> (
                #[trigger] hdus_of(self.gpubox_batches@, hdus, b, c)).len()
                    == per_file,
        ensures
            index_len(self.gpubox_time_map@) == (self.gpubox_batches@.len()
                * self.num_gpubox_files) * per_file,
            forall|b: int, c: int, h: int|
                is_record(self.gpubox_batches@, hdus, b, c, h) ==> lookup(
                    self.gpubox_time_map@,
                    (#[trigger] record_at(
                        self.gpubox_batches@,
                        hdus,
                        b,
                        c,
                        h,
                    )).unix_time_ms,
                    c,
                ) == Some((b as usize, h as usize)),
    {
        lemma_index_holds_every_record(
            self.gpubox_time_map@,
            self.gpubox_batches@,
            hdus,
            per_file,
        );
        assert forall|b: int, c: int, h: int|
            is_record(self.gpubox_batches@, hdus, b, c, h) implies lookup(
            self.gpubox_time_map@,
            (#[trigger] record_at(
                self.gpubox_batches@,
                hdus,
                b,
                c,
                h,
            )).unix_time_ms,
            c,
        ) == Some((b as usize, h as usize)) by {
            lemma_every_record_indexed(
                self.gpubox_time_map@,
                self.gpubox_batches@,
                hdus,
                b,
                c,
                h,
            );
        }
    }

    /// Where `n` data files are given, each with `per_file` records, and no
    /// two records of one channel have the same time, the time index holds
    /// `n * per_file` records.
    pub proof fn lemma_time_index_holds_files_times_records(
        self,
        gpubox_filenames: Seq<String>,
        version_markers: Seq<Option<u8>>,
        hdus: Seq<Vec<HduInfo>>,
        per_file: nat,
    )
        requires
            examined(self, gpubox_filenames, version_markers, hdus),
            distinct_times(self.gpubox_batches@, hdus),
            forall|i: int| 0 <= i < hdus.len() ==> (#[trigger] hdus[i])@.len() == per_file,
        ensures
            index_len(self.gpubox_time_map@) == gpubox_filenames.len() * per_file,
    {
        let batches = self.gpubox_batches@;
        lemma_batches_hold_every_file(batches, parsed_names(names_of(gpubox_filenames)));
        assert forall|b: int, c: int|
            0 <= b < batches.len() && 0 <= c < self.num_gpubox_files implies (#[trigger] hdus_of(
            batches,
            hdus,
            b,
            c,
        )).len() == per_file by {
            assert(batches[b].gpubox_files@.len() == batches[0].gpubox_files@.len());
            assert(file_at(batches, b, c).file_index < hdus.len());
        }
        self.lemma_time_index_holds_each_record_once(hdus, per_file);
    }

    /// No two keys of the time index lead to the same record: two keys
    /// that differ in time or in channel differ in channel or in where
    /// their record is.
    pub proof fn lemma_time_index_keys_distinct(
        self,
        hdus: Seq<Vec<HduInfo>>,
        t1: u64,
        c1: int,
        t2: u64,
        c2: int,
    )
        requires
            self.wf(hdus),
            0 <= c1 < self.num_gpubox_files,
            0 <= c2 < self.num_gpubox_files,
            lookup(self.gpubox_time_map@, t1, c1) is Some,
            lookup(self.gpubox_time_map@, t2, c2) is Some,
            t1 != t2 || c1 != c2,
        ensures
            c1 != c2 || lookup(self.gpubox_time_map@, t1, c1) != lookup(
                self.gpubox_time_map@,
                t2,
                c2,
            ),
    {
        lemma_index_keys_distinct(
            self.gpubox_time_map@,
            self.gpubox_batches@,
            hdus,
            t1,
            c1,
            t2,
            c2,
        );
    }
}

/// Whether `info` is what looking at the data files gives, and nothing
/// is wrong with the files.
pub open spec fn examined(
    info: GpuboxInfo,
    gpubox_filenames: Seq<String>,
    version_markers: Seq<Option<u8>>,
    hdus: Seq<Vec<HduInfo>>,
) -> bool {
    let names = names_of(gpubox_filenames);
    let parsed = parsed_names(names);
    &&& names.len() > 0
    &&& first_name_error(names, 0) is None
    &&& first_duplicate(parsed, 0) is None
    &&& forall|batch: usize| !lacks_channel(parsed, batch)
    &&& version_markers.len() == names.len()
    &&& hdus.len() == names.len()
    &&& first_unsuited(parsed[0].corr_version, version_markers, 0) is None
    &&& info.wf(hdus)
    &&& batches_hold(info.gpubox_batches@, parsed)
    &&& info.corr_version == parsed[0].corr_version
}

/// Whether `batch` is the first batch that lacks a channel, and `e` says
/// so.
pub open spec fn is_first_uneven(parsed: Seq<GpuboxName>, e: ErrorKind, batch: usize) -> bool {
    &&& e == (ErrorKind::UnevenChannelsForBatch { batch_number: batch })
    &&& lacks_channel(parsed, batch)
    &&& forall|other: usize| other < batch ==> !lacks_channel(parsed, other)
}

/// Whether the walk over the records of some grouping of the files into
/// batches stops with `e`.
pub open spec fn walk_stops(
    parsed: Seq<GpuboxName>,
    hdus: Seq<Vec<HduInfo>>,
    e: ErrorKind,
) -> bool {
    exists|batches: Seq<GPUBoxBatch>, b: int, c: int, h: int|
        batches_wf(batches) && batches_hold(batches, parsed) && #[trigger] stops_walk(
            batches,
            hdus,
            e,
            b,
            c,
            h,
        )
}

/// Whether `e` is the error that looking at the data files gives: that
/// of the first thing that is wrong with them, in the order in which they
/// are looked at.
pub open spec fn examination_error(
    gpubox_filenames: Seq<String>,
    version_markers: Seq<Option<u8>>,
    hdus: Seq<Vec<HduInfo>>,
    e: ErrorKind,
) -> bool {
    let names = names_of(gpubox_filenames);
    let parsed = parsed_names(names);
    if names.len() == 0 {
        e == ErrorKind::NoGpuboxFiles
    } else if first_name_error(names, 0) is Some {
        e == first_name_error(names, 0).unwrap()
    } else if first_duplicate(parsed, 0) is Some {
        e == (ErrorKind::DuplicateFile { file_index: first_duplicate(parsed, 0).unwrap() as usize })
    } else if exists|batch: usize| lacks_channel(parsed, batch) {
        exists|batch: usize| #[trigger] is_first_uneven(parsed, e, batch)
    } else if version_markers.len() != names.len() || hdus.len() != names.len() {
        e == ErrorKind::FileListMismatch
    } else if first_unsuited(parsed[0].corr_version, version_markers, 0) is Some {
        e == (ErrorKind::VersionMismatch {
            file_index: first_unsuited(parsed[0].corr_version, version_markers, 0).unwrap() as usize,
        })
    } else {
        walk_stops(parsed, hdus, e)
    }
}

/// Looks at the data files: groups them into batches by their names,
/// confirms their generation by their version markers, and builds the
/// time index from their records.
///
/// `version_markers[i]` is the version marker in the primary record of the
/// file `gpubox_filenames[i]`, if it has one, and `hdus[i]` lists its data
/// records.
pub fn examine_gpubox_files(
    gpubox_filenames: &Vec<String>,
    version_markers: &Vec<Option<u8>>,
    hdus: &Vec<Vec<HduInfo>>,
) -> (result: Result<GpuboxInfo, ErrorKind>)
    ensures
        match result {
            Ok(info) => examined(info, gpubox_filenames@, version_markers@, hdus@),
            Err(e) => examination_error(gpubox_filenames@, version_markers@, hdus@, e),
        },
{
    let ghost parsed = parsed_names(names_of(gpubox_filenames@));
    let (gpubox_batches, corr_version) = match determine_gpubox_batches(gpubox_filenames) {
        Ok(found) => found,
        Err(e) => {
            proof {
                if names_of(gpubox_filenames@).len() != 0 && first_name_error(
                    names_of(gpubox_filenames@),
                    0,
                ) is None && first_duplicate(parsed, 0) is None {
                    let batch = choose|batch: usize|
                        {
                            &&& e == (ErrorKind::UnevenChannelsForBatch { batch_number: batch })
                            &&& #[trigger] lacks_channel(parsed, batch)
                            &&& forall|other: usize| other < batch ==> !lacks_channel(parsed, other)
                        };
                    assert(is_first_uneven(parsed, e, batch));
                }
            }
            return Err(e);
        },
    };
    if version_markers.len() != gpubox_filenames.len() || hdus.len() != gpubox_filenames.len() {
        return Err(ErrorKind::FileListMismatch);
    }
    match validate_version_markers(corr_version, version_markers) {
        Ok(()) => {},
        Err(e) => {
            return Err(e);
        },
    }
    proof {
        let parsed = parsed_names(names_of(gpubox_filenames@));
        assert(parsed.len() == hdus@.len());
    }
    let (gpubox_time_map, hdu_size) = match create_time_map(&gpubox_batches, hdus) {
        Ok(found) => found,
        Err(e) => {
            proof {
                let (b, c, h) = choose|b: int, c: int, h: int| #[trigger]
                    stops_walk(gpubox_batches@, hdus@, e, b, c, h);
                assert(stops_walk(gpubox_batches@, hdus@, e, b, c, h));
            }
            return Err(e);
        },
    };
    let num_gpubox_files: usize = gpubox_batches[0].gpubox_files.len();
    Ok(GpuboxInfo { gpubox_batches, corr_version, gpubox_time_map, hdu_size, num_gpubox_files })
}

/// What the header of an observation says, as far as the context needs
/// it. Times that the header gives in seconds with a fraction are held in
/// milliseconds, frequencies in Hz.
#[derive(Debug, Clone)]
pub struct MetafitsHeader {
    /// `GPSTIME`: the observation's identifier, its scheduled start in GPS
    /// seconds.
    pub obsid: u32,
    /// `NINPUTS`: receiver inputs.
    pub num_rf_inputs: usize,
    /// `INTTIME`, in milliseconds: length of one record.
    pub integration_time_milliseconds: u64,
    /// `BANDWDTH`, in Hz: bandwidth of the observation.
    pub observation_bandwidth_hz: u32,
    /// `FINECHAN`, in Hz: width of a fine channel.
    pub fine_channel_width_hz: u32,
    /// `FREQCENT`, in Hz: centre frequency of the observation.
    pub centre_freq_hz: u32,
    /// `DATE-OBS`: scheduled start in UTC, without an offset.
    pub date_obs: String,
    /// `EXPOSURE`: scheduled length in seconds.
    pub exposure_seconds: u64,
    /// `QUACKTIM`, in milliseconds: bad data at the start.
    pub quack_time_duration_milliseconds: u64,
    /// `GOODTIME`, in milliseconds: first good moment in UNIX time.
    pub good_time_unix_milliseconds: u64,
    /// `HA`: hour angle of the pointing centre.
    pub hour_angle_string: String,
    /// `GRIDNAME`.
    pub grid_name: String,
    /// `GRIDNUM`.
    pub grid_number: i32,
    /// `CREATOR`.
    pub creator: String,
    /// `PROJECT`.
    pub project_id: String,
    /// `FILENAME`: name of the observation.
    pub observation_name: String,
    /// `MODE`.
    pub mode: String,
    /// `RECVRS`: list of receiver numbers.
    pub receivers: String,
    /// `DELAYS`: list of delays.
    pub delays: String,
    /// `CHANNELS`: list of receiver channel numbers.
    pub channels: String,
    /// Name of the header file.
    pub metafits_filename: String,
}

/// Where a data record is: which file, and which record of it.
#[derive(Debug, Clone, Copy, PartialEq, Eq, Structural)]
pub struct HduLocation {
    /// Place of the batch among the batches.
    pub batch_index: usize,
    /// Place of the file in the batch's file list.
    pub channel_index: usize,
    /// Place of the file in the list of file names that was given.
    pub file_index: usize,
    /// Record within the file, counted from 1.
    pub hdu_index: usize,
}

/// The observation context: what is known of an observation, and all that
/// is needed to find its data records and bring them into order.
#[allow(non_camel_case_types)]
#[derive(Debug, Clone)]
pub struct mwalibContext {
    /// Observation identifier.
    pub obsid: u32,
    /// Scheduled start of the observation in GPS time.
    pub scheduled_start_gpstime_milliseconds: u64,
    /// Scheduled end of the observation in GPS time.
    pub scheduled_end_gpstime_milliseconds: u64,
    /// Scheduled start of the observation in UNIX time.
    pub scheduled_start_unix_time_milliseconds: u64,
    /// Scheduled end of the observation in UNIX time.
    pub scheduled_end_unix_time_milliseconds: u64,
    /// Scheduled start in UTC, in milliseconds from the start of 1970.
    pub scheduled_start_utc: i64,
    /// Scheduled end in UTC, in milliseconds from the start of 1970.
    pub scheduled_end_utc: i64,
    /// Scheduled length of the observation.
    pub scheduled_duration_milliseconds: u64,
    /// Hour angle of the pointing centre.
    pub hour_angle_string: String,
    /// Name of the pointing grid.
    pub grid_name: String,
    /// Number of the pointing grid.
    pub grid_number: i32,
    /// Who scheduled the observation.
    pub creator: String,
    /// Project that the observation belongs to.
    pub project_id: String,
    /// Name of the observation.
    pub observation_name: String,
    /// Observing mode.
    pub mode: String,
    /// Receiver numbers.
    pub receivers: Vec<usize>,
    /// Delays.
    pub delays: Vec<usize>,
    /// Bad data at the start of the observation.
    pub quack_time_duration_milliseconds: u64,
    /// First good moment of the observation in UNIX time.
    pub good_time_unix_milliseconds: u64,
    /// Generation of correlator that wrote the data files.
    pub corr_version: CorrelatorVersion,
    /// Time of the first complete timestep.
    pub start_unix_time_milliseconds: u64,
    /// Time of the last complete timestep.
    pub end_unix_time_milliseconds: u64,
    /// From the start of the first complete timestep to the end of the
    /// last.
    pub duration_milliseconds: u64,
    /// Complete timesteps.
    pub num_timesteps: usize,
    /// The complete timesteps, ascending.
    pub timesteps: Vec<mwalibTimeStep>,
    /// Antennas: half the receiver inputs.
    pub num_antennas: usize,
    /// The antennas, in the order of the receiver inputs.
    pub antennas: Vec<mwalibAntenna>,
    /// Baselines, each antenna with itself included.
    pub num_baselines: usize,
    /// Receiver inputs.
    pub num_rf_inputs: usize,
    /// The receiver inputs, ascending by target position.
    pub rf_inputs: Vec<mwalibRFInput>,
    /// Polarisations per antenna.
    pub num_antenna_pols: usize,
    /// Polarisation products per baseline.
    pub num_visibility_pols: usize,
    /// Coarse channels for which data files were provided.
    pub num_coarse_channels: usize,
    /// The coarse channels, ascending by receiver channel number.
    pub coarse_channels: Vec<mwalibCoarseChannel>,
    /// Length of one record.
    pub integration_time_milliseconds: u64,
    /// Width of a fine channel.
    pub fine_channel_width_hz: u32,
    /// Bandwidth of the coarse channels that were provided.
    pub observation_bandwidth_hz: u32,
    /// Width of a coarse channel.
    pub coarse_channel_width_hz: u32,
    /// Fine channels in each coarse channel.
    pub num_fine_channels_per_coarse: usize,
    /// Name of the header file.
    pub metafits_filename: String,
    /// The batches of data files, ascending by batch number; within each
    /// the files ascending by channel.
    pub gpubox_batches: Vec<GPUBoxBatch>,
    /// The time index.
    pub gpubox_time_map: GpuboxTimeMap,
    /// Bytes in each data record.
    pub num_timestep_coarse_channel_bytes: usize,
    /// Scalars in each data record.
    pub num_timestep_coarse_channel_floats: usize,
    /// Data files in each batch.
    pub num_gpubox_files: usize,
    /// The gather table for legacy records; empty for MWAX.
    pub legacy_conversion_table: ConversionTable,
}

/// Place of `channel` in an ascending list of channels.
pub open spec fn channel_place(channels: Seq<usize>, channel: usize) -> int {
    choose|c: int| 0 <= c < channels.len() && channels[c] == channel
}

impl mwalibContext {
    /// The tables of the context fit together: the time index belongs to
    /// the batches, the timesteps are its complete times, and a record of
    /// the size that construction found has the axes that the header
    /// describes and, for legacy files, the conversion table covers.
    pub open spec fn wf(&self) -> bool {
        &&& batches_wf(self.gpubox_batches@)
        &&& self.gpubox_time_map.wf()
        &&& self.gpubox_time_map.channels@ == batch_channels(self.gpubox_batches@)
        &&& forall|t: u64, c: int|
            0 <= c < self.gpubox_time_map.channels@.len() && (#[trigger] lookup(
                self.gpubox_time_map@,
                t,
                c,
            )) is Some ==> lookup(self.gpubox_time_map@, t, c).unwrap().0
                < self.gpubox_batches@.len()
        &&& self.num_timesteps == self.timesteps@.len()
        &&& self.num_coarse_channels == self.coarse_channels@.len()
        &&& self.num_baselines == baseline_count(self.num_antennas as int)
        &&& self.num_timestep_coarse_channel_floats == (self.num_baselines
            * self.num_fine_channels_per_coarse) * (self.num_visibility_pols * 2)
        &&& self.num_timestep_coarse_channel_bytes == self.num_timestep_coarse_channel_floats * 4
        &&& self.legacy_conversion_table.wf()
        &&& self.corr_version.spec_is_legacy() ==> self.num_visibility_pols == 4
            && self.legacy_conversion_table.entries@.len() == self.num_baselines * 4
    }

    /// Where the record of a timestep and a coarse channel is, or why
    /// there is none.
    pub open spec fn spec_locate(&self, timestep_index: usize, coarse_channel_index: usize) -> Result<
        HduLocation,
        ErrorKind,
    > {
        let channels = self.gpubox_time_map.channels@;
        if timestep_index >= self.timesteps@.len() {
            Err(
                ErrorKind::InvalidTimeStepIndex {
                    index: timestep_index,
                    count: self.timesteps@.len() as usize,
                },
            )
        } else if coarse_channel_index >= self.coarse_channels@.len() {
            Err(
                ErrorKind::InvalidCoarseChannelIndex {
                    index: coarse_channel_index,
                    count: self.coarse_channels@.len() as usize,
                },
            )
        } else {
            let channel = self.coarse_channels@[coarse_channel_index as int].gpubox_number;
            let c = channel_place(channels, channel);
            let found = lookup(
                self.gpubox_time_map@,
                self.timesteps@[timestep_index as int].unix_time_ms,
                c,
            );
            if channels.contains(channel) && found is Some {
                Ok(
                    HduLocation {
                        batch_index: found.unwrap().0,
                        channel_index: c as usize,
                        file_index: file_at(
                            self.gpubox_batches@,
                            found.unwrap().0 as int,
                            c,
                        ).file_index,
                        hdu_index: found.unwrap().1,
                    },
                )
            } else {
                Err(
                    ErrorKind::NoDataForTimeStepCoarseChannel {
                        timestep_index,
                        coarse_channel_index,
                    },
                )
            }
        }
    }

    /// A record of this observation in baseline order,
    /// `[baseline][fine channel][pol][real, imag]`, given the record as
    /// the file holds it. MWAX records are in this order already.
    pub open spec fn spec_baseline_order(&self, raw: Seq<u32>) -> Seq<u32> {
        if self.corr_version.spec_is_legacy() {
            legacy_to_baseline_order(
                self.legacy_conversion_table.entries@,
                raw,
                self.num_fine_channels_per_coarse as int,
            )
        } else {
            raw
        }
    }

    /// A record of this observation in frequency order,
    /// `[fine channel][baseline][pol][real, imag]`, given the record as
    /// the file holds it.
    pub open spec fn spec_frequency_order(&self, raw: Seq<u32>) -> Seq<u32> {
        if self.corr_version.spec_is_legacy() {
            legacy_to_frequency_order(self.legacy_conversion_table.entries@, raw)
        } else {
            to_frequency_order(
                raw,
                self.num_baselines as int,
                self.num_fine_channels_per_coarse as int,
                self.num_visibility_pols * 2,
            )
        }
    }

    /// Checks the axes of a data record against what the header's
    /// metadata call for.
    ///
    /// A legacy record has one row per fine channel, and in each row real
    /// and imaginary part of each polarisation product of each baseline. An
    /// MWAX record has one row per baseline, and in each row real and
    /// imaginary part of each polarisation product of each fine channel.
    /// The fastest-varying axis is looked at first.
    pub fn validate_hdu_axes(
        corr_version: CorrelatorVersion,
        metafits_fine_channels_per_coarse: usize,
        metafits_baselines: usize,
        visibility_pols: usize,
        naxis1: usize,
        naxis2: usize,
    ) -> (result: Result<(), ErrorKind>)
        ensures
            match result {
                Ok(()) => axes_error(
                    corr_version,
                    metafits_fine_channels_per_coarse,
                    metafits_baselines,
                    visibility_pols,
                    naxis1,
                    naxis2,
                ) is None,
                Err(e) => axes_error(
                    corr_version,
                    metafits_fine_channels_per_coarse,
                    metafits_baselines,
                    visibility_pols,
                    naxis1,
                    naxis2,
                ) == Some(e),
            },
    {
        let (wanted1, wanted2) = if corr_version.is_legacy() {
            (twice_product(metafits_baselines, visibility_pols), metafits_fine_channels_per_coarse)
        } else {
            (twice_product(metafits_fine_channels_per_coarse, visibility_pols), metafits_baselines)
        };
        let first_ok: bool = match wanted1 {
            Some(wanted) => wanted == naxis1,
            None => false,
        };
        if !first_ok {
            return Err(
                ErrorKind::AxisMismatch {
                    axis: Axis::First,
                    wanted: wanted1,
                    found: naxis1,
                    fine_channels: metafits_fine_channels_per_coarse,
                    baselines: metafits_baselines,
                    pols: visibility_pols,
                },
            );
        }
        if wanted2 != naxis2 {
            return Err(
                ErrorKind::AxisMismatch {
                    axis: Axis::Second,
                    wanted: Some(wanted2),
                    found: naxis2,
                    fine_channels: metafits_fine_channels_per_coarse,
                    baselines: metafits_baselines,
                    pols: visibility_pols,
                },
            );
        }
        Ok(())
    }

    /// Checks the first data record of a file against what the header's
    /// metadata call for, given the record's image size as the file states
    /// it: the slowest-varying axis first.
    pub fn validate_first_hdu(
        corr_version: CorrelatorVersion,
        metafits_fine_channels_per_coarse: usize,
        metafits_baselines: usize,
        visibility_pols: usize,
        dimensions: &Vec<usize>,
    ) -> (result: Result<(), ErrorKind>)
        ensures
            dimensions@.len() != 2 ==> result == Err::<(), ErrorKind>(ErrorKind::InvalidMetadata),
            dimensions@.len() == 2 ==> match result {
                Ok(()) => axes_error(
                    corr_version,
                    metafits_fine_channels_per_coarse,
                    metafits_baselines,
                    visibility_pols,
                    dimensions@[1],
                    dimensions@[0],
                ) is None,
                Err(e) => axes_error(
                    corr_version,
                    metafits_fine_channels_per_coarse,
                    metafits_baselines,
                    visibility_pols,
                    dimensions@[1],
                    dimensions@[0],
                ) == Some(e),
            },
    {
        if dimensions.len() != 2 {
            return Err(ErrorKind::InvalidMetadata);
        }
        let naxis1: usize = dimensions[1];
        let naxis2: usize = dimensions[0];
        Self::validate_hdu_axes(
            corr_version,
            metafits_fine_channels_per_coarse,
            metafits_baselines,
            visibility_pols,
            naxis1,
            naxis2,
        )
    }

    /// Finds the data record of a timestep and a coarse channel: the file
    /// that holds it, and the record within the file.
    pub fn locate(&self, timestep_index: usize, coarse_channel_index: usize) -> (result: Result<
        HduLocation,
        ErrorKind,
    >)
        requires
            self.wf(),
        ensures
            result == self.spec_locate(timestep_index, coarse_channel_index),
            result matches Ok(location) ==> location.batch_index < self.gpubox_batches@.len()
                && location.channel_index < self.gpubox_batches@[0].gpubox_files@.len(),
    {
        if timestep_index >= self.timesteps.len() {
            return Err(
                ErrorKind::InvalidTimeStepIndex {
                    index: timestep_index,
                    count: self.timesteps.len(),
                },
            );
        }
        if coarse_channel_index >= self.coarse_channels.len() {
            return Err(
                ErrorKind::InvalidCoarseChannelIndex {
                    index: coarse_channel_index,
                    count: self.coarse_channels.len(),
                },
            );
        }
        let channel: usize = self.coarse_channels[coarse_channel_index].gpubox_number;
        let t: u64 = self.timesteps[timestep_index].unix_time_ms;
        let ghost channels = self.gpubox_time_map.channels@;
        let c: usize = match find_sorted(&self.gpubox_time_map.channels, channel) {
            Some(c) => c,
            None => {
                return Err(
                    ErrorKind::NoDataForTimeStepCoarseChannel {
                        timestep_index,
                        coarse_channel_index,
                    },
                );
            },
        };
        proof {
            let chosen = channel_place(channels, channel);
            assert(channels.contains(channel));
            if chosen < c {
                assert(channels[chosen] < channels[c as int]);
            } else if chosen > c {
                assert(channels[c as int] < channels[chosen]);
            }
        }
        match self.gpubox_time_map.get(t, c) {
            Some((batch_index, hdu_index)) => {
                assert(batch_index < self.gpubox_batches@.len());
                assert(self.gpubox_batches@[batch_index as int].gpubox_files@.len()
                    == self.gpubox_batches@[0].gpubox_files@.len());
                assert(channels.len() == self.gpubox_batches@[0].gpubox_files@.len());
                let file: GPUBoxFile = self.gpubox_batches[batch_index].gpubox_files[c];
                Ok(
                    HduLocation {
                        batch_index,
                        channel_index: c,
                        file_index: file.file_index,
                        hdu_index,
                    },
                )
            },
            None => Err(
                ErrorKind::NoDataForTimeStepCoarseChannel { timestep_index, coarse_channel_index },
            ),
        }
    }

    /// The record of a timestep and a coarse channel in baseline order:
    /// `[baseline][fine channel][pol][real, imag]`.
    ///
    /// `raw` is the record that `locate` names for the two indices, as the
    /// file holds it, each scalar as its bit pattern. A legacy record goes
    /// through the conversion table; an MWAX record is in baseline order
    /// already and is handed back as it is.
    pub fn read_by_baseline(
        &self,
        timestep_index: usize,
        coarse_channel_index: usize,
        raw: Vec<u32>,
    ) -> (result: Result<Vec<u32>, ErrorKind>)
        requires
            self.wf(),
        ensures
            match self.spec_locate(timestep_index, coarse_channel_index) {
                Err(e) => result == Err::<Vec<u32>, ErrorKind>(e),
                Ok(_) => if raw@.len() != self.num_timestep_coarse_channel_floats {
                    result == Err::<Vec<u32>, ErrorKind>(
                        ErrorKind::RecordSizeMismatch {
                            expected: self.num_timestep_coarse_channel_floats,
                            actual: raw@.len() as usize,
                        },
                    )
                } else {
                    result matches Ok(data) && data@ == self.spec_baseline_order(raw@)
                },
            },
    {
        match self.locate(timestep_index, coarse_channel_index) {
            Ok(_) => {},
            Err(e) => {
                return Err(e);
            },
        }
        if raw.len() != self.num_timestep_coarse_channel_floats {
            return Err(
                ErrorKind::RecordSizeMismatch {
                    expected: self.num_timestep_coarse_channel_floats,
                    actual: raw.len(),
                },
            );
        }
        if self.corr_version.is_legacy() {
            proof {
                self.lemma_legacy_record_len();
            }
            Ok(
                convert_legacy_hdu_to_mwax_baseline_order(
                    &self.legacy_conversion_table,
                    raw.as_slice(),
                    self.num_fine_channels_per_coarse,
                ),
            )
        } else {
            Ok(raw)
        }
    }

    /// The record of a timestep and a coarse channel in frequency order:
    /// `[fine channel][baseline][pol][real, imag]`.
    ///
    /// `raw` is the record that `locate` names for the two indices, as the
    /// file holds it, each scalar as its bit pattern. A legacy record goes
    /// through the conversion table; in an MWAX record fine channel and
    /// baseline change places.
    pub fn read_by_frequency(
        &self,
        timestep_index: usize,
        coarse_channel_index: usize,
        raw: Vec<u32>,
    ) -> (result: Result<Vec<u32>, ErrorKind>)
        requires
            self.wf(),
        ensures
            match self.spec_locate(timestep_index, coarse_channel_index) {
                Err(e) => result == Err::<Vec<u32>, ErrorKind>(e),
                Ok(_) => if raw@.len() != self.num_timestep_coarse_channel_floats {
                    result == Err::<Vec<u32>, ErrorKind>(
                        ErrorKind::RecordSizeMismatch {
                            expected: self.num_timestep_coarse_channel_floats,
                            actual: raw@.len() as usize,
                        },
                    )
                } else {
                    result matches Ok(data) && data@ == self.spec_frequency_order(raw@)
                },
            },
    {
        match self.locate(timestep_index, coarse_channel_index) {
            Ok(_) => {},
            Err(e) => {
                return Err(e);
            },
        }
        if raw.len() != self.num_timestep_coarse_channel_floats {
            return Err(
                ErrorKind::RecordSizeMismatch {
                    expected: self.num_timestep_coarse_channel_floats,
                    actual: raw.len(),
                },
            );
        }
        if self.corr_version.is_legacy() {
            proof {
                self.lemma_legacy_record_len();
            }
            Ok(
                convert_legacy_hdu_to_mwax_frequency_order(
                    &self.legacy_conversion_table,
                    raw.as_slice(),
                    self.num_fine_channels_per_coarse,
                ),
            )
        } else {
            Ok(
                convert_mwax_hdu_to_frequency_order(
                    raw.as_slice(),
                    self.num_baselines,
                    self.num_fine_channels_per_coarse,
                    self.num_visibility_pols,
                ),
            )
        }
    }

    /// A legacy record has, for each fine channel, two scalars for each
    /// entry of the conversion table.
    pub proof fn lemma_legacy_record_len(&self)
        requires
            self.wf(),
            self.corr_version.spec_is_legacy(),
        ensures
            self.num_timestep_coarse_channel_floats == self.num_fine_channels_per_coarse * (2
                * self.legacy_conversion_table.entries@.len()),
    {
        let b = self.num_baselines as int;
        let f = self.num_fine_channels_per_coarse as int;
        assert((b * f) * (4 * 2) == f * (2 * (b * 4))) by (nonlinear_arith);
    }

    /// Reading a record by baseline and reading it by frequency give the
    /// same scalars, each as often in one order as in the other: the two
    /// results have one length, and any sum over one is a sum over the other
    /// in another order. The frequency order is the baseline order with fine
    /// channel and baseline exchanged.
    pub proof fn lemma_reads_agree(&self, raw: Seq<u32>)
        requires
            self.wf(),
            raw.len() == self.num_timestep_coarse_channel_floats,
        ensures
            self.spec_frequency_order(raw).len() == self.spec_baseline_order(raw).len(),
            self.spec_frequency_order(raw).to_multiset() == self.spec_baseline_order(
                raw,
            ).to_multiset(),
            self.spec_frequency_order(raw) == to_frequency_order(
                self.spec_baseline_order(raw),
                self.num_baselines as int,
                self.num_fine_channels_per_coarse as int,
                self.num_visibility_pols * 2,
            ),
    {
        if self.corr_version.spec_is_legacy() {
            self.lemma_legacy_record_len();
            lemma_legacy_orders_agree(
                self.legacy_conversion_table.entries@,
                raw,
                self.num_fine_channels_per_coarse as int,
            );
        }
        lemma_frequency_order_same_scalars(
            self.spec_baseline_order(raw),
            self.num_baselines as int,
            self.num_fine_channels_per_coarse as int,
            self.num_visibility_pols * 2,
        );
    }

    /// For an MWAX observation, reading by baseline hands the record back
    /// as the file holds it.
    pub proof fn lemma_mwax_read_is_identity(&self, raw: Seq<u32>)
        requires
            self.corr_version == CorrelatorVersion::V2,
        ensures
            self.spec_baseline_order(raw) == raw,
    {
    }
}

/// The first data record of the file that the context checks the axes
/// of: the first file of the batch that holds the first timestep of the
/// first coarse channel. `None` where there is no timestep, no coarse
/// channel, no such record in the index or no record in the file.
pub open spec fn first_hdu_checked(
    info: GpuboxInfo,
    timesteps: Seq<mwalibTimeStep>,
    coarse_channels: Seq<mwalibCoarseChannel>,
    hdus: Seq<Vec<HduInfo>>,
) -> Option<HduInfo> {
    let channels = info.gpubox_time_map.channels@;
    if timesteps.len() == 0 || coarse_channels.len() == 0 {
        None
    } else {
        let channel = coarse_channels[0].gpubox_number;
        let c = channel_place(channels, channel);
        let found = lookup(info.gpubox_time_map@, timesteps[0].unix_time_ms, c);
        if !channels.contains(channel) || found is None {
            None
        } else {
            let records = hdus[file_at(
                info.gpubox_batches@,
                found.unwrap().0 as int,
                0,
            ).file_index as int]@;
            if records.len() == 0 {
                None
            } else {
                Some(records[0])
            }
        }
    }
}

/// The first data record of the file that the context checks the axes
/// of.
pub fn first_hdu_to_validate(
    info: &GpuboxInfo,
    timesteps: &Vec<mwalibTimeStep>,
    coarse_channels: &Vec<mwalibCoarseChannel>,
    hdus: &Vec<Vec<HduInfo>>,
) -> (result: Result<HduInfo, ErrorKind>)
    requires
        info.wf(hdus@),
    ensures
        match result {
            Ok(first) => first_hdu_checked(*info, timesteps@, coarse_channels@, hdus@) == Some(first)
                && hdu_size(first) == info.hdu_size,
            Err(e) => first_hdu_checked(*info, timesteps@, coarse_channels@, hdus@) is None && e
                == (ErrorKind::NoDataForTimeStepCoarseChannel {
                timestep_index: 0,
                coarse_channel_index: 0,
            }),
        },
{
    let missing = ErrorKind::NoDataForTimeStepCoarseChannel {
        timestep_index: 0,
        coarse_channel_index: 0,
    };
    if timesteps.len() == 0 || coarse_channels.len() == 0 {
        return Err(missing);
    }
    let channel: usize = coarse_channels[0].gpubox_number;
    let t: u64 = timesteps[0].unix_time_ms;
    let c: usize = match find_sorted(&info.gpubox_time_map.channels, channel) {
        Some(c) => c,
        None => {
            return Err(missing);
        },
    };
    proof {
        let channels = info.gpubox_time_map.channels@;
        let chosen = channel_place(channels, channel);
        assert(channels.contains(channel));
        if chosen < c {
            assert(channels[chosen] < channels[c as int]);
        } else if chosen > c {
            assert(channels[c as int] < channels[chosen]);
        }
    }
    let batch_index: usize = match info.gpubox_time_map.get(t, c) {
        Some((batch_index, _)) => batch_index,
        None => {
            return Err(missing);
        },
    };
    proof {
        let location = lookup(info.gpubox_time_map@, t, c as int).unwrap();
        assert(is_first_record_at(
            info.gpubox_batches@,
            hdus@,
            t,
            c as int,
            location.0 as int,
            location.1 as int,
        ));
        assert(info.gpubox_batches@[batch_index as int].gpubox_files@.len()
            == info.gpubox_batches@[0].gpubox_files@.len());
    }
    let file: GPUBoxFile = info.gpubox_batches[batch_index].gpubox_files[0];
    assert(file == file_at(info.gpubox_batches@, batch_index as int, 0));
    let records: &Vec<HduInfo> = &hdus[file.file_index];
    if records.len() == 0 {
        return Err(missing);
    }
    let first: HduInfo = records[0];
    proof {
        let end = info.gpubox_batches@.len() as int;
        assert(is_record(info.gpubox_batches@, hdus@, batch_index as int, 0, 1));
        assert(first == record_at(
            info.gpubox_batches@,
            hdus@,
            batch_index as int,
            0,
            1,
        ));
        assert(comes_before(batch_index as int, 0, 1, end, 0, 1));
    }
    Ok(first)
}

/// The baselines of `num_antennas` antennas, each antenna with itself
/// included, where the count fits the machine.
pub fn count_baselines(num_antennas: usize) -> (count: Option<usize>)
    ensures
        count is Some <==> baseline_count(num_antennas as int) <= usize::MAX,
        count matches Some(n) ==> n == baseline_count(num_antennas as int),
{
    let half: usize = num_antennas / 2;
    if num_antennas % 2 == 0 {
        // n = 2h: n (n + 1) / 2 = h (n + 1)
        assert(num_antennas * (num_antennas + 1) / 2 == half * (num_antennas + 1))
            by (nonlinear_arith)
            requires
                num_antennas == 2 * half,
        ;
        half.checked_mul(num_antennas + 1)
    } else {
        // n = 2h + 1: n (n + 1) / 2 = n (h + 1)
        assert(num_antennas * (num_antennas + 1) / 2 == num_antennas * (half + 1))
            by (nonlinear_arith)
            requires
                num_antennas == 2 * half + 1,
        ;
        num_antennas.checked_mul(half + 1)
    }
}

/// The receiver channel numbers of the header, in ascending order.
pub open spec fn header_rec_chans(header: MetafitsHeader) -> Seq<usize> {
    sorted_numbers(number_list(encode_utf8(header.channels@)).unwrap())
}

/// Width of a coarse channel: the header's bandwidth divided by the
/// count of its channels.
pub open spec fn header_width(header: MetafitsHeader) -> u32 {
    (header.observation_bandwidth_hz as int / header_rec_chans(header).len() as int) as u32
}

/// The coarse channels of the header for which a data file was provided.
pub open spec fn found_channels(header: MetafitsHeader, info: GpuboxInfo) -> Seq<
    mwalibCoarseChannel,
> {
    coarse_channels_upto(
        info.corr_version,
        header_rec_chans(header),
        header_width(header),
        Some(&info.gpubox_time_map),
        header_rec_chans(header).len() as int,
    ).map_values(|c: CoarseChannel| context_channel(c))
}

/// Baselines that the header's receiver inputs give.
pub open spec fn header_baselines(header: MetafitsHeader) -> int {
    baseline_count(header.num_rf_inputs as int / 2)
}

/// Fine channels in each coarse channel.
pub open spec fn header_fine_channels(header: MetafitsHeader) -> int {
    header_width(header) as int / header.fine_channel_width_hz as int
}

/// Whether the header's list of channels is a list, and yet gives no
/// coarse channels: it is empty or too long, or the frequencies of a
/// channel that was provided do not fit in 32 bits.
pub open spec fn channels_unusable(header: MetafitsHeader, info: GpuboxInfo) -> bool {
    let rec_chans = header_rec_chans(header);
    rec_chans.len() == 0 || rec_chans.len() > u32::MAX || first_misfit(
        info.corr_version,
        rec_chans,
        header_width(header),
        Some(&info.gpubox_time_map),
        rec_chans.len() as int,
    ) is Some
}

/// Whether the receiver inputs are those of the legacy correlator: 256
/// inputs, numbered from 0 to 255, with as many target positions.
pub open spec fn legacy_inputs_valid(rf_inputs: Seq<mwalibRFInput>) -> bool {
    rf_inputs.len() == 256 && is_permutation(input_numbers(rf_inputs)) && raw_order_valid(
        legacy_raw_order(rf_inputs),
    )
}

/// What is wrong with the first record, if anything: its absence, or the
/// axis that is not what the header calls for.
pub open spec fn first_hdu_error(header: MetafitsHeader, info: GpuboxInfo, hdus: Seq<Vec<HduInfo>>) -> Option<
    ErrorKind,
> {
    let index = info.gpubox_time_map@;
    let times = complete_times_of(index);
    let first = first_hdu_checked(info, timesteps_of(times), found_channels(header, info), hdus);
    let fine_channels = header_fine_channels(header) as usize;
    let baselines = header_baselines(header) as usize;
    if first is None {
        Some(
            ErrorKind::NoDataForTimeStepCoarseChannel { timestep_index: 0, coarse_channel_index: 0 },
        )
    } else {
        axes_error(
            info.corr_version,
            fine_channels,
            baselines,
            4,
            first.unwrap().naxis1,
            first.unwrap().naxis2,
        )
    }
}

/// What is wrong with the header's schedule and lists, if anything.
pub open spec fn schedule_error(header: MetafitsHeader) -> Option<ErrorKind> {
    let start = rfc3339_timestamp_millis(header.date_obs@ + "+00:00"@);
    if start is None {
        Some(ErrorKind::InvalidDateTime)
    } else if !schedule_fits(
        start.unwrap(),
        header.obsid,
        header.exposure_seconds,
        header.quack_time_duration_milliseconds,
        header.good_time_unix_milliseconds,
    ) {
        Some(ErrorKind::InvalidMetadata)
    } else if number_list(encode_utf8(header.receivers@)) is None {
        Some(ErrorKind::ParseInt)
    } else if number_list(encode_utf8(header.delays@)) is None {
        Some(ErrorKind::ParseInt)
    } else {
        None
    }
}

/// The error that putting the context together gives, if it gives one:
/// that of the first step that fails, in this order.
pub open spec fn assembly_error(
    header: MetafitsHeader,
    rf_inputs: Seq<mwalibRFInput>,
    info: GpuboxInfo,
    hdus: Seq<Vec<HduInfo>>,
) -> Option<ErrorKind> {
    let index = info.gpubox_time_map@;
    let times = complete_times_of(index);
    let found = found_channels(header, info);
    if time_counts(index).len() == 0 {
        Some(ErrorKind::EmptyTimeIndex)
    } else if header_baselines(header) > usize::MAX {
        Some(ErrorKind::InvalidMetadata)
    } else if number_list(encode_utf8(header.channels@)) is None {
        Some(ErrorKind::ParseInt)
    } else if channels_unusable(header, info) {
        Some(ErrorKind::InvalidMetadata)
    } else if found.len() > u32::MAX || found.len() * header_width(header) > u32::MAX {
        Some(ErrorKind::InvalidMetadata)
    } else if header.fine_channel_width_hz == 0 {
        Some(ErrorKind::InvalidMetadata)
    } else if first_hdu_error(header, info, hdus) is Some {
        first_hdu_error(header, info, hdus)
    } else if times.last() - times.first() + header.integration_time_milliseconds > u64::MAX {
        Some(ErrorKind::DurationOverflow)
    } else if schedule_error(header) is Some {
        schedule_error(header)
    } else if info.corr_version.spec_is_legacy() && !legacy_inputs_valid(rf_inputs) {
        Some(ErrorKind::InvalidInputOrdering)
    } else if info.corr_version.spec_is_legacy() && header_baselines(header) != 8256 {
        Some(ErrorKind::InvalidInputOrdering)
    } else if info.hdu_size * 4 > usize::MAX {
        Some(ErrorKind::InvalidMetadata)
    } else {
        None
    }
}

/// Whether `context` is the context of the header, the receiver inputs
/// and what was seen of the data files.
pub open spec fn assembled(
    context: mwalibContext,
    header: MetafitsHeader,
    rf_inputs: Seq<mwalibRFInput>,
    info: GpuboxInfo,
) -> bool {
    let index = info.gpubox_time_map@;
    let times = complete_times_of(index);
    &&& context.wf()
    &&& context.corr_version == info.corr_version
    &&& context.gpubox_batches == info.gpubox_batches
    &&& context.gpubox_time_map == info.gpubox_time_map
    &&& context.num_gpubox_files == info.num_gpubox_files
    &&& context.num_timestep_coarse_channel_floats == info.hdu_size
    &&& times.len() > 0
    &&& context.timesteps@ == timesteps_of(times)
    &&& context.start_unix_time_milliseconds == times.first()
    &&& context.end_unix_time_milliseconds == times.last()
    &&& context.duration_milliseconds == times.last() - times.first()
        + header.integration_time_milliseconds
    &&& context.integration_time_milliseconds == header.integration_time_milliseconds
    &&& context.num_rf_inputs == header.num_rf_inputs
    &&& context.num_antennas == header.num_rf_inputs / 2
    &&& context.num_baselines == header_baselines(header)
    &&& context.num_antenna_pols == 2
    &&& context.num_visibility_pols == 4
    &&& exists|places: Seq<int>| is_stable_sort(context.rf_inputs@, rf_inputs, places)
    &&& context.rf_inputs@.to_multiset() == rf_inputs.to_multiset()
    &&& context.antennas@.len() == context.rf_inputs@.len() / 2
    &&& forall|i: int|
        0 <= i < context.antennas@.len() ==> (#[trigger] context.antennas@[i]).antenna
            == context.rf_inputs@[2 * i].antenna && context.antennas@[i].tile_id
            == context.rf_inputs@[2 * i].tile_id && context.antennas@[i].tile_name@
            == context.rf_inputs@[2 * i].tile_name@
    &&& context.corr_version.spec_is_legacy() ==> follows_raw_order(
        context.legacy_conversion_table.entries@,
        legacy_raw_order(rf_inputs),
    )
    &&& !context.corr_version.spec_is_legacy() ==> context.legacy_conversion_table.entries@.len()
        == 0
    &&& context.coarse_channels@ == found_channels(header, info)
    &&& context.coarse_channel_width_hz == header_width(header)
    &&& context.fine_channel_width_hz == header.fine_channel_width_hz
    &&& context.num_fine_channels_per_coarse == header_fine_channels(header)
    &&& context.observation_bandwidth_hz == context.num_coarse_channels
        * context.coarse_channel_width_hz
    &&& number_list(encode_utf8(header.receivers@)) == Some(context.receivers@)
    &&& number_list(encode_utf8(header.delays@)) == Some(context.delays@)
    &&& rfc3339_timestamp_millis(header.date_obs@ + "+00:00"@) == Some(context.scheduled_start_utc)
    &&& context.obsid == header.obsid
    &&& context.scheduled_duration_milliseconds == header.exposure_seconds * 1000
    &&& context.scheduled_end_utc == context.scheduled_start_utc
        + context.scheduled_duration_milliseconds
    &&& context.scheduled_start_gpstime_milliseconds == header.obsid * 1000
    &&& context.scheduled_end_gpstime_milliseconds == header.obsid * 1000
        + context.scheduled_duration_milliseconds
    &&& context.scheduled_start_unix_time_milliseconds == header.good_time_unix_milliseconds
        - header.quack_time_duration_milliseconds
    &&& context.scheduled_end_unix_time_milliseconds
        == context.scheduled_start_unix_time_milliseconds
        + context.scheduled_duration_milliseconds
    &&& context.quack_time_duration_milliseconds == header.quack_time_duration_milliseconds
    &&& context.good_time_unix_milliseconds == header.good_time_unix_milliseconds
    &&& context.hour_angle_string == header.hour_angle_string
    &&& context.grid_name == header.grid_name
    &&& context.grid_number == header.grid_number
    &&& context.creator == header.creator
    &&& context.project_id == header.project_id
    &&& context.observation_name == header.observation_name
    &&& context.mode == header.mode
    &&& context.metafits_filename == header.metafits_filename
}

/// Whether `context` is the context of the header, the receiver inputs
/// and the data files, of which `version_markers` and `hdus` say what was
/// seen: nothing is wrong with the files or the header, and the context
/// is put together from what looking at the files gives.
pub open spec fn is_context_of(
    context: mwalibContext,
    header: MetafitsHeader,
    rf_inputs: Seq<mwalibRFInput>,
    gpubox_filenames: Seq<String>,
    version_markers: Seq<Option<u8>>,
    hdus: Seq<Vec<HduInfo>>,
) -> bool {
    exists|info: GpuboxInfo|
        {
            &&& #[trigger] examined(info, gpubox_filenames, version_markers, hdus)
            &&& assembly_error(header, rf_inputs, info, hdus) is None
            &&& assembled(context, header, rf_inputs, info)
        }
}

/// The time index of a context holds each record of the data files once.
/// Where `n` data files are given, each with `per_file` records, and no
/// two records of one channel have the same time, the keys of the index
/// lead to `n * per_file` places of records.
pub proof fn lemma_context_indexes_every_record(
    context: mwalibContext,
    header: MetafitsHeader,
    rf_inputs: Seq<mwalibRFInput>,
    gpubox_filenames: Seq<String>,
    version_markers: Seq<Option<u8>>,
    hdus: Seq<Vec<HduInfo>>,
    per_file: nat,
)
    requires
        is_context_of(context, header, rf_inputs, gpubox_filenames, version_markers, hdus),
        distinct_times(context.gpubox_batches@, hdus),
        forall|i: int| 0 <= i < hdus.len() ==> (#[trigger] hdus[i])@.len() == per_file,
    ensures
        index_len(context.gpubox_time_map@) == gpubox_filenames.len() * per_file,
        located(context.gpubox_time_map@).len() == gpubox_filenames.len() * per_file,
{
    let info = choose|info: GpuboxInfo|
        {
            &&& #[trigger] examined(info, gpubox_filenames, version_markers, hdus)
            &&& assembly_error(header, rf_inputs, info, hdus) is None
            &&& assembled(context, header, rf_inputs, info)
        };
    info.lemma_time_index_holds_files_times_records(gpubox_filenames, version_markers, hdus, per_file);
    lemma_located_as_many_as_keys(info.gpubox_time_map@, info.gpubox_batches@, hdus);
}

impl mwalibContext {
    /// Puts the context of an observation together from what its header
    /// says and from what was seen of its data files.
    ///
    /// `rf_inputs` are the receiver inputs of the header's table, in any
    /// order. `version_markers[i]` is the version marker in the primary
    /// record of the file `gpubox_filenames[i]`, if it has one, and
    /// `hdus[i]` lists its data records.
    ///
    /// The data files are looked at first; their header comes after. The
    /// first thing that is wrong decides the error.
    pub fn new(
        header: MetafitsHeader,
        rf_inputs: Vec<mwalibRFInput>,
        gpubox_filenames: &Vec<String>,
        version_markers: &Vec<Option<u8>>,
        hdus: &Vec<Vec<HduInfo>>,
    ) -> (result: Result<Self, ErrorKind>)
        ensures
            match result {
                Ok(context) => is_context_of(
                    context,
                    header,
                    rf_inputs@,
                    gpubox_filenames@,
                    version_markers@,
                    hdus@,
                ),
                Err(e) => examination_error(gpubox_filenames@, version_markers@, hdus@, e)
                    || exists|info: GpuboxInfo|
                    {
                        &&& #[trigger] examined(info, gpubox_filenames@, version_markers@, hdus@)
                        &&& assembly_error(header, rf_inputs@, info, hdus@) == Some(e)
                    },
            },
    {
        let info: GpuboxInfo = match examine_gpubox_files(gpubox_filenames, version_markers, hdus) {
            Ok(info) => info,
            Err(e) => {
                return Err(e);
            },
        };
        let ghost info0 = info;
        assert(examined(info0, gpubox_filenames@, version_markers@, hdus@));
        Self::from_gpubox_info(header, rf_inputs, info, hdus)
    }

    /// Puts the context of an observation together from what its header
    /// says and from what looking at its data files gave.
    pub fn from_gpubox_info(
        header: MetafitsHeader,
        rf_inputs: Vec<mwalibRFInput>,
        info: GpuboxInfo,
        hdus: &Vec<Vec<HduInfo>>,
    ) -> (result: Result<Self, ErrorKind>)
        requires
            info.wf(hdus@),
        ensures
            match result {
                Ok(context) => assembly_error(header, rf_inputs@, info, hdus@) is None && assembled(
                    context,
                    header,
                    rf_inputs@,
                    info,
                ),
                Err(e) => assembly_error(header, rf_inputs@, info, hdus@) == Some(e),
            },
    {
        let timesteps: Vec<mwalibTimeStep> = match mwalibTimeStep::populate_timesteps(
            &info.gpubox_time_map,
        ) {
            Some(timesteps) => timesteps,
            None => {
                return Err(ErrorKind::EmptyTimeIndex);
            },
        };
        let num_timesteps: usize = timesteps.len();
        let num_rf_inputs: usize = header.num_rf_inputs;
        let num_antennas: usize = num_rf_inputs / 2;
        let num_antenna_pols: usize = 2;
        let num_visibility_pols: usize = 4;
        let num_baselines: usize = match count_baselines(num_antennas) {
            Some(n) => n,
            None => {
                return Err(ErrorKind::InvalidMetadata);
            },
        };
        let channel_numbers: Vec<usize> = match parse_number_list(header.channels.as_str()) {
            Ok(numbers) => sort_ascending(numbers),
            Err(e) => {
                return Err(e);
            },
        };
        let (coarse_channels, num_coarse_channels, coarse_channel_width_hz) =
            match mwalibCoarseChannel::populate_coarse_channels(
            info.corr_version,
            &channel_numbers,
            header.observation_bandwidth_hz,
            &info.gpubox_time_map,
        ) {
            Ok(found) => found,
            Err(e) => {
                return Err(e);
            },
        };
        if num_coarse_channels > u32::MAX as usize {
            return Err(ErrorKind::InvalidMetadata);
        }
        let observation_bandwidth_hz: u32 = match (num_coarse_channels as u32).checked_mul(
            coarse_channel_width_hz,
        ) {
            Some(bandwidth) => bandwidth,
            None => {
                return Err(ErrorKind::InvalidMetadata);
            },
        };
        let fine_channel_width_hz: u32 = header.fine_channel_width_hz;
        if fine_channel_width_hz == 0 {
            return Err(ErrorKind::InvalidMetadata);
        }
        let num_fine_channels_per_coarse: usize = (coarse_channel_width_hz
            / fine_channel_width_hz) as usize;
        let first: HduInfo = match first_hdu_to_validate(&info, &timesteps, &coarse_channels, hdus) {
            Ok(first) => first,
            Err(e) => {
                return Err(e);
            },
        };
        match Self::validate_hdu_axes(
            info.corr_version,
            num_fine_channels_per_coarse,
            num_baselines,
            num_visibility_pols,
            first.naxis1,
            first.naxis2,
        ) {
            Ok(()) => {},
            Err(e) => {
                return Err(e);
            },
        }
        let obs_times: ObsTimes = match determine_obs_times(
            &info.gpubox_time_map,
            header.integration_time_milliseconds,
        ) {
            Ok(obs_times) => obs_times,
            Err(e) => {
                return Err(e);
            },
        };
        let scheduled_start_utc: i64 = match parse_date_obs(header.date_obs.as_str()) {
            Some(millis) => millis,
            None => {
                return Err(ErrorKind::InvalidDateTime);
            },
        };
        let schedule: Schedule = match scheduled_times(
            scheduled_start_utc,
            header.obsid,
            header.exposure_seconds,
            header.quack_time_duration_milliseconds,
            header.good_time_unix_milliseconds,
        ) {
            Ok(schedule) => schedule,
            Err(e) => {
                return Err(e);
            },
        };
        let receivers: Vec<usize> = match parse_number_list(header.receivers.as_str()) {
            Ok(numbers) => numbers,
            Err(e) => {
                return Err(e);
            },
        };
        let delays: Vec<usize> = match parse_number_list(header.delays.as_str()) {
            Ok(numbers) => numbers,
            Err(e) => {
                return Err(e);
            },
        };
        let legacy_conversion_table: ConversionTable = if info.corr_version.is_legacy() {
            proof {
                assert(crate::misc::baseline_count(128) == 8256);
            }
            let table: ConversionTable = match generate_conversion_array(&rf_inputs) {
                Ok(table) => table,
                Err(e) => {
                    return Err(e);
                },
            };
            if table.num_baselines() != num_baselines {
                return Err(ErrorKind::InvalidInputOrdering);
            }
            table
        } else {
            ConversionTable { entries: Vec::new() }
        };
        let rf_inputs: Vec<mwalibRFInput> = sort_by_subfile_order(rf_inputs);
        let antennas: Vec<mwalibAntenna> = mwalibAntenna::populate_antennas(&rf_inputs);
        let num_timestep_coarse_channel_floats: usize = info.hdu_size;
        let num_timestep_coarse_channel_bytes: usize = match info.hdu_size.checked_mul(4) {
            Some(bytes) => bytes,
            None => {
                return Err(ErrorKind::InvalidMetadata);
            },
        };
        proof {
            let b = num_baselines as int;
            let f = num_fine_channels_per_coarse as int;
            let p = num_visibility_pols as int;
            assert(hdu_size(first) == (b * f) * (p * 2)) by (nonlinear_arith)
                requires
                    p == 4,
                    (first.naxis1 == b * p * 2 && first.naxis2 == f) || (first.naxis1 == f * p * 2
                        && first.naxis2 == b),
                    hdu_size(first) == first.naxis1 * first.naxis2,
            ;
            let time_index = info.gpubox_time_map@;
            assert forall|t: u64, c: int|
                0 <= c < info.gpubox_time_map.channels@.len() && (#[trigger] lookup(time_index, t, c)) is Some implies lookup(
                time_index,
                t,
                c,
            ).unwrap().0 < info.gpubox_batches@.len() by {
                let location = lookup(time_index, t, c).unwrap();
                assert(is_first_record_at(
                    info.gpubox_batches@,
                    hdus@,
                    t,
                    c,
                    location.0 as int,
                    location.1 as int,
                ));
            }
        }
        Ok(
            mwalibContext {
                obsid: header.obsid,
                scheduled_start_gpstime_milliseconds: schedule.start_gpstime_ms,
                scheduled_end_gpstime_milliseconds: schedule.end_gpstime_ms,
                scheduled_start_unix_time_milliseconds: schedule.start_unix_time_ms,
                scheduled_end_unix_time_milliseconds: schedule.end_unix_time_ms,
                scheduled_start_utc: schedule.start_utc_ms,
                scheduled_end_utc: schedule.end_utc_ms,
                scheduled_duration_milliseconds: schedule.duration_ms,
                hour_angle_string: header.hour_angle_string,
                grid_name: header.grid_name,
                grid_number: header.grid_number,
                creator: header.creator,
                project_id: header.project_id,
                observation_name: header.observation_name,
                mode: header.mode,
                receivers,
                delays,
                quack_time_duration_milliseconds: header.quack_time_duration_milliseconds,
                good_time_unix_milliseconds: header.good_time_unix_milliseconds,
                corr_version: info.corr_version,
                start_unix_time_milliseconds: obs_times.start_millisec,
                end_unix_time_milliseconds: obs_times.end_millisec,
                duration_milliseconds: obs_times.duration_millisec,
                num_timesteps,
                timesteps,
                num_antennas,
                antennas,
                num_baselines,
                num_rf_inputs,
                rf_inputs,
                num_antenna_pols,
                num_visibility_pols,
                num_coarse_channels,
                coarse_channels,
                integration_time_milliseconds: header.integration_time_milliseconds,
                fine_channel_width_hz,
                observation_bandwidth_hz,
                coarse_channel_width_hz,
                num_fine_channels_per_coarse,
                metafits_filename: header.metafits_filename,
                gpubox_batches: info.gpubox_batches,
                gpubox_time_map: info.gpubox_time_map,
                num_timestep_coarse_channel_bytes,
                num_timestep_coarse_channel_floats,
                num_gpubox_files: info.num_gpubox_files,
                legacy_conversion_table,
            },
        )
    }
}

} // verus!
