use mwalib::context::{
    examine_gpubox_files, mwalibContext, validate_version_markers, CorrelatorVersion, HduLocation,
    MetafitsHeader,
};
use mwalib::conversion_table::generate_conversion_array;
use mwalib::convert::convert_legacy_hdu_to_mwax_baseline_order;
use mwalib::error::{Axis, ErrorKind};
use mwalib::rfinput::{mwalibRFInput, Pol};
use mwalib::time_map::HduInfo;

const FINE_CHANNELS: usize = 128;
const BASELINES: usize = 8256;
const POLS: usize = 4;
const START_MS: u64 = 1_417_468_096_000;

fn header() -> MetafitsHeader {
    MetafitsHeader {
        obsid: 1_101_503_312,
        num_rf_inputs: 256,
        integration_time_milliseconds: 2000,
        observation_bandwidth_hz: 30_720_000,
        fine_channel_width_hz: 10_000,
        centre_freq_hz: 154_240_000,
        date_obs: "2014-12-01T21:08:16".to_string(),
        exposure_seconds: 112,
        quack_time_duration_milliseconds: 2000,
        good_time_unix_milliseconds: 1_417_468_098_000,
        hour_angle_string: "-00:00:00.00".to_string(),
        grid_name: "sweet".to_string(),
        grid_number: 0,
        creator: "Randall".to_string(),
        project_id: "G0009".to_string(),
        observation_name: "FDS_DEC-26.7_121".to_string(),
        mode: "HW_LFILES".to_string(),
        receivers: "1,2,3,4,5,6,7,8,9,10,11,12,13,14,15,16".to_string(),
        delays: "0,0,0,0,0,0,0,0,0,0,0,0,0,0,0,0".to_string(),
        channels: "109,110,111,112,113,114,115,116,117,118,119,120,121,122,123,124,125,126,127,128,129,130,131,132"
            .to_string(),
        metafits_filename: "test_files/1101503312_1_timestep/1101503312.metafits".to_string(),
    }
}

/// The receiver inputs as a header lists them: the Y input of a tile before its X input.
fn rf_inputs() -> Vec<mwalibRFInput> {
    let mut rf_inputs = Vec::new();
    for input in 0..256u32 {
        let antenna = input / 2;
        let tile_id = if antenna == 127 { 168 } else { 11 + antenna };
        let pol = if input % 2 == 0 { Pol::Y } else { Pol::X };
        rf_inputs.push(mwalibRFInput::new(
            input,
            antenna,
            tile_id,
            format!("Tile{:03}", tile_id),
            pol,
            false,
        ));
    }
    rf_inputs
}

fn legacy_files() -> Vec<String> {
    vec!["test_files/1101503312_1_timestep/1101503312_20141201210818_gpubox01_00.fits".to_string()]
}

fn legacy_hdus() -> Vec<Vec<HduInfo>> {
    vec![vec![HduInfo { unix_time_ms: START_MS, naxis1: BASELINES * POLS * 2, naxis2: FINE_CHANNELS }]]
}

fn legacy_context() -> mwalibContext {
    mwalibContext::new(header(), rf_inputs(), &legacy_files(), &vec![None], &legacy_hdus())
        .expect("Failed to create mwalibContext")
}

fn mwax_header() -> MetafitsHeader {
    let mut h = header();
    h.obsid = 1_244_973_688;
    h.num_rf_inputs = 8;
    h.integration_time_milliseconds = 500;
    h.observation_bandwidth_hz = 2_560_000;
    h.fine_channel_width_hz = 640_000;
    h.channels = "114,115".to_string();
    h
}

fn mwax_rf_inputs() -> Vec<mwalibRFInput> {
    (0..8u32)
        .map(|i| {
            mwalibRFInput::new(
                i,
                i / 2,
                51 + i / 2,
                format!("Tile{:03}", 51 + i / 2),
                if i % 2 == 0 { Pol::X } else { Pol::Y },
                false,
            )
        })
        .collect()
}

/// A small MWAX observation: 4 antennas, so 10 baselines, 2 fine
/// channels and 2 coarse channels with 2 records each.
fn mwax_context() -> mwalibContext {
    let files = vec![
        "1244973688_20190619100110_ch115_000.fits".to_string(),
        "1244973688_20190619100110_ch114_000.fits".to_string(),
    ];
    let record = |t| HduInfo { unix_time_ms: t, naxis1: 2 * 4 * 2, naxis2: 10 };
    let hdus = vec![vec![record(5000), record(5500)], vec![record(5000), record(5500)]];
    mwalibContext::new(mwax_header(), mwax_rf_inputs(), &files, &vec![Some(2), Some(2)], &hdus)
        .expect("Failed to create mwalibContext")
}

fn raw_record(len: usize) -> Vec<f32> {
    (0..len).map(|i| ((i * 7919) % 2003) as f32 * 0.25 - 100.0).collect()
}

fn bits(values: &[f32]) -> Vec<u32> {
    values.iter().map(|v| v.to_bits()).collect()
}

fn floats(values: &[u32]) -> Vec<f32> {
    values.iter().map(|v| f32::from_bits(*v)).collect()
}

fn sum(values: &[f32]) -> f64 {
    let mut sorted: Vec<f64> = values.iter().map(|v| *v as f64).collect();
    sorted.sort_by(|a, b| a.partial_cmp(b).unwrap());
    sorted.iter().sum()
}

#[test]
fn test_context_new_missing_gpubox_files() {
    let gpuboxfiles: Vec<String> = Vec::new();
    // No gpubox files provided
    let context = mwalibContext::new(header(), rf_inputs(), &gpuboxfiles, &vec![], &vec![]);
    assert!(context.is_err());
    assert_eq!(context.unwrap_err(), ErrorKind::NoGpuboxFiles);
}

#[test]
fn test_context_legacy_v1() {
    let context = legacy_context();
    assert_eq!(context.corr_version, CorrelatorVersion::Legacy);
    assert_eq!(context.obsid, 1_101_503_312);
    assert_eq!(context.creator, "Randall");
    assert_eq!(context.project_id, "G0009");
    assert_eq!(context.observation_name, "FDS_DEC-26.7_121");
    assert_eq!(context.receivers.len(), 16);
    assert_eq!(context.receivers[0], 1);
    assert_eq!(context.receivers[15], 16);
    assert_eq!(context.delays.len(), 16);
    assert_eq!(context.delays[0], 0);
    assert_eq!(context.delays[15], 0);
    // Scheduled start (utc)     2014-12-01 21:08:16 +00:00
    assert_eq!(context.scheduled_start_utc, 1_417_468_096_000);
    assert_eq!(context.scheduled_end_utc, 1_417_468_208_000);
    assert_eq!(context.scheduled_duration_milliseconds, 112_000);
    assert_eq!(context.scheduled_start_gpstime_milliseconds, 1_101_503_312_000);
    assert_eq!(context.scheduled_end_gpstime_milliseconds, 1_101_503_424_000);
    assert_eq!(context.scheduled_start_unix_time_milliseconds, 1_417_468_096_000);
    assert_eq!(context.scheduled_end_unix_time_milliseconds, 1_417_468_208_000);
    assert_eq!(context.start_unix_time_milliseconds, 1_417_468_096_000);
    // The end is the start of the last timestep; the duration runs to the end of it.
    assert_eq!(context.end_unix_time_milliseconds, 1_417_468_096_000);
    assert_eq!(context.duration_milliseconds, 2000);
    assert_eq!(context.quack_time_duration_milliseconds, 2000);
    assert_eq!(context.good_time_unix_milliseconds, 1_417_468_098_000);
    assert_eq!(context.grid_name, "sweet");
    assert_eq!(context.grid_number, 0);
    assert_eq!(context.num_timesteps, 1);
    assert_eq!(context.timesteps[0].unix_time_ms, 1_417_468_096_000);
    assert_eq!(context.num_antennas, 128);
    assert_eq!(context.antennas.len(), 128);
    assert_eq!(context.antennas[0].tile_name, "Tile011");
    assert_eq!(context.antennas[127].tile_name, "Tile168");
    assert_eq!(context.num_rf_inputs, 256);
    assert_eq!(context.rf_inputs[0].pol, Pol::X);
    assert_eq!(context.rf_inputs[0].tile_name, "Tile011");
    assert_eq!(context.rf_inputs[255].pol, Pol::Y);
    assert_eq!(context.rf_inputs[255].tile_name, "Tile168");
    assert_eq!(context.num_baselines, 8256);
    assert_eq!(context.num_antenna_pols, 2);
    assert_eq!(context.num_visibility_pols, 4);
    assert_eq!(context.observation_bandwidth_hz, 1_280_000);
    assert_eq!(context.coarse_channel_width_hz, 1_280_000);
    assert_eq!(context.num_coarse_channels, 1);
    assert_eq!(context.coarse_channels[0].gpubox_number, 1);
    assert_eq!(context.coarse_channels[0].receiver_channel_number, 109);
    assert_eq!(context.coarse_channels[0].channel_centre_hz, 139_520_000);
    assert_eq!(context.mode, "HW_LFILES");
    assert_eq!(context.fine_channel_width_hz, 10_000);
    assert_eq!(context.integration_time_milliseconds, 2000);
    assert_eq!(context.num_fine_channels_per_coarse, 128);
    assert_eq!(context.num_timestep_coarse_channel_floats, 128 * 8256 * 4 * 2);
    assert_eq!(context.num_timestep_coarse_channel_bytes, 128 * 8256 * 4 * 2 * 4);
    assert_eq!(context.num_gpubox_files, 1);
    assert_eq!(context.metafits_filename, "test_files/1101503312_1_timestep/1101503312.metafits");
    assert_eq!(context.gpubox_batches.len(), 1);
    assert_eq!(context.gpubox_batches[0].batch_number, 0);
    assert_eq!(context.gpubox_batches[0].gpubox_files[0].channel_identifier, 1);
    assert_eq!(context.legacy_conversion_table.entries.len(), 8256 * 4);
}

#[test]
fn test_legacy_read_of_a_single_record() {
    let context = legacy_context();
    assert_eq!(context.num_timesteps, 1);
    assert_eq!(
        context.locate(0, 0),
        Ok(HduLocation { batch_index: 0, channel_index: 0, file_index: 0, hdu_index: 1 })
    );
    let len = FINE_CHANNELS * BASELINES * POLS * 2;
    let raw = raw_record(len);
    let by_baseline = floats(&context.read_by_baseline(0, 0, bits(&raw)).unwrap());
    let by_frequency = floats(&context.read_by_frequency(0, 0, bits(&raw)).unwrap());
    assert_eq!(by_baseline.len(), len);
    assert_eq!(by_frequency.len(), len);
    let table = generate_conversion_array(&context.rf_inputs).unwrap();
    let expected = floats(&convert_legacy_hdu_to_mwax_baseline_order(&table, &bits(&raw), FINE_CHANNELS));
    assert_eq!(by_baseline, expected);
    assert_ne!(by_baseline, raw);
    assert_eq!(sum(&by_baseline), sum(&expected));
    assert_eq!(sum(&by_frequency), sum(&by_baseline));
    // Fine channel 5 of baseline 3 stands at another place in each order.
    let in_baseline_order = (3 * FINE_CHANNELS + 5) * 8;
    let in_frequency_order = (5 * BASELINES + 3) * 8;
    assert_eq!(
        &by_baseline[in_baseline_order..in_baseline_order + 8],
        &by_frequency[in_frequency_order..in_frequency_order + 8]
    );
}

#[test]
fn test_mwax_read() {
    // a) the raw record (data is ordered [baseline][freq][pol][r][i])
    // b) using mwalib (by baseline) (data will be ordered the same as the raw record)
    // c) using mwalib (by frequency) (data will be ordered [freq][baseline][pol][r][i])
    // Then check b) is the same as a) and
    // that c) is the same size and sum as a) and b)
    let context = mwax_context();
    assert_eq!(context.corr_version, CorrelatorVersion::V2);
    assert_eq!(context.num_baselines, 10);
    assert_eq!(context.num_fine_channels_per_coarse, 2);
    assert_eq!(context.num_timestep_coarse_channel_floats, 160);
    assert!(context.legacy_conversion_table.entries.is_empty());
    let fits_hdu_data = raw_record(160);

    // Read and convert first HDU by baseline
    let mwalib_hdu_data_by_bl = floats(&context.read_by_baseline(0, 0, bits(&fits_hdu_data)).expect("Error!"));

    // Read and convert first HDU by frequency
    let mwalib_hdu_data_by_freq =
        floats(&context.read_by_frequency(0, 0, bits(&fits_hdu_data)).expect("Error!"));

    // First assert that the data vectors are the same size
    assert_eq!(fits_hdu_data.len(), mwalib_hdu_data_by_bl.len());
    assert_eq!(fits_hdu_data.len(), mwalib_hdu_data_by_freq.len());

    // Check all 3 sum to the same value
    let sum_fits: f64 = fits_hdu_data.iter().fold(0., |sum, x| sum + *x as f64);
    let sum_freq: f64 = mwalib_hdu_data_by_freq.iter().fold(0., |sum, x| sum + *x as f64);
    let sum_bl: f64 = mwalib_hdu_data_by_bl.iter().fold(0., |sum, x| sum + *x as f64);

    // Check sums match
    assert_eq!((sum_fits - sum_freq).abs() < 1e-6, (sum_fits - sum_bl).abs() < 1e-6);
    assert!((sum_fits - sum_freq).abs() < 1e-6);

    // Check this block of floats matches
    assert_eq!(fits_hdu_data, mwalib_hdu_data_by_bl);

    // Baseline 7, fine channel 1 in both orders.
    assert_eq!(&fits_hdu_data[(7 * 2 + 1) * 8..(7 * 2 + 2) * 8], &mwalib_hdu_data_by_freq[(10 + 7) * 8..(10 + 8) * 8]);
}

#[test]
fn test_mwax_locate() {
    let context = mwax_context();
    assert_eq!(context.num_timesteps, 2);
    assert_eq!(context.num_coarse_channels, 2);
    assert_eq!(context.coarse_channels[0].gpubox_number, 114);
    assert_eq!(context.coarse_channels[1].gpubox_number, 115);
    assert_eq!(context.start_unix_time_milliseconds, 5000);
    assert_eq!(context.end_unix_time_milliseconds, 5500);
    assert_eq!(context.duration_milliseconds, 1000);
    // Channel 115 was given first: file 0.
    assert_eq!(
        context.locate(1, 1),
        Ok(HduLocation { batch_index: 0, channel_index: 1, file_index: 0, hdu_index: 2 })
    );
    assert_eq!(
        context.locate(0, 0),
        Ok(HduLocation { batch_index: 0, channel_index: 0, file_index: 1, hdu_index: 1 })
    );
}

#[test]
fn test_read_errors() {
    let context = mwax_context();
    let raw = vec![0u32; 160];
    assert_eq!(
        context.locate(2, 0),
        Err(ErrorKind::InvalidTimeStepIndex { index: 2, count: 2 })
    );
    assert_eq!(
        context.read_by_baseline(2, 5, raw.clone()),
        Err(ErrorKind::InvalidTimeStepIndex { index: 2, count: 2 })
    );
    assert_eq!(
        context.read_by_frequency(1, 2, raw.clone()),
        Err(ErrorKind::InvalidCoarseChannelIndex { index: 2, count: 2 })
    );
    assert_eq!(
        context.read_by_baseline(0, 0, vec![0u32; 159]),
        Err(ErrorKind::RecordSizeMismatch { expected: 160, actual: 159 })
    );
    assert_eq!(
        context.read_by_frequency(0, 0, vec![]),
        Err(ErrorKind::RecordSizeMismatch { expected: 160, actual: 0 })
    );
    // A read error leaves the context as it was.
    assert!(context.read_by_baseline(1, 1, raw).is_ok());
}

#[test]
fn test_read_where_a_channel_lacks_a_timestep() {
    let files = vec![
        "1244973688_20190619100110_ch114_000.fits".to_string(),
        "1244973688_20190619100110_ch115_000.fits".to_string(),
        "1244973688_20190619100110_ch114_001.fits".to_string(),
        "1244973688_20190619100110_ch115_001.fits".to_string(),
    ];
    let record = |t| HduInfo { unix_time_ms: t, naxis1: 16, naxis2: 10 };
    // The second batch of channel 115 starts late: the time 6000 has one channel only.
    let hdus = vec![
        vec![record(5000), record(5500)],
        vec![record(5000), record(5500)],
        vec![record(6000), record(6500)],
        vec![record(6500)],
    ];
    let context =
        mwalibContext::new(mwax_header(), mwax_rf_inputs(), &files, &vec![Some(2); 4], &hdus).unwrap();
    let times: Vec<u64> = context.timesteps.iter().map(|t| t.unix_time_ms).collect();
    assert_eq!(times, vec![5000, 5500, 6500]);
    assert_eq!(context.num_timesteps, 3);
    assert_eq!(context.start_unix_time_milliseconds, 5000);
    assert_eq!(context.end_unix_time_milliseconds, 6500);
    assert_eq!(context.duration_milliseconds, 2000);
    assert_eq!(
        context.locate(2, 1),
        Ok(HduLocation { batch_index: 1, channel_index: 1, file_index: 3, hdu_index: 1 })
    );
    assert_eq!(
        context.locate(2, 0),
        Ok(HduLocation { batch_index: 1, channel_index: 0, file_index: 2, hdu_index: 2 })
    );
}

#[test]
fn test_validate_first_hdu() {
    let context = legacy_context();
    let dimensions = vec![FINE_CHANNELS, BASELINES * POLS * 2];

    let result_valid = mwalibContext::validate_first_hdu(
        context.corr_version,
        context.num_fine_channels_per_coarse,
        context.num_baselines,
        context.num_visibility_pols,
        &dimensions,
    );

    let result_invalid1 = mwalibContext::validate_first_hdu(
        context.corr_version,
        context.num_fine_channels_per_coarse + 1,
        context.num_baselines,
        context.num_visibility_pols,
        &dimensions,
    );

    let result_invalid2 = mwalibContext::validate_first_hdu(
        context.corr_version,
        context.num_fine_channels_per_coarse,
        context.num_baselines + 1,
        context.num_visibility_pols,
        &dimensions,
    );

    let result_invalid3 = mwalibContext::validate_first_hdu(
        context.corr_version,
        context.num_fine_channels_per_coarse,
        context.num_baselines,
        context.num_visibility_pols + 1,
        &dimensions,
    );

    // This is valid
    assert!(result_valid.is_ok());

    assert!(result_invalid1.is_err());

    assert!(result_invalid2.is_err());

    assert!(result_invalid3.is_err());

    assert_eq!(
        result_invalid1,
        Err(ErrorKind::AxisMismatch {
            axis: Axis::Second,
            wanted: Some(129),
            found: 128,
            fine_channels: 129,
            baselines: 8256,
            pols: 4
        })
    );
    assert_eq!(
        result_invalid2,
        Err(ErrorKind::AxisMismatch {
            axis: Axis::First,
            wanted: Some(66056),
            found: 66048,
            fine_channels: 128,
            baselines: 8257,
            pols: 4
        })
    );
    assert_eq!(
        mwalibContext::validate_first_hdu(CorrelatorVersion::Legacy, 128, 8256, 4, &vec![128]),
        Err(ErrorKind::InvalidMetadata)
    );
}

#[test]
fn test_validate_hdu_axes() {
    // Legacy: NAXIS1 = baselines * pols * 2, NAXIS2 = fine channels.
    assert!(mwalibContext::validate_hdu_axes(CorrelatorVersion::Legacy, 128, 8256, 4, 66048, 128).is_ok());
    assert!(mwalibContext::validate_hdu_axes(CorrelatorVersion::OldLegacy, 128, 8256, 4, 66048, 128).is_ok());
    assert!(mwalibContext::validate_hdu_axes(CorrelatorVersion::Legacy, 128, 8256, 4, 1024, 8256).is_err());
    // MWAX: NAXIS1 = fine channels * pols * 2, NAXIS2 = baselines.
    assert!(mwalibContext::validate_hdu_axes(CorrelatorVersion::V2, 128, 8256, 4, 1024, 8256).is_ok());
    assert!(mwalibContext::validate_hdu_axes(CorrelatorVersion::V2, 128, 8256, 4, 66048, 128).is_err());
    assert_eq!(
        mwalibContext::validate_hdu_axes(CorrelatorVersion::V2, 129, 8256, 4, 1024, 8256),
        Err(ErrorKind::AxisMismatch {
            axis: Axis::First,
            wanted: Some(1032),
            found: 1024,
            fine_channels: 129,
            baselines: 8256,
            pols: 4
        })
    );
    assert_eq!(
        mwalibContext::validate_hdu_axes(CorrelatorVersion::V2, 128, 8257, 4, 1024, 8256),
        Err(ErrorKind::AxisMismatch {
            axis: Axis::Second,
            wanted: Some(8257),
            found: 8256,
            fine_channels: 128,
            baselines: 8257,
            pols: 4
        })
    );
    assert!(mwalibContext::validate_hdu_axes(CorrelatorVersion::V2, 128, 8256, 5, 1024, 8256).is_err());
    // Counts whose product does not fit the machine are a mismatch, not a crash.
    assert_eq!(
        mwalibContext::validate_hdu_axes(CorrelatorVersion::V2, usize::MAX, 1, 4, 1024, 1),
        Err(ErrorKind::AxisMismatch {
            axis: Axis::First,
            wanted: None,
            found: 1024,
            fine_channels: usize::MAX,
            baselines: 1,
            pols: 4
        })
    );
    assert!(mwalibContext::validate_hdu_axes(CorrelatorVersion::Legacy, 1, usize::MAX, usize::MAX, 2, 1).is_err());
    assert!(mwalibContext::validate_hdu_axes(CorrelatorVersion::Legacy, 0, 0, 0, 0, 0).is_ok());
}

#[test]
fn test_context_new_axis_mismatch() {
    let hdus = vec![vec![HduInfo { unix_time_ms: START_MS, naxis1: BASELINES * POLS * 2, naxis2: 64 }]];
    assert_eq!(
        mwalibContext::new(header(), rf_inputs(), &legacy_files(), &vec![None], &hdus).unwrap_err(),
        ErrorKind::AxisMismatch {
            axis: Axis::Second,
            wanted: Some(128),
            found: 64,
            fine_channels: 128,
            baselines: 8256,
            pols: 4
        }
    );
}

#[test]
fn test_context_new_errors() {
    let new = |h: MetafitsHeader, files: &[&str], markers: Vec<Option<u8>>, hdus: Vec<Vec<HduInfo>>| {
        let files: Vec<String> = files.iter().map(|s| s.to_string()).collect();
        mwalibContext::new(h, rf_inputs(), &files, &markers, &hdus).unwrap_err()
    };
    let legacy = "1101503312_20141201210818_gpubox01_00.fits";
    assert_eq!(
        new(header(), &[legacy, "1101503312_20141201210818_gpubox02.fits"], vec![None; 2], vec![vec![]; 2]),
        ErrorKind::Mixture { file_index: 1 }
    );
    assert_eq!(
        new(header(), &["invalid.fits"], vec![None], vec![vec![]]),
        ErrorKind::Unrecognised { file_index: 0 }
    );
    // A legacy name with the version marker of the newest generation.
    assert_eq!(
        new(header(), &[legacy], vec![Some(2)], legacy_hdus()),
        ErrorKind::VersionMismatch { file_index: 0 }
    );
    assert_eq!(
        new(header(), &["1244973688_20190619100110_ch114_000.fits"], vec![None], legacy_hdus()),
        ErrorKind::VersionMismatch { file_index: 0 }
    );
    assert_eq!(new(header(), &[legacy], vec![], legacy_hdus()), ErrorKind::FileListMismatch);
    assert_eq!(new(header(), &[legacy], vec![None], vec![vec![]]), ErrorKind::EmptyTimeIndex);
    let mut bad_date = header();
    bad_date.date_obs = "yesterday".to_string();
    assert_eq!(new(bad_date, &[legacy], vec![None], legacy_hdus()), ErrorKind::InvalidDateTime);
    let mut bad_list = header();
    bad_list.receivers = "1,2,,4".to_string();
    assert_eq!(new(bad_list, &[legacy], vec![None], legacy_hdus()), ErrorKind::ParseInt);
    let mut no_width = header();
    no_width.fine_channel_width_hz = 0;
    assert_eq!(new(no_width, &[legacy], vec![None], legacy_hdus()), ErrorKind::InvalidMetadata);
    let mut early = header();
    early.quack_time_duration_milliseconds = early.good_time_unix_milliseconds + 1;
    assert_eq!(new(early, &[legacy], vec![None], legacy_hdus()), ErrorKind::InvalidMetadata);
    let mut long = header();
    long.integration_time_milliseconds = u64::MAX;
    let mut two_records = legacy_hdus();
    let mut second = two_records[0][0];
    second.unix_time_ms += 2000;
    two_records[0].push(second);
    assert_eq!(new(long, &[legacy], vec![None], two_records), ErrorKind::DurationOverflow);
}

#[test]
fn test_context_new_unequal_record_sizes() {
    let files = vec![
        "1101503312_20141201210818_gpubox01_00.fits".to_string(),
        "1101503312_20141201210818_gpubox02_00.fits".to_string(),
    ];
    let good = HduInfo { unix_time_ms: START_MS, naxis1: BASELINES * POLS * 2, naxis2: FINE_CHANNELS };
    let bad = HduInfo { unix_time_ms: START_MS, naxis1: BASELINES * POLS * 2, naxis2: FINE_CHANNELS - 1 };
    assert_eq!(
        mwalibContext::new(header(), rf_inputs(), &files, &vec![None; 2], &vec![vec![good], vec![bad]])
            .unwrap_err(),
        ErrorKind::UnequalHduSizes {
            file_index: 1,
            expected: BASELINES * POLS * 2 * FINE_CHANNELS,
            actual: BASELINES * POLS * 2 * (FINE_CHANNELS - 1)
        }
    );
}

#[test]
fn test_context_new_wrong_input_count_for_legacy() {
    let mut h = header();
    h.num_rf_inputs = 8;
    let hdus = vec![vec![HduInfo { unix_time_ms: START_MS, naxis1: 10 * 4 * 2, naxis2: 128 }]];
    assert_eq!(
        mwalibContext::new(h, mwax_rf_inputs(), &legacy_files(), &vec![None], &hdus).unwrap_err(),
        ErrorKind::InvalidInputOrdering
    );
}

#[test]
fn test_from_gpubox_info() {
    let info = examine_gpubox_files(&legacy_files(), &vec![None], &legacy_hdus()).unwrap();
    let context = mwalibContext::from_gpubox_info(header(), rf_inputs(), info, &legacy_hdus()).unwrap();
    assert_eq!(context.num_timesteps, 1);
    assert_eq!(context.num_baselines, 8256);
    let info = examine_gpubox_files(&legacy_files(), &vec![None], &legacy_hdus()).unwrap();
    let mut other_channels = header();
    other_channels.channels = "110,111".to_string();
    other_channels.observation_bandwidth_hz = 2_560_000;
    let context =
        mwalibContext::from_gpubox_info(other_channels, rf_inputs(), info, &legacy_hdus()).unwrap();
    // The first channel of the header is the one of gpubox 1.
    assert_eq!(context.num_coarse_channels, 1);
    assert_eq!(context.coarse_channels[0].receiver_channel_number, 110);
    assert_eq!(context.coarse_channels[0].gpubox_number, 1);
    let info = examine_gpubox_files(&legacy_files(), &vec![None], &legacy_hdus()).unwrap();
    let mut no_channels = header();
    no_channels.channels = "''".to_string();
    assert_eq!(
        mwalibContext::from_gpubox_info(no_channels, rf_inputs(), info, &legacy_hdus()).unwrap_err(),
        ErrorKind::ParseInt
    );
}

#[test]
fn test_examine_gpubox_files() {
    let files = vec![
        "1101503312_20141201210818_gpubox02_00.fits".to_string(),
        "1101503312_20141201210818_gpubox01_00.fits".to_string(),
    ];
    let record = |t| HduInfo { unix_time_ms: t, naxis1: 4, naxis2: 2 };
    let hdus = vec![vec![record(10), record(20)], vec![record(10), record(20)]];
    let info = examine_gpubox_files(&files, &vec![None, None], &hdus).unwrap();
    assert_eq!(info.corr_version, CorrelatorVersion::Legacy);
    assert_eq!(info.hdu_size, 8);
    assert_eq!(info.num_gpubox_files, 2);
    assert_eq!(info.gpubox_batches.len(), 1);
    assert_eq!(info.gpubox_time_map.channels, vec![1, 2]);
    assert_eq!(info.gpubox_time_map.get(20, 0), Some((0, 2)));
    assert_eq!(
        examine_gpubox_files(&files, &vec![None, Some(1)], &hdus).unwrap_err(),
        ErrorKind::VersionMismatch { file_index: 1 }
    );
}

#[test]
fn test_validate_version_markers() {
    assert_eq!(validate_version_markers(CorrelatorVersion::V2, &vec![Some(2), Some(2)]), Ok(()));
    assert_eq!(validate_version_markers(CorrelatorVersion::Legacy, &vec![None, None]), Ok(()));
    assert_eq!(validate_version_markers(CorrelatorVersion::OldLegacy, &vec![]), Ok(()));
    assert_eq!(
        validate_version_markers(CorrelatorVersion::V2, &vec![Some(2), Some(1), None]),
        Err(ErrorKind::VersionMismatch { file_index: 1 })
    );
    assert_eq!(
        validate_version_markers(CorrelatorVersion::V2, &vec![None]),
        Err(ErrorKind::VersionMismatch { file_index: 0 })
    );
    assert_eq!(
        validate_version_markers(CorrelatorVersion::OldLegacy, &vec![None, Some(2)]),
        Err(ErrorKind::VersionMismatch { file_index: 1 })
    );
}

#[test]
fn test_correlator_version_description() {
    assert_eq!(CorrelatorVersion::V2.description(), "v2 MWAX");
    assert_eq!(CorrelatorVersion::Legacy.description(), "v1 Legacy");
    assert_eq!(CorrelatorVersion::OldLegacy.description(), "v1 Legacy (no file indices)");
    assert!(!CorrelatorVersion::V2.is_legacy());
    assert!(CorrelatorVersion::Legacy.is_legacy());
    assert!(CorrelatorVersion::OldLegacy.is_legacy());
}

#[test]
fn test_locate_where_the_index_holds_no_record() {
    // Channel 114 has a record at 5000 only, channel 115 at 5500 only: no time holds both, so
    // both times are timesteps, and only the channel of the earliest time is a coarse channel.
    let files = vec![
        "1244973688_20190619100110_ch114_000.fits".to_string(),
        "1244973688_20190619100110_ch115_000.fits".to_string(),
    ];
    let record = |t| HduInfo { unix_time_ms: t, naxis1: 16, naxis2: 10 };
    let hdus = vec![vec![record(5000)], vec![record(5500)]];
    let context =
        mwalibContext::new(mwax_header(), mwax_rf_inputs(), &files, &vec![Some(2); 2], &hdus).unwrap();
    assert_eq!(context.num_timesteps, 2);
    assert_eq!(context.num_coarse_channels, 1);
    assert_eq!(context.coarse_channels[0].gpubox_number, 114);
    assert!(context.locate(0, 0).is_ok());
    assert_eq!(
        context.locate(1, 0),
        Err(ErrorKind::NoDataForTimeStepCoarseChannel { timestep_index: 1, coarse_channel_index: 0 })
    );
    assert_eq!(
        context.read_by_baseline(1, 0, vec![0; 160]),
        Err(ErrorKind::NoDataForTimeStepCoarseChannel { timestep_index: 1, coarse_channel_index: 0 })
    );
}

#[test]
fn test_context_new_where_no_channel_of_the_header_was_provided() {
    let files = vec!["1244973688_20190619100110_ch114_000.fits".to_string()];
    let hdus = vec![vec![HduInfo { unix_time_ms: 5000, naxis1: 16, naxis2: 10 }]];
    let mut h = mwax_header();
    h.channels = "120,121".to_string();
    assert_eq!(
        mwalibContext::new(h, mwax_rf_inputs(), &files, &vec![Some(2)], &hdus).unwrap_err(),
        ErrorKind::NoDataForTimeStepCoarseChannel { timestep_index: 0, coarse_channel_index: 0 }
    );
}

#[test]
fn test_context_with_an_odd_number_of_antennas() {
    // 6 receiver inputs are 3 antennas, which have 6 pairs, each antenna with itself included.
    let mut h = mwax_header();
    h.num_rf_inputs = 6;
    let rf_inputs: Vec<mwalibRFInput> = mwax_rf_inputs().into_iter().take(6).collect();
    let files = vec!["1244973688_20190619100110_ch114_000.fits".to_string()];
    let hdus = vec![vec![HduInfo { unix_time_ms: 5000, naxis1: 16, naxis2: 6 }]];
    let context = mwalibContext::new(h, rf_inputs, &files, &vec![Some(2)], &hdus).unwrap();
    assert_eq!(context.num_antennas, 3);
    assert_eq!(context.num_baselines, 6);
    assert_eq!(context.num_visibility_pols, context.num_antenna_pols * context.num_antenna_pols);
    assert_eq!(context.num_timestep_coarse_channel_floats, 6 * 2 * 4 * 2);
    assert_eq!(context.read_by_frequency(0, 0, vec![7; 96]).unwrap().len(), 96);
    // A record with 4 rows is not one of 3 antennas.
    let mut h = mwax_header();
    h.num_rf_inputs = 6;
    let rf_inputs: Vec<mwalibRFInput> = mwax_rf_inputs().into_iter().take(6).collect();
    let hdus = vec![vec![HduInfo { unix_time_ms: 5000, naxis1: 16, naxis2: 4 }]];
    assert_eq!(
        mwalibContext::new(h, rf_inputs, &files, &vec![Some(2)], &hdus).unwrap_err(),
        ErrorKind::AxisMismatch {
            axis: Axis::Second,
            wanted: Some(6),
            found: 4,
            fine_channels: 2,
            baselines: 6,
            pols: 4
        }
    );
}
