use mwalib::antenna::mwalibAntenna;
use mwalib::coarse_channel::CoarseChannel;
use mwalib::context::{count_baselines, CorrelatorVersion, MetafitsHeader};
use mwalib::metafits_context::{to_u32_list, MetafitsContext};
use mwalib::error::ErrorKind;
use mwalib::metafits::{
    parse_date_obs, parse_number_list, scheduled_times, sort_by_subfile_order, Schedule,
};
use mwalib::rfinput::{mwalibRFInput, Pol};

#[test]
fn test_parse_number_list() {
    assert_eq!(parse_number_list("1,2,3"), Ok(vec![1, 2, 3]));
    assert_eq!(parse_number_list("109"), Ok(vec![109]));
    assert_eq!(parse_number_list("0,0,0"), Ok(vec![0, 0, 0]));
    assert_eq!(parse_number_list("007,10"), Ok(vec![7, 10]));
}

#[test]
fn test_parse_number_list_ignores_quotes_and_continuations() {
    assert_eq!(parse_number_list("'1,2,3'"), Ok(vec![1, 2, 3]));
    assert_eq!(parse_number_list("1,2&,3"), Ok(vec![1, 2, 3]));
    assert_eq!(parse_number_list("1'2,&3&"), Ok(vec![12, 3]));
}

#[test]
fn test_parse_number_list_errors() {
    assert_eq!(parse_number_list(""), Err(ErrorKind::ParseInt));
    assert_eq!(parse_number_list("''"), Err(ErrorKind::ParseInt));
    assert_eq!(parse_number_list("1,,2"), Err(ErrorKind::ParseInt));
    assert_eq!(parse_number_list(",1"), Err(ErrorKind::ParseInt));
    assert_eq!(parse_number_list("1,"), Err(ErrorKind::ParseInt));
    assert_eq!(parse_number_list("1, 2"), Err(ErrorKind::ParseInt));
    assert_eq!(parse_number_list("1,-2"), Err(ErrorKind::ParseInt));
    assert_eq!(parse_number_list("1,x"), Err(ErrorKind::ParseInt));
    assert_eq!(parse_number_list("99999999999999999999999"), Err(ErrorKind::ParseInt));
    assert_eq!(parse_number_list("18446744073709551615"), Ok(vec![usize::MAX]));
}

#[test]
fn test_parse_date_obs() {
    assert_eq!(parse_date_obs("2014-12-01T21:08:16"), Some(1_417_468_096_000));
    assert_eq!(parse_date_obs("1970-01-01T00:00:00"), Some(0));
    assert_eq!(parse_date_obs("1970-01-01T00:00:01.444"), Some(1_444));
    assert_eq!(parse_date_obs("1969-12-31T23:59:59"), Some(-1000));
    assert_eq!(parse_date_obs("2019-06-19T10:01:10"), Some(1_560_938_470_000));
}

#[test]
fn test_parse_date_obs_rejects() {
    assert_eq!(parse_date_obs(""), None);
    assert_eq!(parse_date_obs("2014-12-01"), None);
    assert_eq!(parse_date_obs("2014-13-01T21:08:16"), None);
    assert_eq!(parse_date_obs("2014-12-01T21:08:16+00:00"), None);
    assert_eq!(parse_date_obs("yesterday"), None);
}

#[test]
fn test_scheduled_times() {
    assert_eq!(
        scheduled_times(1_417_468_096_000, 1_101_503_312, 112, 2000, 1_417_468_098_000),
        Ok(Schedule {
            start_utc_ms: 1_417_468_096_000,
            end_utc_ms: 1_417_468_208_000,
            start_gpstime_ms: 1_101_503_312_000,
            end_gpstime_ms: 1_101_503_424_000,
            start_unix_time_ms: 1_417_468_096_000,
            end_unix_time_ms: 1_417_468_208_000,
            duration_ms: 112_000,
        })
    );
    assert_eq!(scheduled_times(0, 0, u64::MAX, 0, 0), Err(ErrorKind::InvalidMetadata));
    assert_eq!(scheduled_times(0, 0, u64::MAX / 1000, 0, 0), Err(ErrorKind::InvalidMetadata));
    assert_eq!(scheduled_times(i64::MAX, 0, 1, 0, 0), Err(ErrorKind::InvalidMetadata));
    assert_eq!(scheduled_times(0, 0, 1, 5, 4), Err(ErrorKind::InvalidMetadata));
    assert_eq!(scheduled_times(0, 0, 1, 0, u64::MAX), Err(ErrorKind::InvalidMetadata));
    assert!(scheduled_times(-5000, 0, 1, 4, 4).is_ok());
}

#[test]
fn test_count_baselines() {
    assert_eq!(count_baselines(128), Some(8256));
    assert_eq!(count_baselines(4), Some(10));
    assert_eq!(count_baselines(0), Some(0));
    assert_eq!(count_baselines(3), Some(6));
    assert_eq!(count_baselines(1), Some(1));
    assert_eq!(count_baselines(2), Some(3));
    assert_eq!(count_baselines(5), Some(15));
    assert_eq!(count_baselines(usize::MAX), None);
}

fn rf_input(input: u32, antenna: u32, pol: Pol) -> mwalibRFInput {
    mwalibRFInput::new(input, antenna, 100 + antenna, format!("Tile{}", 100 + antenna), pol, false)
}

#[test]
fn test_sort_by_subfile_order_and_populate_antennas() {
    let sorted = sort_by_subfile_order(vec![
        rf_input(0, 1, Pol::Y),
        rf_input(1, 1, Pol::X),
        rf_input(2, 0, Pol::Y),
        rf_input(3, 0, Pol::X),
    ]);
    let inputs: Vec<u32> = sorted.iter().map(|r| r.input).collect();
    let orders: Vec<u32> = sorted.iter().map(|r| r.subfile_order).collect();
    assert_eq!(inputs, vec![3, 2, 1, 0]);
    assert_eq!(orders, vec![0, 1, 2, 3]);
    assert_eq!(sorted[0].vcs_order, 12);
    let antennas = mwalibAntenna::populate_antennas(&sorted);
    assert_eq!(antennas.len(), 2);
    assert_eq!(antennas[0].antenna, 0);
    assert_eq!(antennas[0].tile_id, 100);
    assert_eq!(antennas[0].tile_name, "Tile100");
    assert_eq!(antennas[1].tile_name, "Tile101");
    assert!(sort_by_subfile_order(vec![]).is_empty());
    assert!(mwalibAntenna::populate_antennas(&vec![rf_input(0, 0, Pol::X)]).is_empty());
}

fn metafits_header() -> MetafitsHeader {
    MetafitsHeader {
        obsid: 1_101_503_312,
        num_rf_inputs: 8,
        integration_time_milliseconds: 2000,
        observation_bandwidth_hz: 30_720_000,
        fine_channel_width_hz: 10_000,
        centre_freq_hz: 154_240_000,
        date_obs: "2014-12-01T21:08:16".to_string(),
        exposure_seconds: 112,
        quack_time_duration_milliseconds: 2000,
        good_time_unix_milliseconds: 1_417_468_098_000,
        hour_angle_string: "-00:00:00.00".to_string(),
        grid_name: "sweet".to_string(),
        grid_number: 0,
        creator: "Randall".to_string(),
        project_id: "G0009".to_string(),
        observation_name: "FDS_DEC-26.7_121".to_string(),
        mode: "HW_LFILES".to_string(),
        receivers: "1,2,3,4".to_string(),
        delays: "0,0,3,0".to_string(),
        channels: "132,109,110,111,112,113,114,115,116,117,118,119,120,121,122,123,124,125,126,127,128,129,130,131"
            .to_string(),
        metafits_filename: "1101503312.metafits".to_string(),
    }
}

fn metafits_rf_inputs() -> Vec<mwalibRFInput> {
    (0..8u32).map(|i| rf_input(i, 3 - i / 2, if i % 2 == 0 { Pol::Y } else { Pol::X })).collect()
}

#[test]
fn test_metafits_context_new() {
    let context = MetafitsContext::new(metafits_header(), metafits_rf_inputs()).unwrap();
    assert_eq!(context.obs_id, 1_101_503_312);
    assert_eq!(context.sched_start_utc, 1_417_468_096_000);
    assert_eq!(context.sched_end_utc, 1_417_468_208_000);
    assert_eq!(context.sched_duration_ms, 112_000);
    assert_eq!(context.sched_start_gps_time_ms, 1_101_503_312_000);
    assert_eq!(context.sched_end_gps_time_ms, 1_101_503_424_000);
    assert_eq!(context.sched_start_unix_time_ms, 1_417_468_096_000);
    assert_eq!(context.sched_end_unix_time_ms, 1_417_468_208_000);
    assert_eq!(context.good_time_gps_ms, 1_101_503_314_000);
    assert_eq!(context.good_time_unix_ms, 1_417_468_098_000);
    assert_eq!(context.quack_time_duration_ms, 2000);
    assert_eq!(context.num_rf_inputs, 8);
    assert_eq!(context.num_ants, 4);
    assert_eq!(context.num_ant_pols, 2);
    assert_eq!(context.num_baselines, 10);
    assert_eq!(context.baselines.len(), 10);
    assert_eq!((context.baselines[5].ant1_index, context.baselines[5].ant2_index), (1, 2));
    assert_eq!(context.num_visibility_pols, 4);
    assert_eq!(context.visibility_pols[2].polarisation, "YX");
    assert_eq!(context.rf_inputs[0].input, 7);
    assert_eq!(context.rf_inputs[7].input, 0);
    assert_eq!(context.antennas.len(), 4);
    assert_eq!(context.antennas[0].tile_name, "Tile100");
    assert_eq!(context.antennas[3].tile_name, "Tile103");
    assert_eq!(context.receivers, vec![1, 2, 3, 4]);
    assert_eq!(context.delays, vec![0, 0, 3, 0]);
    assert_eq!(context.num_coarse_chans, 24);
    assert_eq!(context.metafits_coarse_chans[0], 109);
    assert_eq!(context.metafits_coarse_chans[23], 132);
    assert_eq!(context.obs_bandwidth_hz, 30_720_000);
    assert_eq!(context.coarse_chan_width_hz, 1_280_000);
    assert_eq!(context.centre_freq_hz, 154_240_000);
    assert_eq!(context.corr_fine_chan_width_hz, 10_000);
    assert_eq!(context.corr_int_time_ms, 2000);
    assert_eq!(context.num_corr_fine_chans_per_coarse, 128);
    assert_eq!(context.obs_name, "FDS_DEC-26.7_121");
    assert_eq!(context.metafits_filename, "1101503312.metafits");
}

#[test]
fn test_metafits_context_new_errors() {
    let new = |h: MetafitsHeader| MetafitsContext::new(h, metafits_rf_inputs()).unwrap_err();
    let mut h = metafits_header();
    h.date_obs = "2014-12-01 21:08".to_string();
    assert_eq!(new(h), ErrorKind::InvalidDateTime);
    let mut h = metafits_header();
    h.exposure_seconds = u64::MAX;
    assert_eq!(new(h), ErrorKind::InvalidMetadata);
    let mut h = metafits_header();
    h.receivers = "1;2".to_string();
    assert_eq!(new(h), ErrorKind::ParseInt);
    let mut h = metafits_header();
    h.delays = "1,4294967296".to_string();
    assert_eq!(new(h), ErrorKind::ParseInt);
    let mut h = metafits_header();
    h.channels = "".to_string();
    assert_eq!(new(h), ErrorKind::ParseInt);
    let mut h = metafits_header();
    h.fine_channel_width_hz = 0;
    assert_eq!(new(h), ErrorKind::InvalidMetadata);
    let mut h = metafits_header();
    h.num_rf_inputs = usize::MAX;
    assert_eq!(new(h), ErrorKind::InvalidMetadata);
    let mut h = metafits_header();
    h.quack_time_duration_milliseconds = 3000;
    h.good_time_unix_milliseconds = u64::MAX - 112_000;
    assert!(MetafitsContext::new(h, metafits_rf_inputs()).is_ok());
}

#[test]
fn test_get_expected_coarse_channels() {
    let context = MetafitsContext::new(metafits_header(), metafits_rf_inputs()).unwrap();
    let legacy = context.get_expected_coarse_channels(CorrelatorVersion::Legacy).unwrap();
    assert_eq!(legacy.len(), 24);
    assert_eq!(legacy[0], CoarseChannel::new(0, 109, 1, 1_280_000));
    assert_eq!(legacy[19], CoarseChannel::new(19, 128, 20, 1_280_000));
    assert_eq!(legacy[20], CoarseChannel::new(23, 129, 24, 1_280_000));
    assert_eq!(legacy[23], CoarseChannel::new(20, 132, 21, 1_280_000));
    let mwax = context.get_expected_coarse_channels(CorrelatorVersion::V2).unwrap();
    assert_eq!(mwax.len(), 24);
    assert_eq!(mwax[20], CoarseChannel::new(20, 129, 129, 1_280_000));
}

#[test]
fn test_to_u32_list() {
    assert_eq!(to_u32_list(&vec![0, 7, 4_294_967_295]), Some(vec![0, 7, 4_294_967_295]));
    assert_eq!(to_u32_list(&vec![0, 4_294_967_296]), None);
    assert_eq!(to_u32_list(&vec![]), Some(vec![]));
}

#[test]
fn test_metafits_context_with_an_odd_number_of_antennas() {
    let mut h = metafits_header();
    h.num_rf_inputs = 6;
    let rf_inputs: Vec<mwalibRFInput> = metafits_rf_inputs().into_iter().skip(2).collect();
    let context = MetafitsContext::new(h, rf_inputs).unwrap();
    assert_eq!(context.num_rf_inputs, 6);
    assert_eq!(context.num_ants, 3);
    assert_eq!(context.num_baselines, 6);
    assert_eq!(context.baselines.len(), context.num_baselines);
    assert_eq!(context.num_visibility_pols, context.visibility_pols.len());
    assert_eq!(context.num_ant_pols, 2);
}
