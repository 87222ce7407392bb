use mwalib::baseline::Baseline;
use mwalib::misc::{
    convert_gpstime_to_unixtime, convert_unixtime_to_gpstime, get_antennas_from_baseline,
    get_baseline_count,
};
use mwalib::text::decimal;
use mwalib::timestep::{mwalibTimeStep, TimeStep};
use mwalib::voltage_files::VoltageFileError;

#[test]
fn test_get_baseline_count() {
    assert_eq!(get_baseline_count(0), 0);
    assert_eq!(get_baseline_count(1), 1);
    assert_eq!(get_baseline_count(2), 3);
    assert_eq!(get_baseline_count(128), 8256);
    assert_eq!(get_baseline_count(255), 32640);
    assert_eq!(get_baseline_count(361), 65341);
}

#[test]
fn test_get_antennas_from_baseline() {
    assert_eq!(get_antennas_from_baseline(0, 128), Some((0, 0)));
    assert_eq!(get_antennas_from_baseline(2, 128), Some((0, 2)));
    assert_eq!(get_antennas_from_baseline(127, 128), Some((0, 127)));
    assert_eq!(get_antennas_from_baseline(128, 128), Some((1, 1)));
    assert_eq!(get_antennas_from_baseline(8255, 128), Some((127, 127)));
    assert_eq!(get_antennas_from_baseline(8256, 128), None);
    assert_eq!(get_antennas_from_baseline(0, 0), None);
}

#[test]
fn test_antennas_from_baseline_inverts_the_listing() {
    let n = 7;
    let mut index = 0;
    for ant1 in 0..n {
        for ant2 in ant1..n {
            assert_eq!(get_antennas_from_baseline(index, n), Some((ant1, ant2)));
            index += 1;
        }
    }
    assert_eq!(index, 28);
    assert_eq!(get_antennas_from_baseline(index, n), None);
}

#[test]
fn test_populate_baselines() {
    let baselines = Baseline::populate_baselines(128);
    assert_eq!(baselines.len(), 8256);
    assert_eq!(baselines[0], Baseline { ant1_index: 0, ant2_index: 0 });
    assert_eq!(baselines[2], Baseline { ant1_index: 0, ant2_index: 2 });
    assert_eq!(baselines[128], Baseline { ant1_index: 1, ant2_index: 1 });
    assert_eq!(baselines[8255], Baseline { ant1_index: 127, ant2_index: 127 });
    assert_eq!(Baseline::populate_baselines(0).len(), 0);
}

#[test]
fn test_time_conversions() {
    // The scheduled start is 1101503312 in GPS seconds and 1417468096 in UNIX seconds.
    let gps = 1_101_503_312_000;
    let unix = 1_417_468_096_000;
    assert_eq!(convert_unixtime_to_gpstime(1_417_468_098_000, gps, unix), 1_101_503_314_000);
    assert_eq!(convert_gpstime_to_unixtime(1_101_503_314_000, gps, unix), 1_417_468_098_000);
    assert_eq!(convert_unixtime_to_gpstime(unix, gps, unix), gps);
    assert_eq!(convert_gpstime_to_unixtime(gps, gps, unix), unix);
}

#[test]
fn test_time_conversions_wrap() {
    // A UNIX start before the GPS start: the offset is negative, the result still exact.
    assert_eq!(convert_gpstime_to_unixtime(5_000, 4_000, 1_000), 2_000);
    assert_eq!(convert_unixtime_to_gpstime(2_000, 4_000, 1_000), 5_000);
    // A result below zero wraps.
    assert_eq!(convert_unixtime_to_gpstime(0, 0, 1), u64::MAX);
}

#[test]
fn test_timestep_new() {
    let t = TimeStep::new(1_417_468_096_000, 1_101_503_312_000);
    assert_eq!(t.unix_time_ms, 1_417_468_096_000);
    assert_eq!(t.gps_time_ms, 1_101_503_312_000);
    assert_eq!(mwalibTimeStep::new(7).unix_time_ms, 7);
}

#[test]
fn test_populate_voltage_timesteps() {
    let steps = TimeStep::populate_voltage_timesteps(1000, 4000, 1000, 1000, 500_000);
    assert_eq!(steps.len(), 3);
    assert_eq!(steps[0], TimeStep { unix_time_ms: 500_000, gps_time_ms: 1000 });
    assert_eq!(steps[1], TimeStep { unix_time_ms: 501_000, gps_time_ms: 2000 });
    assert_eq!(steps[2], TimeStep { unix_time_ms: 502_000, gps_time_ms: 3000 });
}

#[test]
fn test_populate_voltage_timesteps_edges() {
    // The end is not included, and a last partial interval still counts.
    assert_eq!(TimeStep::populate_voltage_timesteps(0, 2500, 1000, 0, 0).len(), 3);
    assert_eq!(TimeStep::populate_voltage_timesteps(0, 2000, 1000, 0, 0).len(), 2);
    assert_eq!(TimeStep::populate_voltage_timesteps(0, 1, 1000, 0, 0).len(), 1);
    assert_eq!(TimeStep::populate_voltage_timesteps(5, 5, 1000, 0, 0).len(), 0);
    assert_eq!(TimeStep::populate_voltage_timesteps(6, 5, 1000, 0, 0).len(), 0);
    let near_end = TimeStep::populate_voltage_timesteps(u64::MAX - 3, u64::MAX, 2, 0, 0);
    assert_eq!(near_end.len(), 2);
    assert_eq!(near_end[1].gps_time_ms, u64::MAX - 1);
}

#[test]
fn test_decimal() {
    assert_eq!(decimal(0), "0");
    assert_eq!(decimal(7), "7");
    assert_eq!(decimal(10), "10");
    assert_eq!(decimal(1_101_503_312), "1101503312");
    assert_eq!(decimal(u64::MAX), "18446744073709551615");
}

#[test]
fn test_voltage_file_error_messages() {
    assert_eq!(VoltageFileError::NoVoltageFiles.message(), "No voltage files were supplied");
    assert_eq!(
        VoltageFileError::VoltageFileError("a.sub".to_string(), "too short".to_string()).message(),
        "Voltage file a.sub error: too short"
    );
    assert_eq!(
        VoltageFileError::Mixture.message(),
        "There are a mixture of voltage filename types!"
    );
    assert_eq!(
        VoltageFileError::GpsTimeMissing { expected: 1_101_503_312, got: 1_101_503_320 }.message(),
        "There are missing gps times- expected 1101503312 got 1101503320"
    );
    assert_eq!(
        VoltageFileError::UnevenChannelsForGpsTime { expected: 24, got: 23 }.message(),
        "There are an uneven number of channel (files) across all of the gps times- expected 24 got 23"
    );
    assert_eq!(
        VoltageFileError::Unrecognised("x.dat".to_string()).message(),
        "Could not identify the voltage filename structure for x.dat"
    );
    assert_eq!(
        VoltageFileError::MissingObsid("x.dat".to_string()).message(),
        "Failed to read OBSID from x.dat - is this an MWA voltage file?"
    );
    assert_eq!(
        VoltageFileError::UnequalFileSizes.message(),
        "The provided voltage files are of different sizes and this is not supported"
    );
    assert_eq!(
        VoltageFileError::MetafitsObsidMismatch.message(),
        "The provided metafits obsid does not match the provided filenames obsid."
    );
    assert_eq!(
        VoltageFileError::ObsidMismatch {
            obsid: 1,
            voltage_filename: "v.sub".to_string(),
            voltage_obsid: 2
        }
        .message(),
        "OBSID 2 from v.sub does not match expected value of obs_id from metafits file 1\nmaybe you have a mix of different files?"
    );
    assert_eq!(VoltageFileError::EmptyBTreeMap.message(), "Input BTreeMap was empty");
}
