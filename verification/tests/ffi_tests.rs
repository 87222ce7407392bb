use mwalib::baseline::Baseline;
use mwalib::context::{mwalibContext, MetafitsHeader};
use mwalib::ffi::{
    coarse_channel_get, mwalib_correlator_baselines_get, mwalib_correlator_visibility_pols_get,
    set_error_message, timestep_get,
};
use mwalib::rfinput::{mwalibRFInput, Pol};
use mwalib::time_map::HduInfo;
use mwalib::visibility_pol::VisibilityPol;

/// Create and return a correlator context for the test observation: one legacy data file
/// with one record.
fn get_test_correlator_context() -> mwalibContext {
    let header = MetafitsHeader {
        obsid: 1_101_503_312,
        num_rf_inputs: 256,
        integration_time_milliseconds: 2000,
        observation_bandwidth_hz: 30_720_000,
        fine_channel_width_hz: 10_000,
        centre_freq_hz: 154_240_000,
        date_obs: "2014-12-01T21:08:16".to_string(),
        exposure_seconds: 112,
        quack_time_duration_milliseconds: 2000,
        good_time_unix_milliseconds: 1_417_468_098_000,
        hour_angle_string: "-00:00:00.00".to_string(),
        grid_name: "sweet".to_string(),
        grid_number: 0,
        creator: "Randall".to_string(),
        project_id: "G0009".to_string(),
        observation_name: "FDS_DEC-26.7_121".to_string(),
        mode: "HW_LFILES".to_string(),
        receivers: "1,2,3,4,5,6,7,8,9,10,11,12,13,14,15,16".to_string(),
        delays: "0,0,0,0,0,0,0,0,0,0,0,0,0,0,0,0".to_string(),
        channels: "109,110,111,112,113,114,115,116,117,118,119,120,121,122,123,124,125,126,127,128,129,130,131,132"
            .to_string(),
        metafits_filename: "test_files/1101503312_1_timestep/1101503312.metafits".to_string(),
    };
    let mut rf_inputs = Vec::new();
    for input in 0..256u32 {
        let antenna = input / 2;
        let pol = if input % 2 == 0 { Pol::Y } else { Pol::X };
        rf_inputs.push(mwalibRFInput::new(
            input,
            antenna,
            11 + antenna,
            format!("Tile{:03}", 11 + antenna),
            pol,
            false,
        ));
    }
    let gpubox_files =
        vec!["test_files/1101503312_1_timestep/1101503312_20141201210818_gpubox01_00.fits".to_string()];
    let hdus = vec![vec![HduInfo { unix_time_ms: 1_417_468_096_000, naxis1: 66048, naxis2: 128 }]];
    let context = mwalibContext::new(header, rf_inputs, &gpubox_files, &vec![None], &hdus);

    // Check we got a valid context
    assert!(context.is_ok(), "mwalib_correlator_context_new failure");
    context.unwrap()
}

#[test]
fn ffi_test_set_error_message() {
    let bytes = set_error_message("hello world".as_bytes(), 12);
    assert_eq!(bytes, Some("hello world\0".as_bytes().to_vec()));
}

#[test]
fn test_test_set_error_message() {
    let mut buffer = "HELLO WORLD\0".as_bytes().to_vec();
    let bytes = set_error_message("hello world".as_bytes(), 12).unwrap();
    buffer[..bytes.len()].copy_from_slice(&bytes);
    assert_eq!(buffer, "hello world\0".as_bytes().to_vec());
}

#[test]
fn test_set_error_message_cuts_long_messages() {
    assert_eq!(set_error_message("hello world".as_bytes(), 6), Some("hello\0".as_bytes().to_vec()));
    assert_eq!(set_error_message("hello world".as_bytes(), 2), Some("h\0".as_bytes().to_vec()));
    assert_eq!(set_error_message("hello world".as_bytes(), 60), Some("hello world\0".as_bytes().to_vec()));
    assert_eq!(set_error_message("".as_bytes(), 60), Some(vec![0]));
    // No room but for the terminator, or none even for that.
    assert_eq!(set_error_message("hello world".as_bytes(), 1), None);
    assert_eq!(set_error_message("hello world".as_bytes(), 0), None);
    // A message of just the length of the buffer is not cut, and does not fit.
    assert_eq!(set_error_message("hello world".as_bytes(), 11), None);
    assert_eq!(set_error_message("hello\0world".as_bytes(), 60), None);
    assert_eq!(set_error_message("hello\0world".as_bytes(), 4), Some("hel\0".as_bytes().to_vec()));
}

// Baselines
#[test]
fn test_mwalib_correlator_baselines_get_valid() {
    // This test populates baselines given a correlator context
    let index = 2; // valid  should be baseline (0,2)

    let context = get_test_correlator_context();

    let result = mwalib_correlator_baselines_get(Some(&context));

    // check ret val is ok
    assert!(result.is_ok(), "mwalib_baselines_get did not return success");

    let item: Vec<Baseline> = result.unwrap();
    let array_len = item.len();

    // We should get a valid, populated array
    assert_eq!(array_len, 8256, "Array length is not correct");
    assert_eq!(array_len, context.num_baselines);
    assert_eq!(item[index].ant1_index, 0);
    assert_eq!(item[index].ant2_index, 2);
}

#[test]
fn test_mwalib_correlator_baselines_get_null_context() {
    // This tests for a null context passed into the _get method
    let result = mwalib_correlator_baselines_get(None);

    // We should get no array, a failure and an error message
    assert!(result.is_err());
    let error_message = result.unwrap_err();
    assert_ne!(error_message.len(), 0);
    let expected_error: &str = &"mwalib_correlator_baselines_get() ERROR:";
    assert_eq!(error_message[0..expected_error.len()], *expected_error);
}

// Visibility Pols
#[test]
fn test_mwalib_correlator_visibility_pols_get_valid() {
    // This test populates visibility_pols given a correlator context
    let context = get_test_correlator_context();

    let result = mwalib_correlator_visibility_pols_get(Some(&context));

    // check ret val is ok
    assert!(result.is_ok(), "mwalib_correlator_visibility_pols_get did not return success");

    let item: Vec<VisibilityPol> = result.unwrap();
    let array_len = item.len();

    // We should get a valid, populated array
    assert_eq!(array_len, 4, "Array length is not correct");
    assert_eq!(item[0].polarisation, "XX");
    assert_eq!(item[1].polarisation, "XY");
    assert_eq!(item[2].polarisation, "YX");
    assert_eq!(item[3].polarisation, "YY");
}

#[test]
fn test_mwalib_correlator_visibilitypols_get_null_context() {
    // This tests for a null context passed into the _get method
    let result = mwalib_correlator_visibility_pols_get(None);

    // We should get no array, a failure and an error message
    assert!(result.is_err());
    let error_message = result.unwrap_err();
    assert_ne!(error_message.len(), 0);
    let expected_error: &str = &"mwalib_correlator_visibility_pols_get() ERROR:";
    assert_eq!(error_message[0..expected_error.len()], *expected_error);
}

#[test]
fn test_mwalibtimestep_get_valid() {
    let context = get_test_correlator_context();
    let timestep = timestep_get(&context, 0);
    assert!(timestep.is_some());
    assert_eq!(timestep.unwrap().unix_time_ms, 1_417_468_096_000);
}

#[test]
fn test_mwalibtimestep_get_invalid() {
    let context = get_test_correlator_context();
    assert!(timestep_get(&context, 1).is_none());
}

#[test]
fn test_mwalibcoarsechannel_get_valid() {
    let context = get_test_correlator_context();
    let channel = coarse_channel_get(&context, 0);
    assert!(channel.is_some());
    assert_eq!(channel.unwrap().receiver_channel_number, 109);
}

#[test]
fn test_mwalibcoarsechannel_get_invalid() {
    let context = get_test_correlator_context();
    assert!(coarse_channel_get(&context, 1).is_none());
}
