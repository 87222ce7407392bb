use mwalib::coarse_channel::{channel_provided, mwalibCoarseChannel, CoarseChannel};
use mwalib::context::CorrelatorVersion;
use mwalib::error::ErrorKind;
use mwalib::gpubox::{determine_gpubox_batches, GPUBoxBatch};
use mwalib::time_map::{
    create_time_map, determine_obs_times, insert_location, GpuboxTimeMap, HduInfo, ObsTimes,
    TimeCount,
};
use std::collections::BTreeMap;
use mwalib::timestep::{mwalibTimeStep, TimeStep};

fn hdu(unix_time_ms: u64) -> HduInfo {
    HduInfo { unix_time_ms, naxis1: 8, naxis2: 3 }
}

/// Two batches of two channels. The files are given in the order: channel 2 of batch 1,
/// channel 1 of batch 0, channel 1 of batch 1, channel 2 of batch 0.
fn two_by_two() -> Vec<GPUBoxBatch> {
    let names: Vec<String> = vec![
        "1065880128_20131015134930_gpubox02_01.fits".to_string(),
        "1065880128_20131015134830_gpubox01_00.fits".to_string(),
        "1065880128_20131015134930_gpubox01_01.fits".to_string(),
        "1065880128_20131015134830_gpubox02_00.fits".to_string(),
    ];
    determine_gpubox_batches(&names).unwrap().0
}

/// One time of an index: the time, and for each channel by its place the location of its
/// record, if it has one.
fn bucket(unix_time_ms: u64, locations: Vec<Option<(usize, usize)>>) -> (u64, Vec<Option<(usize, usize)>>) {
    (unix_time_ms, locations)
}

fn index_of(buckets: Vec<(u64, Vec<Option<(usize, usize)>>)>, channels: Vec<usize>) -> GpuboxTimeMap {
    let mut map = BTreeMap::new();
    for (unix_time_ms, locations) in buckets {
        let mut inner = BTreeMap::new();
        for (c, location) in locations.iter().enumerate() {
            if let Some(location) = location {
                inner.insert(channels[c], *location);
            }
        }
        map.insert(unix_time_ms, inner);
    }
    GpuboxTimeMap { channels, map }
}

fn locations_of(map: &GpuboxTimeMap) -> Vec<(u64, Vec<Option<(usize, usize)>>)> {
    map.map
        .iter()
        .map(|(t, inner)| (*t, map.channels.iter().map(|channel| inner.get(channel).copied()).collect()))
        .collect()
}

fn num_records(map: &GpuboxTimeMap) -> usize {
    map.map.values().map(|inner| inner.len()).sum()
}

#[test]
fn test_create_time_map() {
    let batches = two_by_two();
    let hdus = vec![
        vec![hdu(3000), hdu(4000)],
        vec![hdu(1000), hdu(2000)],
        vec![hdu(3000), hdu(4000)],
        vec![hdu(1000), hdu(2000)],
    ];
    let (map, size) = create_time_map(&batches, &hdus).unwrap();
    assert_eq!(size, 24);
    assert_eq!(map.channels, vec![1, 2]);
    assert_eq!(
        locations_of(&map),
        vec![
            (1000, vec![Some((0, 1)), Some((0, 1))]),
            (2000, vec![Some((0, 2)), Some((0, 2))]),
            (3000, vec![Some((1, 1)), Some((1, 1))]),
            (4000, vec![Some((1, 2)), Some((1, 2))]),
        ]
    );
    // Every record has its own place in the index: files times records per file.
    assert_eq!(num_records(&map), 4 * 2);
    assert_eq!(map.get(3000, 1), Some((1, 1)));
    assert_eq!(map.get(3000, 0), Some((1, 1)));
    assert_eq!(map.get(3500, 0), None);
    assert_eq!(map.get(0, 0), None);
    assert_eq!(map.get(5000, 1), None);
}

#[test]
fn test_create_time_map_irregular() {
    let batches = two_by_two();
    // Channel 2 starts one record late in batch 0 and has none in batch 1.
    let hdus = vec![vec![], vec![hdu(1000), hdu(2000)], vec![hdu(3000)], vec![hdu(2000)]];
    let (map, size) = create_time_map(&batches, &hdus).unwrap();
    assert_eq!(size, 24);
    assert_eq!(
        locations_of(&map),
        vec![
            (1000, vec![Some((0, 1)), None]),
            (2000, vec![Some((0, 2)), Some((0, 1))]),
            (3000, vec![Some((1, 1)), None]),
        ]
    );
    assert_eq!(map.max_channels(), 2);
    assert_eq!(map.complete_bucket_times(), vec![2000]);
}

#[test]
fn test_create_time_map_keeps_the_first_of_equal_times() {
    let batches = two_by_two();
    let hdus = vec![
        vec![hdu(1000)],
        vec![hdu(1000), hdu(1000)],
        vec![hdu(1000)],
        vec![hdu(2000)],
    ];
    let (map, _) = create_time_map(&batches, &hdus).unwrap();
    assert_eq!(
        locations_of(&map),
        vec![(1000, vec![Some((0, 1)), Some((1, 1))]), (2000, vec![None, Some((0, 1))])]
    );
    // Five records, of which two have the time of an earlier record of their channel.
    assert_eq!(num_records(&map), 3);
}

#[test]
fn test_create_time_map_without_records() {
    let batches = two_by_two();
    let hdus = vec![vec![], vec![], vec![], vec![]];
    let (map, size) = create_time_map(&batches, &hdus).unwrap();
    assert_eq!(size, 0);
    assert!(map.map.is_empty());
    assert_eq!(determine_obs_times(&map, 2000).unwrap_err(), ErrorKind::EmptyTimeIndex);
    assert!(mwalibTimeStep::populate_timesteps(&map).is_none());
    assert!(TimeStep::populate_correlator_timesteps(&map, 0, 0).is_none());
}

#[test]
fn test_create_time_map_unequal_sizes() {
    let batches = two_by_two();
    let odd = HduInfo { unix_time_ms: 2000, naxis1: 8, naxis2: 4 };
    // The walk goes batch 0 (files 1 and 3), then batch 1 (files 2 and 0).
    let hdus = vec![vec![hdu(3000)], vec![hdu(1000)], vec![hdu(3000), odd], vec![hdu(1000)]];
    assert_eq!(
        create_time_map(&batches, &hdus).unwrap_err(),
        ErrorKind::UnequalHduSizes { file_index: 2, expected: 24, actual: 32 }
    );
    // Same scalar count with other axes is the same size.
    let flat = HduInfo { unix_time_ms: 2000, naxis1: 24, naxis2: 1 };
    let hdus = vec![vec![hdu(3000)], vec![hdu(1000)], vec![hdu(3000), flat], vec![hdu(1000)]];
    assert!(create_time_map(&batches, &hdus).is_ok());
    let huge = HduInfo { unix_time_ms: 2000, naxis1: usize::MAX, naxis2: 2 };
    let hdus = vec![vec![hdu(3000)], vec![hdu(1000)], vec![hdu(3000)], vec![huge]];
    assert_eq!(
        create_time_map(&batches, &hdus).unwrap_err(),
        ErrorKind::HduSizeOverflow { file_index: 3 }
    );
}

#[test]
fn test_insert_location() {
    let channels = vec![10, 20, 30];
    let map = insert_location(BTreeMap::new(), &channels, 2000, 1, (0, 1));
    let map = insert_location(map, &channels, 1000, 2, (0, 2));
    let map = insert_location(map, &channels, 3000, 0, (0, 3));
    let map = insert_location(map, &channels, 2000, 2, (1, 4));
    let map = insert_location(map, &channels, 2000, 1, (1, 5));
    // The inner maps are keyed by channel identifier.
    assert_eq!(map[&2000][&20], (0, 1));
    assert_eq!(map[&2000][&30], (1, 4));
    assert_eq!(map[&1000].len(), 1);
    let map = GpuboxTimeMap { channels, map };
    assert_eq!(
        map.count_channels_by_time(),
        vec![
            TimeCount { unix_time_ms: 1000, num_channels: 1 },
            TimeCount { unix_time_ms: 2000, num_channels: 2 },
            TimeCount { unix_time_ms: 3000, num_channels: 1 },
        ]
    );
    assert_eq!(
        locations_of(&map),
        vec![
            (1000, vec![None, None, Some((0, 2))]),
            (2000, vec![None, Some((0, 1)), Some((1, 4))]),
            (3000, vec![Some((0, 3)), None, None]),
        ]
    );
}

#[test]
fn test_obs_times_new() {
    assert_eq!(
        ObsTimes::new(1000, 3000, 500).unwrap(),
        ObsTimes { start_millisec: 1000, end_millisec: 3000, duration_millisec: 2500 }
    );
    assert_eq!(
        ObsTimes::new(1000, 1000, 2000).unwrap(),
        ObsTimes { start_millisec: 1000, end_millisec: 1000, duration_millisec: 2000 }
    );
    assert_eq!(
        ObsTimes::new(3000, 1000, 500).unwrap_err(),
        ErrorKind::NegativeDuration { start_ms: 3000, end_ms: 1000 }
    );
    assert_eq!(ObsTimes::new(0, u64::MAX, 1).unwrap_err(), ErrorKind::DurationOverflow);
}

#[test]
fn test_determine_obs_times() {
    let map = index_of(
        vec![
            bucket(1_381_844_923_000, vec![Some((0, 1)), Some((0, 1))]),
            bucket(1_381_844_923_500, vec![Some((0, 2)), Some((0, 2))]),
            bucket(1_381_844_924_000, vec![Some((0, 3)), Some((0, 3))]),
        ],
        vec![1, 2],
    );
    assert_eq!(
        determine_obs_times(&map, 500).unwrap(),
        ObsTimes {
            start_millisec: 1_381_844_923_000,
            end_millisec: 1_381_844_924_000,
            duration_millisec: 1500
        }
    );
}

#[test]
fn test_determine_obs_times_drops_incomplete_timesteps() {
    // The first and the last time lack a channel: they count for nothing.
    let map = index_of(
        vec![
            bucket(1000, vec![Some((0, 1)), None]),
            bucket(2000, vec![Some((0, 2)), Some((0, 1))]),
            bucket(3000, vec![Some((0, 3)), None]),
            bucket(4000, vec![Some((0, 4)), Some((0, 2))]),
            bucket(5000, vec![None, Some((0, 3))]),
        ],
        vec![1, 2],
    );
    assert_eq!(
        determine_obs_times(&map, 1000).unwrap(),
        ObsTimes { start_millisec: 2000, end_millisec: 4000, duration_millisec: 3000 }
    );
    let timesteps = mwalibTimeStep::populate_timesteps(&map).unwrap();
    assert_eq!(timesteps, vec![mwalibTimeStep::new(2000), mwalibTimeStep::new(4000)]);
    let timesteps = TimeStep::populate_correlator_timesteps(&map, 10_000, 1000).unwrap();
    assert_eq!(timesteps, vec![TimeStep::new(2000, 11_000), TimeStep::new(4000, 13_000)]);
}

#[test]
fn test_obs_times_where_no_time_has_every_channel() {
    // No time holds both channels: the fullest time holds one, so every time is complete.
    let map = index_of(
        vec![bucket(1000, vec![Some((0, 1)), None]), bucket(2000, vec![None, Some((0, 1))])],
        vec![1, 2],
    );
    assert_eq!(
        determine_obs_times(&map, 1000).unwrap(),
        ObsTimes { start_millisec: 1000, end_millisec: 2000, duration_millisec: 2000 }
    );
    assert_eq!(mwalibTimeStep::populate_timesteps(&map).unwrap().len(), 2);
}

#[test]
fn test_determine_obs_times_overflow() {
    let map = index_of(
        vec![bucket(5, vec![Some((0, 1))]), bucket(6, vec![Some((0, 2))])],
        vec![1],
    );
    assert_eq!(determine_obs_times(&map, u64::MAX).unwrap_err(), ErrorKind::DurationOverflow);
    assert_eq!(
        determine_obs_times(&map, u64::MAX - 1).unwrap(),
        ObsTimes { start_millisec: 5, end_millisec: 6, duration_millisec: u64::MAX }
    );
}

#[test]
fn test_coarse_channel_new() {
    let c = CoarseChannel::new(0, 109, 1, 1_280_000);
    assert_eq!(c.corr_chan_number, 0);
    assert_eq!(c.rec_chan_number, 109);
    assert_eq!(c.gpubox_number, 1);
    assert_eq!(c.chan_width_hz, 1_280_000);
    assert_eq!(c.chan_centre_hz, 139_520_000);
    assert_eq!(c.chan_start_hz, 138_880_000);
    assert_eq!(c.chan_end_hz, 140_160_000);
    let zero = CoarseChannel::new(3, usize::MAX, 4, 0);
    assert_eq!((zero.chan_start_hz, zero.chan_centre_hz, zero.chan_end_hz), (0, 0, 0));
}

#[test]
fn test_populate_coarse_channels_legacy_reverses_above_128() {
    let recs = vec![126, 127, 128, 129, 130, 131];
    let channels =
        CoarseChannel::populate_coarse_channels(CorrelatorVersion::Legacy, &recs, 1_280_000, None)
            .unwrap();
    let corr: Vec<usize> = channels.iter().map(|c| c.corr_chan_number).collect();
    let gpubox: Vec<usize> = channels.iter().map(|c| c.gpubox_number).collect();
    assert_eq!(corr, vec![0, 1, 2, 5, 4, 3]);
    assert_eq!(gpubox, vec![1, 2, 3, 6, 5, 4]);
    assert_eq!(channels[3].chan_centre_hz, 129 * 1_280_000);
    let channels =
        CoarseChannel::populate_coarse_channels(CorrelatorVersion::V2, &recs, 1_280_000, None)
            .unwrap();
    let corr: Vec<usize> = channels.iter().map(|c| c.corr_chan_number).collect();
    let gpubox: Vec<usize> = channels.iter().map(|c| c.gpubox_number).collect();
    assert_eq!(corr, vec![0, 1, 2, 3, 4, 5]);
    assert_eq!(gpubox, recs);
}

#[test]
fn test_populate_coarse_channels_keeps_what_was_provided() {
    let map = index_of(
        vec![bucket(1000, vec![Some((0, 1)), None, Some((0, 1))]), bucket(2000, vec![None, Some((0, 1)), None])],
        vec![1, 2, 4],
    );
    assert!(channel_provided(&map, 1));
    assert!(!channel_provided(&map, 2));
    assert!(!channel_provided(&map, 3));
    assert!(channel_provided(&map, 4));
    let recs = vec![109, 110, 111, 112];
    let channels = CoarseChannel::populate_coarse_channels(
        CorrelatorVersion::Legacy,
        &recs,
        1_280_000,
        Some(&map),
    )
    .unwrap();
    let rec: Vec<usize> = channels.iter().map(|c| c.rec_chan_number).collect();
    assert_eq!(rec, vec![109, 112]);
    let (channels, count, width) = mwalibCoarseChannel::populate_coarse_channels(
        CorrelatorVersion::Legacy,
        &recs,
        5_120_000,
        &map,
    )
    .unwrap();
    assert_eq!(count, 2);
    assert_eq!(width, 1_280_000);
    assert_eq!(channels[1].receiver_channel_number, 112);
    assert_eq!(channels[1].correlator_channel_number, 3);
    assert_eq!(channels[1].gpubox_number, 4);
    assert_eq!(channels[1].channel_centre_hz, 143_360_000);
    assert_eq!(channels[1].channel_start_hz, 142_720_000);
    assert_eq!(channels[1].channel_end_hz, 144_000_000);
}

#[test]
fn test_populate_coarse_channels_errors() {
    assert_eq!(
        CoarseChannel::populate_coarse_channels(CorrelatorVersion::V2, &vec![1, 4000], 1_280_000, None)
            .unwrap_err(),
        ErrorKind::InvalidMetadata
    );
    assert_eq!(
        CoarseChannel::populate_coarse_channels(CorrelatorVersion::V2, &vec![0, 1], 1_280_000, None)
            .unwrap_err(),
        ErrorKind::InvalidMetadata
    );
    let map = index_of(vec![bucket(1000, vec![Some((0, 1))])], vec![1]);
    assert_eq!(
        mwalibCoarseChannel::populate_coarse_channels(CorrelatorVersion::V2, &vec![], 1_280_000, &map)
            .unwrap_err(),
        ErrorKind::InvalidMetadata
    );
}
