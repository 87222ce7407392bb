use mwalib::conversion_table::{
    fine_pfb_reorder, generate_conversion_array, ConversionEntry, ConversionTable,
};
use mwalib::convert::{
    convert_legacy_hdu_to_mwax_baseline_order, convert_legacy_hdu_to_mwax_frequency_order,
    convert_mwax_baseline_order_to_legacy_hdu, convert_mwax_hdu_to_frequency_order, negate,
};
use mwalib::error::ErrorKind;
use mwalib::permutation::invert_permutation;
use mwalib::rfinput::{get_mwax_order, get_vcs_order, mwalibRFInput, Pol};

fn bits(values: &[f32]) -> Vec<u32> {
    values.iter().map(|v| v.to_bits()).collect()
}

fn floats(values: &[u32]) -> Vec<f32> {
    values.iter().map(|v| f32::from_bits(*v)).collect()
}

fn entry(source_offset: usize, conjugate: bool) -> ConversionEntry {
    ConversionEntry { source_offset, conjugate }
}

/// The receiver inputs of a 128-tile array as a header lists them: the Y
/// input of a tile before its X input.
fn legacy_rf_inputs() -> Vec<mwalibRFInput> {
    let mut rf_inputs = Vec::new();
    for input in 0..256u32 {
        let antenna = input / 2;
        let pol = if input % 2 == 0 { Pol::Y } else { Pol::X };
        rf_inputs.push(mwalibRFInput::new(
            input,
            antenna,
            11 + antenna,
            format!("Tile{:03}", 11 + antenna),
            pol,
            false,
        ));
    }
    rf_inputs
}

#[test]
fn test_negate_flips_the_sign_only() {
    assert_eq!(f32::from_bits(negate(1.5f32.to_bits())), -1.5);
    assert_eq!(f32::from_bits(negate((-0.25f32).to_bits())), 0.25);
    assert_eq!(negate(0.0f32.to_bits()), (-0.0f32).to_bits());
    assert_eq!(negate(negate(f32::NAN.to_bits())), f32::NAN.to_bits());
    assert_eq!(negate(f32::INFINITY.to_bits()), f32::NEG_INFINITY.to_bits());
}

#[test]
fn test_fine_pfb_reorder() {
    assert_eq!(fine_pfb_reorder(0), 0);
    assert_eq!(fine_pfb_reorder(1), 16);
    assert_eq!(fine_pfb_reorder(2), 32);
    assert_eq!(fine_pfb_reorder(3), 48);
    assert_eq!(fine_pfb_reorder(4), 1);
    assert_eq!(fine_pfb_reorder(63), 63);
    assert_eq!(fine_pfb_reorder(64), 64);
    assert_eq!(fine_pfb_reorder(65), 80);
    assert_eq!(fine_pfb_reorder(255), 255);
}

#[test]
fn test_vcs_order_undoes_pfb_reorder() {
    for x in 0..=255u8 {
        assert_eq!(get_vcs_order(fine_pfb_reorder(x) as u32), x as u32);
    }
    assert_eq!(get_vcs_order(16), 1);
    assert_eq!(get_vcs_order(1), 4);
}

#[test]
fn test_mwax_order() {
    assert_eq!(get_mwax_order(0, Pol::X), 0);
    assert_eq!(get_mwax_order(0, Pol::Y), 1);
    assert_eq!(get_mwax_order(127, Pol::X), 254);
    assert_eq!(get_mwax_order(127, Pol::Y), 255);
}

#[test]
fn test_invert_permutation() {
    assert_eq!(invert_permutation(&vec![2, 0, 1]), Some(vec![1, 2, 0]));
    assert_eq!(invert_permutation(&vec![]), Some(vec![]));
    assert_eq!(invert_permutation(&vec![0, 0, 1]), None);
    assert_eq!(invert_permutation(&vec![0, 3, 1]), None);
}

#[test]
fn test_table_from_identity_order() {
    let table = ConversionTable::from_raw_order(&vec![0, 1, 2, 3]).unwrap();
    assert_eq!(table.num_baselines(), 3);
    let expected: Vec<ConversionEntry> = (0..12).map(|k| entry(2 * k, false)).collect();
    assert_eq!(table.entries, expected);
    assert_eq!(table.inverse(), Some((0..12).collect::<Vec<usize>>()));
}

#[test]
fn test_table_from_swapped_antennas() {
    // Raw slots 0 and 1 hold antenna 1, raw slots 2 and 3 hold antenna 0.
    let table = ConversionTable::from_raw_order(&vec![2, 3, 0, 1]).unwrap();
    let expected = vec![
        entry(16, false),
        entry(18, false),
        entry(20, false),
        entry(22, false),
        entry(8, true),
        entry(12, true),
        entry(10, true),
        entry(14, true),
        entry(0, false),
        entry(2, false),
        entry(4, false),
        entry(6, false),
    ];
    assert_eq!(table.entries, expected);
    assert_eq!(table.inverse(), Some(vec![8, 9, 10, 11, 4, 6, 5, 7, 0, 1, 2, 3]));
}

#[test]
fn test_table_from_split_antennas_is_not_invertible() {
    // The two inputs of each antenna stand in different raw pairs.
    let table = ConversionTable::from_raw_order(&vec![0, 2, 1, 3]).unwrap();
    assert_eq!(table.entries.len(), 12);
    // Antenna 0: XY reads the stored visibility, YX the same one conjugated.
    assert_eq!(table.entries[1], entry(8, false));
    assert_eq!(table.entries[2], entry(8, true));
    assert_eq!(table.inverse(), None);
}

#[test]
fn test_table_from_raw_order_rejects() {
    assert_eq!(
        ConversionTable::from_raw_order(&vec![0, 1, 2]).unwrap_err(),
        ErrorKind::InvalidInputOrdering
    );
    assert_eq!(
        ConversionTable::from_raw_order(&vec![0, 1, 1, 3]).unwrap_err(),
        ErrorKind::InvalidInputOrdering
    );
    assert_eq!(
        ConversionTable::from_raw_order(&vec![0, 1, 2, 4]).unwrap_err(),
        ErrorKind::InvalidInputOrdering
    );
    assert_eq!(ConversionTable::from_raw_order(&vec![]).unwrap().entries.len(), 0);
}

#[test]
fn test_table_from_entries() {
    assert!(ConversionTable::from_entries(vec![entry(0, false); 4]).is_ok());
    assert_eq!(
        ConversionTable::from_entries(vec![entry(0, false); 3]).unwrap_err(),
        ErrorKind::InvalidConversionTable
    );
    assert_eq!(
        ConversionTable::from_entries(vec![entry(1, false); 4]).unwrap_err(),
        ErrorKind::InvalidConversionTable
    );
    assert_eq!(
        ConversionTable::from_entries(vec![entry(8, false); 4]).unwrap_err(),
        ErrorKind::InvalidConversionTable
    );
    assert!(ConversionTable::from_entries(vec![entry(6, true); 4]).is_ok());
}

#[test]
fn test_generate_conversion_array() {
    let table = generate_conversion_array(&legacy_rf_inputs()).unwrap();
    assert_eq!(table.entries.len(), 8256 * 4);
    assert_eq!(table.num_baselines(), 8256);
    for e in table.entries.iter() {
        assert_eq!(e.source_offset % 2, 0);
        assert!(e.source_offset < 8256 * 8);
    }
    // Target position 0 is input 1, which is raw slot 4; target position 1 is input 0, raw
    // slot 0. The autocorrelation of antenna 0 is read from the square of raw pairs 0 and 2.
    assert_eq!(table.entries[0], entry(2 * (4 * (3 + 2) + 0), false));
    assert_eq!(table.entries[1], entry(2 * (4 * (3 + 0) + 0), true));
    assert_eq!(table.entries[2], entry(2 * (4 * (3 + 0) + 0), false));
    assert_eq!(table.entries[3], entry(0, false));
    // In the real order the inputs of one antenna are four raw slots apart.
    assert_eq!(table.inverse(), None);
}

#[test]
fn test_generate_conversion_array_rejects() {
    let mut short = legacy_rf_inputs();
    short.pop();
    assert_eq!(generate_conversion_array(&short).unwrap_err(), ErrorKind::InvalidInputOrdering);
    let mut repeated = legacy_rf_inputs();
    repeated[7].input = 6;
    assert_eq!(generate_conversion_array(&repeated).unwrap_err(), ErrorKind::InvalidInputOrdering);
    let mut same_target = legacy_rf_inputs();
    same_target[7].subfile_order = same_target[9].subfile_order;
    assert_eq!(
        generate_conversion_array(&same_target).unwrap_err(),
        ErrorKind::InvalidInputOrdering
    );
}

#[test]
fn test_convert_mwax_hdu_to_frequency_order() {
    // 2 baselines, 3 fine channels, 1 polarisation: value = baseline * 100 + channel * 10 + ri.
    let mut input = Vec::new();
    for b in 0..2 {
        for f in 0..3 {
            for ri in 0..2 {
                input.push((b * 100 + f * 10 + ri) as f32);
            }
        }
    }
    let output = floats(&convert_mwax_hdu_to_frequency_order(&bits(&input), 2, 3, 1));
    assert_eq!(
        output,
        vec![0., 1., 100., 101., 10., 11., 110., 111., 20., 21., 120., 121.]
    );
    assert!(convert_mwax_hdu_to_frequency_order(&[], 0, 3, 4).is_empty());
    assert!(convert_mwax_hdu_to_frequency_order(&[], 5, 0, 4).is_empty());
}

#[test]
fn test_convert_legacy_hdu_by_baseline_and_by_frequency() {
    let table = ConversionTable::from_raw_order(&vec![2, 3, 0, 1]).unwrap();
    // Two fine channels of 12 visibilities: real part 1000 * channel + index, imaginary part
    // half a unit more.
    let mut raw = Vec::new();
    for f in 0..2 {
        for j in 0..12 {
            raw.push((1000 * f + j) as f32);
            raw.push((1000 * f + j) as f32 + 0.5);
        }
    }
    let by_baseline = floats(&convert_legacy_hdu_to_mwax_baseline_order(&table, &bits(&raw), 2));
    let by_frequency = floats(&convert_legacy_hdu_to_mwax_frequency_order(&table, &bits(&raw), 2));
    assert_eq!(by_baseline.len(), 48);
    assert_eq!(by_frequency.len(), 48);
    // Baseline 0, channel 0, XX comes from visibility 8.
    assert_eq!(&by_baseline[0..2], &[8., 8.5]);
    // Baseline 0, channel 1, XX.
    assert_eq!(&by_baseline[8..10], &[1008., 1008.5]);
    // Baseline 1, channel 0: visibilities 4, 6, 5, 7, conjugated.
    assert_eq!(&by_baseline[16..24], &[4., -4.5, 6., -6.5, 5., -5.5, 7., -7.5]);
    // Baseline 2, channel 1, YY comes from visibility 3.
    assert_eq!(&by_baseline[46..48], &[1003., 1003.5]);
    // By frequency: channel 0 of all baselines, then channel 1.
    assert_eq!(&by_frequency[0..8], &by_baseline[0..8]);
    assert_eq!(&by_frequency[8..16], &by_baseline[16..24]);
    assert_eq!(&by_frequency[16..24], &by_baseline[32..40]);
    assert_eq!(&by_frequency[24..32], &by_baseline[8..16]);
    let transposed = floats(&convert_mwax_hdu_to_frequency_order(&bits(&by_baseline), 3, 2, 4));
    assert_eq!(by_frequency, transposed);
    let sum_bl: f64 = by_baseline.iter().map(|v| *v as f64).sum();
    let sum_freq: f64 = by_frequency.iter().map(|v| *v as f64).sum();
    assert_eq!(sum_bl, sum_freq);
}

#[test]
fn test_gather_then_inverse_gives_the_record_back() {
    let table = ConversionTable::from_raw_order(&vec![4, 5, 0, 1, 2, 3]).unwrap();
    let inverse = table.inverse().unwrap();
    let num_fine = 3;
    let len = num_fine * 2 * table.entries.len();
    let raw: Vec<u32> = (0..len)
        .map(|i| (((i * 37 + 11) % 1000) as f32 * 0.125 - 60.0).to_bits() ^ ((i as u32 % 3) << 31))
        .collect();
    let gathered = convert_legacy_hdu_to_mwax_baseline_order(&table, &raw, num_fine);
    assert_ne!(gathered, raw);
    let restored = convert_mwax_baseline_order_to_legacy_hdu(&table, &inverse, &gathered, num_fine);
    assert_eq!(restored, raw);
}

#[test]
fn test_gather_then_inverse_keeps_odd_bit_patterns() {
    let table = ConversionTable::from_raw_order(&vec![2, 3, 0, 1]).unwrap();
    let inverse = table.inverse().unwrap();
    let mut raw = vec![0u32; 24];
    raw[9] = f32::NAN.to_bits();
    raw[11] = 0x7fc0_0001;
    raw[13] = (-0.0f32).to_bits();
    raw[15] = f32::INFINITY.to_bits();
    raw[8] = f32::MIN_POSITIVE.to_bits();
    let gathered = convert_legacy_hdu_to_mwax_baseline_order(&table, &raw, 1);
    let restored = convert_mwax_baseline_order_to_legacy_hdu(&table, &inverse, &gathered, 1);
    assert_eq!(restored, raw);
}
