use std::collections::HashSet;
use zedsuite::edc16u31::{EDC16U31Detector, EDC16Variant};
use zedsuite::model::{DataType, MapDimensions, FIXED_ONE};

fn put16(data: &mut [u8], at: usize, v: u16) {
    data[at..at + 2].copy_from_slice(&v.to_be_bytes());
}

fn put_words(data: &mut [u8], at: usize, words: &[u16]) {
    for (k, w) in words.iter().enumerate() {
        put16(data, at + 2 * k, *w);
    }
}

fn detector() -> EDC16U31Detector {
    EDC16U31Detector::new(EDC16Variant::EDC16U31)
}

#[test]
fn finds_an_egt_linearisation_curve_behind_its_header() {
    let mut data = vec![0u8; 0x1D0000];
    let i = 0x1C9000;
    put16(&mut data, i - 2, 0x03FF);
    put16(&mut data, i, 0x0AAB);
    put16(&mut data, i + 2, 0x0AAB);
    let values: Vec<u16> = (0..35).map(|j| 1000 + 10 * j).collect();
    put_words(&mut data, i + 4, &values);
    let maps = detector().detect_egt_maps(&data, &HashSet::new());
    assert_eq!(maps.len(), 1);
    let m = &maps[0];
    assert_eq!(m.address, i as u32);
    assert_eq!(m.size, 4 + 2 * 35);
    assert_eq!(m.dimensions, MapDimensions::TwoDimensional { rows: 35, cols: 1 });
    assert_eq!(m.name.as_deref(), Some("Exhaust gas temperature sensor linearisation EGT 1"));
    assert_eq!(m.offset, Some(-273_150_000_000_000));
    assert_eq!(m.confidence, 850);
    let mut taken = HashSet::new();
    taken.insert(i as u32);
    assert!(detector().detect_egt_maps(&data, &taken).is_empty());
}

#[test]
fn an_egt_curve_of_fewer_than_thirty_values_is_refused() {
    let mut data = vec![0u8; 0x1D0000];
    let i = 0x1C9000;
    put16(&mut data, i - 2, 0x03FF);
    put16(&mut data, i, 0x0AAB);
    put16(&mut data, i + 2, 0x0AAB);
    let values: Vec<u16> = (0..29).map(|j| 1000 + 10 * j).collect();
    put_words(&mut data, i + 4, &values);
    assert!(detector().detect_egt_maps(&data, &HashSet::new()).is_empty());
}

#[test]
fn finds_a_single_idle_speed_value() {
    let mut data = vec![0u8; 0x30000];
    let i = 0x20000;
    put16(&mut data, i - 4, 0x03E8);
    put16(&mut data, i - 2, 0x0011);
    put16(&mut data, i, 800);
    data[i + 2] = 0x01;
    data[i + 3] = 0x2C;
    let maps = detector().detect_idle_speed_maps(&data, &HashSet::new());
    assert_eq!(maps.len(), 1);
    let m = &maps[0];
    assert_eq!(m.address, i as u32);
    assert_eq!(m.size, 2);
    assert_eq!(m.name.as_deref(), Some("Single value idle speed 1"));
    assert_eq!(m.category.as_deref(), Some("Idle speed RPM"));
    assert_eq!(m.confidence, 850);
}

#[test]
fn finds_a_maf_linearisation_curve() {
    let mut data = vec![0u8; 0x100000];
    let i = 0x90000;
    data[i] = 0x00;
    data[i + 1] = 0x20;
    let axis: Vec<u16> = (0..32).map(|k| 100 + 30 * k).collect();
    put_words(&mut data, i + 2, &axis);
    let values: Vec<u16> = (0..32).map(|k| (-1000i32 + 200 * k) as i16 as u16).collect();
    put_words(&mut data, i + 66, &values);
    let maps = detector().detect_stagex_extras(&data, &HashSet::new());
    assert_eq!(maps.len(), 1);
    let m = &maps[0];
    assert_eq!(m.address, (i + 66) as u32);
    assert_eq!(m.size, 64);
    assert_eq!(m.dimensions, MapDimensions::OneDimensional { length: 32 });
    assert_eq!(m.name.as_deref(), Some("MAF Linearization"));
    assert_eq!(m.x_axis_address, Some((i + 2) as u32));
    assert_eq!(m.x_axis_correction, Some(4_887_586_000_000));
}

fn soi_limiter_image() -> (Vec<u8>, usize) {
    let mut data = vec![0u8; 0x2000];
    let o = 0x400;
    data[o..o + 4].copy_from_slice(&[0x00, 0x0E, 0x00, 0x0B]);
    let y: Vec<u16> = (0..14).map(|k| 500 + 340 * k).collect();
    put_words(&mut data, o + 4, &y);
    let x: Vec<u16> = (0..11).map(|k| 2500 + 100 * k).collect();
    put_words(&mut data, o + 32, &x);
    let cells: Vec<u16> = (0..154).map(|k| 500 + 5 * k).collect();
    put_words(&mut data, o + 54, &cells);
    (data, o)
}

#[test]
fn finds_the_soi_limiter_table() {
    let (data, o) = soi_limiter_image();
    let maps = detector().detect_soi_limiter_maps(&data, 0, data.len(), &HashSet::new());
    assert_eq!(maps.len(), 1);
    let m = &maps[0];
    assert_eq!(m.address, (o + 54) as u32);
    assert_eq!(m.size, 308);
    assert_eq!(m.dimensions, MapDimensions::TwoDimensional { rows: 14, cols: 11 });
    assert_eq!(m.data_type, DataType::UInt16);
    assert_eq!(m.name.as_deref(), Some("SOI Limiter"));
    assert_eq!(m.y_axis_address, Some((o + 4) as u32));
    assert_eq!(m.x_axis_address, Some((o + 32) as u32));
    assert_eq!(m.x_axis_offset, Some(-273_100_000_000_000));
    let mut taken = HashSet::new();
    taken.insert((o + 54) as u32);
    assert!(detector().detect_soi_limiter_maps(&data, 0, data.len(), &taken).is_empty());
}

#[test]
fn finds_a_boost_pressure_correction_table() {
    let mut data = vec![0u8; 0x2000];
    let o = 0x600;
    data[o..o + 4].copy_from_slice(&[0x00, 0x10, 0x00, 0x0A]);
    let y: Vec<u16> = (0..16).map(|k| 1000 + 150 * k).collect();
    put_words(&mut data, o + 4, &y);
    let x: Vec<u16> = (0..10).map(|k| 2500 + 100 * k).collect();
    put_words(&mut data, o + 36, &x);
    let cells: Vec<u16> = (0..160).map(|k| 1000 + 10 * k).collect();
    put_words(&mut data, o + 56, &cells);
    let maps = detector().detect_turbo_boost_correction_maps(&data, 0, data.len(), &HashSet::new());
    assert_eq!(maps.len(), 1);
    let m = &maps[0];
    assert_eq!(m.address, (o + 56) as u32);
    assert_eq!(m.dimensions, MapDimensions::TwoDimensional { rows: 16, cols: 10 });
    assert_eq!(m.name.as_deref(), Some("Turbo Boost Pressure Correction"));
    assert_eq!(m.correction_factor, Some(FIXED_ONE));
    assert_eq!(m.confidence, 900);
}

#[test]
fn finds_a_cranking_torque_map() {
    let mut data = vec![0u8; 0x2000];
    let o = 0x800;
    data[o..o + 4].copy_from_slice(&[0x00, 0x09, 0x00, 0x09]);
    let y: Vec<u16> = (0..9).map(|k| 100 * k).collect();
    put_words(&mut data, o + 4, &y);
    let x: Vec<u16> = (0..9).map(|k| 2300 + 150 * k).collect();
    put_words(&mut data, o + 22, &x);
    let cells: Vec<u16> = (0..81).map(|k| 100 + 20 * k).collect();
    put_words(&mut data, o + 40, &cells);
    let maps = detector().detect_cranking_torque_maps(&data, 0, data.len(), &HashSet::new());
    assert_eq!(maps.len(), 1);
    let m = &maps[0];
    assert_eq!(m.address, (o + 40) as u32);
    assert_eq!(m.dimensions, MapDimensions::TwoDimensional { rows: 9, cols: 9 });
    assert_eq!(m.name.as_deref(), Some("Cranking Torque Map"));
    assert_eq!(m.x_axis_offset, Some(-273_140_000_000_000));
}

#[test]
fn finds_the_gearbox_limiter_of_a_launch_control_block() {
    let mut data = vec![0u8; 0x2000];
    let o = 0x1000;
    data[o..o + 10].copy_from_slice(&[0x00, 0x64, 0x01, 0x90, 0x00, 0x00, 0x00, 0x32, 0x00, 0x32]);
    put16(&mut data, o + 10, 4500);
    data[o + 12..o + 16].copy_from_slice(&[0x00, 0x0A, 0x00, 0x0A]);
    let y: Vec<u16> = (0..10).map(|k| 500 * k).collect();
    put_words(&mut data, o + 16, &y);
    let x: Vec<u16> = (0..10).map(|k| 100 + 1500 * k).collect();
    put_words(&mut data, o + 36, &x);
    let cells: Vec<u16> = (0..100).map(|k| 1000 + 10 * k).collect();
    put_words(&mut data, o + 56, &cells);
    let maps = detector().detect_launch_control_maps(&data, 0, data.len(), &HashSet::new());
    assert_eq!(maps.len(), 1);
    let m = &maps[0];
    assert_eq!(m.address, (o + 10) as u32);
    assert_eq!(m.size, 2);
    assert_eq!(m.name.as_deref(), Some("Single Value Gearbox Limiter"));
    assert_eq!(m.confidence, 930);
}

#[test]
fn finds_a_strict_driver_wish_block() {
    let mut data = vec![0u8; 0x2000];
    let h = 0x200;
    data[h..h + 4].copy_from_slice(&[0x00, 0x10, 0x00, 0x08]);
    let y: Vec<u16> = (0..16).map(|k| 300 * k).collect();
    put_words(&mut data, h + 4, &y);
    put_words(&mut data, h + 36, &[0, 1000, 2000, 3000, 4500, 6000, 8000, 10000]);
    let cells: Vec<u16> = (0..128).map(|k| 10 * k).collect();
    put_words(&mut data, h + 52, &cells);
    let maps = detector().detect_driver_wish_maps(&data, 0, data.len(), &HashSet::new());
    assert_eq!(maps.len(), 1);
    let m = &maps[0];
    assert_eq!(m.address, (h + 52) as u32);
    assert_eq!(m.dimensions, MapDimensions::TwoDimensional { rows: 16, cols: 8 });
    assert_eq!(m.y_axis_address, Some((h + 4) as u32));
    assert_eq!(m.x_axis_address, Some((h + 36) as u32));
}

fn relaxed_driver_wish_chain(gap: usize) -> (Vec<u8>, Vec<usize>) {
    let mut data = vec![0u8; 0x2000];
    let mut headers = Vec::new();
    let mut h = 0x200;
    for _ in 0..3 {
        data[h..h + 4].copy_from_slice(&[0x00, 0x10, 0x00, 0x08]);
        let y: Vec<u16> = (0..16).map(|k| 300 + 300 * k).collect();
        put_words(&mut data, h + 4, &y);
        put_words(&mut data, h + 36, &[0, 1000, 2000, 3000, 4500, 6000, 8000, 9000]);
        let cells: Vec<u16> = (0..128).map(|k| 10 + 10 * k).collect();
        put_words(&mut data, h + 52, &cells);
        headers.push(h);
        h += 308 + gap;
    }
    (data, headers)
}

#[test]
fn chains_three_relaxed_driver_wish_blocks_within_96_bytes() {
    let (data, headers) = relaxed_driver_wish_chain(96);
    let maps = detector().detect_driver_wish_maps(&data, 0, data.len(), &HashSet::new());
    assert_eq!(maps.len(), 3);
    for (m, h) in maps.iter().zip(headers.iter()) {
        assert_eq!(m.address, (h + 52) as u32);
    }
}

#[test]
fn relaxed_driver_wish_blocks_further_apart_are_left_out() {
    let (data, _) = relaxed_driver_wish_chain(100);
    let maps = detector().detect_driver_wish_maps(&data, 0, data.len(), &HashSet::new());
    assert!(maps.is_empty());
}
