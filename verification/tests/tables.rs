use std::collections::HashSet;
use zedsuite::edc16u31::driver_wish::detect_dw_selector_before;
use zedsuite::edc16u31::{EDC16U31Detector, EDC16Variant};
use zedsuite::model::{DataType, MapDimensions};

fn put16(data: &mut [u8], at: usize, v: u16) {
    data[at..at + 2].copy_from_slice(&v.to_be_bytes());
}

fn put_words(data: &mut [u8], at: usize, words: &[u16]) {
    for (k, w) in words.iter().enumerate() {
        put16(data, at + 2 * k, *w);
    }
}

fn detector() -> EDC16U31Detector {
    EDC16U31Detector::new(EDC16Variant::EDC16U31)
}

#[test]
fn finds_a_run_of_gearbox_limiter_curves_and_the_global_value_before_it() {
    let mut data = vec![0u8; 0x80000];
    let first = 0x50000;
    put16(&mut data, first - 2, 500);
    let axis: Vec<u16> = (0..11).map(|k| 800 + 300 * k).collect();
    let torque: Vec<u16> = (0..11).map(|k| 12000 + 1000 * k).collect();
    for u in 0..4 {
        let o = first + 46 * u;
        put16(&mut data, o, 11);
        put_words(&mut data, o + 2, &axis);
        put_words(&mut data, o + 24, &torque);
    }
    let maps = detector().detect_gearbox_torque_limiter(&data, &HashSet::new());
    assert_eq!(maps.len(), 5);
    assert_eq!(maps[0].address, (first - 2) as u32);
    assert_eq!(maps[0].name.as_deref(), Some("Single Value Gearbox Limiter"));
    assert_eq!(maps[0].size, 2);
    for u in 0..4 {
        let m = &maps[u + 1];
        let o = first + 46 * u;
        assert_eq!(m.address, (o + 24) as u32);
        assert_eq!(m.size, 22);
        assert_eq!(m.dimensions, MapDimensions::OneDimensional { length: 11 });
        assert_eq!(m.name, Some(format!("Gearbox Torque Limiter {}", u + 1)));
        assert_eq!(m.x_axis_address, Some((o + 2) as u32));
        assert_eq!(m.confidence, 950);
    }
}

#[test]
fn three_gearbox_curves_are_not_a_run() {
    let mut data = vec![0u8; 0x80000];
    let first = 0x50000;
    let axis: Vec<u16> = (0..11).map(|k| 800 + 300 * k).collect();
    let torque: Vec<u16> = (0..11).map(|k| 12000 + 1000 * k).collect();
    for u in 0..3 {
        let o = first + 46 * u;
        put16(&mut data, o, 11);
        put_words(&mut data, o + 2, &axis);
        put_words(&mut data, o + 24, &torque);
    }
    assert!(detector().detect_gearbox_torque_limiter(&data, &HashSet::new()).is_empty());
}

#[test]
fn finds_a_desired_air_quantity_table_in_the_calibration_zone() {
    let mut data = vec![0u8; 0x1D0000];
    let pos = 0x190000;
    put16(&mut data, pos, 16);
    put16(&mut data, pos + 2, 13);
    let rpm: Vec<u16> = (0..16).map(|k| 800 + 200 * k).collect();
    put_words(&mut data, pos + 4, &rpm);
    let iq: Vec<u16> = (0..13).map(|k| 250 * k).collect();
    put_words(&mut data, pos + 36, &iq);
    put_words(&mut data, pos + 62, &vec![1500u16; 16 * 13]);
    let maps = detector().detect_egr_maps(&data, &HashSet::new());
    assert_eq!(maps.len(), 1);
    let m = &maps[0];
    assert_eq!(m.address, (pos + 62) as u32);
    assert_eq!(m.size, 416);
    assert_eq!(m.dimensions, MapDimensions::TwoDimensional { rows: 13, cols: 16 });
    assert_eq!(m.data_type, DataType::UInt16);
    assert_eq!(m.name.as_deref(), Some("EGR (Desired air quantity) 1"));
    assert_eq!(m.x_axis_address, Some((pos + 4) as u32));
    assert_eq!(m.y_axis_address, Some((pos + 36) as u32));
    assert_eq!(m.confidence, 880);
    let mut taken = HashSet::new();
    taken.insert((pos + 62) as u32);
    assert!(detector().detect_egr_maps(&data, &taken).is_empty());
}

#[test]
fn finds_a_fuel_temperature_correction_table() {
    let mut data = vec![0u8; 0x80000];
    let o = 0x50000;
    data[o..o + 4].copy_from_slice(&[0x00, 0x03, 0x00, 0x03]);
    put_words(&mut data, o + 4, &[2730, 3230, 3730]);
    put_words(&mut data, o + 10, &[1000, 2000, 3000]);
    put_words(&mut data, o + 16, &[8192; 9]);
    let maps = detector().detect_fuel_correction_maps(&data, &HashSet::new());
    assert_eq!(maps.len(), 1);
    let m = &maps[0];
    assert_eq!(m.address, (o + 16) as u32);
    assert_eq!(m.size, 18);
    assert_eq!(m.dimensions, MapDimensions::TwoDimensional { rows: 3, cols: 3 });
    assert_eq!(m.name.as_deref(), Some("Fuel correction by fuel temperature"));
    assert_eq!(m.y_axis_address, Some((o + 4) as u32));
    assert_eq!(m.confidence, 880);
}

#[test]
fn finds_the_ten_maps_of_an_injection_block_before_its_shared_axes() {
    let mut data = vec![0u8; 0x60000];
    let bs = 0x40000;
    put_words(&mut data, bs, &vec![300u16; 2240]);
    let o = bs + 4480;
    put16(&mut data, o, 16);
    let rpm: Vec<u16> = (0..16).map(|k| 600 + 300 * k).collect();
    put_words(&mut data, o + 2, &rpm);
    put16(&mut data, o + 34, 14);
    let iq: Vec<u16> = (0..14).map(|k| 100 + 300 * k).collect();
    put_words(&mut data, o + 36, &iq);
    let maps = detector().detect_soi_blocks(&data, 0, data.len(), &HashSet::new());
    assert_eq!(maps.len(), 10);
    for (i, m) in maps.iter().enumerate() {
        assert_eq!(m.address, (bs + 448 * i) as u32);
        assert_eq!(m.name, Some(format!("Start of injection {:02}", i)));
        assert_eq!(m.dimensions, MapDimensions::TwoDimensional { rows: 16, cols: 14 });
        assert_eq!(m.x_axis_address, Some((o + 36) as u32));
        assert_eq!(m.y_axis_address, Some((o + 2) as u32));
        assert_eq!(m.y_axis_inverted, Some(true));
        assert_eq!(m.confidence, 920);
    }
    let mut taken = HashSet::new();
    taken.insert(bs as u32);
    let maps = detector().detect_soi_blocks(&data, 0, data.len(), &taken);
    assert_eq!(maps.len(), 9);
    assert_eq!(maps[0].address, (bs + 448) as u32);
}

fn put_map_limiter(data: &mut [u8], o: usize) {
    data[o..o + 4].copy_from_slice(&[0x00, 0x10, 0x00, 0x0B]);
    let y: Vec<u16> = (0..16).map(|k| 800 + 200 * k).collect();
    put_words(data, o + 4, &y);
    let x: Vec<u16> = (0..11).map(|k| 500 + 200 * k).collect();
    put_words(data, o + 36, &x);
}

#[test]
fn a_smoke_limiter_by_map_is_reported_once_for_repeated_axes() {
    let mut data = vec![0u8; 0x80000];
    let o = 0x50000;
    put_map_limiter(&mut data, o);
    let maps = detector().detect_iq_limit_maps_by_signature(&data, &HashSet::new());
    assert_eq!(maps.len(), 1);
    let m = &maps[0];
    assert_eq!(m.address, (o + 58) as u32);
    assert_eq!(m.size, 352);
    assert_eq!(m.dimensions, MapDimensions::TwoDimensional { rows: 16, cols: 11 });
    assert_eq!(m.name.as_deref(), Some("Smoke Limiter by MAP"));
    assert_eq!(m.x_label.as_deref(), Some("mbar"));
    put_map_limiter(&mut data, o + 0x400);
    let maps = detector().detect_iq_limit_maps_by_signature(&data, &HashSet::new());
    assert_eq!(maps.len(), 1);
    assert_eq!(maps[0].address, (o + 58) as u32);
}

fn put_shared_block(data: &mut [u8], o: usize) -> usize {
    put16(data, o, 16);
    let y: Vec<u16> = (0..16).map(|k| 400 * k).collect();
    put_words(data, o + 2, &y);
    put16(data, o + 34, 8);
    put_words(data, o + 36, &[0, 1500, 3000, 4500, 6000, 7500, 9000, 10000]);
    let mk = o + 52;
    data[mk..mk + 4].copy_from_slice(&[0x8A, 0x00, 0x00, 0x02]);
    put_words(data, mk + 4, &[1000, 3000]);
    data[mk + 8..mk + 12].copy_from_slice(&[0x00, 0x00, 0x01, 0x00]);
    put_words(data, mk + 44, &vec![100u16; 3 * 128]);
    mk
}

#[test]
fn finds_the_programs_and_selector_of_a_shared_axes_block() {
    let mut data = vec![0u8; 0x4000];
    let o = 0x1000;
    let mk = put_shared_block(&mut data, o);
    let maps = detector().detect_driver_wish_shared_axes(&data, 0, data.len(), &HashSet::new());
    assert_eq!(maps.len(), 4);
    for i in 0..3 {
        assert_eq!(maps[i].address, (mk + 44 + 256 * i) as u32);
        assert_eq!(maps[i].dimensions, MapDimensions::TwoDimensional { rows: 16, cols: 8 });
        assert_eq!(maps[i].y_axis_address, Some((o + 2) as u32));
    }
    assert_eq!(maps[3].address, (mk + 8) as u32);
    assert_eq!(maps[3].name.as_deref(), Some("Driver Wish Selector"));
}

#[test]
fn finds_the_selector_before_a_cluster_header() {
    let mut data = vec![0u8; 0x4000];
    let mk = put_shared_block(&mut data, 0x1000);
    let sel = detect_dw_selector_before(&data, mk + 10).expect("selector");
    assert_eq!(sel.address, (mk + 8) as u32);
    assert_eq!(sel.x_axis_address, Some((mk + 4) as u32));
    assert!(detect_dw_selector_before(&data, mk + 3).is_none());
}
