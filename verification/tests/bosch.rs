use std::collections::HashSet;
use zedsuite::bosch::egr_temperature::{detect_egr_temperature, matches_at};
use zedsuite::bosch::launch_control::{detect_launch_control, is_active_at};
use zedsuite::bosch::map_maf_switch::detect_smoke_switches;
use zedsuite::model::{DataType, DetectedMap, MapDimensions, FIXED_ONE};

fn file_with(pattern: &[u8], at: usize) -> Vec<u8> {
    let mut data = vec![0x55u8; at + pattern.len() + 64];
    data[at..at + pattern.len()].copy_from_slice(pattern);
    data
}

fn run(data: &[u8]) -> Vec<DetectedMap> {
    let mut maps = Vec::new();
    let mut seen = HashSet::new();
    detect_smoke_switches(data, &mut maps, &mut seen);
    maps
}

fn named(maps: &[DetectedMap], name: &str) -> Option<u32> {
    maps.iter().find(|m| m.name.as_deref() == Some(name)).map(|m| m.address)
}

#[test]
fn finds_both_switches_on_the_u34_layout() {
    let maps = run(&file_with(&[0x01, 0x00, 0x02, 0x00, 0x01, 0x00, 0x01, 0x0A, 0xDD, 0x00], 0x400));
    assert_eq!(maps.len(), 2);
    assert_eq!(named(&maps, "Lambda/smoke maps switch"), Some(0x404));
    assert_eq!(named(&maps, "MAP/MAF switch"), Some(0x406));
    assert_eq!(maps[0].size, 1);
}

#[test]
fn finds_the_switches_when_the_ecu_runs_on_lambda() {
    let maps = run(&file_with(&[0x00, 0x00, 0x02, 0x00, 0x00, 0x00, 0x00, 0x0A, 0xDD, 0x00], 0x100));
    assert_eq!(maps.len(), 2);
    assert_eq!(named(&maps, "Lambda/smoke maps switch"), Some(0x104));
    assert_eq!(named(&maps, "MAP/MAF switch"), Some(0x106));
}

#[test]
fn ignores_a_broken_tail() {
    let maps = run(&file_with(&[0x01, 0x00, 0x02, 0x00, 0x01, 0x00, 0x01, 0x0A, 0xDE, 0x00], 0x200));
    assert!(maps.is_empty());
}

#[test]
fn ignores_a_value_that_is_not_a_switch() {
    let maps = run(&file_with(&[0x01, 0x00, 0x02, 0x00, 0x01, 0x00, 0x07, 0x0A, 0xDD, 0x00], 0x200));
    assert!(maps.is_empty());
    let maps = run(&file_with(&[0x01, 0x00, 0x02, 0x00, 0x02, 0x00, 0x01, 0x0A, 0xDD, 0x00], 0x200));
    assert!(maps.is_empty());
}

#[test]
fn ignores_a_changed_constant() {
    let maps = run(&file_with(&[0x01, 0x00, 0x03, 0x00, 0x01, 0x00, 0x01, 0x0A, 0xDD, 0x00], 0x200));
    assert!(maps.is_empty());
}

#[test]
fn skips_an_address_already_taken() {
    let data = file_with(&[0x01, 0x00, 0x02, 0x00, 0x01, 0x00, 0x01, 0x0A, 0xDD, 0x00], 0x300);
    let mut maps = Vec::new();
    let mut seen = HashSet::from([0x306u32]);
    detect_smoke_switches(&data, &mut maps, &mut seen);
    assert_eq!(maps.len(), 1);
    assert_eq!(named(&maps, "Lambda/smoke maps switch"), Some(0x304));
}

#[test]
fn switch_maps_carry_their_description_and_are_recorded() {
    let data = file_with(&[0x01, 0x00, 0x02, 0x00, 0x01, 0x00, 0x01, 0x0A, 0xDD, 0x00], 0x40);
    let mut maps = Vec::new();
    let mut seen = HashSet::new();
    detect_smoke_switches(&data, &mut maps, &mut seen);
    assert_eq!(maps.len(), 2);
    assert_eq!(maps[1].category.as_deref(), Some("Smoke limitation"));
    assert_eq!(maps[1].description.as_deref(), Some("Sensor used by the smoke limitation: 0 = MAF, 1 = MAP"));
    assert_eq!(maps[1].correction_factor, Some(FIXED_ONE));
    assert_eq!(maps[1].confidence, 950);
    assert!(seen.contains(&0x44) && seen.contains(&0x46));
    // A second pass adds nothing: both addresses are taken.
    detect_smoke_switches(&data, &mut maps, &mut seen);
    assert_eq!(maps.len(), 2);
}

fn le(v: u16) -> [u8; 2] {
    v.to_le_bytes()
}

fn egr_header() -> Vec<u8> {
    let mut h = vec![0x00, 0xEC];
    h.extend_from_slice(&le(5));
    for v in [800u16, 1500, 2500, 3500, 4500] {
        h.extend_from_slice(&le(v));
    }
    h.extend_from_slice(&[0x00, 0xC1]);
    h.extend_from_slice(&le(6));
    for v in [2530u16, 2730, 2930, 3130, 3330, 3530] {
        h.extend_from_slice(&le(v));
    }
    h
}

#[test]
fn finds_the_egr_temperature_map_after_its_header() {
    let mut data = vec![0u8; 0x200];
    let h = egr_header();
    data[0x40..0x40 + h.len()].copy_from_slice(&h);
    assert!(matches_at(&data, 0x40));
    assert!(!matches_at(&data, 0x41));
    let mut maps = vec![DetectedMap::new(0x5E, 4, MapDimensions::OneDimensional { length: 2 }, DataType::UInt16)];
    let mut seen = HashSet::new();
    detect_egr_temperature(&data, &mut maps, &mut seen);
    assert_eq!(maps.len(), 1);
    assert_eq!(maps[0].address, 0x5E);
    assert_eq!(maps[0].size, 60);
    assert_eq!(maps[0].name.as_deref(), Some("EGR temperature map"));
    assert_eq!(maps[0].x_axis_address, Some(0x52));
    assert_eq!(maps[0].y_axis_address, Some(0x44));
    assert_eq!(maps[0].x_axis_offset, Some(-273 * FIXED_ONE));
    assert!(seen.contains(&0x5E));
}

#[test]
fn rejects_an_egr_header_with_a_falling_axis() {
    let mut data = vec![0u8; 0x200];
    let mut h = egr_header();
    h[6..8].copy_from_slice(&le(700));
    data[0x40..0x40 + h.len()].copy_from_slice(&h);
    assert!(!matches_at(&data, 0x40));
    let mut maps = Vec::new();
    let mut seen = HashSet::new();
    detect_egr_temperature(&data, &mut maps, &mut seen);
    assert!(maps.is_empty() && seen.is_empty());
}

#[test]
fn finds_an_active_launch_control_map() {
    let mut data = vec![0u8; 0x800];
    let at = 0x10;
    data[at + 2] = 0x0E;
    for (i, v) in [0u16, 20, 40, 60, 80, 100, 120, 140, 160, 180, 200, 220, 240, 260].iter().enumerate() {
        data[at + 4 + 2 * i..at + 6 + 2 * i].copy_from_slice(&le(*v));
    }
    assert!(is_active_at(&data, at));
    let mut maps = Vec::new();
    let mut seen = HashSet::new();
    detect_launch_control(&data, &mut maps, &mut seen);
    assert_eq!(maps.len(), 1);
    assert_eq!(maps[0].address, (at + 86) as u32);
    assert_eq!(maps[0].dimensions, MapDimensions::TwoDimensional { rows: 14, cols: 25 });
    assert_eq!(maps[0].y_axis_correction, Some(156_250_000_000));
    assert_eq!(maps[0].confidence, 980);
    data[at + 4 + 2] = 21;
    assert!(!is_active_at(&data, at));
}

#[test]
fn finds_a_launch_control_map_that_ends_the_image() {
    let mut data = vec![0u8; 786];
    data[3] = 0x0E;
    for k in 0..14u16 {
        let at = 4 + 2 * k as usize;
        data[at..at + 2].copy_from_slice(&(20 * k).to_le_bytes());
    }
    let mut maps = Vec::new();
    let mut seen = HashSet::new();
    detect_launch_control(&data, &mut maps, &mut seen);
    assert_eq!(maps.len(), 1);
    assert_eq!(maps[0].address, 86);
    assert_eq!(maps[0].size, 700);
    assert_eq!(maps[0].name.as_deref(), Some("Launch control map"));
    assert!(seen.contains(&86) && seen.len() == 1);
}

#[test]
fn finds_an_egr_temperature_map_that_ends_the_image() {
    let mut data = vec![0u8; 90];
    data[1] = 0xEC;
    data[2] = 5;
    for (i, v) in [800u16, 1500, 2500, 3500, 4500].iter().enumerate() {
        data[4 + 2 * i..6 + 2 * i].copy_from_slice(&le(*v));
    }
    data[15] = 0xC1;
    data[16] = 6;
    for (i, v) in [2331u16, 2531, 2731, 2931, 3131, 3331].iter().enumerate() {
        data[18 + 2 * i..20 + 2 * i].copy_from_slice(&le(*v));
    }
    assert!(matches_at(&data, 0));
    let mut maps = Vec::new();
    let mut seen = HashSet::new();
    detect_egr_temperature(&data, &mut maps, &mut seen);
    assert_eq!(maps.len(), 1);
    assert_eq!(maps[0].address, 30);
    assert_eq!(maps[0].size, 60);
    assert_eq!(maps[0].name.as_deref(), Some("EGR temperature map"));
    assert!(seen.contains(&30) && seen.len() == 1);
}

#[test]
fn reports_the_lambda_switch_before_the_map_maf_switch() {
    let maps = run(&file_with(&[0x01, 0x00, 0x02, 0x00, 0x01, 0x00, 0x01, 0x0A, 0xDD, 0x00], 0x400));
    assert_eq!(maps.len(), 2);
    assert_eq!(maps[0].name.as_deref(), Some("Lambda/smoke maps switch"));
    assert_eq!(maps[0].address, 0x404);
    assert_eq!(maps[1].name.as_deref(), Some("MAP/MAF switch"));
    assert_eq!(maps[1].address, 0x406);
}
