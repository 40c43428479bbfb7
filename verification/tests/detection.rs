use std::collections::HashSet;
use zedsuite::detector::{DetectionResult, ECUType, MapDetector, SmartDetector};
use zedsuite::edc16u31::templates::{map_templates, MapType};
use zedsuite::edc16u31::{EDC16U31Detector, EDC16Variant};
use zedsuite::model::{DataType, DetectedMap, MapDimensions, FIXED_ONE};

fn put16(data: &mut [u8], at: usize, v: u16) {
    data[at..at + 2].copy_from_slice(&v.to_be_bytes());
}

fn detector() -> EDC16U31Detector {
    EDC16U31Detector::new(EDC16Variant::EDC16U31)
}

fn reject_all(_v: Vec<i16>, _r: usize, _c: usize, _t: MapType) -> Option<u32> {
    None
}

#[test]
fn test_map_templates_configured() {
    let templates = map_templates();
    assert!(templates.len() >= 9, "Should have at least 9 map templates");
    for template in &templates {
        assert!(!template.grids.is_empty(), "Template {} should have at least one grid", template.name);
        assert!(template.max_count > 0, "Template {} should have max_count > 0", template.name);
        assert!(template.z_range_stock.0 < template.z_range_stock.1, "Template {} stock range invalid", template.name);
    }
}

#[test]
fn test_boost_limiter_grids() {
    let templates = map_templates();
    let template = templates.iter().find(|t| t.name == "Boost Limiter").unwrap();
    assert!(template.grids.contains(&(11, 10)));
    assert!(template.grids.contains(&(10, 10)));
    assert!(template.grids.contains(&(10, 11)));
}

#[test]
fn test_tuned_mode_extends_ranges() {
    let templates = map_templates();
    let template = templates.iter().find(|t| t.name == "Boost Limiter").unwrap();
    assert!(template.z_range_tuned.1 > template.z_range_stock.1, "Tuned mode should have extended range");
}

#[test]
fn test_map_detector_creation() {
    let detector = MapDetector::new();
    let _ = detector;
    let _ = MapDetector::default();
    let _ = SmartDetector::default();
}

#[test]
fn test_smart_detector_creation() {
    let detector = SmartDetector::new();
    let _ = detector;
    assert!(true);
}

#[test]
fn template_factors_are_exact_fixed_point() {
    let templates = map_templates();
    let soi = templates.iter().find(|t| t.name == "Start of Injection").unwrap();
    assert_eq!(soi.z_factor, 23_437_000_000);
    let egr = templates.iter().find(|t| t.name == "EGR").unwrap();
    assert!(!egr.signed);
    assert_eq!(egr.z_factor, FIXED_ONE / 10);
}

fn lambda_image() -> Vec<u8> {
    let mut data = vec![0u8; 0x10000];
    let o = 0x9000;
    data[o..o + 4].copy_from_slice(&[0x00, 0x02, 0x00, 0x02]);
    put16(&mut data, o + 4, 1000);
    put16(&mut data, o + 6, 2000);
    put16(&mut data, o + 8, 3000);
    put16(&mut data, o + 10, 6000);
    for k in 0..4 {
        put16(&mut data, o + 12 + 2 * k, 1000 + 100 * k as u16);
    }
    data
}

#[test]
fn finds_a_small_lambda_map() {
    let data = lambda_image();
    let maps = detector().detect_small_lambda_maps(&data, &HashSet::new());
    assert_eq!(maps.len(), 1);
    assert_eq!(maps[0].address, 0x900C);
    assert_eq!(maps[0].size, 8);
    assert_eq!(maps[0].y_axis_address, Some(0x9004));
    assert_eq!(maps[0].x_axis_address, Some(0x9008));
    assert_eq!(maps[0].name.as_deref(), Some("Smoke Limiter by Lambda"));
    assert_eq!(maps[0].correction_factor, Some(1_000_000_000));
    let mut taken = HashSet::new();
    taken.insert(0x900Cu32);
    assert!(detector().detect_small_lambda_maps(&data, &taken).is_empty());
}

#[test]
fn a_lambda_axis_with_too_small_a_span_is_refused() {
    let mut data = lambda_image();
    put16(&mut data, 0x9006, 1400);
    assert!(detector().detect_small_lambda_maps(&data, &HashSet::new()).is_empty());
}

fn torque_limiter_image() -> Vec<u8> {
    let mut data = vec![0u8; 0x10000];
    let o = 0xA000;
    data[o..o + 10].copy_from_slice(&[0x00, 0x00, 0x00, 0x3C, 0x00, 0x64, 0x00, 0x03, 0x00, 0x14]);
    for (k, p) in [600u16, 800, 1000].iter().enumerate() {
        put16(&mut data, o + 10 + 2 * k, *p);
    }
    for k in 0..20 {
        put16(&mut data, o + 16 + 2 * k, 250 * k as u16);
    }
    for k in 0..60 {
        put16(&mut data, o + 56 + 2 * k, 1000 + 50 * k as u16);
    }
    data
}

#[test]
fn finds_the_torque_limiter_behind_its_signature() {
    let data = torque_limiter_image();
    let maps = detector().detect_torque_limiter_maps(&data, 0, data.len(), &HashSet::new());
    assert_eq!(maps.len(), 1);
    let m = &maps[0];
    assert_eq!(m.address, 0xA038);
    assert_eq!(m.dimensions, MapDimensions::TwoDimensional { rows: 3, cols: 20 });
    assert_eq!(m.data_type, DataType::Int16);
    assert_eq!(
        m.description.as_deref(),
        Some("Engine torque limiter by atmospheric pressure and RPM. Pressure: 600-1000 mbar, RPM: 0-4750")
    );
}

#[test]
fn finds_the_map_sensor_linearisation() {
    let mut data = vec![0u8; 0x1000];
    let o = 0x100;
    data[o..o + 6].copy_from_slice(&[0x00, 0x8B, 0x03, 0xE7, 0x00, 0x02]);
    put16(&mut data, o + 6, 100);
    put16(&mut data, o + 8, 1000);
    put16(&mut data, o + 10, 200);
    put16(&mut data, o + 12, 2500);
    let maps = detector().detect_map_linearization(&data, 0, data.len(), &HashSet::new());
    assert_eq!(maps.len(), 1);
    assert_eq!(maps[0].address, 0x10A);
    assert_eq!(maps[0].x_axis_address, Some(0x106));
    assert_eq!(maps[0].x_axis_correction, Some(5 * FIXED_ONE));
    put16(&mut data, o + 12, 6000);
    assert!(detector().detect_map_linearization(&data, 0, data.len(), &HashSet::new()).is_empty());
}

#[test]
fn finds_an_n75_table_and_judges_its_average() {
    let mut data = vec![0u8; 0x10000];
    let o = 0x9000;
    data[o..o + 4].copy_from_slice(&[0x00, 0x10, 0x00, 0x0A]);
    for k in 0..16 {
        put16(&mut data, o + 4 + 2 * k, 1000 + 250 * k as u16);
    }
    for k in 0..10 {
        put16(&mut data, o + 36 + 2 * k, 500 * k as u16);
    }
    for k in 0..160 {
        put16(&mut data, o + 56 + 2 * k, 5000);
    }
    let maps = detector().detect_n75_by_signature(&data, &HashSet::new());
    assert_eq!(maps.len(), 1);
    assert_eq!(maps[0].address, 0x9038);
    assert_eq!(maps[0].name.as_deref(), Some("N75 Duty Cycle"));
    assert_eq!(maps[0].correction_factor, Some(12_207_000_000));
    // An average duty cycle of 24 % is too low.
    for k in 0..160 {
        put16(&mut data, o + 56 + 2 * k, 2000);
    }
    assert!(detector().detect_n75_by_signature(&data, &HashSet::new()).is_empty());
}

#[test]
fn finds_an_eleven_row_boost_limiter_from_its_axes() {
    let mut data = vec![0u8; 0x10000];
    let o = 0x9000;
    for k in 0..11 {
        put16(&mut data, o + 2 * k, 1500 + 300 * k as u16);
    }
    for k in 0..10 {
        put16(&mut data, o + 22 + 2 * k, 600 + 50 * k as u16);
    }
    for k in 0..110 {
        put16(&mut data, o + 42 + 2 * k, 2000);
    }
    let maps = detector().detect_boost_limiter_maps(&data, 0x8000, 0x10000, &HashSet::new());
    assert_eq!(maps.len(), 1);
    let m = &maps[0];
    assert_eq!(m.address, 0x902A);
    assert_eq!(m.name.as_deref(), Some("Boost Limiter"));
    assert_eq!(m.confidence, 1000);
    assert_eq!(m.x_label.as_deref(), Some("mbar"));
    assert_eq!(m.y_axis_inverted, Some(true));
}

fn duration_image() -> Vec<u8> {
    let mut data = vec![0u8; 0x10000];
    let o = 0x9000;
    data[o..o + 12].copy_from_slice(&[0x05, 0x00, 0x04, 0x00, 0x03, 0x00, 0x02, 0x00, 0x01, 0x00, 0x00, 0x00]);
    data[o + 12..o + 16].copy_from_slice(&[0x00, 0x0A, 0x00, 0x0A]);
    for k in 0..10 {
        put16(&mut data, o + 16 + 2 * k, 500 + 500 * k as u16);
        put16(&mut data, o + 36 + 2 * k, 500 * k as u16);
    }
    data
}

#[test]
fn finds_the_duration_selector_and_its_first_map() {
    let data = duration_image();
    let d = detector();
    let selectors = d.detect_duration_selector(&data);
    assert_eq!(selectors.len(), 1);
    assert_eq!(selectors[0].0, 0x9000);
    assert_eq!(selectors[0].1.name.as_deref(), Some("Duration Selector"));
    assert_eq!(selectors[0].1.is_little_endian, Some(true));
    let block = d.detect_duration_block_maps(&data, 0x9000, &HashSet::new());
    assert_eq!(block.len(), 1);
    assert_eq!(block[0].name.as_deref(), Some("Duration 00"));
    assert_eq!(block[0].address, 0x9038);
    assert_eq!(block[0].size, 200);
}

#[test]
fn the_whole_detection_reports_no_two_overlapping_maps() {
    let mut data = lambda_image();
    let tl = torque_limiter_image();
    data[0xA000..0xA100].copy_from_slice(&tl[0xA000..0xA100]);
    let maps = detector().detect(&data, &reject_all);
    for (i, a) in maps.iter().enumerate() {
        for b in maps.iter().skip(i + 1) {
            let (a0, a1) = (a.address, a.address + a.size as u32);
            let (b0, b1) = (b.address, b.address + b.size as u32);
            assert!(!(a0 < b1 && a1 > b0), "{:?} meets {:?}", a.name, b.name);
        }
    }
    assert!(maps.iter().any(|m| m.name.as_deref() == Some("Smoke Limiter by Lambda")));
    for m in &maps {
        if m.unit.is_some() && m.x_label.is_some() && m.y_label.is_some() {
            assert!(m.description.is_some());
        }
    }
}

#[test]
fn an_image_of_another_family_gives_no_maps() {
    let data = lambda_image();
    let result = SmartDetector::new().detect_maps_with_options(&data, false, ECUType::EDC15P, None, &reject_all);
    assert_eq!(result.ecu_type, ECUType::EDC15P);
    assert!(result.maps.is_empty());
    let forced = SmartDetector::new().detect_maps_with_options(
        &data,
        false,
        ECUType::EDC15P,
        Some(ECUType::EDC16U31),
        &reject_all,
    );
    assert_eq!(forced.ecu_type, ECUType::EDC16U31);
    assert!(!forced.maps.is_empty());
}

#[test]
fn parses_the_type_named_by_the_caller() {
    assert_eq!(MapDetector::parse_ecu_type(" edc16u31 "), Some(ECUType::EDC16U31));
    assert_eq!(MapDetector::parse_ecu_type("EDC15vm"), Some(ECUType::EDC15VM));
    assert_eq!(MapDetector::parse_ecu_type("EDC17"), None);
}

fn named(name: &str, address: u32) -> DetectedMap {
    let mut m = DetectedMap::new(address, 2, MapDimensions::OneDimensional { length: 1 }, DataType::UInt16);
    m.name = Some(name.to_string());
    m
}

#[test]
fn finishing_the_list_hides_spells_and_numbers() {
    let mut fuel = named("Fuel temp correction", 0x10);
    fuel.category = Some("FUEL CORRECTION".to_string());
    let maps = vec![
        named("MAF Linearization", 0x00),
        named("Inverse driver wish", 0x02),
        named("Duration 07", 0x04),
        named("Duration 03", 0x06),
        named("Boost pressure linearization", 0x08),
        named("Start of injection Dynamic", 0x40),
        named("Start of injection (Dynamic)", 0x20),
        fuel,
    ];
    let out = MapDetector::finalize_maps(maps, true);
    let names: Vec<&str> = out.iter().map(|m| m.name.as_deref().unwrap()).collect();
    assert_eq!(
        names,
        vec![
            "Duration 03",
            "Boost pressure linearisation",
            "Start of injection (Dynamic) 02",
            "Start of injection (Dynamic) 01",
            "Fuel temp correction",
        ]
    );
    assert_eq!(out[4].category.as_deref(), Some("Injection system"));
    let kept = MapDetector::finalize_maps(vec![named("Duration 07", 0)], false);
    assert_eq!(kept.len(), 1);
}

#[test]
fn boost_names_follow_the_common_convention() {
    let mut maps = vec![named("Boost Target", 0), named("N75 Duty Cycle", 2), named("EGR", 4)];
    EDC16U31Detector::normalize_boost_names(&mut maps);
    assert_eq!(maps[0].name.as_deref(), Some("Boost target map"));
    assert_eq!(maps[1].name.as_deref(), Some("N75 duty cycle"));
    assert_eq!(maps[2].name.as_deref(), Some("EGR"));
}

#[test]
fn keeps_the_lowest_torque_limiter_over_all_signatures() {
    let mut data = torque_limiter_image();
    let o = 0x5000;
    data[o..o + 10].copy_from_slice(&[0x7F, 0xFF, 0x7F, 0xFF, 0x7F, 0xFF, 0x00, 0x04, 0x00, 0x14]);
    for (k, p) in [600u16, 800, 900, 1000].iter().enumerate() {
        put16(&mut data, o + 10 + 2 * k, *p);
    }
    for k in 0..20 {
        put16(&mut data, o + 18 + 2 * k, 250 * k as u16);
    }
    for k in 0..80 {
        put16(&mut data, o + 58 + 2 * k, 1000 + 50 * k as u16);
    }
    let maps = detector().detect_torque_limiter_maps(&data, 0, data.len(), &HashSet::new());
    assert_eq!(maps.len(), 1);
    assert_eq!(maps[0].address, (o + 58) as u32);
    assert_eq!(maps[0].dimensions, MapDimensions::TwoDimensional { rows: 4, cols: 20 });
}

#[test]
fn a_detection_result_takes_the_measured_time() {
    let r = DetectionResult { ecu_type: ECUType::EDC16U31, maps: Vec::new(), processing_time_ms: 0 };
    let timed = r.with_processing_time(42);
    assert_eq!(timed.processing_time_ms, 42);
    assert_eq!(timed.ecu_type, ECUType::EDC16U31);
    assert!(timed.maps.is_empty());
}
