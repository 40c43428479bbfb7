use std::collections::HashSet;
use zedsuite::edc16u31::signatures::{
    get_map_groups, load_edc16u31_signatures, AxisSignature, DimensionRange, StructureType, FACTOR_PILOT,
};
use zedsuite::edc16u31::{get_data_section_range, overlaps, EDC16U31Detector, EDC16Variant};
use zedsuite::model::FIXED_ONE;

fn put16(data: &mut [u8], at: usize, v: u16) {
    data[at..at + 2].copy_from_slice(&v.to_be_bytes());
}

#[test]
fn picks_the_calibration_section_by_image_size() {
    assert_eq!(get_data_section_range(0x200000), (0x180000, 0x200000));
    assert_eq!(get_data_section_range(0x100000), (0x80000, 0x100000));
    assert_eq!(get_data_section_range(0x90000), (0x40000, 0x90000));
    assert_eq!(get_data_section_range(0x1000), (0x800, 0x1000));
    assert_eq!(get_data_section_range(0x70000), (0x30000, 0x70000));
}

#[test]
fn ranges_overlap_only_when_they_share_a_byte() {
    let existing = vec![(0x100u32, 0x120u32), (0x200, 0x210)];
    assert!(overlaps(&existing, (0x110, 0x130)));
    assert!(!overlaps(&existing, (0x120, 0x200)));
    assert!(overlaps(&existing, (0x1F0, 0x201)));
    assert!(!overlaps(&Vec::new(), (0, 10)));
}

#[test]
fn detector_modes() {
    let d = EDC16U31Detector::new(EDC16Variant::EDC16U31);
    assert!(!d.is_tuned());
    let t = EDC16U31Detector::new_tuned(EDC16Variant::EDC16U31);
    assert!(t.is_tuned());
}

#[test]
fn finds_the_rpm_limiter_before_the_selector() {
    let mut data = vec![0u8; 0x200000];
    let sig = [0x05, 0x00, 0x04, 0x00, 0x03, 0x00, 0x02, 0x00, 0x01, 0x00, 0x00, 0x00];
    data[0x190020..0x19002C].copy_from_slice(&sig);
    put16(&mut data, 0x190010, 5200);
    let d = EDC16U31Detector::new(EDC16Variant::EDC16U31);
    let maps = d.detect_svrl_by_signature(&data);
    assert_eq!(maps.len(), 1);
    assert_eq!(maps[0].address, 0x190010);
    assert_eq!(maps[0].name.as_deref(), Some("SVRL - RPM Limiter"));
    put16(&mut data, 0x190010, 7000);
    assert!(d.detect_svrl_by_signature(&data).is_empty());
}

#[test]
fn finds_the_boost_limit_after_three_identical_lines() {
    let mut data = vec![0u8; 0x200000];
    let o = 0x1A0100;
    for k in 0..20 {
        let b = (k * 7) as u8;
        data[o - 60 + k] = b;
        data[o - 40 + k] = b;
        data[o - 20 + k] = b;
    }
    put16(&mut data, o, 2500);
    put16(&mut data, o + 4, 10);
    put16(&mut data, o + 6, 10);
    let d = EDC16U31Detector::new(EDC16Variant::EDC16U31);
    let maps = d.detect_svbl_by_signature(&data);
    assert!(maps.iter().any(|m| m.address == o as u32));
    assert!(maps.iter().all(|m| m.name.as_deref() == Some("SVBL - Max Boost Pressure")));
}

#[test]
fn numbers_the_speed_limits_in_address_order() {
    let mut data = vec![0u8; 0x200000];
    // Zone 3 marker layout.
    let z3 = 0x1F3410;
    put16(&mut data, z3 - 10, 0x5682);
    put16(&mut data, z3, 25500);
    put16(&mut data, z3 + 8, 0xFFFF);
    // Zone 1 layout.
    let z1 = 0x1EFFB0;
    data[z1..z1 + 4].copy_from_slice(&[0x01, 0xF4, 0x1B, 0x58]);
    put16(&mut data, z1 + 4, 25000);
    put16(&mut data, z1 + 14, 25000);
    put16(&mut data, z1 + 16, 30000);
    let d = EDC16U31Detector::new(EDC16Variant::EDC16U31);
    let maps = d.detect_maximum_vehicle_speed(&data, &HashSet::new());
    let addrs: Vec<u32> = maps.iter().map(|m| m.address).collect();
    assert_eq!(addrs, vec![0x1EFFB4, 0x1EFFBE, 0x1EFFC0, 0x1F3410]);
    assert_eq!(maps[0].name.as_deref(), Some("Maximum Vehicle Speed 1"));
    assert_eq!(maps[3].name.as_deref(), Some("Maximum Vehicle Speed 4"));
    assert_eq!(maps[3].confidence, 900);
    assert_eq!(maps[0].confidence, 950);
    assert_eq!(maps[0].correction_factor, Some(FIXED_ONE / 100));
    let taken: HashSet<u32> = [0x1EFFBEu32].into_iter().collect();
    let maps = d.detect_maximum_vehicle_speed(&data, &taken);
    let addrs: Vec<u32> = maps.iter().map(|m| m.address).collect();
    assert_eq!(addrs, vec![0x1EFFB4, 0x1EFFC0, 0x1F3410]);
    assert_eq!(maps[1].name.as_deref(), Some("Maximum Vehicle Speed 2"));
}

#[test]
fn dimension_ranges_include_their_bounds() {
    let r = DimensionRange::range(10, 11, 12);
    assert!(r.matches(10) && r.matches(12) && !r.matches(13) && !r.matches(9));
    let e = DimensionRange::exact(16);
    assert_eq!((e.min, e.typical, e.max), (16, 16, 16));
    assert!(e.matches(16) && !e.matches(15));
}

#[test]
fn lists_the_map_groups() {
    let groups = get_map_groups();
    assert_eq!(groups.len(), 7);
    let dw = groups.iter().find(|g| g.0 == "drivers_wish").unwrap();
    assert_eq!(dw.1.len(), 9);
    assert_eq!(dw.1[7], "AccPed_trqEngLow_MAP");
    let torque = groups.iter().find(|g| g.0 == "torque").unwrap();
    assert_eq!(torque.1, vec!["EngPrt_trqLimP_MAP".to_string(), "FMTC_trq2qBas_MAP".to_string()]);
}

#[test]
fn axis_signatures_carry_their_scales() {
    let rpm = AxisSignature::rpm();
    assert!(rpm.present);
    assert_eq!(rpm.name, "Engine Speed");
    assert_eq!(rpm.factor, FIXED_ONE);
    assert_eq!(rpm.typical_values.as_ref().map(|v| v.len()), Some(16));
    assert_eq!(rpm.value_range, Some((400, 6000)));
    let pedal = AxisSignature::pedal();
    assert_eq!(pedal.factor, FIXED_ONE / 100);
    assert_eq!(pedal.typical_values, Some(vec![0, 1000, 2000, 3000, 4500, 6000, 8000, 10000]));
    let none = AxisSignature::none();
    assert!(!none.present);
    assert_eq!(none.unit, "-");
    assert_eq!(AxisSignature::temperature().value_range, Some((2000, 4500)));
    assert_eq!(AxisSignature::torque().factor, FIXED_ONE / 10);
    assert_eq!(AxisSignature::air_mass().typical_values, None);
    assert_eq!(AxisSignature::pressure_mbar().unit, "mbar");
    assert_eq!(AxisSignature::injection_qty().value_range, Some((0, 8000)));
}

#[test]
fn the_signature_table_lists_every_known_map() {
    let sigs = load_edc16u31_signatures();
    assert_eq!(sigs.len(), 37);
    let first = &sigs[0];
    assert_eq!(first.id_name, "AccPed_trqEng0Cold_MAP");
    assert_eq!(first.display_name, "Driver Wish 01 (cold)");
    assert_eq!(first.structure_type, StructureType::EZweiInv);
    assert!(first.cols.matches(8) && !first.cols.matches(9));
    assert_eq!(first.data_size_range, (256, 256));
    assert_eq!(first.factor, FIXED_ONE / 10);
    assert_eq!(first.address_range, Some((0x186000, 0x1C3000)));
    assert_eq!(first.occurrence_rate, 1000);
    assert_eq!(first.priority, 90);
    let maf = sigs.iter().find(|s| s.x_axis.name == "MAF Voltage").unwrap();
    assert_eq!(maf.x_axis.factor, 4_887_600_000_000);
    assert_eq!(maf.occurrence_rate, 500);
    assert!(sigs.iter().any(|s| s.factor == FACTOR_PILOT));
    let names: HashSet<&str> = sigs.iter().map(|s| s.id_name.as_str()).collect();
    assert_eq!(names.len(), 37);
}

#[test]
fn every_signature_has_its_own_identifier_and_consistent_sizes() {
    let sigs = load_edc16u31_signatures();
    let names: std::collections::HashSet<&str> = sigs.iter().map(|s| s.id_name.as_str()).collect();
    assert_eq!(names.len(), sigs.len());
    for s in &sigs {
        assert!(s.cols.min <= s.cols.typical && s.cols.typical <= s.cols.max);
        assert!(s.rows.min <= s.rows.typical && s.rows.typical <= s.rows.max);
        assert!(s.data_size_range.0 <= s.data_size_range.1);
        if let Some((lo, hi)) = s.address_range {
            assert!(lo < hi);
        }
        if s.id_name != "EGT_swtEGTActv_C" {
            assert_eq!(
                s.data_size_range,
                (2 * s.cols.min * s.rows.min, 2 * s.cols.max * s.rows.max)
            );
        }
    }
}
