use zedsuite::ols_import::{extract_version, find_version_directory, inspect, parse_header, parse_revision_labels};

const OLS_HEADER_MAGIC: u32 = 0x0000_000B;
const SIGNATURE: &[u8] = b"WinOLS File";
const M1_MAGIC: u32 = 0x4200_7899;

fn enc_str(s: &str) -> Vec<u8> {
    let mut out = (s.len() as i32).to_le_bytes().to_vec();
    if !s.is_empty() {
        out.extend_from_slice(s.as_bytes());
        out.push(0);
    }
    out
}

fn single_version_file(ecu_name: &str, rom: &[u8]) -> Vec<u8> {
    let format_version: u32 = 288;
    let mut buf = Vec::new();
    buf.extend_from_slice(&OLS_HEADER_MAGIC.to_le_bytes());
    buf.extend_from_slice(SIGNATURE);
    buf.push(0);
    buf.extend_from_slice(&format_version.to_le_bytes());
    buf.extend_from_slice(&0u32.to_le_bytes());
    for s in ["Seat", "Leon", "-", "-", "-", "-", "-", "-", "Eprom", "Bosch", ecu_name, "hw1", "sw1", "-", "-", "-"] {
        buf.extend_from_slice(&enc_str(s));
    }
    buf.extend_from_slice(&0u64.to_le_bytes());
    for s in ["orig.ols", "OLS 5.0", ""] {
        buf.extend_from_slice(&enc_str(s));
    }
    buf.extend_from_slice(&enc_str("0 (Original)"));
    let version_data_start = (buf.len() + 16) as u32;
    buf.extend_from_slice(&0u32.to_le_bytes());
    buf.extend_from_slice(&version_data_start.to_le_bytes());
    buf.extend_from_slice(&(rom.len() as u32).to_le_bytes());
    buf.extend_from_slice(&M1_MAGIC.to_le_bytes());
    buf.extend_from_slice(&0u32.to_le_bytes());
    buf.extend_from_slice(rom);
    buf
}

#[test]
fn inspects_a_single_version_file() {
    let rom = vec![0xAB; 256];
    let file = single_version_file("MED17.5.20", &rom);
    let info = inspect(&file).expect("should recognise the container");
    assert_eq!(info.ecu_name, "MED17.5.20");
    assert_eq!(info.manufacturer, "Bosch");
    assert_eq!(info.versions.len(), 1);
    assert_eq!(info.versions[0].size, 256);
}

#[test]
fn extracts_the_single_version_bytes_exactly() {
    let rom = (0u8..=255).collect::<Vec<u8>>();
    let file = single_version_file("MED17.5.20", &rom);
    let extracted = extract_version(&file, 0).expect("should extract");
    assert_eq!(extracted, rom);
}

#[test]
fn returns_none_for_a_non_ols_file() {
    let raw_bin = vec![0x00, 0x01, 0x02, 0x03, 0xFF, 0xFE];
    assert!(inspect(&raw_bin).is_none());
}

#[test]
fn out_of_range_version_index_is_an_error() {
    let rom = vec![0x11; 64];
    let file = single_version_file("EDC16U31", &rom);
    assert!(extract_version(&file, 1).is_err());
}

#[test]
fn parses_revision_labels_with_the_tab_convention() {
    let raw = "1 (original,\t Stage1:\t NOCS)";
    let labels = parse_revision_labels(raw, 2).expect("should parse");
    assert_eq!(labels, vec!["original".to_string(), "Stage1 (NOCS)".to_string()]);
}

#[test]
fn parses_revision_labels_with_the_plain_comma_fallback() {
    let raw = "2 (Original, viezu fuelsave vblue 00937.ols, Maxchip pure savings)";
    let labels = parse_revision_labels(raw, 3).expect("should parse via comma fallback");
    assert_eq!(labels[1], "viezu fuelsave vblue 00937.ols");
}

#[test]
fn refuses_to_guess_when_entry_count_does_not_match() {
    assert!(parse_revision_labels("1 (original,\t Stage1:\t NOCS)", 5).is_none());
}

#[test]
fn reads_the_header_metadata_and_the_version_label() {
    let rom = vec![0x42; 32];
    let file = single_version_file("EDC16U31", &rom);
    assert_eq!(parse_header(&file), Some(288));
    let info = inspect(&file).unwrap();
    assert_eq!(info.make, "Seat");
    assert_eq!(info.model, "Leon");
    assert_eq!(info.hw_number, "hw1");
    assert_eq!(info.sw_number, "sw1");
    assert_eq!(info.versions[0].index, 0);
    assert_eq!(info.versions[0].label.as_deref(), Some("Original"));
}

#[test]
fn explains_each_extraction_error() {
    assert_eq!(extract_version(&[0u8; 8], 0), Err("not a .ols file (bad header/signature)".to_string()));
    let rom = vec![0x11; 64];
    let file = single_version_file("EDC16U31", &rom);
    assert_eq!(
        extract_version(&file, 3),
        Err("version_index 3 out of range (file has 1 version(s))".to_string())
    );
    let mut broken = file.clone();
    broken.push(0);
    assert_eq!(extract_version(&broken, 0), Err("no version directory found".to_string()));
}

#[test]
fn the_directory_must_end_exactly_at_the_end_of_the_file() {
    let rom = vec![0x11; 64];
    let file = single_version_file("EDC16U31", &rom);
    let dir = find_version_directory(&file, file.len() as u64).unwrap();
    assert_eq!(dir.num_versions, 1);
    assert_eq!(dir.version_record_size, 64);
    assert_eq!(dir.version_data_start as usize + 4 + 64, file.len());
    assert!(find_version_directory(&file, file.len() as u64 + 1).is_none());
}

#[test]
fn keeps_a_blank_value_out_of_the_label() {
    let labels = parse_revision_labels("x (Stock:\t  , Stage 2:\tDPF off)", 2).unwrap();
    assert_eq!(labels, vec!["Stock".to_string(), "Stage 2 (DPF off)".to_string()]);
}
