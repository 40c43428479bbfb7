use zedsuite::update::{
    installer_file_name, is_newer, no_release_info, parse_version, pick_download_url, release_info,
};

#[test]
fn reads_a_tagged_version() {
    assert_eq!(parse_version("v1.2.3"), (1, 2, 3));
    assert_eq!(parse_version("  V2.10 "), (2, 10, 0));
    assert_eq!(parse_version("1.4.0-beta+7"), (1, 4, 0));
    assert_eq!(parse_version("x.7.8"), (0, 7, 8));
    assert_eq!(parse_version(""), (0, 0, 0));
    assert_eq!(parse_version("99999999999999999999.1"), (0, 1, 0));
}

#[test]
fn compares_versions_part_by_part() {
    assert!(is_newer("v1.2.4", "1.2.3"));
    assert!(is_newer("v2.0.0", "1.9.9"));
    assert!(!is_newer("v1.2.3", "1.2.3"));
    assert!(!is_newer("1.1.9", "1.2.0"));
}

fn assets(list: &[(&str, Option<&str>)]) -> (Vec<String>, Vec<Option<String>>) {
    let names = list.iter().map(|(n, _)| n.to_string()).collect();
    let urls = list.iter().map(|(_, u)| u.map(|s| s.to_string())).collect();
    (names, urls)
}

#[test]
fn prefers_the_setup_installer() {
    let (names, urls) = assets(&[
        ("notes.txt", Some("u0")),
        ("ZedSuite_1.0.0_x64.exe", Some("u1")),
        ("ZedSuite_1.0.0_x64-SETUP.EXE", Some("u2")),
        ("other-setup.exe", Some("u3")),
    ]);
    assert_eq!(pick_download_url(&names, &urls), Some("u2".to_string()));
}

#[test]
fn takes_the_first_installer_without_setup() {
    let (names, urls) = assets(&[
        ("a.msi", Some("u0")),
        ("first.exe", Some("u1")),
        ("second.exe", Some("u2")),
    ]);
    assert_eq!(pick_download_url(&names, &urls), Some("u1".to_string()));
}

#[test]
fn no_installer_gives_no_download() {
    let (names, urls) = assets(&[("setup.zip", Some("u0")), ("readme.md", Some("u1"))]);
    assert_eq!(pick_download_url(&names, &urls), None);
    assert_eq!(pick_download_url(&Vec::new(), &Vec::new()), None);
}

#[test]
fn installer_name_keeps_safe_characters() {
    assert_eq!(installer_file_name("v1.2.3"), "ZedSuite-setup-v1.2.3.exe");
    assert_eq!(installer_file_name("1.0/../x y"), "ZedSuite-setup-1.0..xy.exe");
    assert_eq!(installer_file_name(""), "ZedSuite-setup-.exe");
}

#[test]
fn a_release_without_tag_is_refused() {
    let r = release_info(
        "1.0.0".to_string(),
        String::new(),
        "notes".to_string(),
        None,
        "page".to_string(),
        &Vec::new(),
        &Vec::new(),
    );
    assert_eq!(r.err(), Some("github api: release without tag_name".to_string()));
}

#[test]
fn a_newer_release_is_offered() {
    let (names, urls) = assets(&[("ZedSuite-setup.exe", Some("dl"))]);
    let info = release_info(
        "1.0.0".to_string(),
        "v1.1.0".to_string(),
        "fixes".to_string(),
        None,
        "releases".to_string(),
        &names,
        &urls,
    )
    .ok()
    .unwrap();
    assert!(info.update_available);
    assert_eq!(info.current_version, "1.0.0");
    assert_eq!(info.latest_version, "v1.1.0");
    assert_eq!(info.release_notes, "fixes");
    assert_eq!(info.download_url, Some("dl".to_string()));
    assert_eq!(info.release_url, "releases");

    let same = release_info(
        "1.1.0".to_string(),
        "v1.1.0".to_string(),
        String::new(),
        Some("html".to_string()),
        "releases".to_string(),
        &names,
        &urls,
    )
    .ok()
    .unwrap();
    assert!(!same.update_available);
    assert_eq!(same.release_url, "html");
}

#[test]
fn no_published_release_is_no_update() {
    let info = no_release_info("2.0.1".to_string(), "page".to_string());
    assert!(!info.update_available);
    assert_eq!(info.current_version, "2.0.1");
    assert_eq!(info.latest_version, "2.0.1");
    assert_eq!(info.release_notes, "");
    assert_eq!(info.download_url, None);
    assert_eq!(info.release_url, "page");
}
