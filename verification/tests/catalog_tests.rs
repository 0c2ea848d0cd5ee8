use aminos::aspkg::install::{
    bin_in_path, menu_types, parse_choice, pick_entry_exe, select_version, shim_content, split_name_version, PickError,
    VersionPick, newest_first,
};
use aminos::aspkg::list::{cmp_versions, parse_version};
use aminos::aspkg::software::{SoftwareEntry, VersionEntry};
use aminos::as4::fetch::{
    as4_download_config, detect_archive_type, extract_filename, kind_url_list, optimal_concurrency, overwrite_confirmed,
    truncate_name_checked,
};
use aminos::as4::versions::truncate_display;
use aminos::datetime::{format_timestamp, format_unix, is_leap};
use aminos::net::download::DownloadStrategy;
use std::cmp::Ordering;

fn ve(kinds: &[&str]) -> VersionEntry {
    VersionEntry {
        registry_version: None,
        urls: kinds.iter().map(|k| (k.to_string(), vec![format!("https://x/{}.zip", k)])).collect(),
    }
}

fn entry(versions: &[&str]) -> SoftwareEntry {
    SoftwareEntry {
        aliases: vec![],
        category: None,
        detect: None,
        versions: versions.iter().map(|v| (v.to_string(), ve(&["installer"]))).collect(),
    }
}

#[test]
fn version_comparison() {
    assert_eq!(cmp_versions("1.10", "1.9"), Ordering::Greater);
    assert_eq!(cmp_versions("1.0", "1.0.0"), Ordering::Equal);
    assert_eq!(cmp_versions("v2", "2.0.1"), Ordering::Less);
    assert_eq!(parse_version("v1.2.3-beta4"), vec![1, 2, 3, 4]);
}

#[test]
fn choosing_versions() {
    let e = entry(&["1.0", "2.0", "1.5"]);
    assert_eq!(newest_first(&e.versions), vec![1, 2, 0]);
    match select_version(&e, None) {
        Ok(VersionPick::Ask(order)) => assert_eq!(order, vec![1, 2, 0]),
        _ => panic!("several versions are offered for a choice"),
    }
    assert!(matches!(select_version(&e, Some("1.5")), Ok(VersionPick::Chosen(2))));
    assert!(matches!(select_version(&e, Some("3")), Err(PickError::NoSuchVersion)));
    let one = entry(&["4.2"]);
    assert!(matches!(select_version(&one, None), Ok(VersionPick::Chosen(0))));
    let equal = entry(&["1.0", "1.0.0", "0.9"]);
    assert_eq!(newest_first(&equal.versions), vec![0, 1, 2]);
}

#[test]
fn answers_to_the_version_question() {
    assert_eq!(parse_choice(" 2 ", 3), Ok(1));
    assert_eq!(parse_choice("+3", 3), Ok(2));
    assert_eq!(parse_choice("", 3), Err(PickError::Cancelled));
    assert_eq!(parse_choice("   ", 3), Err(PickError::Cancelled));
    assert_eq!(parse_choice("0", 3), Err(PickError::Invalid));
    assert_eq!(parse_choice("4", 3), Err(PickError::Invalid));
    assert_eq!(parse_choice("two", 3), Err(PickError::Invalid));
    assert_eq!(menu_types(&ve(&["installer", "portable"])), "installer+portable");
    assert_eq!(menu_types(&ve(&["portable"])), "portable");
}

#[test]
fn name_and_version_requests() {
    assert_eq!(split_name_version("git=2.40"), ("git".to_string(), Some("2.40".to_string())));
    assert_eq!(split_name_version("git"), ("git".to_string(), None));
}

#[test]
fn portable_entry_program() {
    let exes = vec!["C:\\a\\helper.exe".to_string(), "C:\\a\\bin\\Tool.exe".to_string()];
    assert_eq!(pick_entry_exe("tool", &exes), Some("C:\\a\\bin\\Tool.exe".to_string()));
    assert_eq!(pick_entry_exe("other", &exes), None);
    assert_eq!(pick_entry_exe("x", &["C:\\only.exe".to_string()]), Some("C:\\only.exe".to_string()));
    assert_eq!(pick_entry_exe("x", &[]), None);
    assert_eq!(shim_content("C:\\x\\t.exe"), "@echo off\r\n\"C:\\x\\t.exe\" %*\r\n");
}

#[test]
fn shim_folder_on_path() {
    let bin = "C:\\Users\\me\\AppData\\Local\\aminos\\bin";
    assert!(bin_in_path("C:\\Windows;\"C:\\Users\\Me\\AppData\\Local\\aminos\\bin\"", bin));
    assert!(!bin_in_path("C:\\Windows;C:\\Users\\me\\AppData\\Local\\aminos\\bin\\", bin));
    assert!(!bin_in_path("", bin));
}

#[test]
fn as4_concurrency() {
    assert_eq!(optimal_concurrency(0, 8), (0, 0));
    assert_eq!(optimal_concurrency(1, 8), (1, 32));
    assert_eq!(optimal_concurrency(1, 2), (1, 8));
    assert_eq!(optimal_concurrency(1, 0), (1, 4));
    assert_eq!(optimal_concurrency(3, 8), (3, 8));
    assert_eq!(optimal_concurrency(10, 8), (4, 4));
    assert_eq!(optimal_concurrency(3, 2), (2, 4));
}

#[test]
fn as4_file_names() {
    assert_eq!(extract_filename("https://x.com/dl/app-1.2.zip?x=1", "app", "1.2"), "app-1.2.zip");
    assert_eq!(extract_filename("https://x.com/download/", "app", "1.2"), "app-1.2.exe");
    assert_eq!(extract_filename("https://x.com/get.7z/latest", "a", "3"), "a-3.zip");
    assert_eq!(extract_filename("https://x.com/v1./", "a", "3"), "a-3.exe");
    assert_eq!(truncate_name_checked("averylongname", 6), Some("aver..".to_string()));
    assert_eq!(truncate_name_checked("short", 6), Some("short".to_string()));
    assert_eq!(truncate_display("abcdef", 4), "abc…");
    assert_eq!(truncate_display("中文字", 4), "中…");
    assert_eq!(truncate_display("abc", 4), "abc");
    assert_eq!(truncate_name_checked("中文字", 3), None);
}

#[test]
fn as4_archives_and_answers() {
    assert_eq!(detect_archive_type("zip", None), "zip");
    assert_eq!(detect_archive_type("msi", None), "single");
    assert_eq!(detect_archive_type("bin", Some(&[0x50, 0x4B, 0x03, 0x04, 0, 0, 0, 0])), "zip");
    assert_eq!(detect_archive_type("", Some(&[0x37, 0x7A, 0xBC, 0xAF, 0x27, 0x1C, 0, 0])), "7z");
    assert_eq!(detect_archive_type("dat", Some(&[0x4D, 0x5A, 0, 0, 0, 0, 0, 0])), "single");
    assert_eq!(detect_archive_type("dat", None), "single");
    assert!(overwrite_confirmed(" Y "));
    assert!(overwrite_confirmed("yes"));
    assert!(!overwrite_confirmed(""));
    assert!(!overwrite_confirmed("yep"));
    let c = as4_download_config(16);
    assert_eq!(c.strategies.len(), 5);
    assert!(matches!(c.strategies[0], DownloadStrategy::RustRange { threads: 16 }));
    assert!(matches!(c.strategies[4], DownloadStrategy::Curl));
    let v = aminos::as4::software::VersionEntry {
        registry_version: None,
        urls: vec![("portable".to_string(), vec!["u1".to_string(), "u2".to_string()])],
    };
    assert_eq!(kind_url_list(&v, "portable"), vec!["u1".to_string(), "u2".to_string()]);
    assert!(kind_url_list(&v, "installer").is_empty());
}

#[test]
fn clock_texts() {
    assert_eq!(format_unix(0), "1970-01-01 00:00:00");
    assert_eq!(format_unix(951_782_400), "2000-02-29 00:00:00");
    assert_eq!(format_unix(1_700_000_000), "2023-11-14 22:13:20");
    assert_eq!(format_timestamp(86_400), "1970-01-02 00:00:00");
    assert_eq!(format_timestamp(-3600), "1969-12-31 23:00:00");
    assert_eq!(format_timestamp(-86_400), "1969-12-31 00:00:00");
    assert_eq!(format_timestamp(-1), "1969-12-31 23:59:59");
    assert_eq!(format_timestamp(-58_060_800), "1968-02-29 00:00:00");
    assert!(is_leap(2000));
    assert!(!is_leap(1900));
    assert!(is_leap(2024));
}
