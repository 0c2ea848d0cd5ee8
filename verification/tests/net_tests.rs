use aminos::net::aria2::progress_fields;
use aminos::net::download::{
    expand_github_urls, filename_from_disposition, filename_from_url, format_eta_hms, is_strategy_leftover, Fallback,
    FallbackError, FallbackStep, Outcome, DownloadConfig, DownloadStrategy,
};
use aminos::net::validator::{is_retryable, validate_download_url, validate_target_path, UrlError, PathError};
use aminos::net::verify::{detect_format, verify_downloaded_file, FileFormat};
use aminos::net::agent::host_of;

#[test]
fn test_format_eta_hms() {
    assert_eq!(format_eta_hms(0), "0:00:00");
    assert_eq!(format_eta_hms(59), "0:00:59");
    assert_eq!(format_eta_hms(60), "0:01:00");
    assert_eq!(format_eta_hms(3661), "1:01:01");
    assert_eq!(format_eta_hms(86399), "23:59:59");
}

#[test]
fn test_expand_github_urls() {
    let urls = vec!["https://github.com/user/repo/releases/download/v1/file.zip".to_string()];
    let expanded = expand_github_urls(&urls);
    assert_eq!(expanded.len(), 2);
    assert!(expanded[0].contains("ghproxy.net"));
    assert_eq!(&expanded[1], &urls[0]);

    let urls2 = vec!["https://example.com/file.zip".to_string()];
    let expanded2 = expand_github_urls(&urls2);
    assert_eq!(expanded2.len(), 1);

    let urls3 = vec!["https://ghproxy.net/https://github.com/user/repo".to_string()];
    let expanded3 = expand_github_urls(&urls3);
    assert_eq!(expanded3.len(), 1);
}

#[test]
fn github_mirror_comes_first_and_order_is_kept() {
    let urls = vec![
        "https://example.com/a.zip".to_string(),
        "https://raw.githubusercontent.com/u/r/main/x.json".to_string(),
    ];
    let out = expand_github_urls(&urls);
    assert_eq!(
        out,
        vec![
            "https://example.com/a.zip".to_string(),
            "https://ghproxy.net/https://raw.githubusercontent.com/u/r/main/x.json".to_string(),
            "https://raw.githubusercontent.com/u/r/main/x.json".to_string(),
        ]
    );
}

#[test]
fn eta_of_large_values() {
    assert_eq!(format_eta_hms(360000), "100:00:00");
    assert_eq!(format_eta_hms(3599), "0:59:59");
}

#[test]
fn url_validation_errors() {
    assert!(matches!(validate_download_url("   "), Err(UrlError::Empty)));
    assert!(matches!(validate_download_url("ftp://host/file"), Err(UrlError::UnsupportedScheme)));
    assert!(matches!(validate_download_url("http:///file"), Err(UrlError::NoHost)));
    assert!(matches!(validate_download_url("http://localhost/x"), Err(UrlError::LocalAddress)));
    assert!(matches!(validate_download_url("http://127.0.0.1:8080/x"), Err(UrlError::LocalAddress)));
    assert!(matches!(validate_download_url("https://192.168.1.5/x"), Err(UrlError::PrivateAddress)));
    assert!(matches!(validate_download_url("https://10.0.0.1:99/x"), Err(UrlError::PrivateAddress)));
    match validate_download_url("  https://example.com/f.zip \n") {
        Ok(v) => assert_eq!(v.url, "https://example.com/f.zip"),
        Err(_) => panic!("a public URL is accepted"),
    }
    // 172.17.x is not in the blocked list
    assert!(validate_download_url("https://172.17.0.1/x").is_ok());
}

#[test]
fn target_paths_and_status_codes() {
    assert!(validate_target_path("C:\\Downloads\\f.zip").is_ok());
    assert!(matches!(validate_target_path("C:\\Downloads\\..\\f.zip"), Err(PathError::Traversal)));
    assert!(is_retryable(429));
    assert!(is_retryable(503));
    assert!(!is_retryable(404));
}

#[test]
fn host_extraction() {
    assert_eq!(host_of("https://example.com/a/b"), "example.com");
    assert_eq!(host_of("http://example.com:8080"), "example.com:8080");
}

#[test]
fn file_names_from_urls_and_headers() {
    assert_eq!(filename_from_url("https://x.com/dl/setup-1.2.EXE?sig=1"), Some("setup-1.2.EXE".to_string()));
    assert_eq!(filename_from_url("https://x.com/dl/tool.tar"), Some("tool.tar".to_string()));
    assert_eq!(filename_from_url("https://x.com/dl/page.html"), None);
    assert_eq!(filename_from_url("https://x.com/dl/"), None);
    assert_eq!(filename_from_disposition("attachment; filename=\"tool-2.zip\""), Some("tool-2.zip".to_string()));
    assert_eq!(filename_from_disposition("attachment; filename='a.7z'"), Some("a.7z".to_string()));
    assert_eq!(filename_from_disposition("inline"), None);
}

#[test]
fn strategy_leftovers() {
    assert!(is_strategy_leftover("foo.exe.s1_0.tmp", "foo.exe.downloading"));
    assert!(is_strategy_leftover("foo.exe.aria2", "foo.exe.downloading"));
    assert!(is_strategy_leftover("BIT1234.tmp", "foo.exe.downloading"));
    assert!(is_strategy_leftover("x.parts.1", "foo.exe.downloading"));
    assert!(!is_strategy_leftover("foo.exe.downloading", "foo.exe.downloading"));
    assert!(!is_strategy_leftover("other.tmp", "foo.exe.downloading"));
}

#[test]
fn magic_numbers() {
    assert!(matches!(detect_format(b"MZ\x90\x00\x03"), Some(FileFormat::Pe)));
    assert!(matches!(detect_format(b"PK\x03\x04rest"), Some(FileFormat::Zip)));
    assert!(matches!(detect_format(&[0x37, 0x7A, 0xBC, 0xAF, 0x27, 0x1C]), Some(FileFormat::SevenZ)));
    assert!(matches!(detect_format(b"Rar!\x1a\x07"), Some(FileFormat::Rar)));
    assert!(matches!(detect_format(&[0x1F, 0x8B, 0x08, 0x00]), Some(FileFormat::Gz)));
    assert!(matches!(detect_format(&[0xFD, 0x37, 0x7A, 0x58, 0x5A, 0x00]), Some(FileFormat::Xz)));
    assert!(matches!(detect_format(b"BZh9"), Some(FileFormat::Bz2)));
    assert!(matches!(detect_format(b"CD001"), Some(FileFormat::Iso)));
    assert!(detect_format(b"CD00").is_none());
    assert!(detect_format(b"MZ").is_none());
    assert_eq!(FileFormat::SevenZ.extension(), ".7z");
}

#[test]
fn downloaded_file_checks() {
    assert!(!verify_downloaded_file(100_000, b"<!DOCTYPE html><html>"));
    assert!(!verify_downloaded_file(100_000, b"<html><body>denied</body></html>"));
    assert!(verify_downloaded_file(600 * 1024, b"MZ\x90\x00\x03\x00"));
    assert!(!verify_downloaded_file(100 * 1024, b"MZ\x90\x00\x03\x00"));
    assert!(verify_downloaded_file(5000, b"PK\x03\x04zzzz"));
    assert!(!verify_downloaded_file(100, b"PK\x03\x04zzzz"));
}

#[test]
fn aria2_progress_line() {
    let line = "[#6ec300 205MiB/228MiB(89%) CN:16 DL:3.9MiB ETA:5s]";
    assert_eq!(
        progress_fields(line),
        Some(("205MiB".to_string(), "228MiB".to_string(), Some("3.9MiB/s".to_string())))
    );
    assert_eq!(progress_fields("Download complete"), None);
}

#[test]
fn fallback_walks_urls_then_backends() {
    let (mut fb, step) = Fallback::start(2, 2);
    assert!(matches!(step, FallbackStep::Try { backend: 0, url: 0 }));
    let s = fb.on_outcome(Outcome::Failed("timeout".to_string()));
    assert!(matches!(s, FallbackStep::Try { backend: 0, url: 1 }));
    let s = fb.on_outcome(Outcome::Failed("reset".to_string()));
    assert!(matches!(s, FallbackStep::Try { backend: 1, url: 0 }));
    let s = fb.on_outcome(Outcome::Downloaded { verified: true });
    assert!(matches!(s, FallbackStep::Done { backend: 1, url: 0 }));
}

#[test]
fn fallback_failures() {
    let (_fb, step) = Fallback::start(0, 3);
    assert!(matches!(step, FallbackStep::Fail(FallbackError::NoUrls)));
    let (_fb, step) = Fallback::start(1, 0);
    assert!(matches!(step, FallbackStep::Fail(FallbackError::NoBackends)));
    let (mut fb, _) = Fallback::start(1, 1);
    match fb.on_outcome(Outcome::Failed("boom".to_string())) {
        FallbackStep::Fail(FallbackError::AllFailed { last_error }) => assert_eq!(last_error, Some("boom".to_string())),
        _ => panic!("the only attempt failed"),
    }
    let (mut fb, _) = Fallback::start(1, 1);
    assert!(matches!(fb.on_outcome(Outcome::Interrupted), FallbackStep::Fail(FallbackError::Cancelled)));
    let (mut fb, _) = Fallback::start(1, 1);
    assert!(matches!(
        fb.on_outcome(Outcome::Downloaded { verified: false }),
        FallbackStep::Fail(FallbackError::Unverified { backend: 0 })
    ));
}

#[test]
fn default_download_config() {
    let c = DownloadConfig::default_config();
    assert_eq!(c.strategies.len(), 8);
    assert!(matches!(c.strategies[0], DownloadStrategy::RustRange { threads: 16 }));
    assert!(matches!(c.strategies[7], DownloadStrategy::Curl));
    assert!(c.verify && c.resume && !c.renew);
}
