use aminos::aspkg::software::{detect_all_from_registry, DetectConfig, SoftwareEntry};
use aminos::ls::links::from_utf16le;
use aminos::net::backend::backend_description;
use aminos::net::config::find_backend_name;

#[test]
fn utf16_pairs_decode() {
    // "A", U+1F600 as a surrogate pair, then a zero unit.
    let bytes = [0x41, 0x00, 0x3D, 0xD8, 0x00, 0xDE, 0x00, 0x00];
    assert_eq!(from_utf16le(&bytes), Some("A\u{1F600}".to_string()));
    // A lone high surrogate is invalid.
    assert_eq!(from_utf16le(&[0x3D, 0xD8, 0x41, 0x00]), None);
}

#[test]
fn descriptions_of_known_names() {
    for n in [
        "rust-range", "RustRange", "aria2c", "Aria2c", "rust-ureq", "Ureq", "rust-ureq(insecure)", "UreqInsecure",
        "powershell", "PowerShell", "ps-invoke", "PowerShellInvoke", "bits", "BitsTransfer", "curl", "Curl",
    ] {
        assert!(!backend_description(n).is_empty(), "{}", n);
    }
    assert!(backend_description("wget").is_empty());
}

#[test]
fn configured_spelling_is_found_ignoring_case() {
    let states = vec![
        ("aria2c".to_string(), true, None),
        ("rust-range".to_string(), true, Some(16)),
        ("ARIA2C".to_string(), false, None),
    ];
    assert_eq!(find_backend_name("ARIA2C", &states), "aria2c");
    assert_eq!(find_backend_name("Rust-Range", &states), "rust-range");
    assert_eq!(find_backend_name("nope", &states), "nope");
}

#[test]
fn detected_versions_are_unique() {
    let entry = SoftwareEntry {
        aliases: Vec::new(),
        category: None,
        detect: Some(DetectConfig { display_name: "Tool".to_string(), publisher: None }),
        versions: Vec::new(),
    };
    let reg = |v: &str| vec![("DisplayName".to_string(), "Tool".to_string()), ("DisplayVersion".to_string(), v.to_string())];
    let found = detect_all_from_registry(&entry, &[reg("1.0"), reg(""), reg("1.0"), reg("2.0")]);
    let vs: Vec<String> = found.iter().map(|r| r.version.clone()).collect();
    assert_eq!(vs, vec!["1.0".to_string(), "2.0".to_string()]);
}
