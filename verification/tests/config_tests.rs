use aminos::config::env::EnvConfig;
use aminos::config::paths::{join_path, PathResolver};
use aminos::config::source::{cache_bust, file_url, hex_encode, is_orphan, needs_update, sha256_hex, strip_bom, SourceRepo};
use aminos::config::sources::{default_enabled, SourceConfig, SourceEntry, SourceError};
use aminos::environ::EnvVars;

fn env(pairs: &[(&str, &str)]) -> EnvVars {
    EnvVars { vars: pairs.iter().map(|(k, v)| (k.to_string(), v.to_string())).collect() }
}

#[test]
fn test_key_format() {
    let cfg = EnvConfig::aminos();
    assert_eq!(cfg.key("SOURCE_REPO"), "AMINOS_SOURCE_REPO");
    assert_eq!(cfg.key(""), "AMINOS");
}

#[test]
fn env_config_reads_namespaced_variables() {
    let e = env(&[
        ("AMINOS_SOURCE_REPO", "https://mirror.example/repo"),
        ("AMINOS_MAX_THREADS", "12"),
        ("AMINOS_INSECURE", "true"),
        ("AMINOS_PROXY", "http://proxy:8080"),
    ]);
    let cfg = EnvConfig::aminos();
    assert_eq!(cfg.source_repo(&e), Some("https://mirror.example/repo".to_string()));
    assert_eq!(cfg.max_threads(&e), Some(12));
    assert!(cfg.insecure(&e));
    assert_eq!(cfg.proxy(&e), Some("http://proxy:8080".to_string()));
    assert_eq!(cfg.download_dir(&e), None);
    assert_eq!(cfg.get_or("DOWNLOAD_DIR", "fallback", &e), "fallback");
}

#[test]
fn env_config_numbers_and_flags() {
    let cfg = EnvConfig::aminos();
    assert_eq!(cfg.max_threads(&env(&[("AMINOS_MAX_THREADS", "abc")])), None);
    assert_eq!(cfg.max_threads(&env(&[("AMINOS_MAX_THREADS", "+7")])), Some(7));
    assert!(cfg.insecure(&env(&[("AMINOS_INSECURE", "1")])));
    assert!(!cfg.insecure(&env(&[("AMINOS_INSECURE", "yes")])));
    assert!(!cfg.insecure(&env(&[])));
    let other = EnvConfig::new("TOOL");
    assert_eq!(other.key("X"), "TOOL_X");
}

#[test]
fn paths_join_windows_style() {
    assert_eq!(join_path("C:\\Users\\me", "aminos"), "C:\\Users\\me\\aminos");
    assert_eq!(join_path("C:\\Users\\me\\", "aminos"), "C:\\Users\\me\\aminos");
    assert_eq!(join_path("C:", "aminos"), "C:aminos");
    assert_eq!(join_path("", "aminos"), "aminos");
}

#[test]
fn path_resolver_folders() {
    let r = PathResolver::aminos();
    let e = env(&[("LOCALAPPDATA", "C:\\Users\\me\\AppData\\Local")]);
    assert_eq!(r.appdata_root(&e), "C:\\Users\\me\\AppData\\Local\\aminos");
    assert_eq!(r.downloads_dir(&e), "C:\\Users\\me\\AppData\\Local\\aminos\\downloads");
    assert_eq!(r.installed_json(&e), "C:\\Users\\me\\AppData\\Local\\aminos\\apps\\installed.json");
    assert_eq!(r.source_dir(&e, None), "C:\\Users\\me\\AppData\\Local\\aminos\\source");
    assert_eq!(r.source_dir(&e, Some("D:\\tools\\source")), "D:\\tools\\source");
    let e2 = env(&[("AMINOS_SOURCE_DIR", "E:\\src")]);
    assert_eq!(r.source_dir(&e2, Some("D:\\tools\\source")), "E:\\src");
    assert_eq!(r.appdata_root(&env(&[])), ".\\aminos");
}

#[test]
fn hex_and_sha256() {
    assert_eq!(hex_encode(&[0x00, 0x0f, 0xa5, 0xff]), "000fa5ff");
    assert_eq!(hex_encode(&[]), "");
    assert_eq!(
        sha256_hex(b"abc"),
        "ba7816bf8f01cfea414140de5dae2223b00361a396177a9cb410ff61f20015ad"
    );
    assert_eq!(
        sha256_hex(b""),
        "e3b0c44298fc1c149afbf4c8996fb92427ae41e4649b934ca495991b7852b855"
    );
}

#[test]
fn needs_update_compares_digests() {
    let digest = "ba7816bf8f01cfea414140de5dae2223b00361a396177a9cb410ff61f20015ad";
    assert!(!needs_update(Some(b"abc"), digest));
    assert!(needs_update(Some(b"abd"), digest));
    assert!(needs_update(None, digest));
}

#[test]
fn cache_bust_and_file_url() {
    assert_eq!(cache_bust("https://cdn.jsdelivr.net/gh/u/r", 1700000000), "?v=1700000000");
    assert_eq!(cache_bust("https://raw.githubusercontent.com/u/r", 5), "");
    assert_eq!(file_url("https://m/r", "index.json", "?v=3"), "https://m/r/index.json?v=3");
}

#[test]
fn bom_is_stripped_once() {
    assert_eq!(strip_bom(&[0xEF, 0xBB, 0xBF, b'{', b'}']), vec![b'{', b'}']);
    assert_eq!(strip_bom(&[b'{', b'}']), vec![b'{', b'}']);
    assert_eq!(strip_bom(&[0xEF, 0xBB]), vec![0xEF, 0xBB]);
}

#[test]
fn orphans_are_unlisted_json_files() {
    let files = vec!["7zip.json".to_string(), "git.json".to_string()];
    assert!(is_orphan("old.json", &files));
    assert!(!is_orphan("git.json", &files));
    assert!(!is_orphan("index.json", &files));
    assert!(!is_orphan("notes.txt", &files));
    assert!(!is_orphan(".json", &files));
}

#[test]
fn source_repo_order_custom_first_without_duplicates() {
    let builtin = vec!["https://a".to_string(), "https://b".to_string()];
    let repo = SourceRepo::new(builtin.clone(), &env(&[("AMINOS_SOURCE_REPO", "https://b")]));
    assert_eq!(repo.resolve(), vec!["https://b".to_string(), "https://a".to_string()]);
    let plain = SourceRepo::new(builtin, &env(&[]));
    assert_eq!(plain.resolve(), vec!["https://a".to_string(), "https://b".to_string()]);
}

fn entry(name: &str, url: &str, enabled: bool) -> SourceEntry {
    SourceEntry { name: name.to_string(), url: url.to_string(), enabled }
}

#[test]
fn sources_add_remove_toggle() {
    assert!(default_enabled());
    let cfg = SourceConfig::new("C:\\cfg");
    let mut entries = vec![entry("main", "https://m", true)];
    assert_eq!(cfg.add(&mut entries, "extra", "https://x"), Ok(()));
    assert_eq!(entries.len(), 2);
    assert_eq!(entries[1].name, "extra");
    assert!(entries[1].enabled);
    assert_eq!(cfg.add(&mut entries, "extra", "https://y"), Err(SourceError::AlreadyExists));
    assert_eq!(cfg.toggle(&mut entries, "extra", false), Ok(()));
    assert!(!entries[1].enabled);
    assert_eq!(cfg.toggle(&mut entries, "none", true), Err(SourceError::NotFound));
    assert_eq!(cfg.remove(&mut entries, "main"), Ok(()));
    assert_eq!(entries.len(), 1);
    assert_eq!(entries[0].name, "extra");
    assert_eq!(cfg.remove(&mut entries, "main"), Err(SourceError::NotFound));
}
