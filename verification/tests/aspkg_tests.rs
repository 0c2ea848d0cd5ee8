use aminos::aspkg::list::{
    contains_msiexec, eval_entry, expand_env, format_path, get_type_label, is_non_software, is_sensible_install_path,
    latest_version, looks_like_path, offers_kind, version_type_label,
};
use aminos::aspkg::software::{similarity_score, suggest_similar, SoftwareEntry, VersionEntry};
use aminos::environ::EnvVars;
use aminos::glob::wildmatch;

fn ve(kinds: &[&str], reg: Option<&str>) -> VersionEntry {
    VersionEntry {
        registry_version: reg.map(|s| s.to_string()),
        urls: kinds.iter().map(|k| (k.to_string(), vec![format!("https://x/{}", k)])).collect(),
    }
}

fn sw(aliases: &[&str], cat: Option<&str>, versions: Vec<(&str, VersionEntry)>) -> SoftwareEntry {
    SoftwareEntry {
        aliases: aliases.iter().map(|a| a.to_string()).collect(),
        category: cat.map(|c| c.to_string()),
        detect: None,
        versions: versions.into_iter().map(|(k, v)| (k.to_string(), v)).collect(),
    }
}

#[test]
fn similarity_scores() {
    assert_eq!(similarity_score("git", "github"), 16);
    assert_eq!(similarity_score("github", "git"), 8);
    assert_eq!(similarity_score("vscode", "vsedit"), 2);
    assert_eq!(similarity_score("notepadpp", "xxpadyy"), 3);
    assert_eq!(similarity_score("ab", "cd"), 0);
    assert_eq!(similarity_score("GIT", "GitHub"), 16);
}

#[test]
fn suggestions_rank_by_score() {
    let all = vec![
        ("github".to_string(), sw(&[], None, vec![])),
        ("gitea".to_string(), sw(&[], None, vec![])),
        ("vlc".to_string(), sw(&["videolan"], None, vec![])),
        ("git".to_string(), sw(&[], None, vec![])),
    ];
    let s = suggest_similar("git", &all);
    assert_eq!(s, vec![(16, "github".to_string()), (16, "gitea".to_string())]);
    let s2 = suggest_similar("video", &all);
    assert_eq!(s2, vec![(20, "vlc".to_string())]);
}

#[test]
fn latest_is_the_last_in_text_order() {
    let e = sw(&[], None, vec![("1.10", ve(&["installer"], None)), ("1.9", ve(&["portable"], None))]);
    assert_eq!(latest_version(&e), Some("1.9".to_string()));
    assert_eq!(eval_entry(Some(&e), Some("1.9")), ("-".to_string(), "最新".to_string()));
    assert_eq!(eval_entry(Some(&e), Some("1.10")), ("-".to_string(), "可更新".to_string()));
    assert_eq!(eval_entry(None, Some("1.0")), ("-".to_string(), "-".to_string()));
    let mapped = sw(&[], Some("dev"), vec![("8", ve(&["installer"], Some("8.0.1")))]);
    assert_eq!(eval_entry(Some(&mapped), Some("8.0.1")), ("dev".to_string(), "最新".to_string()));
    assert_eq!(eval_entry(Some(&mapped), None), ("dev".to_string(), "-".to_string()));
}

#[test]
fn install_kind_labels() {
    let both = sw(&[], None, vec![("1", ve(&["installer"], None)), ("2", ve(&["portable"], None))]);
    assert_eq!(get_type_label(&both), "安装/便携");
    assert!(offers_kind(&ve(&["portable"], None), "portable"));
    assert!(!offers_kind(&ve(&["portable"], None), "installer"));
    assert_eq!(version_type_label(Some(&both), "2"), get_type_label(&sw(&[], None, vec![("2", ve(&["portable"], None))])));
}

#[test]
fn install_paths() {
    assert!(!is_sensible_install_path("C:\\"));
    assert!(!is_sensible_install_path("c:\\windows\\"));
    assert!(!is_sensible_install_path("C:\\ProgramData\\Package Cache\\{123}"));
    assert!(is_sensible_install_path("D:\\Games\\x"));
    assert!(!is_sensible_install_path(""));
    assert!(looks_like_path("C:\\x"));
    assert!(!looks_like_path("{guid}\\x"));
    assert!(!looks_like_path("plain"));
    assert_eq!(format_path("  C:\\Apps\\Tool\\ "), "C:\\Apps\\Tool");
    assert_eq!(format_path("\"C:\\Apps\\Tool\";"), "C:\\Apps\\Tool\"");
    assert!(contains_msiexec("MsiExec.exe /X{123}"));
    assert!(!contains_msiexec("uninst.exe"));
}

#[test]
fn environment_expansion() {
    let env = EnvVars { vars: vec![("APPDATA".to_string(), "C:\\U\\R".to_string())] };
    assert_eq!(expand_env("%ProgramFiles%\\X", &env), "C:\\Program Files\\X");
    assert_eq!(expand_env("%ProgramFiles(x86)%\\Y", &env), "C:\\Program Files (x86)\\Y");
    assert_eq!(expand_env("%SystemRoot%\\a", &env), "C:\\Windows\\a");
    assert_eq!(expand_env("%APPDATA%\\y", &env), "C:\\U\\R\\y");
    assert_eq!(expand_env("%LOCALAPPDATA%\\z", &env), "%LOCALAPPDATA%\\z");
}

#[test]
fn non_software_entries() {
    assert!(is_non_software("Microsoft Visual C++ 2015 Redistributable"));
    assert!(!is_non_software("Git"));
}

#[test]
fn glob_matching() {
    assert!(wildmatch("*\\Scripts", "C:\\Python\\Scripts"));
    assert!(wildmatch("c:\\windows*", "C:\\Windows\\System32"));
    assert!(!wildmatch("*\\bin", "C:\\bin\\x"));
    assert!(wildmatch("*", "anything"));
    assert!(wildmatch("a*b*c", "aXbYc"));
    assert!(!wildmatch("a*b*c", "aXcYb"));
}
