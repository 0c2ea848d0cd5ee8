use aminos::aspkg::software::{
    detect_all_from_registry, detect_from_registry_raw, pad, pad_r, record_install, reg_value, remove_install_record,
    resolve_query, resolve_query_checked, scan_registry_installed, similarity_checked, suggest_checked, DetectConfig, InstallRecord, InstalledDatabase, RegistryInfo, Resolution, SoftwareEntry,
};

fn reg(pairs: &[(&str, &str)]) -> Vec<(String, String)> {
    pairs.iter().map(|(k, v)| (k.to_string(), v.to_string())).collect()
}

fn entry(aliases: &[&str], detect: Option<(&str, Option<&str>)>) -> SoftwareEntry {
    SoftwareEntry {
        aliases: aliases.iter().map(|a| a.to_string()).collect(),
        category: None,
        detect: detect.map(|(d, p)| DetectConfig { display_name: d.to_string(), publisher: p.map(|s| s.to_string()) }),
        versions: Vec::new(),
    }
}

fn names(v: &[RegistryInfo]) -> Vec<String> {
    v.iter().map(|r| r.display_name.clone()).collect()
}

#[test]
fn registry_values() {
    let m = reg(&[("a", "1"), ("a", "2")]);
    assert_eq!(reg_value(&m, "a"), Some("1".to_string()));
    assert_eq!(reg_value(&m, "b"), None);
    let raw = detect_from_registry_raw(Some(reg(&[("DisplayName", "X"), ("DisplayVersion", "1.0"), ("Publisher", "P")])))
        .unwrap();
    assert_eq!(raw.display_name, "X");
    assert_eq!(raw.version, "1.0");
    assert_eq!(raw.publisher, Some("P".to_string()));
    assert_eq!(raw.install_path, None);
    assert!(detect_from_registry_raw(None).is_none());
}

#[test]
fn registry_entries_are_matched_to_the_catalogue() {
    let entries = vec![
        ("git".to_string(), entry(&[], Some(("Git", Some("The Git Development Community"))))),
        ("7zip".to_string(), entry(&[], Some(("7-Zip", None)))),
        ("plain".to_string(), entry(&[], None)),
    ];
    let regs = vec![
        reg(&[("display_name", "Git version 2.45"), ("version", "2.45"), ("publisher", "The Git Development Community")]),
        reg(&[("display_name", "Git Extensions"), ("version", "4.0"), ("publisher", "Other")]),
        reg(&[("version", "1")]),
        reg(&[("display_name", "7-Zip 23.01 (x64)"), ("version", "23.01")]),
        reg(&[("display_name", "GIT LFS"), ("version", "3.4")]),
    ];
    let (groups, rest) = scan_registry_installed(&entries, &regs);
    assert_eq!(groups.len(), 2);
    assert_eq!(groups[0].0, "git");
    assert_eq!(names(&groups[0].1), vec!["Git version 2.45", "GIT LFS"]);
    assert_eq!(groups[0].1[0].version, "2.45");
    assert_eq!(groups[1].0, "7zip");
    assert_eq!(names(&groups[1].1), vec!["7-Zip 23.01 (x64)"]);
    assert_eq!(names(&rest), vec!["Git Extensions"]);
    assert_eq!(rest[0].publisher, Some("Other".to_string()));
}

#[test]
fn all_registry_versions_once_each() {
    let e = entry(&[], Some(("Tool", None)));
    let results = vec![
        reg(&[("DisplayName", "Tool"), ("DisplayVersion", "1.0")]),
        reg(&[("DisplayName", "Tool (user)"), ("DisplayVersion", "1.0")]),
        reg(&[("DisplayName", "Tool"), ("DisplayVersion", "")]),
        reg(&[("DisplayName", "Tool 2"), ("DisplayVersion", "2.0"), ("InstallLocation", "C:\\Tool")]),
    ];
    let found = detect_all_from_registry(&e, &results);
    assert_eq!(found.iter().map(|r| r.version.clone()).collect::<Vec<_>>(), vec!["1.0", "2.0"]);
    assert_eq!(found[1].install_path, Some("C:\\Tool".to_string()));
    assert!(detect_all_from_registry(&entry(&[], None), &results).is_empty());
}

#[test]
fn install_records() {
    let mut db = InstalledDatabase::new();
    assert!(record_install(&mut db, "tool", "1.2", "portable", "C:\\Apps\\tool-1.2", "2024-01-01 00:00:00".to_string()));
    assert!(!record_install(&mut db, "other", "3", "installer", "", "2024-01-01 00:00:00".to_string()));
    assert_eq!(db.records.len(), 1);
    assert!(record_install(&mut db, "tool", "1.3", "portable", "C:\\Apps\\tool-1.3", "2024-02-01 00:00:00".to_string()));
    assert_eq!(db.records.len(), 1);
    assert_eq!(db.records[0].1.version, "1.3");
    assert_eq!(db.records[0].1.kind, "portable");
    remove_install_record(&mut db, "missing");
    assert_eq!(db.records.len(), 1);
    remove_install_record(&mut db, "tool");
    assert!(db.records.is_empty());
}

#[test]
fn installer_records_are_dropped() {
    let rec = |v: &str, k: &str| InstallRecord {
        version: v.to_string(),
        kind: k.to_string(),
        install_path: String::new(),
        install_time: String::new(),
    };
    let mut db = InstalledDatabase {
        records: vec![
            ("a".to_string(), rec("1", "installer")),
            ("b".to_string(), rec("2", "portable")),
            ("c".to_string(), rec("3", "installer")),
        ],
    };
    assert!(db.drop_installer_records());
    assert_eq!(db.records.len(), 1);
    assert_eq!(db.records[0].0, "b");
    assert!(!db.drop_installer_records());
    let mut db2 = InstalledDatabase {
        records: vec![("x".to_string(), rec("1", "installer")), ("y".to_string(), rec("2", "portable"))],
    };
    assert!(record_install(&mut db2, "z", "9", "portable", "C:\\z", "t".to_string()));
    let names: Vec<String> = db2.records.iter().map(|(n, _)| n.clone()).collect();
    assert_eq!(names, vec!["y".to_string(), "z".to_string()]);
    let mut db3 = InstalledDatabase {
        records: vec![("x".to_string(), rec("1", "installer")), ("y".to_string(), rec("2", "portable"))],
    };
    remove_install_record(&mut db3, "nope");
    assert_eq!(db3.records.len(), 1);
    assert_eq!(db3.records[0].0, "y");
}

#[test]
fn padding_by_display_width() {
    assert_eq!(pad("ab", 4), "ab  ");
    assert_eq!(pad_r("ab", 4), "  ab");
    assert_eq!(pad("中", 3), "中 ");
    assert_eq!(pad("long", 2), "long");
}

#[test]
fn catalogue_queries() {
    let all = vec![
        ("7zip".to_string(), entry(&["7z", "sevenzip"], None)),
        ("vscode".to_string(), entry(&["code"], None)),
        ("code-insiders".to_string(), entry(&["code"], None)),
    ];
    assert!(matches!(resolve_query("7ZIP", &all), Resolution::Found(0)));
    assert!(matches!(resolve_query("SevenZip", &all), Resolution::Found(0)));
    match resolve_query("code", &all) {
        Resolution::Ambiguous(v) => assert_eq!(v, vec![1, 2]),
        _ => panic!("expected two entries"),
    }
    match resolve_query("vscod", &all) {
        Resolution::Suggest(s) => assert_eq!(s, vec![(20, "vscode".to_string()), (3, "code-insiders".to_string())]),
        _ => panic!("expected suggestions"),
    }
    assert!(matches!(resolve_query("zzzz", &all), Resolution::NotFound));
}

#[test]
fn scoring_bounds_are_checked() {
    assert_eq!(similarity_checked("VSCod", "vscode"), Some(20));
    assert_eq!(similarity_checked("微信", "微信号"), Some(22));
    // The window scan would cut "微信" inside a character.
    assert_eq!(similarity_checked("微信", "abc"), None);
    let all = vec![("abc".to_string(), entry(&["xyz"], None)), ("7zip".to_string(), entry(&["微信"], None))];
    assert!(suggest_checked("zip", &all));
    assert!(!suggest_checked("微信x", &all));
    assert!(matches!(resolve_query_checked("7ZIP", &all), Some(Resolution::Found(1))));
    assert!(matches!(resolve_query_checked("微信", &all), Some(Resolution::Found(1))));
    assert!(resolve_query_checked("微信x", &all).is_none());
    match resolve_query_checked("zip", &all) {
        Some(Resolution::Suggest(s)) => assert_eq!(s, vec![(16, "7zip".to_string())]),
        _ => panic!("expected a suggestion"),
    }
}
