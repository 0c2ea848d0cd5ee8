use aminos::aspkg::rows::{all_versions_text, list_rows, PathContext};
use aminos::aspkg::software::{InstallRecord, InstalledDatabase, RegistryInfo, SoftwareEntry, VersionEntry};
use aminos::aspkg::table::list_table;
use aminos::colors::map::ColorMap;
use aminos::environ::EnvVars;
use aminos::net::range::{range_header, range_plan, uses_ranges};
use aminos::tag_table::tag_table;
use aminos::tags::{TagColumns, TagDef};

fn ve(kinds: &[&str], reg: Option<&str>) -> VersionEntry {
    VersionEntry {
        registry_version: reg.map(|s| s.to_string()),
        urls: kinds.iter().map(|k| (k.to_string(), vec![format!("https://x/{}", k)])).collect(),
    }
}

fn entry(cat: Option<&str>, versions: Vec<(&str, VersionEntry)>) -> SoftwareEntry {
    SoftwareEntry {
        aliases: Vec::new(),
        category: cat.map(|c| c.to_string()),
        detect: None,
        versions: versions.into_iter().map(|(k, v)| (k.to_string(), v)).collect(),
    }
}

fn info(name: &str, version: &str) -> RegistryInfo {
    RegistryInfo {
        display_name: name.to_string(),
        version: version.to_string(),
        publisher: None,
        install_path: None,
        uninstall_string: None,
    }
}

fn ctx() -> PathContext {
    PathContext { index: Vec::new(), env: EnvVars::empty(), steam: Vec::new() }
}

#[test]
fn version_lists_are_newest_first() {
    let e = entry(None, vec![("1.2", ve(&["portable"], None)), ("1.10", ve(&["portable"], None))]);
    assert_eq!(all_versions_text(Some(&e), &vec!["1.2".to_string(), "0.9".to_string()]), "1.10, 1.2, 0.9");
    assert_eq!(all_versions_text(None, &Vec::new()), "-");
    assert_eq!(all_versions_text(None, &vec!["2".to_string(), "2".to_string()]), "2");
}

#[test]
fn list_rows_cover_each_source() {
    let entries = vec![
        ("Tool".to_string(), entry(Some("dev"), vec![("1.0", ve(&["portable"], None)), ("2.0", ve(&["portable"], None))])),
        ("zed".to_string(), entry(None, vec![("3.1", ve(&["installer"], Some("3.1.0.0")))])),
        ("alpha".to_string(), entry(None, vec![("5", ve(&["installer", "portable"], None))])),
    ];
    let db = InstalledDatabase {
        records: vec![(
            "Tool".to_string(),
            InstallRecord {
                version: "1.0".to_string(),
                kind: "portable".to_string(),
                install_path: String::new(),
                install_time: String::new(),
            },
        )],
    };
    let matched = vec![("zed".to_string(), vec![info("Zed Editor", "3.0.0.0"), info("Zed Editor", "3.1.0.0")])];
    let unmatched = vec![info("Microsoft Visual C++ 2019", "14.2"), info("Browser", "120")];
    let rows = list_rows(&entries, &db, &matched, &unmatched, false, &ctx());
    let names: Vec<&str> = rows.iter().map(|r| r[0].as_str()).collect();
    assert_eq!(names, vec!["Browser", "Tool", "zed"]);
    assert_eq!(rows[1], vec!["Tool", "1.0", "源", "便携版", "dev", "可更新", "-", "2.0, 1.0"]);
    assert_eq!(rows[2][1], "3.1.0.0");
    assert_eq!(rows[2][2], "注册表+源");
    assert_eq!(rows[0], vec!["Browser", "120", "注册表", "-", "-", "-", "-", "-"]);
    let all = list_rows(&entries, &db, &matched, &unmatched, true, &ctx());
    let names: Vec<&str> = all.iter().map(|r| r[0].as_str()).collect();
    assert_eq!(names, vec!["alpha", "Browser", "Microsoft Visual C++ 2019", "Tool", "zed"]);
    assert_eq!(all[0][5], "未安装");
    assert_eq!(all[0][1], "5");
}

#[test]
fn list_table_layout() {
    assert_eq!(list_table(&Vec::new(), 80), vec!["暂无已安装软件".to_string()]);
    let rows = vec![vec!["a", "1", "源", "-", "-", "-", "-", "-"].into_iter().map(String::from).collect::<Vec<_>>()];
    let lines = list_table(&rows, 200);
    assert_eq!(lines.len(), 3);
    assert!(lines[0].starts_with("# 名称"));
    assert!(lines[1].starts_with("- ----"));
    assert!(lines[2].starts_with("1 a    1    源"));
    let narrow = list_table(&rows, 10);
    assert_eq!(narrow.len(), 4);
    assert!(narrow[3].starts_with("警告：终端宽度仅 10 列"));
}

#[test]
fn ranges_cover_the_file() {
    assert!(!uses_ranges(10 * 1024 * 1024 - 1));
    assert!(uses_ranges(10 * 1024 * 1024));
    let plan = range_plan(10 * 1024 * 1024 + 5, 4);
    assert_eq!(
        plan,
        vec![(0, 2621440), (2621441, 5242881), (5242882, 7864322), (7864323, 10485764)]
    );
    assert_eq!(range_plan(3 * 1024 * 1024, 16).len(), 3);
    assert_eq!(range_plan(100, 8), vec![(0, 99)]);
    assert_eq!(range_header(0, 1023), "bytes=0-1023");
}

#[test]
fn tag_table_lines() {
    let mut var = ColorMap::new();
    var.insert("B", "2");
    var.insert("A", "1");
    let def = TagDef { path: vec!["C:\\bin".to_string()], var, prompt: String::new(), aliases: vec!["x".to_string()] };
    let cols = TagColumns { name: 6, alias: 4, path: 10, var: 8 };
    let lines = tag_table(&vec![("dev".to_string(), def)], &cols, true);
    assert_eq!(lines[0], "  名称    别名  路径        变量    ");
    assert_eq!(lines[1], "  ------  ----  ----------  --------");
    assert_eq!(lines[2], "");
    assert_eq!(lines[3], "  dev     x     C:\\bin      A=1     ");
    assert_eq!(lines[4], "                            B=2     ");
    assert_eq!(lines.len(), 5);
}
