use aminos::ls::config::ColorConfig;
use aminos::ls::display::{format_size, Formatter};
use aminos::ls::links::{get_lnk_target, is_lnk_readable, junction_target, normalize_path, LinkType};
use aminos::ls::listing::{
    env_probe, filter_items, format_abs_line, format_item_line, link_type_name, parse_tree_opt, sanitize_path,
    sort_items, tree_child_depth, tree_child_prefix, tree_connector, tree_entries, unquote_fails_on, EnvProbe,
};
use aminos::ls::scanner::ItemInfo;

fn item(name: &str, is_dir: bool, size: u64) -> ItemInfo {
    ItemInfo {
        name: name.to_string(),
        path: format!("C:\\work\\{}", name),
        is_dir,
        is_file: !is_dir,
        link_type: if is_dir { LinkType::Dir } else { LinkType::File },
        link_target: None,
        size,
        create_time: None,
        modify_time: None,
    }
}

fn names(v: &[ItemInfo]) -> Vec<String> {
    v.iter().map(|i| i.name.clone()).collect()
}

#[test]
fn size_text_matches_float_formatting() {
    let samples: Vec<u64> = vec![
        0, 1, 1023, 1024, 1075, 1126, 1127, 1280, 1331, 1536, 10_239, 10_240, 51_199, 102_348, 1_048_575,
        1_048_576, 1_100_000, 1_153_433, 5_767_168, 1_073_741_823, 1_073_741_824, 1_181_116_006,
        5_000_000_000, 1_099_511_627_776, u64::MAX,
    ];
    for s in samples {
        let expected = if s < 1024 {
            format!("{}B", s)
        } else if s < 1024 * 1024 {
            format!("{:.1}KB", s as f64 / 1024.0)
        } else if s < 1024 * 1024 * 1024 {
            format!("{:.1}MB", s as f64 / (1024.0 * 1024.0))
        } else {
            format!("{:.1}GB", s as f64 / (1024.0 * 1024.0 * 1024.0))
        };
        assert_eq!(format_size(s), expected, "size {}", s);
    }
    for s in (1024u64..300_000).step_by(7) {
        assert_eq!(format_size(s), format!("{:.1}KB", s as f64 / 1024.0), "size {}", s);
    }
}

#[test]
fn default_order_puts_folders_first_then_names() {
    let mut v = vec![item("b.txt", false, 1), item("Zeta", true, 0), item("a.txt", false, 1), item("alpha", true, 0)];
    sort_items(&mut v, "default");
    assert_eq!(names(&v), vec!["alpha", "Zeta", "a.txt", "b.txt"]);
}

#[test]
fn size_order_is_largest_first_and_stable() {
    let mut v = vec![item("x", false, 10), item("y", false, 30), item("d", true, 0), item("z", false, 10)];
    sort_items(&mut v, "size");
    assert_eq!(names(&v), vec!["d", "y", "x", "z"]);
}

#[test]
fn suffix_order_uses_extension_then_name() {
    let mut v = vec![item("b.rs", false, 1), item("a.toml", false, 1), item("c.RS", false, 1), item("noext", false, 1)];
    sort_items(&mut v, "suffix");
    assert_eq!(names(&v), vec!["noext", "b.rs", "c.RS", "a.toml"]);
}

#[test]
fn time_orders() {
    let mut a = item("a", false, 1);
    a.modify_time = Some(300);
    a.create_time = Some(5);
    let mut b = item("b", false, 1);
    b.modify_time = Some(100);
    b.create_time = None;
    let mut v = vec![a, b];
    sort_items(&mut v, "update");
    assert_eq!(names(&v), vec!["b", "a"]);
    sort_items(&mut v, "create");
    assert_eq!(names(&v), vec!["b", "a"]);
    sort_items(&mut v, "name");
    assert_eq!(names(&v), vec!["a", "b"]);
}

#[test]
fn filters_by_extension_and_kind() {
    let v = vec![item("a.txt", false, 1), item("b.MD", false, 1), item("src", true, 0), item("c.rs", false, 1)];
    let ex = vec![".md".to_string()];
    let kept = filter_items(v, &ex, &[], false, false);
    assert_eq!(names(&kept), vec!["a.txt", "src", "c.rs"]);
    let inc = vec![".rs".to_string()];
    let kept2 = filter_items(kept, &[], &inc, false, false);
    assert_eq!(names(&kept2), vec!["src", "c.rs"]);
    let files = filter_items(kept2, &[], &[], true, false);
    assert_eq!(names(&files), vec!["c.rs"]);
    let dirs = filter_items(vec![item("a.txt", false, 1), item("src", true, 0)], &[], &[], false, true);
    assert_eq!(names(&dirs), vec!["src"]);
}

#[test]
fn tree_level_merges_and_sorts() {
    let v = vec![item("b.txt", false, 1), item("Docs", true, 0), item("a.txt", false, 1)];
    let all = tree_entries(v, &[], &[], false, false);
    assert_eq!(names(&all), vec!["a.txt", "b.txt", "Docs"]);
    let v = vec![item("b.txt", false, 1), item("Docs", true, 0)];
    assert_eq!(names(&tree_entries(v, &[], &[], true, false)), vec!["Docs"]);
    assert_eq!(tree_connector(true), "└── ");
    assert_eq!(tree_connector(false), "├── ");
    assert_eq!(tree_child_prefix("│   ", false), "│   │   ");
    assert_eq!(tree_child_prefix("", true), "    ");
    assert_eq!(tree_child_depth(3), 2);
    assert_eq!(tree_child_depth(-1), -1);
}

#[test]
fn tree_option_parsing() {
    assert_eq!(parse_tree_opt(&Some("3".to_string()), "."), (3, ".".to_string()));
    assert_eq!(parse_tree_opt(&Some("".to_string()), "D:\\x"), (-1, "D:\\x".to_string()));
    assert_eq!(parse_tree_opt(&Some("src".to_string()), "."), (-1, "src".to_string()));
    assert_eq!(parse_tree_opt(&Some("99999999999".to_string()), "."), (-1, "99999999999".to_string()));
    assert_eq!(parse_tree_opt(&None, "."), (-1, ".".to_string()));
}

#[test]
fn directory_argument_cleaning() {
    assert_eq!(sanitize_path("  \"C:\\Program Files\\\"  "), "C:\\Program Files");
    assert_eq!(sanitize_path("'D:\\data'"), "D:\\data");
    assert_eq!(sanitize_path("C:\\\\"), "C:\\");
    assert_eq!(sanitize_path("abc\"'"), "abc");
    assert_eq!(sanitize_path("."), ".");
}

#[test]
fn link_prefixes_are_removed() {
    assert_eq!(normalize_path("\\\\?\\C:\\x"), "C:\\x");
    assert_eq!(normalize_path("\\??\\D:\\y"), "D:\\y");
    assert_eq!(link_type_name(LinkType::Junction), "目录连接点 (Junction)");
}

fn lnk_header(flags: u32) -> Vec<u8> {
    let mut d = vec![0u8; 76];
    d[0] = 0x4C;
    let clsid = [0x01, 0x14, 0x02, 0x00, 0x00, 0x00, 0x00, 0x00, 0xC0, 0x00, 0x00, 0x00, 0x00, 0x00, 0x00, 0x46];
    d[4..20].copy_from_slice(&clsid);
    d[20..24].copy_from_slice(&flags.to_le_bytes());
    d
}

#[test]
fn shortcut_target_from_link_info() {
    let mut d = lnk_header(0x02);
    let base = b"C:\\Tools\\app.exe\0";
    let size = 0x1C + base.len() as u32;
    let mut info = Vec::new();
    info.extend_from_slice(&size.to_le_bytes());
    info.extend_from_slice(&0x1Cu32.to_le_bytes());
    info.extend_from_slice(&0u32.to_le_bytes());
    info.extend_from_slice(&0u32.to_le_bytes());
    info.extend_from_slice(&0x1Cu32.to_le_bytes());
    info.extend_from_slice(&0u32.to_le_bytes());
    info.extend_from_slice(&0u32.to_le_bytes());
    info.extend_from_slice(base);
    d.extend_from_slice(&info);
    assert_eq!(get_lnk_target(&d), Some("C:\\Tools\\app.exe".to_string()));
}

#[test]
fn shortcut_target_from_relative_path() {
    let mut d = lnk_header(0x80 | 0x08);
    let rel: Vec<u16> = "..\\x.exe".encode_utf16().collect();
    d.extend_from_slice(&(rel.len() as u16).to_le_bytes());
    for u in rel {
        d.extend_from_slice(&u.to_le_bytes());
    }
    assert_eq!(get_lnk_target(&d), Some("..\\x.exe".to_string()));
}

#[test]
fn shortcut_rejects_bad_headers() {
    assert_eq!(get_lnk_target(&[0u8; 10]), None);
    let mut d = lnk_header(0);
    d[0] = 0x4D;
    assert_eq!(get_lnk_target(&d), None);
    let d = lnk_header(0);
    assert_eq!(get_lnk_target(&d), None);
}

#[test]
fn plain_item_lines() {
    let f = Formatter::new(ColorConfig::default_colors(), true);
    let file = item("notes.txt", false, 2048);
    assert_eq!(format_item_line(&f, &file, false, 0, true, 6, "default", false), " <file> notes.txt  2.0KB ");
    let dir = item("src", true, 0);
    assert_eq!(format_item_line(&f, &dir, true, 6, true, 6, "name", false), "  <dir>    src ");
    let mut link = item("cur", true, 0);
    link.link_type = LinkType::Junction;
    link.link_target = Some("\\??\\D:\\real".to_string());
    assert_eq!(format_item_line(&f, &link, false, 0, false, 0, "default", true), "  <dir> cur  => D:\\real");
    let mut dated = item("a.log", false, 10);
    dated.modify_time = Some(86400);
    assert_eq!(format_item_line(&f, &dated, false, 0, false, 0, "update", false), " <file> 1970-01-02 00:00:00 a.log ");
}

#[test]
fn coloured_item_lines() {
    let f = Formatter::new(ColorConfig::default_colors(), false);
    let file = item("main.rs", false, 10);
    assert_eq!(
        format_item_line(&f, &file, false, 0, false, 0, "default", false),
        "\x1b[90m <file> \x1b[0m\x1b[33mmain.rs\x1b[0m "
    );
    let abs = format_abs_line(&f, &file, "\\\\?\\C:\\work\\main.rs", false);
    assert_eq!(abs, "\x1b[90mC:\\work\\\x1b[0m\x1b[37mmain\x1b[0m\x1b[33m.rs\x1b[0m");
    let plain = Formatter::new(ColorConfig::default_colors(), true);
    assert_eq!(format_abs_line(&plain, &file, "\\\\?\\C:\\work\\main.rs", false), "C:\\work\\main.rs");
}

#[test]
fn environment_notes_by_folder_name() {
    assert!(matches!(env_probe(&item(".venv", true, 0)), EnvProbe::Python));
    assert!(matches!(env_probe(&item("Python312", true, 0)), EnvProbe::Python));
    assert!(matches!(env_probe(&item("jdk-21", true, 0)), EnvProbe::Java));
    assert!(matches!(env_probe(&item("node_modules", true, 0)), EnvProbe::Node));
    assert!(matches!(env_probe(&item("docs", true, 0)), EnvProbe::Nothing));
    assert!(matches!(env_probe(&item("venv", false, 0)), EnvProbe::Nothing));
}

#[test]
fn shortcut_readability_check() {
    assert!(is_lnk_readable(&[0u8; 10]));
    assert!(is_lnk_readable(&lnk_header(0x02)));
    // A LinkInfo header of 0x24 bytes with a Unicode offset past the end.
    let mut d = lnk_header(0x02);
    let mut info = Vec::new();
    info.extend_from_slice(&0x40u32.to_le_bytes());
    info.extend_from_slice(&0x24u32.to_le_bytes());
    info.extend_from_slice(&[0u8; 20]);
    info.extend_from_slice(&0x1000u32.to_le_bytes());
    info.extend_from_slice(&0u32.to_le_bytes());
    info.resize(0x40, 0);
    d.extend_from_slice(&info);
    assert!(!is_lnk_readable(&d));
    // The same block with the offset inside the data can be read.
    let mut ok = lnk_header(0x02);
    let mut info2 = info.clone();
    info2[28..32].copy_from_slice(&0x30u32.to_le_bytes());
    ok.extend_from_slice(&info2);
    assert!(is_lnk_readable(&ok));
}

#[test]
fn junction_target_from_fsutil_output() {
    let out = "Reparse Tag Value : 0xa0000003\r\nTag value: Name Surrogate\r\n\r\nSubstitute Name:  \\??\\D:\\Data\r\nPrint Name:       D:\\Data\r\n";
    assert_eq!(junction_target(out), Some("D:\\Data".to_string()));
    let zh = "替换名称:  \\??\\E:\\盘\n";
    assert_eq!(junction_target(zh), Some("E:\\盘".to_string()));
    assert_eq!(junction_target("nothing here\n"), None);
}

#[test]
fn lone_quote_arguments_are_detected() {
    assert!(unquote_fails_on("\""));
    assert!(unquote_fails_on("  '  "));
    assert!(unquote_fails_on("\"\"\""));
    assert!(!unquote_fails_on("\"\"\"'"));
    assert!(!unquote_fails_on("\"C:\\dir\""));
    assert!(!unquote_fails_on("plain"));
    assert!(!unquote_fails_on("\"\""));
}
