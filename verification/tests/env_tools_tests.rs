use aminos::colors::map::{paint, ColorMap};
use aminos::colors::show::{
    is_excluded, name_width, path_entries, plain_prefix, value_lines, var_color, visible_vars, wrap_avail, wrap_value,
};
use aminos::colors::env::sanitize_path;
use aminos::tags::{esc_bat, esc_ps1, generate_script, natural_widths, tag_columns, tag_row_vars, TagDef, TagError};

fn pairs(v: &[(&str, &str)]) -> Vec<(String, String)> {
    v.iter().map(|(a, b)| (a.to_string(), b.to_string())).collect()
}

#[test]
fn wrapping_prefers_semicolons_then_gaps() {
    assert_eq!(wrap_value("short", 10), vec!["short".to_string()]);
    assert_eq!(wrap_value("aaaa;bbbbbb", 6), vec!["aaaa;".to_string(), "bbbbbb".to_string()]);
    assert_eq!(wrap_value("abc def ghi", 5), vec!["abc ".to_string(), "def ".to_string(), "ghi".to_string()]);
    // a `;` right at the end of the window does not count as a break
    assert_eq!(wrap_value("A;B;C", 2), vec!["A;".to_string(), "B;".to_string(), "C".to_string()]);
    assert_eq!(wrap_value("abcdefgh", 3), vec!["abc".to_string(), "def".to_string(), "gh".to_string()]);
}

#[test]
fn value_lines_by_mode() {
    assert_eq!(value_lines("C:\\a;;C:\\b;", true, 80), vec!["C:\\a;".to_string(), "C:\\b".to_string()]);
    assert_eq!(value_lines("C:\\a;C:\\b", false, 80), vec!["C:\\a;C:\\b".to_string()]);
    assert_eq!(value_lines("plain", true, 80), vec!["plain".to_string()]);
    assert_eq!(wrap_avail(120, 20), 100);
    assert_eq!(wrap_avail(10, 20), 60);
}

#[test]
fn listed_variables_are_filtered_and_sorted() {
    let vars = pairs(&[("Path", "x"), ("=C:", "y"), ("alpha", "1"), ("HIDE", "z"), ("Beta", "2")]);
    let ex = vec!["hide".to_string()];
    let out = visible_vars(vars.clone(), &ex, true);
    assert_eq!(out, pairs(&[("alpha", "1"), ("Beta", "2"), ("Path", "x")]));
    let out2 = visible_vars(vars, &ex, false);
    assert_eq!(out2, pairs(&[("=C:", "y"), ("alpha", "1"), ("Beta", "2"), ("Path", "x")]));
    assert!(is_excluded("Hide", &ex));
    assert!(!is_excluded("Hidden", &ex));
    assert_eq!(name_width(&out2), 5);
}

#[test]
fn name_column() {
    assert_eq!(plain_prefix("ab", 5, true), "ab    = ");
    assert_eq!(plain_prefix("ab", 5, false), "   ab = ");
    assert_eq!(plain_prefix("long_name", 3, true), "long_name = ");
}

#[test]
fn variable_colours_by_case() {
    let mut m = ColorMap::new();
    m.insert("PATH", "green");
    m.insert("java_home", "blue");
    assert_eq!(var_color(&m, "Path"), Some("green".to_string()));
    assert_eq!(var_color(&m, "JAVA_HOME"), Some("blue".to_string()));
    assert_eq!(var_color(&m, "TEMP"), None);
    assert_eq!(paint("x", "red"), "\x1b[31mx\x1b[0m");
    assert_eq!(paint("x", "38;5;1"), "\x1b[38;5;1mx\x1b[0m");
}

#[test]
fn path_listing() {
    assert_eq!(path_entries("C:\\a;;C:\\b;"), vec!["C:\\a".to_string(), "C:\\b".to_string()]);
    assert_eq!(sanitize_path(" \"C:\\x\" "), "C:\\x");
    assert_eq!(sanitize_path("C:\\x\\"), "C:\\x\\");
}

fn tag(paths: &[&str], vars: &[(&str, &str)]) -> TagDef {
    let mut t = TagDef::new();
    for p in paths {
        t.add_path(p);
    }
    for (k, v) in vars {
        t.set_var(k, v);
    }
    t
}

#[test]
fn combined_script() {
    let tags = vec![
        ("py".to_string(), tag(&["C:\\Py", "C:\\Py\\Scripts"], &[("PYTHONUTF8", "1")])),
        ("node".to_string(), tag(&["C:\\node"], &[])),
    ];
    let s = generate_script(&tags).unwrap();
    assert_eq!(
        s,
        "@SET \"PATH=C:\\node;C:\\Py;C:\\Py\\Scripts;%PATH%\" && @SET \"PYTHONUTF8=1\" && @SET \"PROMPT=[py+node] $P$G\""
    );
    let only_vars = vec![("x".to_string(), tag(&[], &[("A", "1"), ("B", "2")]))];
    assert_eq!(generate_script(&only_vars).unwrap(), "@SET \"A=1\" && @SET \"B=2\" && @SET \"PROMPT=[x] $P$G\"");
    assert!(matches!(generate_script(&[]), Err(TagError::NoTags)));
}

#[test]
fn tag_edits() {
    let mut t = TagDef::new();
    t.add_path("C:\\a");
    t.add_path("C:\\b");
    assert_eq!(t.remove_path(0), Ok("C:\\a".to_string()));
    assert_eq!(t.remove_path(5), Err(TagError::PathIndex { count: 1 }));
    assert_eq!(t.set_var("K", "1"), None);
    assert_eq!(t.set_var("K", "2"), Some("1".to_string()));
    assert_eq!(t.var.get("K"), Some("2".to_string()));
    assert!(t.remove_var("K"));
    assert!(!t.remove_var("K"));
    assert_eq!(t.add_alias("Py"), Ok(()));
    assert_eq!(t.add_alias("py"), Err(TagError::AliasExists));
    assert!(t.remove_alias("PY"));
    assert!(t.aliases.is_empty());
    assert!(!t.remove_alias("py"));
    t.set_prompt("$P$G");
    assert_eq!(t.prompt, "$P$G");
    t.clear_prompt();
    assert_eq!(t.prompt, "");
}

#[test]
fn escapes() {
    assert_eq!(esc_bat("100%"), "100%%");
    assert_eq!(esc_ps1("it's"), "it''s");
}

#[test]
fn table_widths() {
    let c = tag_columns(4, 0, 20, 15, false, 120);
    assert_eq!((c.name, c.alias, c.path, c.var), (6, 0, 20, 15));
    let c = tag_columns(12, 0, 50, 50, false, 40);
    assert_eq!((c.name, c.alias, c.path, c.var), (8, 0, 15, 11));
    let c = tag_columns(5, 30, 40, 40, true, 60);
    assert_eq!((c.name, c.alias, c.path, c.var), (6, 10, 21, 15));
    for term_w in 0usize..1036 {
        let c = tag_columns(30, 0, 500, 500, false, term_w);
        let available = term_w.saturating_sub(6);
        let remain = available.saturating_sub(8);
        let pw = (remain as f64 * 0.6).floor() as usize;
        let vw = remain.saturating_sub(pw);
        assert_eq!((c.path, c.var), (pw.max(10), vw.max(8)), "width {}", term_w);
    }
}

#[test]
fn table_measures() {
    let mut a = tag(&["C:\\Python312"], &[("PYTHONUTF8", "1")]);
    a.add_alias("py").unwrap();
    a.add_alias("python").unwrap();
    let b = tag(&[], &[]);
    let rows = vec![("python".to_string(), a), ("x".to_string(), b)];
    assert_eq!(natural_widths(&rows), (6, 10, 12, 12, true));
    assert_eq!(natural_widths(&[]), (6, 0, 0, 0, false));
    let t = tag(&[], &[("b", "2"), ("a", "1"), ("B", "3")]);
    assert_eq!(tag_row_vars(&t), pairs(&[("B", "3"), ("a", "1"), ("b", "2")]));
}
