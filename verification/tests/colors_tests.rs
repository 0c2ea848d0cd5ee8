use aminos::colors::map::{color_name_to_ansi, colors_then_styles, get_matching_color, invert_map, merge_maps, ColorMap};
use aminos::environ::EnvVars;

fn lists(v: &[(&str, &[&str])]) -> Vec<(String, Vec<String>)> {
    v.iter().map(|(c, names)| (c.to_string(), names.iter().map(|n| n.to_string()).collect())).collect()
}

fn map_of(pairs: &[(&str, &str)]) -> ColorMap {
    let mut m = ColorMap::new();
    for (k, v) in pairs {
        m.insert(k, v);
    }
    m
}

fn e_config(vars: &[(&str, &[&str])], styles: &[(&str, &[&str])], paths: &[(&str, &[&str])]) -> aminos::colors::e::EConfig {
    aminos::colors::e::EConfig {
        variables: lists(vars),
        variable_styles: lists(styles),
        exclude: vec!["SECRET".to_string()],
        paths: lists(paths),
        path_styles: Vec::new(),
    }
}

#[test]
fn colour_map_edits() {
    let mut m = map_of(&[("A", "red"), ("B", "blue")]);
    assert!(m.contains_key("A"));
    m.insert("A", "green");
    assert_eq!(m.get("A"), Some("green".to_string()));
    assert_eq!(m.entries.len(), 2);
    assert!(m.remove("B"));
    assert!(!m.remove("B"));
    assert_eq!(m.get("B"), None);
}

#[test]
fn inverted_lists_and_merges() {
    let inv = invert_map(&lists(&[("red", &["X", "Y"]), ("blue", &["Y"])]));
    assert_eq!(inv.get("X"), Some("red".to_string()));
    assert_eq!(inv.get("Y"), Some("blue".to_string()));
    let merged = merge_maps(map_of(&[("X", "gray"), ("Z", "cyan")]), &map_of(&[("X", "red")]));
    assert_eq!(merged.get("X"), Some("red".to_string()));
    assert_eq!(merged.get("Z"), Some("cyan".to_string()));
    let both = colors_then_styles(map_of(&[("X", "red")]), &map_of(&[("X", "bold"), ("W", "italic")]));
    assert_eq!(both.get("X"), Some("red".to_string()));
    assert_eq!(both.get("W"), Some("italic".to_string()));
}

#[test]
fn colour_names() {
    assert_eq!(color_name_to_ansi("LightRed"), Some("91"));
    assert_eq!(color_name_to_ansi("strikethrough"), Some("9"));
    assert_eq!(color_name_to_ansi("magenta"), None);
}

#[test]
fn e_colours_from_defaults_and_configuration() {
    let d = aminos::colors::e::default_variable_colors();
    assert_eq!(d.get("PATH"), Some("cyan".to_string()));
    assert_eq!(d.get("TERM"), Some("lightblue".to_string()));
    assert_eq!(d.entries.len(), 25);
    assert_eq!(aminos::colors::e::default_path_colors().entries.len(), 12);

    let cfg = e_config(&[("red", &["PATH", "FOO"])], &[("bold", &["FOO", "BAR"])], &[("purple", &["D:\\tools*"])]);
    let vars = aminos::colors::e::get_variable_color_map(&cfg);
    assert_eq!(vars.get("PATH"), Some("red".to_string()));
    assert_eq!(vars.get("FOO"), Some("red".to_string()));
    assert_eq!(vars.get("BAR"), Some("bold".to_string()));
    assert_eq!(vars.get("HOME"), Some("cyan".to_string()));
    assert_eq!(aminos::colors::e::get_exclude_set(&cfg), vec!["SECRET".to_string()]);

    let paths = aminos::colors::e::get_path_color_map(&cfg);
    assert_eq!(get_matching_color("C:\\Program Files\\Git\\cmd", &paths), Some("lightred".to_string()));
    assert_eq!(get_matching_color("c:\\users\\me\\appdata\\local\\x", &paths), Some("gray".to_string()));
    assert_eq!(get_matching_color("D:\\Tools\\bin", &paths), Some("purple".to_string()));
    assert_eq!(get_matching_color("E:\\other", &paths), None);
    assert!(aminos::colors::e::wildmatch("*\\git\\*", "C:\\Program Files\\Git\\cmd"));

    assert_eq!(aminos::colors::e::get_config_path(Some("C:\\tools")), "C:\\tools\\e.yaml");
    assert_eq!(aminos::colors::e::get_config_path(None), "e.yaml");
}

#[test]
fn env_configuration_files() {
    let env = EnvVars { vars: vec![("LOCALAPPDATA".to_string(), "C:\\L".to_string())] };
    assert_eq!(aminos::colors::env::get_config_dir(&env), "C:\\L\\e");
    assert_eq!(aminos::colors::env::get_config_path(&env), "C:\\L\\e\\e.yaml");
    assert_eq!(aminos::colors::env::get_config_dir(&EnvVars { vars: Vec::new() }), ".\\e");

    let yaml = aminos::colors::env::generate_default_yaml();
    let v: serde_yaml::Value = serde_yaml::from_str(&yaml).unwrap();
    let gray = v["variables"]["gray"].as_sequence().unwrap();
    assert_eq!(gray[0].as_str(), Some("SYSTEMDRIVE"));
    assert_eq!(v["paths"]["gray"][0].as_str(), Some("C:\\Windows*"));

    let d = aminos::colors::env::default_variable_colors();
    assert_eq!(d.get("JAVA_HOME"), Some("blue".to_string()));
    assert_eq!(aminos::colors::env::sanitize_path("  \"C:\\My Dir\\\"  "), "C:\\My Dir\\");
}
