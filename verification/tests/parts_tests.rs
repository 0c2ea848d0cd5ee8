use aminos::aspkg::list::{map_registry_version, registry_shadows, version_sign};
use aminos::aspkg::software::{SoftwareEntry, VersionEntry};
use aminos::environ::EnvVars;
use aminos::ls::config::SizeRule;
use aminos::ls::display::{dotted_extension, get_size_style};
use aminos::text::{parse_i64, parse_u64};
use aminos::window::{key_to_num, on_keypress, on_scroll, Action, Key};

fn chars(s: &str) -> Vec<char> {
    s.chars().collect()
}

fn rule(max: i64, color: &str, mode: &str) -> SizeRule {
    SizeRule { max, color: color.to_string(), mode: mode.to_string() }
}

#[test]
fn number_keys_and_shortcuts() {
    assert_eq!(key_to_num(Key::Num5), Some('5'));
    assert_eq!(key_to_num(Key::Num9), Some('9'));
    assert_eq!(key_to_num(Key::LeftArrow), None);
    assert_eq!(on_keypress(Key::Num3, true, false), Action::Position('3'));
    assert_eq!(on_keypress(Key::LeftArrow, true, false), Action::Nudge(-10, 0));
    assert_eq!(on_keypress(Key::DownArrow, true, false), Action::Nudge(0, 10));
    assert_eq!(on_keypress(Key::RightArrow, true, true), Action::ScaleWidth(true));
    assert_eq!(on_keypress(Key::UpArrow, true, true), Action::ScaleHeight(true));
    assert_eq!(on_keypress(Key::Num3, false, false), Action::Nothing);
    assert_eq!(on_keypress(Key::Num3, true, true), Action::Nothing);
}

#[test]
fn wheel_turns() {
    assert_eq!(on_scroll(true, true, true, 2), Action::Zoom(true));
    assert_eq!(on_scroll(true, false, false, -1), Action::Zoom(false));
    assert_eq!(on_scroll(false, true, true, -3), Action::Scroll(-3, true));
    assert_eq!(on_scroll(false, false, true, 4), Action::Scroll(4, false));
    assert_eq!(on_scroll(false, false, false, 4), Action::Nothing);
}

#[test]
fn extensions_with_their_dot() {
    assert_eq!(dotted_extension("notes.TXT"), ".TXT");
    assert_eq!(dotted_extension("archive.tar.gz"), ".gz");
    assert_eq!(dotted_extension(".bashrc"), "");
    assert_eq!(dotted_extension("Makefile"), "");
    assert_eq!(dotted_extension(".."), "");
    assert_eq!(dotted_extension("trailing."), ".");
}

#[test]
fn size_styles_take_the_first_rule() {
    let rules = vec![rule(1024, "90", "full"), rule(1048576, "90", "unit"), rule(-1, "91", "full")];
    let s = get_size_style(500, &rules);
    assert_eq!((s.color.as_str(), s.mode.as_str()), ("90", "full"));
    let s = get_size_style(1024, &rules);
    assert_eq!((s.color.as_str(), s.mode.as_str()), ("90", "unit"));
    let s = get_size_style(5_000_000_000, &rules);
    assert_eq!((s.color.as_str(), s.mode.as_str()), ("91", "full"));
    let s = get_size_style(10, &Vec::new());
    assert_eq!((s.color.as_str(), s.mode.as_str()), ("37", "full"));
}

#[test]
fn integer_text() {
    assert_eq!(parse_u64(&chars("+42")), Some(42));
    assert_eq!(parse_u64(&chars("18446744073709551615")), Some(u64::MAX));
    assert_eq!(parse_u64(&chars("18446744073709551616")), None);
    assert_eq!(parse_u64(&chars("-1")), None);
    assert_eq!(parse_u64(&chars("")), None);
    assert_eq!(parse_u64(&chars("+")), None);
    assert_eq!(parse_i64(&chars("-9223372036854775808")), Some(i64::MIN));
    assert_eq!(parse_i64(&chars("9223372036854775808")), None);
    assert_eq!(parse_i64(&chars("+7")), Some(7));
    assert_eq!(parse_i64(&chars("1a")), None);
}

#[test]
fn version_signs_pad_with_zeros() {
    assert_eq!(version_sign(&[1, 2], &[1, 2, 0]), 0);
    assert_eq!(version_sign(&[1, 10], &[1, 9]), 1);
    assert_eq!(version_sign(&[1], &[1, 0, 1]), -1);
    assert_eq!(version_sign(&[], &[]), 0);
}

#[test]
fn registry_names_shadow_either_way() {
    let names = vec!["Git version 2.45".to_string(), "Python 3.12.1 (64-bit)".to_string()];
    assert!(registry_shadows("git", &names));
    assert!(registry_shadows("PYTHON 3.12.1 (64-BIT) extra", &vec!["python".to_string()]));
    assert!(!registry_shadows("node", &names));
    assert!(!registry_shadows("git", &Vec::new()));
}

#[test]
fn registry_versions_map_to_keys() {
    let e = SoftwareEntry {
        aliases: vec!["python".to_string()],
        category: None,
        detect: None,
        versions: vec![
            (
                "3.14.5".to_string(),
                VersionEntry { registry_version: Some("3.14.5150.0".to_string()), urls: Vec::new() },
            ),
            ("3.13".to_string(), VersionEntry { registry_version: None, urls: Vec::new() }),
        ],
    };
    assert_eq!(map_registry_version(Some(&e), "3.14.5150.0"), Some("3.14.5".to_string()));
    assert_eq!(map_registry_version(Some(&e), "3.13.2"), Some("3.13".to_string()));
    assert_eq!(map_registry_version(Some(&e), "2.7"), None);
    assert_eq!(map_registry_version(None, "3.13.2"), None);
}

#[test]
fn empty_environment_has_no_variables() {
    let env = EnvVars::empty();
    assert!(env.vars.is_empty());
    assert_eq!(env.get("PATH"), None);
}
