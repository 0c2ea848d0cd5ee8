use aminos::ss::{is_excluded, match_path as ss_match_path, match_var, plain_lines, sorted_vars, spaced_name};
use aminos::rules::{match_path, pp_entries};
use aminos::window::{
    background_step, center_pos, edge_pos, format_change, local_stamp, nudge_pos, place_window, pos_by_key,
    scroll_pos, Action, Edge, InputEvent, InputState, Key, Placement, Step,
};

#[test]
fn grid_positions() {
    let r = (100, 100, 300, 200);
    assert_eq!(pos_by_key('5', r, 1920, 1080), Some((860, 490)));
    assert_eq!(pos_by_key('1', r, 1920, 1080), Some((0, 980)));
    assert_eq!(pos_by_key('9', r, 1920, 1080), Some((1720, 0)));
    assert_eq!(pos_by_key('x', r, 1920, 1080), None);
    // wider than the screen: the half is rounded toward zero
    assert_eq!(pos_by_key('2', (0, 0, 2003, 10), 2000, 1080), Some((-1, 1070)));
    assert_eq!(center_pos((0, 0, 2001, 10), 2000, 1080), (0, 535));
}

#[test]
fn edges_nudges_scrolls() {
    let r = (10, 20, 110, 220);
    assert_eq!(edge_pos(Edge::Right, r, 1920, 1080), (1820, 20));
    assert_eq!(edge_pos(Edge::Down, r, 1920, 1080), (10, 880));
    assert_eq!(edge_pos(Edge::Left, r, 1920, 1080), (0, 20));
    assert_eq!(edge_pos(Edge::Up, r, 1920, 1080), (10, 0));
    assert_eq!(nudge_pos(r, -10, 0), (0, 20));
    assert_eq!(scroll_pos(r, 3, true), (10, -10));
    assert_eq!(scroll_pos(r, -2, false), (30, 20));
}

#[test]
fn rule_placement() {
    let centred = Placement { left: None, top: None, right: None, bottom: None, center: true };
    assert_eq!(place_window(centred, 1920, 1080, 1728, 972), (96, 54));
    let corner = Placement { left: Some(5), top: None, right: Some(20), bottom: Some(30), center: false };
    assert_eq!(place_window(corner, 1920, 1080, 800, 600), (1100, 450));
}

#[test]
fn change_log_text() {
    assert_eq!(format_change((0, 0, 100, 50), (10, 20, 110, 70)), "(0,0,100x50) -> (10,20,100x50)");
    assert_eq!(format_change((-5, -7, 5, 3), (0, 0, 10, 10)), "(-5,-7,10x10) -> (0,0,10x10)");
    assert_eq!(local_stamp(0), "1970-01-01 08:00:00");
    assert_eq!(local_stamp(1_700_000_000), "2023-11-15 06:13:20");
}

#[test]
fn event_handling() {
    let mut st = InputState::new();
    assert_eq!(st.handle_event(InputEvent::Press(Key::Alt), false), Action::Nothing);
    assert_eq!(st.handle_event(InputEvent::Press(Key::LeftArrow), false), Action::Snap(Edge::Left));
    assert_eq!(st.handle_event(InputEvent::Press(Key::BackQuote), false), Action::Pause);
    assert_eq!(st.handle_event(InputEvent::Press(Key::Num5), false), Action::Nothing);
    // snapping still works while paused
    assert_eq!(st.handle_event(InputEvent::Press(Key::UpArrow), false), Action::Snap(Edge::Up));
    assert_eq!(st.handle_event(InputEvent::Wheel(1), false), Action::Nothing);
    assert_eq!(st.handle_event(InputEvent::Press(Key::BackQuote), false), Action::Resume);
    assert_eq!(st.handle_event(InputEvent::Press(Key::Num5), false), Action::Position('5'));
    assert_eq!(st.handle_event(InputEvent::Wheel(1), false), Action::Zoom(true));
    assert_eq!(st.handle_event(InputEvent::Wheel(-1), false), Action::Zoom(false));
    assert_eq!(st.handle_event(InputEvent::Release(Key::Alt), false), Action::Nothing);
    assert_eq!(st.handle_event(InputEvent::Wheel(1), false), Action::Nothing);
    assert_eq!(st.handle_event(InputEvent::Press(Key::ShiftLeft), false), Action::Nothing);
    assert_eq!(st.handle_event(InputEvent::Wheel(-2), false), Action::Scroll(-2, true));
    assert_eq!(st.handle_event(InputEvent::Release(Key::ShiftLeft), false), Action::Nothing);
    assert_eq!(st.handle_event(InputEvent::Press(Key::ControlRight), false), Action::Nothing);
    assert_eq!(st.handle_event(InputEvent::Wheel(4), false), Action::Scroll(4, false));
    assert_eq!(st.handle_event(InputEvent::Press(Key::Escape), true), Action::Nothing);
    assert_eq!(st.handle_event(InputEvent::Press(Key::Escape), false), Action::Exit);
}

#[test]
fn background_decisions() {
    let big = (0, 0, 1200, 900);
    assert_eq!(background_step(false, "x", "y", big, true, true), Step::Wait);
    assert_eq!(background_step(true, "", "y", big, true, true), Step::Ignore);
    assert_eq!(background_step(true, "Program Manager", "explorer", big, true, true), Step::Whitelisted);
    assert_eq!(background_step(true, "Tiny", "app", (0, 0, 300, 300), true, true), Step::Whitelisted);
    assert_eq!(background_step(true, "复制文件", "explorer", big, true, true), Step::RuleSkipped(true));
    assert_eq!(background_step(true, "project - main.rs", "PyCharm64", big, true, false), Step::Rule(1));
    assert_eq!(background_step(true, "Notepad", "notepad", big, true, true), Step::Center);
    assert_eq!(background_step(true, "Notepad", "notepad", big, false, false), Step::Nothing);
}

#[test]
fn ss_rules_and_hidden_names() {
    assert_eq!(match_var("path"), ("green", "bold"));
    assert_eq!(match_var("wt_session"), ("", "italic"));
    assert_eq!(match_var("nope"), ("", ""));
    assert!(is_excluded("_my_force"));
    assert!(!is_excluded("MY_FORCE"));
    assert_eq!(ss_match_path("C:\\Program Files\\nodejs"), ("cyan", ""));
    assert_eq!(ss_match_path("D:\\mysql-5.7\\bin"), ("lightblue", ""));
    assert_eq!(match_path("D:\\mysql-5.7\\bin"), ("", ""));
    assert_eq!(match_path("c:\\windows\\system32"), ("gray", ""));
    assert_eq!(match_path("\\\\server\\share"), ("", "underline"));
}

#[test]
fn ss_table_and_lines() {
    let vars: Vec<(String, String)> = vec![
        ("b".to_string(), "1".to_string()),
        ("A".to_string(), "2".to_string()),
        ("b".to_string(), "3".to_string()),
        ("=X".to_string(), "4".to_string()),
        ("_MY_FORCE".to_string(), "5".to_string()),
    ];
    let m = sorted_vars(vars);
    assert_eq!(m.entries, vec![("A".to_string(), "2".to_string()), ("b".to_string(), "3".to_string())]);
    assert_eq!(spaced_name("ab", 4, false), "  ab");
    assert_eq!(plain_lines("PATH", "a;b", 6, true), vec!["PATH   = a;".to_string(), "         b".to_string()]);
    assert_eq!(plain_lines("X", "v", 2, false), vec![" X = v".to_string()]);
}

#[test]
fn pp_path_entries() {
    assert_eq!(pp_entries(" C:\\a ;; C:\\b;"), vec!["C:\\a".to_string(), "C:\\b".to_string()]);
}
