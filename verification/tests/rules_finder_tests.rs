use aminos::environ::EnvVars;
use aminos::rules::{
    is_rule_skipped, is_whitelisted, match_rule, rule_skip_entries, size_filters, whitelist_entries, window_rule_keys,
};
use aminos::sys::finder::Tool;

fn env(pairs: &[(&str, &str)]) -> EnvVars {
    EnvVars { vars: pairs.iter().map(|(k, v)| (k.to_string(), v.to_string())).collect() }
}

#[test]
fn window_tables() {
    assert_eq!(whitelist_entries().len(), 22);
    assert_eq!(rule_skip_entries().len(), 3);
    let f = size_filters();
    assert_eq!((f[0].min_width, f[0].max_width, f[0].min_height, f[0].max_height), (0, 400, 0, 400));
    assert_eq!(window_rule_keys()[1].title, "*");
}

#[test]
fn whitelist_and_skip_list() {
    let big = (0, 0, 1200, 900);
    assert!(is_whitelisted("Program Manager", "anything", big));
    assert!(is_whitelisted("企业微信 - 消息", "wxwork", big));
    assert!(!is_whitelisted("企业微信", "notepad", big));
    assert!(is_whitelisted("Editor", "code", (100, 100, 500, 500)));
    assert!(!is_whitelisted("Editor", "code", (100, 100, 501, 500)));
    assert!(is_rule_skipped("正在复制文件...", "Explorer"));
    assert!(!is_rule_skipped("复制文件", "cmd"));
    assert_eq!(match_rule("欢迎访问 PyCharm", "pycharm64"), Some(0));
    assert_eq!(match_rule("project", "PYCHARM64"), Some(1));
    assert_eq!(match_rule("project", "idea64"), None);
}

#[test]
fn tool_lookup_places() {
    let e = env(&[
        ("AMINOS_CURL_PATH", "D:\\bin\\curl.exe"),
        ("LOCALAPPDATA", "C:\\L"),
        ("USERPROFILE", "C:\\Users\\me"),
        ("PATH", "C:\\a;C:\\b\\"),
    ]);
    assert_eq!(
        Tool::Curl.candidates(&e, Some("E:\\app")),
        vec![
            "D:\\bin\\curl.exe",
            "C:\\L\\aminos\\tools\\curl\\curl.exe",
            "E:\\app\\curl.exe",
            "C:\\Users\\me\\Desktop\\curl.exe",
            "C:\\a\\curl.exe",
            "C:\\b\\curl.exe",
        ]
    );
    assert_eq!(Tool::SevenZip.candidates(&env(&[]), None), Vec::<String>::new());
    assert_eq!(Tool::Aria2c.exe_name(), "aria2c.exe");
    assert_eq!(Tool::SevenZip.env_var(), "AMINOS_7Z_PATH");
    let all = Tool::list_all(vec![Some("x".to_string()), None, Some("z".to_string())]);
    assert_eq!(all[0], (Tool::Aria2c, Some("x".to_string())));
    assert_eq!(all[1], (Tool::Curl, None));
    assert_eq!(all[2].0, Tool::SevenZip);
}
