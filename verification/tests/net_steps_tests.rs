use aminos::aspkg::url_plan::url_install_plan;
use aminos::net::aria2::{aria2c_args, aria2c_headers};
use aminos::net::ureq::{is_html_content_type, ureq_step, UreqAction, UreqAttempt, UreqEvent};

fn answer(status: u16, ct: &str, cookie: Option<&str>) -> UreqEvent {
    UreqEvent::Answer { status, content_type: ct.to_string(), set_cookie: cookie.map(|c| c.to_string()) }
}

fn retry(a: UreqAction) -> UreqAttempt {
    match a {
        UreqAction::Retry(n) => n,
        _ => panic!("expected a retry"),
    }
}

#[test]
fn html_content_types() {
    assert!(is_html_content_type("text/html; charset=utf-8"));
    assert!(is_html_content_type("text/plain"));
    assert!(!is_html_content_type("application/octet-stream"));
    assert!(!is_html_content_type(""));
}

#[test]
fn cookie_challenge_then_save() {
    let st = UreqAttempt::first("https://x.com/a.zip");
    let n = retry(ureq_step(&st, &answer(200, "text/html", Some("sid=1"))));
    assert_eq!((n.attempt, n.url.as_str(), n.cookie.as_deref()), (1, "https://x.com/a.zip", Some("sid=1")));
    assert!(matches!(ureq_step(&n, &answer(200, "application/zip", None)), UreqAction::Save));
}

#[test]
fn tads_parameter_is_cut_on_the_second_try() {
    let st = UreqAttempt::first("https://x.com/a.exe?tads=9&b=1");
    let n = retry(ureq_step(&st, &answer(200, "text/html", None)));
    assert_eq!((n.attempt, n.url.as_str()), (1, "https://x.com/a.exe?tads=9&b=1"));
    let m = retry(ureq_step(&n, &answer(200, "text/html", None)));
    assert_eq!((m.attempt, m.url.as_str(), m.cookie.is_none()), (2, "https://x.com/a.exe", true));
    let st2 = UreqAttempt { attempt: 1, url: "https://x.com/a.exe?k=1&tads=2".to_string(), cookie: None };
    assert_eq!(retry(ureq_step(&st2, &answer(200, "text/plain", None))).url, "https://x.com/a.exe?k=1");
}

#[test]
fn errors_retry_then_fail() {
    let st = UreqAttempt::first("https://x.com/a.zip");
    let n = retry(ureq_step(&st, &UreqEvent::CallFailed("timeout".to_string())));
    assert_eq!(n.attempt, 1);
    let last = UreqAttempt { attempt: 2, url: "https://x.com/a.zip".to_string(), cookie: None };
    match ureq_step(&last, &answer(404, "text/html", None)) {
        UreqAction::Fail(e) => assert_eq!(e, "HTTP 404 (Content-Type: text/html)"),
        _ => panic!("expected a failure"),
    }
    match ureq_step(&last, &UreqEvent::CallFailed("timeout".to_string())) {
        UreqAction::Fail(e) => assert_eq!(e, "ureq 请求失败: timeout"),
        _ => panic!("expected a failure"),
    }
    let long = "text/html; charset=utf-8; boundary=0123456789abcdefghij";
    match ureq_step(&last, &answer(200, long, Some("c=1"))) {
        UreqAction::Fail(e) => assert_eq!(
            e,
            "服务器返回了 HTML 页面（可能反盗链），HTTP=200 Content-Type=text/html; charset=utf-8; boundary=01234..."
        ),
        _ => panic!("expected a failure"),
    }
}

#[test]
fn url_install_plans() {
    let p = url_install_plan("https://h.com/dl/My-Tool_2.1.ZIP?x=1", false, false);
    assert_eq!(p.filename, "My-Tool_2.1.ZIP");
    assert_eq!(p.ext, "zip");
    assert!(!p.media);
    assert_eq!(p.guessed, "1");
    assert_eq!(p.kind, "portable");
    assert_eq!(p.note, "压缩包 → 便携版");
    let q = url_install_plan("https://h.com/setup.exe", false, true);
    assert_eq!((q.guessed.as_str(), q.kind.as_str(), q.note.as_str()), ("setup", "installer", "可执行文件 → 安装版"));
    let r = url_install_plan("https://h.com/tool", true, false);
    assert_eq!((r.guessed.as_str(), r.kind.as_str(), r.ext.as_str()), ("app", "portable", ""));
    assert!(url_install_plan("https://h.com/a/movie.MP4", false, false).media);
    assert_eq!(url_install_plan("https://h.com/pkg.msi", true, false).kind, "installer");
}

#[test]
fn aria2c_command_parts() {
    let h = aria2c_headers("https://dl.example.com/f/a.zip");
    assert_eq!(h.len(), 4);
    assert!(h[0].starts_with("User-Agent: Mozilla/5.0"));
    assert_eq!(h[1], "Accept: */*");
    assert_eq!(h[3], "Referer: https://dl.example.com/");
    assert_eq!(aria2c_headers("no-scheme").len(), 3);
    let a = aria2c_args(false, true, "D:\\dl", "a.zip");
    assert_eq!(&a[..4], &["-x", "1", "-s", "1"]);
    assert!(a.contains(&"--continue=true".to_string()));
    assert_eq!(&a[a.len() - 4..], &["--dir", "D:\\dl", "--out", "a.zip"]);
    assert_eq!(&aria2c_args(true, false, "d", "o")[..6], &["-x", "16", "-s", "16", "-k", "1M"]);
}
