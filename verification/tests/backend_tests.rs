use aminos::net::agent::{host_of, AgentConfig, Fingerprint};
use aminos::net::backend::{
    available, backend_binary_path, backend_description, backend_is_available, backend_is_builtin,
    backend_supports_range, by_id, ordered, sort_by_priority, with_default_backends, BackendKind, Platform, ToolProbe,
};
use aminos::net::config::{
    add_missing_defaults, default_settings, default_strategies, find_backend_name, set_backend_enabled,
    settings_from_config, Strategy, UnknownBackend,
};

const RANGE: BackendKind = BackendKind::RustRange { threads: 16, resume: true };

fn strategy(name: &str, enabled: bool) -> Strategy {
    Strategy { name: name.to_string(), enabled, threads: None, resume: None }
}

#[test]
fn backend_names_and_labels() {
    assert_eq!(BackendKind::UreqInsecure.id(), "rust-ureq(insecure)");
    assert_eq!(BackendKind::UreqInsecure.display_name(), "rust-ureq(ins)");
    assert_eq!(BackendKind::Bits.display_name(), "bits");
    assert_eq!(RANGE.priority(), 2);
    assert_eq!(BackendKind::Curl.priority(), 8);
    assert_eq!(BackendKind::Aria2c.thread_label(), "多线程");
    assert_eq!(BackendKind::Curl.thread_label(), "单线程");
    assert!(BackendKind::Ureq.shows_progress());
    assert!(!BackendKind::Bits.shows_progress());
    assert_eq!(BackendKind::PowerShell.supported_platforms(), vec![Platform::Windows]);
    assert_eq!(BackendKind::Curl.supported_platforms(), vec![Platform::Windows, Platform::Linux, Platform::Macos]);
    assert_eq!(Platform::current("linux"), vec![Platform::Linux]);
    assert_eq!(Platform::current("freebsd"), Vec::<Platform>::new());
}

#[test]
fn default_backends_are_sorted_by_priority() {
    assert_eq!(
        with_default_backends(),
        vec![
            BackendKind::Aria2c,
            RANGE,
            BackendKind::Ureq,
            BackendKind::UreqInsecure,
            BackendKind::PowerShell,
            BackendKind::PowerShellInvoke,
            BackendKind::Bits,
            BackendKind::Curl,
        ]
    );
    let mixed = vec![BackendKind::Curl, BackendKind::Ureq, RANGE, BackendKind::Aria2c];
    assert_eq!(sort_by_priority(&mixed), vec![BackendKind::Aria2c, RANGE, BackendKind::Ureq, BackendKind::Curl]);
}

#[test]
fn try_order_and_health() {
    let all = with_default_backends();
    let linux = vec![Platform::Linux];
    assert_eq!(
        ordered(&all, &linux),
        vec![BackendKind::Aria2c, RANGE, BackendKind::Ureq, BackendKind::UreqInsecure, BackendKind::Curl]
    );
    let windows = vec![Platform::Windows];
    let some = vec![BackendKind::Curl, BackendKind::Bits, BackendKind::Ureq];
    assert_eq!(ordered(&some, &windows), vec![BackendKind::Ureq, BackendKind::Bits, BackendKind::Curl]);
    let healthy = vec![true, false, true];
    assert_eq!(available(&some, &windows, &healthy), vec![BackendKind::Curl, BackendKind::Ureq]);
    assert_eq!(available(&some, &linux, &healthy), vec![BackendKind::Curl, BackendKind::Ureq]);
    assert_eq!(by_id(&all, "curl"), Some(7));
    assert_eq!(by_id(&all, "rust-range"), Some(1));
    assert_eq!(by_id(&all, "wget"), None);
}

#[test]
fn backend_metadata_by_name() {
    assert!(backend_is_builtin("rust-ureq(insecure)"));
    assert!(!backend_is_builtin("curl"));
    assert!(backend_supports_range("bits"));
    assert!(!backend_supports_range("rust-ureq"));
    assert_eq!(backend_description("nothing"), "");
    assert!(backend_description("curl").starts_with("调用系统 curl.exe 下载"));
    let probe = ToolProbe {
        aria2c_in_tools: false,
        aria2c_path: Some("D:\\bin\\aria2c.exe".to_string()),
        powershell_on_path: None,
        powershell_default_exists: true,
        curl_on_path: Some("C:\\Windows\\System32\\curl.exe".to_string()),
        curl_default_exists: true,
    };
    assert!(backend_is_available("rust-range", &probe));
    assert!(!backend_is_available("aria2c", &probe));
    assert!(backend_is_available("bits", &probe));
    assert!(backend_is_available("Curl", &probe));
    assert!(backend_is_available("curl", &probe));
    assert!(!backend_is_available("wget", &probe));
    assert_eq!(backend_binary_path("rust-ureq", &probe), None);
    assert_eq!(backend_binary_path("aria2c", &probe), Some("D:\\bin\\aria2c.exe".to_string()));
    assert_eq!(
        backend_binary_path("ps-invoke", &probe),
        Some("C:\\Windows\\System32\\WindowsPowerShell\\v1.0\\powershell.exe".to_string())
    );
    assert_eq!(backend_binary_path("curl", &probe), Some("C:\\Windows\\System32\\curl.exe".to_string()));
}

#[test]
fn strategy_edits() {
    let states = vec![("Aria2c".to_string(), true, None), ("curl".to_string(), false, None)];
    assert_eq!(find_backend_name("ARIA2C", &states), "Aria2c");
    assert_eq!(find_backend_name("bits", &states), "bits");

    let mut s = vec![strategy("aria2c", true), strategy("curl", true)];
    assert_eq!(set_backend_enabled(&mut s, "CURL", false), Ok(()));
    assert!(!s[1].enabled);
    assert_eq!(set_backend_enabled(&mut s, "wget", false), Err(UnknownBackend));

    let mut partial = vec![strategy("curl", false)];
    assert!(add_missing_defaults(&mut partial));
    assert_eq!(partial.len(), 8);
    assert_eq!(partial[0].name, "curl");
    assert!(!partial[0].enabled);
    assert_eq!(partial[1].name, "aria2c");
    assert_eq!(partial[2].threads, Some(16));
    let mut full = default_strategies();
    assert!(!add_missing_defaults(&mut full));
    assert_eq!(full.len(), 8);
}

#[test]
fn settings_from_the_configuration() {
    let s = vec![strategy("curl", true), strategy("aria2c", true), strategy("RustSingle", true), strategy("bits", false)];
    let r = settings_from_config(&s, Some(100), Some(false), None);
    assert_eq!(r.backends, vec![BackendKind::Aria2c, BackendKind::Curl]);
    assert_eq!(r.max_concurrent, 64);
    assert!(!r.verify);
    assert!(r.resume);
    let r0 = settings_from_config(&s, Some(0), None, None);
    assert_eq!(r0.max_concurrent, 1);
    let none = vec![strategy("curl", false)];
    let d = settings_from_config(&none, Some(3), Some(false), Some(false));
    assert_eq!(d.max_concurrent, 16);
    assert!(d.verify && d.resume);
    assert_eq!(d.backends, default_settings().backends);
    let threads = vec![Strategy { name: "rust-range".to_string(), enabled: true, threads: Some(4), resume: Some(false) }];
    assert_eq!(
        settings_from_config(&threads, None, None, None).backends,
        vec![BackendKind::RustRange { threads: 4, resume: false }]
    );
}

#[test]
fn request_headers() {
    assert!(Fingerprint::Firefox.user_agent().contains("Firefox/134.0"));
    assert_eq!(Fingerprint::Custom { ua: "x", accept: "y" }.accept(), "y");
    assert_eq!(host_of("https://dl.google.com/a/b.exe"), "dl.google.com");
    assert_eq!(host_of("no-scheme/path"), "");
    let cfg = AgentConfig::normal(5, 7);
    assert_eq!((cfg.connect_timeout, cfg.read_timeout, cfg.insecure), (5, 7, false));
    let h = cfg.browser_headers("https://dl.google.com/x.exe");
    assert_eq!(h[0], ("Accept", "*/*".to_string()));
    assert_eq!(h[2].0, "Sec-Ch-Ua");
    assert_eq!(h.last().unwrap(), &("Referer", "https://www.google.com/".to_string()));
    let other = cfg.browser_headers("https://example.org/f.zip");
    assert_eq!(other.last().unwrap(), &("Referer", "https://example.org/".to_string()));
    let firefox = AgentConfig { fingerprint: Fingerprint::Firefox, ..AgentConfig::default_config() };
    let fh = firefox.browser_headers("file.zip");
    assert_eq!(fh.len(), 10);
    assert!(fh.iter().all(|(n, _)| *n != "Referer" && *n != "Sec-Ch-Ua"));
    let flat = cfg.flat_headers("https://example.org/f.zip");
    assert_eq!(flat[0], "Accept: */*");
}
