use aminos::as4::fetch::{kind_url_list, url_type};
use aminos::as4::software::{
    detect_command, fuzzy_matches, parse_registry_output, resolve, DetectConfig, SoftwareEntry, VersionEntry,
};

fn entry(aliases: &[&str]) -> SoftwareEntry {
    SoftwareEntry {
        aliases: aliases.iter().map(|a| a.to_string()).collect(),
        category: None,
        desc: String::new(),
        detect: None,
        versions: Vec::new(),
    }
}

fn version(kinds: &[(&str, &[&str])]) -> VersionEntry {
    VersionEntry {
        registry_version: None,
        urls: kinds.iter().map(|(k, us)| (k.to_string(), us.iter().map(|u| u.to_string()).collect())).collect(),
    }
}

#[test]
fn catalogue_lookup() {
    let all = vec![
        ("7zip".to_string(), entry(&["7-Zip", "sevenzip"])),
        ("everything".to_string(), entry(&["ev"])),
        ("everything-lite".to_string(), entry(&[])),
    ];
    assert_eq!(resolve("7ZIP", &all), Some(("7zip".to_string(), 0)));
    assert_eq!(resolve("7-zip", &all), Some(("7zip".to_string(), 0)));
    assert_eq!(resolve("EV", &all), Some(("everything".to_string(), 1)));
    assert_eq!(resolve("zip", &all), None);
    assert_eq!(fuzzy_matches("ZIP", &all), vec![0]);
    assert_eq!(fuzzy_matches("every", &all), vec![1, 2]);
    assert_eq!(fuzzy_matches("none", &all), Vec::<usize>::new());
}

#[test]
fn install_kind_to_download() {
    let both = version(&[("installer", &["https://a/x.exe"]), ("portable", &["https://a/x.zip", "https://b/x.zip"])]);
    let inst = version(&[("installer", &["https://a/x.msi"])]);
    let none = version(&[]);
    assert_eq!(url_type(&both, false, false), Some("portable"));
    assert_eq!(url_type(&both, false, true), Some("installer"));
    assert_eq!(url_type(&inst, false, false), Some("installer"));
    assert_eq!(url_type(&inst, true, false), Some("portable"));
    assert_eq!(url_type(&none, false, false), None);
    assert_eq!(kind_url_list(&both, "portable"), vec!["https://a/x.zip".to_string(), "https://b/x.zip".to_string()]);
    assert_eq!(kind_url_list(&inst, "portable"), Vec::<String>::new());
}

#[test]
fn registry_query_and_answer() {
    let cmd = detect_command(&DetectConfig { display_name: "7-Zip".to_string(), publisher: None });
    assert!(cmd.starts_with("Get-ItemProperty 'HKLM:\\SOFTWARE\\Microsoft\\Windows\\CurrentVersion\\Uninstall\\*'"));
    assert!(cmd.ends_with("Where-Object { $_.DisplayName -like '*7-Zip*' } | Select-Object -First 1"));

    let out = "\r\nDisplayName     : 7-Zip 23.01 (x64)\r\nDisplayVersion  : 23.01\r\nInstallLocation : C:\\Program Files\\7-Zip\\\r\nUninstallString : \"C:\\Program Files\\7-Zip\\Uninstall.exe\"\r\nPSPath          : Microsoft.PowerShell.Core\\Registry::HKEY\r\n";
    let info = parse_registry_output(out).unwrap();
    assert_eq!(info.display_name, "7-Zip 23.01 (x64)");
    assert_eq!(info.version, "23.01");
    assert_eq!(info.install_path, Some("C:\\Program Files\\7-Zip\\".to_string()));
    assert_eq!(info.uninstall_string, Some("\"C:\\Program Files\\7-Zip\\Uninstall.exe\"".to_string()));
    assert!(parse_registry_output("DisplayVersion : 1.0\n").is_none());
    assert!(parse_registry_output("").is_none());
}
