use aminos::aspkg::locate::{
    acf_installdir, parent_of, resolve_path, resolve_via_start_menu, steam_appid, steam_game_path, steam_manifest_path,
    steam_request, StartMenuIndex,
};
use aminos::environ::EnvVars;

fn index() -> StartMenuIndex {
    let e = |k: &str, ts: &[&str]| (k.to_string(), ts.iter().map(|t| t.to_string()).collect::<Vec<String>>());
    vec![
        e("python 3.14 (64-bit) manual", &["C:\\Windows"]),
        e("python 3.14 (64-bit)", &["C:\\Python314\\"]),
        e("git bash", &["C:\\Program Files\\Git\\"]),
        e("vlc media player", &["\"D:\\VLC\""]),
        e("pygame", &["C:\\"]),
    ]
}

fn chars(s: &str) -> Vec<char> {
    s.chars().collect()
}

#[test]
fn steam_commands() {
    assert_eq!(
        steam_request("\"C:\\Program Files (x86)\\Steam\\steam.exe\" uninstall_app 322330"),
        Some(("C:\\Program Files (x86)\\Steam".to_string(), 322330))
    );
    assert_eq!(steam_request("C:\\Steam\\steam.exe steam://uninstall/570"), Some(("C:\\Steam".to_string(), 570)));
    assert_eq!(steam_request("C:\\Apps\\unins000.exe"), None);
    assert_eq!(steam_request("\"C:\\Steam\\steam.exe\" uninstall_app"), None);
    assert_eq!(steam_appid(&chars("x 12a 7")), Some(7));
    assert_eq!(steam_appid(&chars("\"steam://uninstall/42x\"")), Some(42));
    assert_eq!(steam_manifest_path("C:\\Steam", 570), "C:\\Steam\\steamapps\\appmanifest_570.acf");
}

#[test]
fn steam_manifests() {
    let acf = "\"AppState\"\n{\n\t\"appid\"\t\t\"570\"\n\t\"InstallDir\"\t\t\"dota 2 beta\"\n}\n";
    // The text after the third quote is kept whole, closing quote included.
    assert_eq!(acf_installdir(acf), Some("dota 2 beta\"".to_string()));
    assert_eq!(acf_installdir("\"AppState\"\n{\n}\n"), None);
    assert_eq!(
        steam_game_path("C:\\Steam", "dota 2 beta"),
        Some("C:\\Steam\\steamapps\\common\\dota 2 beta".to_string())
    );
    assert_eq!(steam_game_path("C:\\Steam", "{odd}"), None);
    assert_eq!(parent_of(&chars("C:\\Apps\\Foo\\unins000.exe")), Some(chars("C:\\Apps\\Foo")));
}

#[test]
fn start_menu_lookups() {
    let idx = index();
    assert_eq!(resolve_via_start_menu("python3.14", Some("3.14.5150.0"), &idx), "C:\\Python314");
    assert_eq!(resolve_via_start_menu("git", None, &idx), "C:\\Program Files\\Git");
    assert_eq!(resolve_via_start_menu("VLC", None, &idx), "D:\\VLC");
    assert_eq!(resolve_via_start_menu("pyg", None, &idx), "-");
    assert_eq!(resolve_via_start_menu("nothing", None, &idx), "-");
}

#[test]
fn install_folders() {
    let idx = index();
    let env = EnvVars { vars: vec![("ProgramData".to_string(), "C:\\ProgramData".to_string())] };
    assert_eq!(resolve_path("tool", None, Some("  \"C:\\Apps\\Tool\\\"  "), None, &idx, &env, None), "C:\\Apps\\Tool");
    assert_eq!(
        resolve_path("git", None, Some("C:\\ProgramData\\Package Cache\\x"), None, &idx, &env, None),
        "C:\\Program Files\\Git"
    );
    assert_eq!(
        resolve_path(
            "game-x",
            None,
            None,
            Some("\"C:\\Steam\\steam.exe\" uninstall_app 9"),
            &idx,
            &env,
            Some("C:\\Steam\\steamapps\\common\\Game\\")
        ),
        "C:\\Steam\\steamapps\\common\\Game"
    );
    assert_eq!(
        resolve_path("foo2", None, None, Some("\"C:\\Apps\\Foo\\unins000.exe\" /S"), &idx, &env, None),
        "C:\\Apps\\Foo"
    );
    assert_eq!(
        resolve_path("bar", None, None, Some("%ProgramFiles%\\Bar\\uninst.exe /quiet"), &idx, &env, None),
        "C:\\Program Files\\Bar"
    );
    assert_eq!(
        resolve_path("baz", None, None, Some("%ProgramData%\\Baz\\u.exe"), &idx, &env, None),
        "C:\\ProgramData\\Baz"
    );
    assert_eq!(resolve_path("m", None, None, Some("MsiExec.exe /X{1234}"), &idx, &env, None), "-");
    assert_eq!(resolve_path("m", None, None, Some("   "), &idx, &env, None), "-");
}
