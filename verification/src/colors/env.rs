//! Colour configuration of `env` (its `e.yaml` in the local application data).

use vstd::prelude::*;
use crate::colors::map::{
    ColorMap, invert_map, invert_upto, lists_view, merge_maps, colors_then_styles,
};
use crate::glob::wildmatch_spec;
use crate::environ::EnvVars;
use crate::config::paths::{join_path, join_spec};

verus! {

/// The colour configuration file: "colour: [names]" lists for variables and
/// for PATH entries (colours, then styles), and variables to hide.
pub struct EConfig {
    pub variables: Vec<(String, Vec<String>)>,
    pub variable_styles: Vec<(String, Vec<String>)>,
    pub exclude: Vec<String>,
    pub paths: Vec<(String, Vec<String>)>,
    pub path_styles: Vec<(String, Vec<String>)>,
}

/// The map a pair of "colour: [names]" lists gives: colours win over styles.
pub open spec fn lists_map(colors: Seq<(String, Vec<String>)>, styles: Seq<(String, Vec<String>)>) -> Map<Seq<char>, Seq<char>> {
    invert_upto(lists_view(styles), styles.len() as int).union_prefer_right(
        invert_upto(lists_view(colors), colors.len() as int),
    )
}

fn lists_to_map(colors: &Vec<(String, Vec<String>)>, styles: &Vec<(String, Vec<String>)>) -> (r: ColorMap)
    ensures
        r.wf(),
        r.view_map() == lists_map(colors@, styles@),
{
    let c = invert_map(colors);
    let s = invert_map(styles);
    colors_then_styles(c, &s)
}

/// Built-in colours of environment variables.
pub open spec fn variable_defaults() -> Map<Seq<char>, Seq<char>> {
    map![
        "SYSTEMDRIVE"@ => "gray"@,
        "SYSTEMROOT"@ => "gray"@,
        "TEMP"@ => "gray"@,
        "TMP"@ => "gray"@,
        "USERNAME"@ => "gray"@,
        "USERPROFILE"@ => "gray"@,
        "COMSPEC"@ => "gray"@,
        "PROMPT"@ => "gray"@,
        "CONDA_HOME"@ => "green"@,
        "MYSQL_HOME"@ => "lightblue"@,
        "NVM_HOME"@ => "lightcyan"@,
        "NVM_SYMLINK"@ => "lightcyan"@,
        "ENV"@ => "purple"@,
        "ENV_PATH"@ => "purple"@,
        "KMP_DUPLICATE_LIB_OK"@ => "purple"@,
        "REDIS_HOME"@ => "red"@,
        "PYTHON_HOME"@ => "lightyellow"@,
        "JAVA_HOME"@ => "blue"@,
        "GOPATH"@ => "blue"@,
        "SHADOWBOT_CULTURE"@ => "lightred"@,
        "SHADOWBOT_ROOT_X64"@ => "lightred"@,
        "RUSTUP_UPDATE_ROOT"@ => "lightpurple"@,
        "RUSTUP_DIST_SERVER"@ => "lightpurple"@
    ]
}

/// The built-in colours of environment variables.
pub fn default_variable_colors() -> (r: ColorMap)
    ensures
        r.wf(),
        r.view_map() == variable_defaults(),
{
    let mut m = ColorMap::new();
    m.insert("SYSTEMDRIVE", "gray");
    m.insert("SYSTEMROOT", "gray");
    m.insert("TEMP", "gray");
    m.insert("TMP", "gray");
    m.insert("USERNAME", "gray");
    m.insert("USERPROFILE", "gray");
    m.insert("COMSPEC", "gray");
    m.insert("PROMPT", "gray");
    m.insert("CONDA_HOME", "green");
    m.insert("MYSQL_HOME", "lightblue");
    m.insert("NVM_HOME", "lightcyan");
    m.insert("NVM_SYMLINK", "lightcyan");
    m.insert("ENV", "purple");
    m.insert("ENV_PATH", "purple");
    m.insert("KMP_DUPLICATE_LIB_OK", "purple");
    m.insert("REDIS_HOME", "red");
    m.insert("PYTHON_HOME", "lightyellow");
    m.insert("JAVA_HOME", "blue");
    m.insert("GOPATH", "blue");
    m.insert("SHADOWBOT_CULTURE", "lightred");
    m.insert("SHADOWBOT_ROOT_X64", "lightred");
    m.insert("RUSTUP_UPDATE_ROOT", "lightpurple");
    m.insert("RUSTUP_DIST_SERVER", "lightpurple");
    m
}

/// Built-in colours of PATH entry patterns.
pub open spec fn path_defaults() -> Map<Seq<char>, Seq<char>> {
    map![
        "C:\\Windows*"@ => "gray"@,
        "*\\Notepad_file\\*"@ => "lightgreen"@,
        "*\\Program Files\\Git\\cmd"@ => "yellow"@,
        "*\\AppData\\Local\\Microsoft\\WindowsApps"@ => "yellow"@,
        "*\\Scripts"@ => "lightyellow"@,
        "*\\AppData\\Local\\Programs\\Python\\*"@ => "lightyellow"@,
        "*\\Anaconda3\\envs\\*"@ => "green"@,
        "*\\Anaconda3\\condabin"@ => "green"@,
        "*\\miniconda3\\condabin"@ => "green"@,
        "*\\AppData\\Roaming\\nvm"@ => "lightcyan"@,
        "*\\AppData\\Local\\nvm"@ => "lightcyan"@,
        "C:\\Program Files\\nodejs"@ => "cyan"@,
        "*\\nvm_nodejs"@ => "cyan"@,
        "*\\nvm\\*"@ => "cyan"@,
        "*\\mysql-8.0.35-winx64\\bin"@ => "lightblue"@,
        "*\\Program Files\\ShadowBot"@ => "lightred"@
    ]
}

/// The built-in colours of PATH entry patterns.
pub fn default_path_colors() -> (r: ColorMap)
    ensures
        r.wf(),
        r.view_map() == path_defaults(),
{
    let mut m = ColorMap::new();
    m.insert("C:\\Windows*", "gray");
    m.insert("*\\Notepad_file\\*", "lightgreen");
    m.insert("*\\Program Files\\Git\\cmd", "yellow");
    m.insert("*\\AppData\\Local\\Microsoft\\WindowsApps", "yellow");
    m.insert("*\\Scripts", "lightyellow");
    m.insert("*\\AppData\\Local\\Programs\\Python\\*", "lightyellow");
    m.insert("*\\Anaconda3\\envs\\*", "green");
    m.insert("*\\Anaconda3\\condabin", "green");
    m.insert("*\\miniconda3\\condabin", "green");
    m.insert("*\\AppData\\Roaming\\nvm", "lightcyan");
    m.insert("*\\AppData\\Local\\nvm", "lightcyan");
    m.insert("C:\\Program Files\\nodejs", "cyan");
    m.insert("*\\nvm_nodejs", "cyan");
    m.insert("*\\nvm\\*", "cyan");
    m.insert("*\\mysql-8.0.35-winx64\\bin", "lightblue");
    m.insert("*\\Program Files\\ShadowBot", "lightred");
    m
}

/// Colours of environment variables: the built-in ones with the
/// configuration's laid over them.
pub fn get_variable_color_map(cfg: &EConfig) -> (r: ColorMap)
    ensures
        r.wf(),
        r.view_map() == variable_defaults().union_prefer_right(lists_map(cfg.variables@, cfg.variable_styles@)),
{
    let yaml = lists_to_map(&cfg.variables, &cfg.variable_styles);
    merge_maps(default_variable_colors(), &yaml)
}

/// Variables the configuration hides.
pub fn get_exclude_set(cfg: &EConfig) -> (r: Vec<String>)
    ensures
        r@.map_values(|s: String| s@) == cfg.exclude@.map_values(|s: String| s@),
{
    let mut out: Vec<String> = Vec::new();
    let mut i: usize = 0;
    while i < cfg.exclude.len()
        invariant
            i <= cfg.exclude.len(),
            out.len() == i,
            forall|k: int| 0 <= k < i ==> out@[k]@ == cfg.exclude@[k]@,
        decreases cfg.exclude.len() - i,
    {
        out.push(cfg.exclude[i].clone());
        i += 1;
    }
    assert(out@.map_values(|s: String| s@) =~= cfg.exclude@.map_values(|s: String| s@));
    out
}

/// Colours of PATH entry patterns: the built-in ones with the
/// configuration's laid over them.
pub fn get_path_color_map(cfg: &EConfig) -> (r: ColorMap)
    ensures
        r.wf(),
        r.view_map() == path_defaults().union_prefer_right(lists_map(cfg.paths@, cfg.path_styles@)),
{
    let yaml = lists_to_map(&cfg.paths, &cfg.path_styles);
    merge_maps(default_path_colors(), &yaml)
}

/// Case-insensitive `*` pattern match of a PATH entry.
pub fn wildmatch(pattern: &str, text: &str) -> (r: bool)
    ensures
        r == wildmatch_spec(pattern@, text@),
{
    crate::glob::wildmatch(pattern, text)
}

/// `%LOCALAPPDATA%\\e` (`.` standing for an unset `LOCALAPPDATA`).
pub open spec fn config_dir_spec(env: EnvVars) -> Seq<char> {
    join_spec(match env.lookup("LOCALAPPDATA"@) { Some(v) => v, None => "."@ }, "e"@)
}

/// The configuration folder.
pub fn get_config_dir(env: &EnvVars) -> (r: String)
    ensures
        r@ == config_dir_spec(*env),
{
    let local = match env.get("LOCALAPPDATA") {
        Some(v) => v,
        None => String::from_str("."),
    };
    join_path(local.as_str(), "e")
}

/// The configuration file: `e.yaml` in the configuration folder.
pub fn get_config_path(env: &EnvVars) -> (r: String)
    ensures
        r@ == join_spec(config_dir_spec(*env), "e.yaml"@),
{
    get_config_path_inner(env)
}

fn get_config_path_inner(env: &EnvVars) -> (r: String)
    ensures
        r@ == join_spec(config_dir_spec(*env), "e.yaml"@),
{
    join_path(get_config_dir(env).as_str(), "e.yaml")
}

/// The configuration written on first run: the built-in colours as lists.
pub open spec fn default_yaml() -> Seq<char> {
    r#"# e 配色配置
# 首次运行时自动生成，可自由修改
# 格式: 颜色名: [变量名列表]

# e set 环境变量配色
variables:
  gray:
    - SYSTEMDRIVE
    - SYSTEMROOT
    - TEMP
    - TMP
    - USERNAME
    - USERPROFILE
    - COMSPEC
    - PROMPT
  green:
    - CONDA_HOME
  lightblue:
    - MYSQL_HOME
  lightcyan:
    - NVM_HOME
    - NVM_SYMLINK
  purple:
    - ENV
    - ENV_PATH
    - KMP_DUPLICATE_LIB_OK
  red:
    - REDIS_HOME
  lightyellow:
    - PYTHON_HOME
  blue:
    - JAVA_HOME
    - GOPATH
  lightred:
    - SHADOWBOT_CULTURE
    - SHADOWBOT_ROOT_X64
  lightpurple:
    - RUSTUP_UPDATE_ROOT
    - RUSTUP_DIST_SERVER

# e path PATH 路径配色
paths:
  gray:
    - "C:\\Windows*"
  lightgreen:
    - "*\\Notepad_file\\*"
  yellow:
    - "*\\Program Files\\Git\\cmd"
    - "*\\AppData\\Local\\Microsoft\\WindowsApps"
  lightyellow:
    - "*\\Scripts"
    - "*\\AppData\\Local\\Programs\\Python\\*"
  green:
    - "*\\Anaconda3\\envs\\*"
    - "*\\Anaconda3\\condabin"
    - "*\\miniconda3\\condabin"
  lightcyan:
    - "*\\AppData\\Roaming\\nvm"
    - "*\\AppData\\Local\\nvm"
  cyan:
    - "C:\\Program Files\\nodejs"
    - "*\\nvm_nodejs"
    - "*\\nvm\\*"
  lightblue:
    - "*\\mysql-8.0.35-winx64\\bin"
  lightred:
    - "*\\Program Files\\ShadowBot"
"#@
}

/// The configuration written on first run.
pub fn generate_default_yaml() -> (r: String)
    ensures
        r@ == default_yaml(),
{
    String::from_str(r#"# e 配色配置
# 首次运行时自动生成，可自由修改
# 格式: 颜色名: [变量名列表]

# e set 环境变量配色
variables:
  gray:
    - SYSTEMDRIVE
    - SYSTEMROOT
    - TEMP
    - TMP
    - USERNAME
    - USERPROFILE
    - COMSPEC
    - PROMPT
  green:
    - CONDA_HOME
  lightblue:
    - MYSQL_HOME
  lightcyan:
    - NVM_HOME
    - NVM_SYMLINK
  purple:
    - ENV
    - ENV_PATH
    - KMP_DUPLICATE_LIB_OK
  red:
    - REDIS_HOME
  lightyellow:
    - PYTHON_HOME
  blue:
    - JAVA_HOME
    - GOPATH
  lightred:
    - SHADOWBOT_CULTURE
    - SHADOWBOT_ROOT_X64
  lightpurple:
    - RUSTUP_UPDATE_ROOT
    - RUSTUP_DIST_SERVER

# e path PATH 路径配色
paths:
  gray:
    - "C:\\Windows*"
  lightgreen:
    - "*\\Notepad_file\\*"
  yellow:
    - "*\\Program Files\\Git\\cmd"
    - "*\\AppData\\Local\\Microsoft\\WindowsApps"
  lightyellow:
    - "*\\Scripts"
    - "*\\AppData\\Local\\Programs\\Python\\*"
  green:
    - "*\\Anaconda3\\envs\\*"
    - "*\\Anaconda3\\condabin"
    - "*\\miniconda3\\condabin"
  lightcyan:
    - "*\\AppData\\Roaming\\nvm"
    - "*\\AppData\\Local\\nvm"
  cyan:
    - "C:\\Program Files\\nodejs"
    - "*\\nvm_nodejs"
    - "*\\nvm\\*"
  lightblue:
    - "*\\mysql-8.0.35-winx64\\bin"
  lightred:
    - "*\\Program Files\\ShadowBot"
"#)
}

/// Cleans a path argument of `e` and `env`: trimmed, outer quotes taken
/// off, trailing quotes dropped.
pub fn sanitize_path(raw: &str) -> (r: String)
    requires
        !crate::ls::listing::unquote_fails(crate::text::trim_seq(raw@)),
    ensures
        r@ == crate::ls::listing::unquoted_arg(raw@),
{
    let v = crate::ls::listing::unquote_arg(raw);
    crate::text::string_of(v.as_slice())
}

} // verus!
