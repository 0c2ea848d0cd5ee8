//! Colour configuration of `e` (its `e.yaml` beside the executable).

use vstd::prelude::*;
use crate::colors::map::{
    ColorMap, invert_map, invert_upto, lists_view, merge_maps, colors_then_styles,
};
use crate::glob::wildmatch_spec;
use crate::environ::EnvVars;
use crate::config::paths::{join_path, join_spec};

verus! {

/// The colour configuration file: "colour: [names]" lists for variables and
/// for PATH entries (colours, then styles), and variables to hide.
pub struct EConfig {
    pub variables: Vec<(String, Vec<String>)>,
    pub variable_styles: Vec<(String, Vec<String>)>,
    pub exclude: Vec<String>,
    pub paths: Vec<(String, Vec<String>)>,
    pub path_styles: Vec<(String, Vec<String>)>,
}

/// The map a pair of "colour: [names]" lists gives: colours win over styles.
pub open spec fn lists_map(colors: Seq<(String, Vec<String>)>, styles: Seq<(String, Vec<String>)>) -> Map<Seq<char>, Seq<char>> {
    invert_upto(lists_view(styles), styles.len() as int).union_prefer_right(
        invert_upto(lists_view(colors), colors.len() as int),
    )
}

fn lists_to_map(colors: &Vec<(String, Vec<String>)>, styles: &Vec<(String, Vec<String>)>) -> (r: ColorMap)
    ensures
        r.wf(),
        r.view_map() == lists_map(colors@, styles@),
{
    let c = invert_map(colors);
    let s = invert_map(styles);
    colors_then_styles(c, &s)
}

/// Built-in colours of environment variables.
pub open spec fn variable_defaults() -> Map<Seq<char>, Seq<char>> {
    map![
        "PATH"@ => "cyan"@,
        "PWD"@ => "cyan"@,
        "OLDPWD"@ => "cyan"@,
        "HOME"@ => "cyan"@,
        "USERPROFILE"@ => "cyan"@,
        "USERNAME"@ => "green"@,
        "USER"@ => "green"@,
        "COMPUTERNAME"@ => "green"@,
        "HOSTNAME"@ => "green"@,
        "SystemRoot"@ => "blue"@,
        "WINDIR"@ => "blue"@,
        "ProgramFiles"@ => "blue"@,
        "ProgramFiles(x86)"@ => "blue"@,
        "ProgramData"@ => "blue"@,
        "ALLUSERSPROFILE"@ => "blue"@,
        "TEMP"@ => "yellow"@,
        "TMP"@ => "yellow"@,
        "JAVA_HOME"@ => "red"@,
        "GOROOT"@ => "red"@,
        "RUSTUP_HOME"@ => "red"@,
        "CARGO_HOME"@ => "red"@,
        "SHELL"@ => "purple"@,
        "EDITOR"@ => "purple"@,
        "VISUAL"@ => "purple"@,
        "TERM"@ => "lightblue"@
    ]
}

/// The built-in colours of environment variables.
pub fn default_variable_colors() -> (r: ColorMap)
    ensures
        r.wf(),
        r.view_map() == variable_defaults(),
{
    let mut m = ColorMap::new();
    m.insert("PATH", "cyan");
    m.insert("PWD", "cyan");
    m.insert("OLDPWD", "cyan");
    m.insert("HOME", "cyan");
    m.insert("USERPROFILE", "cyan");
    m.insert("USERNAME", "green");
    m.insert("USER", "green");
    m.insert("COMPUTERNAME", "green");
    m.insert("HOSTNAME", "green");
    m.insert("SystemRoot", "blue");
    m.insert("WINDIR", "blue");
    m.insert("ProgramFiles", "blue");
    m.insert("ProgramFiles(x86)", "blue");
    m.insert("ProgramData", "blue");
    m.insert("ALLUSERSPROFILE", "blue");
    m.insert("TEMP", "yellow");
    m.insert("TMP", "yellow");
    m.insert("JAVA_HOME", "red");
    m.insert("GOROOT", "red");
    m.insert("RUSTUP_HOME", "red");
    m.insert("CARGO_HOME", "red");
    m.insert("SHELL", "purple");
    m.insert("EDITOR", "purple");
    m.insert("VISUAL", "purple");
    m.insert("TERM", "lightblue");
    m
}

/// Built-in colours of PATH entry patterns.
pub open spec fn path_defaults() -> Map<Seq<char>, Seq<char>> {
    map![
        "*aminos*"@ => "cyan"@,
        "*\\.cargo\\*"@ => "cyan"@,
        "*\\.tool\\*"@ => "cyan"@,
        "*\\Python\\*"@ => "green"@,
        "*\\nodejs\\*"@ => "green"@,
        "*\\Git\\*"@ => "lightred"@,
        "*\\Java\\*"@ => "red"@,
        "*\\Go\\*"@ => "red"@,
        "*\\System32\\*"@ => "blue"@,
        "*\\Windows\\*"@ => "blue"@,
        "*\\Program Files*"@ => "blue"@,
        "*\\AppData\\*"@ => "gray"@
    ]
}

/// The built-in colours of PATH entry patterns.
pub fn default_path_colors() -> (r: ColorMap)
    ensures
        r.wf(),
        r.view_map() == path_defaults(),
{
    let mut m = ColorMap::new();
    m.insert("*aminos*", "cyan");
    m.insert("*\\.cargo\\*", "cyan");
    m.insert("*\\.tool\\*", "cyan");
    m.insert("*\\Python\\*", "green");
    m.insert("*\\nodejs\\*", "green");
    m.insert("*\\Git\\*", "lightred");
    m.insert("*\\Java\\*", "red");
    m.insert("*\\Go\\*", "red");
    m.insert("*\\System32\\*", "blue");
    m.insert("*\\Windows\\*", "blue");
    m.insert("*\\Program Files*", "blue");
    m.insert("*\\AppData\\*", "gray");
    m
}

/// The colour of a variable is the one the configuration's colour lists
/// give it, else the one its style lists give it, else the built-in one; no
/// other variable has a colour; with empty lists the built-in map is all.
pub proof fn variable_color_precedence(
    colors: Seq<(String, Vec<String>)>,
    styles: Seq<(String, Vec<String>)>,
    k: Seq<char>,
)
    ensures
        ({
            let m = variable_defaults().union_prefer_right(lists_map(colors, styles));
            let ci = invert_upto(lists_view(colors), colors.len() as int);
            let si = invert_upto(lists_view(styles), styles.len() as int);
            &&& ci.dom().contains(k) ==> m.dom().contains(k) && m[k] == ci[k]
            &&& !ci.dom().contains(k) && si.dom().contains(k) ==> m.dom().contains(k) && m[k] == si[k]
            &&& !ci.dom().contains(k) && !si.dom().contains(k) ==> (m.dom().contains(k) == variable_defaults().dom().contains(
                k,
            ) && (m.dom().contains(k) ==> m[k] == variable_defaults()[k]))
        }),
        colors.len() == 0 && styles.len() == 0 ==> variable_defaults().union_prefer_right(lists_map(colors, styles))
            == variable_defaults(),
{
    if colors.len() == 0 && styles.len() == 0 {
        assert(lists_map(colors, styles) =~= Map::<Seq<char>, Seq<char>>::empty());
        assert(variable_defaults().union_prefer_right(lists_map(colors, styles)) =~= variable_defaults());
    }
}

/// Colours of environment variables: the built-in ones with the
/// configuration's laid over them.
pub fn get_variable_color_map(cfg: &EConfig) -> (r: ColorMap)
    ensures
        r.wf(),
        r.view_map() == variable_defaults().union_prefer_right(lists_map(cfg.variables@, cfg.variable_styles@)),
{
    let yaml = lists_to_map(&cfg.variables, &cfg.variable_styles);
    merge_maps(default_variable_colors(), &yaml)
}

/// Variables the configuration hides.
pub fn get_exclude_set(cfg: &EConfig) -> (r: Vec<String>)
    ensures
        r@.map_values(|s: String| s@) == cfg.exclude@.map_values(|s: String| s@),
{
    let mut out: Vec<String> = Vec::new();
    let mut i: usize = 0;
    while i < cfg.exclude.len()
        invariant
            i <= cfg.exclude.len(),
            out.len() == i,
            forall|k: int| 0 <= k < i ==> out@[k]@ == cfg.exclude@[k]@,
        decreases cfg.exclude.len() - i,
    {
        out.push(cfg.exclude[i].clone());
        i += 1;
    }
    assert(out@.map_values(|s: String| s@) =~= cfg.exclude@.map_values(|s: String| s@));
    out
}

/// Colours of PATH entry patterns: the built-in ones with the
/// configuration's laid over them.
pub fn get_path_color_map(cfg: &EConfig) -> (r: ColorMap)
    ensures
        r.wf(),
        r.view_map() == path_defaults().union_prefer_right(lists_map(cfg.paths@, cfg.path_styles@)),
{
    let yaml = lists_to_map(&cfg.paths, &cfg.path_styles);
    merge_maps(default_path_colors(), &yaml)
}

/// Case-insensitive `*` pattern match of a PATH entry.
pub fn wildmatch(pattern: &str, text: &str) -> (r: bool)
    ensures
        r == wildmatch_spec(pattern@, text@),
{
    crate::glob::wildmatch(pattern, text)
}

/// `e.yaml` beside the executable (`exe_dir`, the folder of the running
/// executable when it is known), else in the working folder.
pub fn get_config_path(exe_dir: Option<&str>) -> (r: String)
    ensures
        r@ == match exe_dir {
            Some(d) => join_spec(d@, "e.yaml"@),
            None => "e.yaml"@,
        },
{
    match exe_dir {
        Some(d) => join_path(d, "e.yaml"),
        None => String::from_str("e.yaml"),
    }
}

} // verus!
