//! Configuration of `ls`: its colour table (`ls.yaml`) and the display
//! colours of entries, extensions and sizes.

use vstd::prelude::*;
use crate::colors::map::{ColorMap, invert_map, invert_upto, lists_view, colors_then_styles};
use crate::colors::e::lists_map;
use crate::glob::wildmatch_spec;
use crate::config::paths::{join_path, join_spec};
use crate::text::{lower_chars, lowercase, str_eq, string_of};

verus! {

/// The `ls.yaml` colour lists (see the `e` configuration).
pub struct LsConfig {
    pub variables: Vec<(String, Vec<String>)>,
    pub variable_styles: Vec<(String, Vec<String>)>,
    pub exclude: Vec<String>,
    pub paths: Vec<(String, Vec<String>)>,
    pub path_styles: Vec<(String, Vec<String>)>,
}

/// `ls.yaml` beside the executable (`exe_dir`, when known), else in the working folder.
pub fn get_ls_config_path(exe_dir: Option<&str>) -> (r: String)
    ensures
        r@ == match exe_dir {
            Some(d) => join_spec(d@, "ls.yaml"@),
            None => "ls.yaml"@,
        },
{
    match exe_dir {
        Some(d) => join_path(d, "ls.yaml"),
        None => String::from_str("ls.yaml"),
    }
}

/// Colours of environment variables from `ls.yaml` (colours win over styles).
pub fn get_variable_color_map(cfg: &LsConfig) -> (r: ColorMap)
    ensures
        r.wf(),
        r.view_map() == lists_map(cfg.variables@, cfg.variable_styles@),
{
    let c = invert_map(&cfg.variables);
    let s = invert_map(&cfg.variable_styles);
    colors_then_styles(c, &s)
}

/// Variables `ls.yaml` hides.
pub fn get_exclude_set(cfg: &LsConfig) -> (r: Vec<String>)
    ensures
        r@.map_values(|s: String| s@) == cfg.exclude@.map_values(|s: String| s@),
{
    let mut out: Vec<String> = Vec::new();
    let mut i: usize = 0;
    while i < cfg.exclude.len()
        invariant
            i <= cfg.exclude.len(),
            out.len() == i,
            forall|k: int| 0 <= k < i ==> out@[k]@ == cfg.exclude@[k]@,
        decreases cfg.exclude.len() - i,
    {
        out.push(cfg.exclude[i].clone());
        i += 1;
    }
    assert(out@.map_values(|s: String| s@) =~= cfg.exclude@.map_values(|s: String| s@));
    out
}

/// Colours of PATH entry patterns from `ls.yaml` (colours win over styles).
pub fn get_path_color_map(cfg: &LsConfig) -> (r: ColorMap)
    ensures
        r.wf(),
        r.view_map() == lists_map(cfg.paths@, cfg.path_styles@),
{
    let c = invert_map(&cfg.paths);
    let s = invert_map(&cfg.path_styles);
    colors_then_styles(c, &s)
}

/// Case-insensitive `*` pattern match.
pub fn wildmatch(pattern: &str, text: &str) -> (r: bool)
    ensures
        r == wildmatch_spec(pattern@, text@),
{
    crate::glob::wildmatch(pattern, text)
}

/// Colour of the sizes up to (below) `max` bytes (`-1`: any size), shown in
/// `mode` (`full`: the whole text coloured, else the unit only).
pub struct SizeRule {
    pub max: i64,
    pub color: String,
    pub mode: String,
}

/// Display colours (ANSI codes) of `ls`.
pub struct ColorConfig {
    pub dir_color: String,
    pub dir_link_color: String,
    pub dir_link_arrow: String,
    pub dir_link_arrow_color: String,
    pub dir_link_path_color: String,
    pub dir_link_path_basename_color: String,
    /// Extension (with its dot, lower case) with its colour.
    pub file_extensions: Vec<(String, String)>,
    pub file_link_arrow: String,
    pub file_link_arrow_color: String,
    pub file_link_dir_color: String,
    pub size_rules: Vec<SizeRule>,
}

/// Built-in extension colours, in lookup order.
pub open spec fn default_ext_colors() -> Seq<(Seq<char>, Seq<char>)> {
    seq![
        (".7z"@, "31"@),
        (".zip"@, "31"@),
        (".rar"@, "31"@),
        (".tar"@, "31"@),
        (".gz"@, "31"@),
        (".bz2"@, "31"@),
        (".xz"@, "31"@),
        (".exe"@, "32"@),
        (".msi"@, "32"@),
        (".bat"@, "32"@),
        (".cmd"@, "32"@),
        (".py"@, "93"@),
        (".rs"@, "33"@),
        (".js"@, "33"@),
        (".ts"@, "33"@),
        (".html"@, "35"@),
        (".css"@, "35"@),
        (".json"@, "37"@),
        (".toml"@, "37"@),
        (".yaml"@, "37"@),
        (".yml"@, "37"@),
        (".md"@, "37"@),
        (".txt"@, "37"@),
        (".lnk"@, "94"@),
        (".dll"@, "90"@),
        (".pdb"@, "90"@),
        (".dat"@, "90"@),
        (".ini"@, "90"@),
        (".lock"@, "90"@),
        (".log"@, "90"@)
    ]
}

/// Built-in size rules as (limit, colour, mode).
pub open spec fn default_size_rules() -> Seq<(int, Seq<char>, Seq<char>)> {
    seq![
        (1024, "90"@, "full"@),
        (1048576, "90"@, "unit"@),
        (104857600, "93"@, "unit"@),
        (1073741824, "93"@, "full"@),
        (2147483648, "91"@, "unit"@),
        (-1, "91"@, "full"@)
    ]
}

pub open spec fn ext_pairs(v: Seq<(String, String)>) -> Seq<(Seq<char>, Seq<char>)> {
    v.map_values(|p: (String, String)| (p.0@, p.1@))
}

pub open spec fn rules_view(v: Seq<SizeRule>) -> Seq<(int, Seq<char>, Seq<char>)> {
    v.map_values(|r: SizeRule| (r.max as int, r.color@, r.mode@))
}

fn default_exts() -> (r: Vec<(String, String)>)
    ensures
        ext_pairs(r@) == default_ext_colors(),
{
    let mut v: Vec<(String, String)> = Vec::new();
    v.push((String::from_str(".7z"), String::from_str("31")));
    v.push((String::from_str(".zip"), String::from_str("31")));
    v.push((String::from_str(".rar"), String::from_str("31")));
    v.push((String::from_str(".tar"), String::from_str("31")));
    v.push((String::from_str(".gz"), String::from_str("31")));
    v.push((String::from_str(".bz2"), String::from_str("31")));
    v.push((String::from_str(".xz"), String::from_str("31")));
    v.push((String::from_str(".exe"), String::from_str("32")));
    v.push((String::from_str(".msi"), String::from_str("32")));
    v.push((String::from_str(".bat"), String::from_str("32")));
    v.push((String::from_str(".cmd"), String::from_str("32")));
    v.push((String::from_str(".py"), String::from_str("93")));
    v.push((String::from_str(".rs"), String::from_str("33")));
    v.push((String::from_str(".js"), String::from_str("33")));
    v.push((String::from_str(".ts"), String::from_str("33")));
    v.push((String::from_str(".html"), String::from_str("35")));
    v.push((String::from_str(".css"), String::from_str("35")));
    v.push((String::from_str(".json"), String::from_str("37")));
    v.push((String::from_str(".toml"), String::from_str("37")));
    v.push((String::from_str(".yaml"), String::from_str("37")));
    v.push((String::from_str(".yml"), String::from_str("37")));
    v.push((String::from_str(".md"), String::from_str("37")));
    v.push((String::from_str(".txt"), String::from_str("37")));
    v.push((String::from_str(".lnk"), String::from_str("94")));
    v.push((String::from_str(".dll"), String::from_str("90")));
    v.push((String::from_str(".pdb"), String::from_str("90")));
    v.push((String::from_str(".dat"), String::from_str("90")));
    v.push((String::from_str(".ini"), String::from_str("90")));
    v.push((String::from_str(".lock"), String::from_str("90")));
    v.push((String::from_str(".log"), String::from_str("90")));
    assert(ext_pairs(v@) =~= default_ext_colors());
    v
}

fn default_rules() -> (r: Vec<SizeRule>)
    ensures
        rules_view(r@) == default_size_rules(),
{
    let mut v: Vec<SizeRule> = Vec::new();
    v.push(SizeRule { max: 1024, color: String::from_str("90"), mode: String::from_str("full") });
    v.push(SizeRule { max: 1_048_576, color: String::from_str("90"), mode: String::from_str("unit") });
    v.push(SizeRule { max: 104_857_600, color: String::from_str("93"), mode: String::from_str("unit") });
    v.push(SizeRule { max: 1_073_741_824, color: String::from_str("93"), mode: String::from_str("full") });
    v.push(SizeRule { max: 2_147_483_648, color: String::from_str("91"), mode: String::from_str("unit") });
    v.push(SizeRule { max: -1, color: String::from_str("91"), mode: String::from_str("full") });
    assert(rules_view(v@) =~= default_size_rules());
    v
}

impl ColorConfig {
    /// The built-in display colours.
    pub fn default_colors() -> (r: Self)
        ensures
            r.dir_color@ == "96"@,
            r.dir_link_color@ == "36"@,
            r.dir_link_arrow@ == "=>"@,
            r.dir_link_arrow_color@ == "90"@,
            r.dir_link_path_color@ == "90"@,
            r.dir_link_path_basename_color@ == "96"@,
            ext_pairs(r.file_extensions@) == default_ext_colors(),
            r.file_link_arrow@ == "->"@,
            r.file_link_arrow_color@ == "90"@,
            r.file_link_dir_color@ == "96"@,
            rules_view(r.size_rules@) == default_size_rules(),
    {
        ColorConfig {
            dir_color: String::from_str("96"),
            dir_link_color: String::from_str("36"),
            dir_link_arrow: String::from_str("=>"),
            dir_link_arrow_color: String::from_str("90"),
            dir_link_path_color: String::from_str("90"),
            dir_link_path_basename_color: String::from_str("96"),
            file_extensions: default_exts(),
            file_link_arrow: String::from_str("->"),
            file_link_arrow_color: String::from_str("90"),
            file_link_dir_color: String::from_str("96"),
            size_rules: default_rules(),
        }
    }

    /// Colour of the first extension entry equal to the lower-cased `ext`.
    pub open spec fn ext_color_spec(&self, ext: Seq<char>) -> Option<Seq<char>> {
        first_ext(ext_pairs(self.file_extensions@), lowercase(ext))
    }

    /// Colour of an extension (with its dot), case ignored.
    pub fn ext_color(&self, ext: &str) -> (r: Option<&str>)
        ensures
            match r {
                Some(c) => self.ext_color_spec(ext@) == Some(c@),
                None => self.ext_color_spec(ext@) is None,
            },
    {
        let lc = lower_chars(ext);
        let l = string_of(lc.as_slice());
        let ghost pv = ext_pairs(self.file_extensions@);
        let mut i: usize = 0;
        assert(pv.skip(0) =~= pv);
        while i < self.file_extensions.len()
            invariant
                i <= self.file_extensions.len(),
                pv == ext_pairs(self.file_extensions@),
                l@ == lowercase(ext@),
                first_ext(pv, l@) == first_ext(pv.skip(i as int), l@),
            decreases self.file_extensions.len() - i,
        {
            assert(pv.skip(i as int).drop_first() =~= pv.skip(i + 1));
            assert(pv.skip(i as int)[0] == pv[i as int]);
            if str_eq(self.file_extensions[i].0.as_str(), l.as_str()) {
                return Some(self.file_extensions[i].1.as_str());
            }
            i += 1;
        }
        assert(pv.skip(i as int) =~= Seq::<(Seq<char>, Seq<char>)>::empty());
        None
    }
}

impl Default for ColorConfig {
    fn default() -> (r: Self)
        ensures
            r.dir_color@ == "96"@,
            r.dir_link_color@ == "36"@,
            r.dir_link_arrow@ == "=>"@,
            r.dir_link_arrow_color@ == "90"@,
            r.dir_link_path_color@ == "90"@,
            r.dir_link_path_basename_color@ == "96"@,
            ext_pairs(r.file_extensions@) == default_ext_colors(),
            r.file_link_arrow@ == "->"@,
            r.file_link_arrow_color@ == "90"@,
            r.file_link_dir_color@ == "96"@,
            rules_view(r.size_rules@) == default_size_rules(),
    {
        ColorConfig::default_colors()
    }
}

/// Colour of the first pair whose extension is `e`.
pub open spec fn first_ext(s: Seq<(Seq<char>, Seq<char>)>, e: Seq<char>) -> Option<Seq<char>>
    decreases s.len(),
{
    if s.len() == 0 {
        None
    } else if s[0].0 == e {
        Some(s[0].1)
    } else {
        first_ext(s.drop_first(), e)
    }
}

} // verus!
