//! Built-in rule tables and the lookups over them: PATH colouring rules,
//! the window whitelist, the rule-skip list and the window rules.

use vstd::prelude::*;
use crate::glob::{anchored_spec, wildmatch_anchored};
use crate::text::{contains, contains_seq, eq_ascii_ci, eq_ignore_ascii_case, has_ch, has_char, lower_chars, lowercase};

verus! {

/// A colouring rule: a PATH entry pattern with its colour and style names.
#[derive(Clone, Copy)]
pub struct Rule {
    pub pattern: &'static str,
    pub color: &'static str,
    pub style: &'static str,
}

/// The PATH colouring rules, in the order in which they are tried.
/// The table built by [`path_rules`].
pub open spec fn path_rules_spec() -> Seq<Rule> {
    seq![
        Rule { pattern: "C:\\Windows*", color: "gray", style: "" },
        Rule { pattern: "*\\Notepad_file\\*", color: "lightgreen", style: "" },
        Rule { pattern: "*\\Program Files\\Git\\cmd", color: "yellow", style: "" },
        Rule { pattern: "*\\AppData\\Local\\Microsoft\\WindowsApps", color: "yellow", style: "" },
        Rule { pattern: "*\\Scripts", color: "lightyellow", style: "" },
        Rule { pattern: "*\\AppData\\Local\\Programs\\Python\\*", color: "lightyellow", style: "" },
        Rule { pattern: "*\\Anaconda3\\envs\\*", color: "green", style: "" },
        Rule { pattern: "*\\Anaconda3\\condabin", color: "green", style: "" },
        Rule { pattern: "*\\miniconda3\\condabin", color: "green", style: "" },
        Rule { pattern: "*\\AppData\\Roaming\\nvm", color: "lightcyan", style: "" },
        Rule { pattern: "*\\AppData\\Local\\nvm", color: "lightcyan", style: "" },
        Rule { pattern: "C:\\Program Files\\nodejs", color: "cyan", style: "" },
        Rule { pattern: "*\\nvm_nodejs", color: "cyan", style: "" },
        Rule { pattern: "*\\nvm\\*", color: "cyan", style: "" },
        Rule { pattern: "*\\mysql-8.0.35-winx64\\bin", color: "lightblue", style: "" },
        Rule { pattern: "*\\Program Files\\ShadowBot", color: "lightred", style: "" },
        Rule { pattern: "*\\.cargo\\bin", color: "lightpurple", style: "" },
        Rule { pattern: "\\\\*", color: "", style: "underline" },
    ]
}

pub fn path_rules() -> (r: Vec<Rule>)
    ensures
        r@ == path_rules_spec(),
{
    let v = vec![
        Rule { pattern: "C:\\Windows*", color: "gray", style: "" },
        Rule { pattern: "*\\Notepad_file\\*", color: "lightgreen", style: "" },
        Rule { pattern: "*\\Program Files\\Git\\cmd", color: "yellow", style: "" },
        Rule { pattern: "*\\AppData\\Local\\Microsoft\\WindowsApps", color: "yellow", style: "" },
        Rule { pattern: "*\\Scripts", color: "lightyellow", style: "" },
        Rule { pattern: "*\\AppData\\Local\\Programs\\Python\\*", color: "lightyellow", style: "" },
        Rule { pattern: "*\\Anaconda3\\envs\\*", color: "green", style: "" },
        Rule { pattern: "*\\Anaconda3\\condabin", color: "green", style: "" },
        Rule { pattern: "*\\miniconda3\\condabin", color: "green", style: "" },
        Rule { pattern: "*\\AppData\\Roaming\\nvm", color: "lightcyan", style: "" },
        Rule { pattern: "*\\AppData\\Local\\nvm", color: "lightcyan", style: "" },
        Rule { pattern: "C:\\Program Files\\nodejs", color: "cyan", style: "" },
        Rule { pattern: "*\\nvm_nodejs", color: "cyan", style: "" },
        Rule { pattern: "*\\nvm\\*", color: "cyan", style: "" },
        Rule { pattern: "*\\mysql-8.0.35-winx64\\bin", color: "lightblue", style: "" },
        Rule { pattern: "*\\Program Files\\ShadowBot", color: "lightred", style: "" },
        Rule { pattern: "*\\.cargo\\bin", color: "lightpurple", style: "" },
        Rule { pattern: "\\\\*", color: "", style: "underline" },
    ];
    assert(v@ =~= path_rules_spec());
    v
}


/// First rule without `*` whose pattern equals `t` up to ASCII case.
pub open spec fn exact_pick(rules: Seq<Rule>, t: Seq<char>) -> Option<Rule>
    decreases rules.len(),
{
    if rules.len() == 0 {
        None
    } else if !has_char(rules[0].pattern@, '*') && eq_ascii_ci(rules[0].pattern@, t) {
        Some(rules[0])
    } else {
        exact_pick(rules.drop_first(), t)
    }
}

/// First rule with `*` whose pattern matches `t` (anchored dialect).
pub open spec fn star_pick(rules: Seq<Rule>, t: Seq<char>) -> Option<Rule>
    decreases rules.len(),
{
    if rules.len() == 0 {
        None
    } else if has_char(rules[0].pattern@, '*') && anchored_spec(rules[0].pattern@, t) {
        Some(rules[0])
    } else {
        star_pick(rules.drop_first(), t)
    }
}

/// Colour and style chosen for `t`: an exact rule first, then a wildcard
/// rule, else two empty names.
pub open spec fn match_rules_spec(rules: Seq<Rule>, t: Seq<char>) -> (Seq<char>, Seq<char>) {
    match exact_pick(rules, t) {
        Some(r) => (r.color@, r.style@),
        None => match star_pick(rules, t) {
            Some(r) => (r.color@, r.style@),
            None => (Seq::<char>::empty(), Seq::<char>::empty()),
        },
    }
}

/// Colour and style for the PATH entry `text` under the rules `rules`.
pub fn match_path_in(rules: &[Rule], text: &str) -> (r: (&'static str, &'static str))
    ensures
        (r.0@, r.1@) == match_rules_spec(rules@, text@),
{
    let mut i: usize = 0;
    assert(rules@.skip(0) =~= rules@);
    while i < rules.len()
        invariant
            i <= rules.len(),
            exact_pick(rules@, text@) == exact_pick(rules@.skip(i as int), text@),
        decreases rules.len() - i,
    {
        assert(rules@.skip(i as int).drop_first() =~= rules@.skip(i + 1));
        let rule = rules[i];
        let pv = crate::text::chars_of(rule.pattern);
        if !has_ch(pv.as_slice(), '*') && eq_ignore_ascii_case(rule.pattern, text) {
            return (rule.color, rule.style);
        }
        i += 1;
    }
    assert(rules@.skip(i as int) =~= Seq::<Rule>::empty());
    let mut j: usize = 0;
    assert(rules@.skip(0) =~= rules@);
    while j < rules.len()
        invariant
            j <= rules.len(),
            exact_pick(rules@, text@) is None,
            star_pick(rules@, text@) == star_pick(rules@.skip(j as int), text@),
        decreases rules.len() - j,
    {
        assert(rules@.skip(j as int).drop_first() =~= rules@.skip(j + 1));
        let rule = rules[j];
        let pv = crate::text::chars_of(rule.pattern);
        if has_ch(pv.as_slice(), '*') && wildmatch_anchored(rule.pattern, text) {
            return (rule.color, rule.style);
        }
        j += 1;
    }
    assert(rules@.skip(j as int) =~= Seq::<Rule>::empty());
    let e: &'static str = "";
    proof {
        reveal_strlit("");
    }
    (e, e)
}

/// Colour and style names for a PATH entry under the built-in PATH rules.
pub fn match_path(text: &str) -> (r: (&'static str, &'static str))
    ensures
        (r.0@, r.1@) == match_rules_spec(path_rules_spec(), text@),
{
    let rules = path_rules();
    match_path_in(rules.as_slice(), text)
}

/// A whitelist or skip-list entry: a title keyword and a process name.
#[derive(Clone, Copy)]
pub struct WhitelistEntry {
    pub title: Option<&'static str>,
    pub process: Option<&'static str>,
}

/// Window-size bounds under which a window is left alone.
#[derive(Clone, Copy)]
pub struct SizeFilter {
    pub min_width: i32,
    pub max_width: i32,
    pub min_height: i32,
    pub max_height: i32,
}

/// Windows never touched by the layout rules.
/// The table built by [`whitelist_entries`].
pub open spec fn whitelist_spec() -> Seq<WhitelistEntry> {
    seq![
        WhitelistEntry { title: Some("Program Manager"), process: None },
        WhitelistEntry { title: Some("任务切换"), process: None },
        WhitelistEntry { title: Some("任务视图"), process: None },
        WhitelistEntry { title: Some("搜索"), process: Some("SearchApp") },
        WhitelistEntry { title: Some("音量控制"), process: Some("ShellExperienceHost") },
        WhitelistEntry { title: Some("电池信息"), process: Some("ShellExperienceHost") },
        WhitelistEntry { title: Some("日期和时间信息"), process: Some("ShellExperienceHost") },
        WhitelistEntry { title: Some("网络连接"), process: Some("ShellExperienceHost") },
        WhitelistEntry { title: Some("操作中心"), process: Some("ShellExperienceHost") },
        WhitelistEntry { title: Some("启动"), process: Some("StartMenuExperienceHost") },
        WhitelistEntry { title: Some("运行"), process: Some("explorer") },
        WhitelistEntry { title: Some("Cortana"), process: Some("SearchUI") },
        WhitelistEntry { title: Some("小娜"), process: Some("SearchUI") },
        WhitelistEntry { title: Some("EarTrumpet"), process: Some("EarTrumpet") },
        WhitelistEntry { title: Some("Menu"), process: Some("steamwebhelper") },
        WhitelistEntry { title: Some("好友列表"), process: Some("steamwebhelper") },
        WhitelistEntry { title: Some("WeiXin"), process: Some("WeChat") },
        WhitelistEntry { title: Some("TRAY_ICON_MENU_FORM"), process: Some("uu") },
        WhitelistEntry { title: Some("PixPin"), process: Some("PixPin") },
        WhitelistEntry { title: Some("企业微信"), process: Some("WXWork") },
        WhitelistEntry { title: Some("鱼书"), process: Some("fish-book") },
        WhitelistEntry { title: Some("Fish-book"), process: Some("fish-book") },
    ]
}

pub fn whitelist_entries() -> (r: Vec<WhitelistEntry>)
    ensures
        r@ == whitelist_spec(),
{
    let v = vec![
        WhitelistEntry { title: Some("Program Manager"), process: None },
        WhitelistEntry { title: Some("任务切换"), process: None },
        WhitelistEntry { title: Some("任务视图"), process: None },
        WhitelistEntry { title: Some("搜索"), process: Some("SearchApp") },
        WhitelistEntry { title: Some("音量控制"), process: Some("ShellExperienceHost") },
        WhitelistEntry { title: Some("电池信息"), process: Some("ShellExperienceHost") },
        WhitelistEntry { title: Some("日期和时间信息"), process: Some("ShellExperienceHost") },
        WhitelistEntry { title: Some("网络连接"), process: Some("ShellExperienceHost") },
        WhitelistEntry { title: Some("操作中心"), process: Some("ShellExperienceHost") },
        WhitelistEntry { title: Some("启动"), process: Some("StartMenuExperienceHost") },
        WhitelistEntry { title: Some("运行"), process: Some("explorer") },
        WhitelistEntry { title: Some("Cortana"), process: Some("SearchUI") },
        WhitelistEntry { title: Some("小娜"), process: Some("SearchUI") },
        WhitelistEntry { title: Some("EarTrumpet"), process: Some("EarTrumpet") },
        WhitelistEntry { title: Some("Menu"), process: Some("steamwebhelper") },
        WhitelistEntry { title: Some("好友列表"), process: Some("steamwebhelper") },
        WhitelistEntry { title: Some("WeiXin"), process: Some("WeChat") },
        WhitelistEntry { title: Some("TRAY_ICON_MENU_FORM"), process: Some("uu") },
        WhitelistEntry { title: Some("PixPin"), process: Some("PixPin") },
        WhitelistEntry { title: Some("企业微信"), process: Some("WXWork") },
        WhitelistEntry { title: Some("鱼书"), process: Some("fish-book") },
        WhitelistEntry { title: Some("Fish-book"), process: Some("fish-book") },
    ];
    assert(v@ =~= whitelist_spec());
    v
}


/// Size filters: a window within one of these bounds is whitelisted.
pub fn size_filters() -> (r: Vec<SizeFilter>)
    ensures
        r@ == seq![SizeFilter { min_width: 0, max_width: 400, min_height: 0, max_height: 400 }],
{
    let v = vec![SizeFilter { min_width: 0, max_width: 400, min_height: 0, max_height: 400 }];
    assert(v@ =~= seq![SizeFilter { min_width: 0, max_width: 400, min_height: 0, max_height: 400 }]);
    v
}

/// Windows on which no layout rule is applied.
/// The table built by [`rule_skip_entries`].
pub open spec fn rule_skip_spec() -> Seq<WhitelistEntry> {
    seq![
        WhitelistEntry { title: Some("复制文件"), process: Some("explorer") },
        WhitelistEntry { title: Some("移动文件"), process: Some("explorer") },
        WhitelistEntry { title: Some("推送提交"), process: Some("pycharm64") },
    ]
}

pub fn rule_skip_entries() -> (r: Vec<WhitelistEntry>)
    ensures
        r@ == rule_skip_spec(),
{
    let v = vec![
        WhitelistEntry { title: Some("复制文件"), process: Some("explorer") },
        WhitelistEntry { title: Some("移动文件"), process: Some("explorer") },
        WhitelistEntry { title: Some("推送提交"), process: Some("pycharm64") },
    ];
    assert(v@ =~= rule_skip_spec());
    v
}


/// The title pattern and process name of a window rule.
#[derive(Clone, Copy)]
pub struct RuleKey {
    pub title: &'static str,
    pub process: Option<&'static str>,
}

/// Title patterns and process names of the window rules, in rule order.
/// The table built by [`window_rule_keys`].
pub open spec fn window_rule_keys_spec() -> Seq<RuleKey> {
    seq![
        RuleKey { title: "*欢迎访问 PyCharm*", process: Some("pycharm64") },
        RuleKey { title: "*", process: Some("pycharm64") },
    ]
}

pub fn window_rule_keys() -> (r: Vec<RuleKey>)
    ensures
        r@ == window_rule_keys_spec(),
{
    let v = vec![
        RuleKey { title: "*欢迎访问 PyCharm*", process: Some("pycharm64") },
        RuleKey { title: "*", process: Some("pycharm64") },
    ];
    assert(v@ =~= window_rule_keys_spec());
    v
}


/// `title` holds the keyword of `e` and the process agrees with `e`, both ignoring case.
pub open spec fn entry_hits(e: WhitelistEntry, title: Seq<char>, process: Seq<char>) -> bool {
    &&& e.title matches Some(et) && contains_seq(lowercase(title), lowercase(et@))
    &&& match e.process {
        Some(ep) => lowercase(process) == lowercase(ep@),
        None => true,
    }
}

/// A `width` x `height` window lies within the bounds of `f`.
pub open spec fn filter_hits(f: SizeFilter, width: int, height: int) -> bool {
    f.min_width <= width <= f.max_width && f.min_height <= height <= f.max_height
}

/// Whether `e` applies to the window with `title` and process name `process`.
fn entry_matches(e: WhitelistEntry, title_lower: &[char], process: &str) -> (r: bool)
    requires
        exists|title: Seq<char>| title_lower@ == lowercase(title),
    ensures
        forall|title: Seq<char>|
            title_lower@ == lowercase(title) ==> (r == entry_hits(e, title, process@)),
{
    match e.title {
        Some(et) => {
            let etl = lower_chars(et);
            if !contains(title_lower, etl.as_slice()) {
                return false;
            }
            match e.process {
                Some(ep) => {
                    let pl = lower_chars(process);
                    let epl = lower_chars(ep);
                    crate::text::chars_eq(pl.as_slice(), epl.as_slice())
                },
                None => true,
            }
        },
        None => false,
    }
}

/// Whether a window is whitelisted: a whitelist entry applies to it, or its
/// size (from the rectangle `(left, top, right, bottom)`) is within a size filter.
pub fn is_whitelisted(title: &str, process_name: &str, rect: (i32, i32, i32, i32)) -> (r: bool)
    requires
        i32::MIN <= rect.2 - rect.0 <= i32::MAX,
        i32::MIN <= rect.3 - rect.1 <= i32::MAX,
    ensures
        r == ((exists|i: int|
            0 <= i < whitelist_spec().len() && entry_hits(whitelist_spec()[i], title@, process_name@))
            || filter_hits(
            SizeFilter { min_width: 0, max_width: 400, min_height: 0, max_height: 400 },
            rect.2 - rect.0,
            rect.3 - rect.1,
        )),
{
    let t = lower_chars(title);
    let entries = whitelist_entries();
    let mut i: usize = 0;
    while i < entries.len()
        invariant
            i <= entries.len(),
            entries@ == whitelist_spec(),
            t@ == lowercase(title@),
            forall|k: int| 0 <= k < i ==> !entry_hits(entries@[k], title@, process_name@),
        decreases entries.len() - i,
    {
        if entry_matches(entries[i], t.as_slice(), process_name) {
            assert(entry_hits(whitelist_spec()[i as int], title@, process_name@));
            return true;
        }
        i += 1;
    }
    let (left, top, right, bottom) = rect;
    let w = right - left;
    let h = bottom - top;
    let filters = size_filters();
    let mut j: usize = 0;
    while j < filters.len()
        invariant
            j <= filters.len(),
            filters@ == seq![SizeFilter { min_width: 0, max_width: 400, min_height: 0, max_height: 400 }],
            forall|k: int| 0 <= k < j ==> !filter_hits(filters@[k], w as int, h as int),
            w == rect.2 - rect.0,
            h == rect.3 - rect.1,
            forall|k: int|
                0 <= k < whitelist_spec().len() ==> !entry_hits(whitelist_spec()[k], title@, process_name@),
        decreases filters.len() - j,
    {
        let f = filters[j];
        if w >= f.min_width && w <= f.max_width && h >= f.min_height && h <= f.max_height {
            return true;
        }
        j += 1;
    }
    assert(!filter_hits(filters@[0], w as int, h as int));
    false
}


/// Whether a skip-list entry (title keyword and process name both given) applies.
pub open spec fn skip_hits(e: WhitelistEntry, title: Seq<char>, process: Seq<char>) -> bool {
    e.title is Some && e.process is Some && entry_hits(e, title, process)
}

/// Whether no layout rule may be applied to the window: a skip-list entry
/// names both a keyword of its title and its process.
pub fn is_rule_skipped(title: &str, process_name: &str) -> (r: bool)
    ensures
        r == exists|i: int| 0 <= i < rule_skip_spec().len() && skip_hits(rule_skip_spec()[i], title@, process_name@),
{
    let t = lower_chars(title);
    let entries = rule_skip_entries();
    let mut i: usize = 0;
    while i < entries.len()
        invariant
            i <= entries.len(),
            entries@ == rule_skip_spec(),
            t@ == lowercase(title@),
            forall|k: int| 0 <= k < i ==> !skip_hits(entries@[k], title@, process_name@),
        decreases entries.len() - i,
    {
        let e = entries[i];
        if e.title.is_some() && e.process.is_some() && entry_matches(e, t.as_slice(), process_name) {
            assert(skip_hits(rule_skip_spec()[i as int], title@, process_name@));
            return true;
        }
        i += 1;
    }
    false
}

/// Whether the window rule key `k` applies to the window.
pub open spec fn key_hits(k: RuleKey, title: Seq<char>, process: Seq<char>) -> bool {
    anchored_spec(k.title@, title) && match k.process {
        Some(rp) => lowercase(process) == lowercase(rp@),
        None => true,
    }
}

/// Index of the first window rule whose title pattern (anchored `*`
/// matching) and process name (ignoring case) fit the window.
pub fn match_rule(title: &str, process_name: &str) -> (r: Option<usize>)
    ensures
        match r {
            Some(i) => i < window_rule_keys_spec().len() && key_hits(window_rule_keys_spec()[i as int], title@, process_name@)
                && forall|j: int| 0 <= j < i ==> !key_hits(window_rule_keys_spec()[j], title@, process_name@),
            None => forall|j: int|
                0 <= j < window_rule_keys_spec().len() ==> !key_hits(window_rule_keys_spec()[j], title@, process_name@),
        },
{
    let keys = window_rule_keys();
    let mut i: usize = 0;
    while i < keys.len()
        invariant
            i <= keys.len(),
            keys@ == window_rule_keys_spec(),
            forall|j: int| 0 <= j < i ==> !key_hits(keys@[j], title@, process_name@),
        decreases keys.len() - i,
    {
        let k = keys[i];
        if wildmatch_anchored(k.title, title) {
            let pm = match k.process {
                Some(rp) => {
                    let pl = lower_chars(process_name);
                    let rl = lower_chars(rp);
                    crate::text::chars_eq(pl.as_slice(), rl.as_slice())
                },
                None => true,
            };
            if pm {
                return Some(i);
            }
        }
        i += 1;
    }
    None
}

/// The PATH entries `pp` lists: each `;`-separated part trimmed, empty
/// ones skipped.
pub open spec fn pp_entries_spec(path: Seq<char>) -> Seq<Seq<char>> {
    trimmed_nonempty(crate::glob::split_char(path, ';'))
}

pub open spec fn trimmed_nonempty(parts: Seq<Seq<char>>) -> Seq<Seq<char>>
    decreases parts.len(),
{
    if parts.len() == 0 {
        Seq::empty()
    } else {
        let r = trimmed_nonempty(parts.drop_last());
        let t = crate::text::trim_seq(parts.last());
        if t.len() > 0 { r.push(t) } else { r }
    }
}

pub fn pp_entries(path: &str) -> (r: Vec<String>)
    ensures
        crate::aspkg::locate::texts(r@) == pp_entries_spec(path@),
{
    let c = crate::text::chars_of(path);
    let parts = crate::glob::split_chars(c.as_slice(), ';');
    let ghost pv = crate::glob::views(parts@);
    let mut out: Vec<String> = Vec::new();
    let mut i: usize = 0;
    while i < parts.len()
        invariant
            i <= parts.len(),
            pv == crate::glob::views(parts@),
            crate::aspkg::locate::texts(out@) == trimmed_nonempty(pv.take(i as int)),
        decreases parts.len() - i,
    {
        assert(pv.take(i + 1).drop_last() =~= pv.take(i as int));
        assert(pv.take(i + 1).last() == parts@[i as int]@);
        let t = crate::text::trim_chars(parts[i].as_slice());
        if t.len() > 0 {
            let ghost prev = crate::aspkg::locate::texts(out@);
            let s = crate::text::string_of(t.as_slice());
            out.push(s);
            assert(crate::aspkg::locate::texts(out@) =~= prev.push(t@));
        }
        i += 1;
    }
    assert(pv.take(parts.len() as int) =~= pv);
    out
}

} // verus!
