//! `ss`: the environment shown with built-in colour rules: its rule tables,
//! the variables it hides, the name-ordered variable table and the plain
//! lines it prints.

use vstd::prelude::*;
use crate::rules::{Rule, match_rules_spec, match_path_in};
use crate::colors::map::{ColorMap, Pairs, map_of, keys_unique, lemma_map_of_at, has_key};
use crate::colors::show::{semicolon_lines, value_lines, byte_len};
use crate::aspkg::locate::texts;
use crate::text::{
    chars_of, chars_lt, eq_ascii_ci, eq_ignore_ascii_case, lowercase, to_lower, str_eq, str_lt, has_char, has_ch,
    lemma_str_lt_irrefl, lemma_str_lt_asym, lemma_str_lt_total, lemma_str_lt_trans, push_str, repeat_char,
    repeat_vec, string_of,
};

verus! {

/// The PATH colouring rules of `ss`, in the order they are tried.
pub open spec fn ss_path_rules_spec() -> Seq<Rule> {
    seq![
        Rule { pattern: "C:\\Windows*", color: "gray", style: "" },
        Rule { pattern: "*\\Notepad_file\\*", color: "lightgreen", style: "" },
        Rule { pattern: "*\\Program Files\\Git\\cmd", color: "yellow", style: "" },
        Rule { pattern: "*\\AppData\\Local\\Microsoft\\WindowsApps", color: "yellow", style: "" },
        Rule { pattern: "*\\Scripts", color: "lightyellow", style: "" },
        Rule { pattern: "*\\AppData\\Local\\Programs\\Python\\*", color: "lightyellow", style: "" },
        Rule { pattern: "*\\Anaconda3\\envs\\*", color: "green", style: "" },
        Rule { pattern: "*\\Anaconda3\\condabin", color: "green", style: "" },
        Rule { pattern: "*\\miniconda3\\condabin", color: "green", style: "" },
        Rule { pattern: "*\\AppData\\Roaming\\nvm", color: "lightcyan", style: "" },
        Rule { pattern: "*\\AppData\\Local\\nvm", color: "lightcyan", style: "" },
        Rule { pattern: "*\\Program Files\\nodejs", color: "cyan", style: "" },
        Rule { pattern: "*\\nvm_nodejs", color: "cyan", style: "" },
        Rule { pattern: "*\\nvm\\*", color: "cyan", style: "" },
        Rule { pattern: "*\\mysql*\\bin", color: "lightblue", style: "" },
        Rule { pattern: "*\\Program Files\\ShadowBot", color: "lightred", style: "" },
        Rule { pattern: "*\\.cargo\\bin", color: "lightpurple", style: "" },
        Rule { pattern: "\\\\*", color: "", style: "underline" },
    ]
}

pub fn ss_path_rules() -> (r: Vec<Rule>)
    ensures
        r@ == ss_path_rules_spec(),
{
    let v = vec![
        Rule { pattern: "C:\\Windows*", color: "gray", style: "" },
        Rule { pattern: "*\\Notepad_file\\*", color: "lightgreen", style: "" },
        Rule { pattern: "*\\Program Files\\Git\\cmd", color: "yellow", style: "" },
        Rule { pattern: "*\\AppData\\Local\\Microsoft\\WindowsApps", color: "yellow", style: "" },
        Rule { pattern: "*\\Scripts", color: "lightyellow", style: "" },
        Rule { pattern: "*\\AppData\\Local\\Programs\\Python\\*", color: "lightyellow", style: "" },
        Rule { pattern: "*\\Anaconda3\\envs\\*", color: "green", style: "" },
        Rule { pattern: "*\\Anaconda3\\condabin", color: "green", style: "" },
        Rule { pattern: "*\\miniconda3\\condabin", color: "green", style: "" },
        Rule { pattern: "*\\AppData\\Roaming\\nvm", color: "lightcyan", style: "" },
        Rule { pattern: "*\\AppData\\Local\\nvm", color: "lightcyan", style: "" },
        Rule { pattern: "*\\Program Files\\nodejs", color: "cyan", style: "" },
        Rule { pattern: "*\\nvm_nodejs", color: "cyan", style: "" },
        Rule { pattern: "*\\nvm\\*", color: "cyan", style: "" },
        Rule { pattern: "*\\mysql*\\bin", color: "lightblue", style: "" },
        Rule { pattern: "*\\Program Files\\ShadowBot", color: "lightred", style: "" },
        Rule { pattern: "*\\.cargo\\bin", color: "lightpurple", style: "" },
        Rule { pattern: "\\\\*", color: "", style: "underline" },
    ];
    assert(v@ =~= ss_path_rules_spec());
    v
}

/// Colour and style of a PATH entry under the rules of `ss`.
pub fn match_path(text: &str) -> (r: (&'static str, &'static str))
    ensures
        (r.0@, r.1@) == match_rules_spec(ss_path_rules_spec(), text@),
{
    let rules = ss_path_rules();
    match_path_in(rules.as_slice(), text)
}

/// A variable colouring rule of `ss`: name, colour, style.
#[derive(Clone, Copy)]
pub struct VarRule {
    pub name: &'static str,
    pub color: &'static str,
    pub style: &'static str,
}

pub open spec fn var_rules_spec() -> Seq<VarRule> {
    seq![
        VarRule { name: "SYSTEMDRIVE", color: "gray", style: "" },
        VarRule { name: "SYSTEMROOT", color: "gray", style: "" },
        VarRule { name: "TEMP", color: "gray", style: "" },
        VarRule { name: "TMP", color: "gray", style: "" },
        VarRule { name: "USERNAME", color: "gray", style: "" },
        VarRule { name: "USERPROFILE", color: "gray", style: "" },
        VarRule { name: "COMSPEC", color: "gray", style: "" },
        VarRule { name: "PROMPT", color: "gray", style: "" },
        VarRule { name: "CONDA_HOME", color: "green", style: "" },
        VarRule { name: "MYSQL_HOME", color: "lightblue", style: "" },
        VarRule { name: "NVM_HOME", color: "lightcyan", style: "" },
        VarRule { name: "NVM_SYMLINK", color: "lightcyan", style: "" },
        VarRule { name: "ENV", color: "purple", style: "" },
        VarRule { name: "ENV_PATH", color: "purple", style: "" },
        VarRule { name: "KMP_DUPLICATE_LIB_OK", color: "purple", style: "" },
        VarRule { name: "REDIS_HOME", color: "red", style: "" },
        VarRule { name: "PYTHON_HOME", color: "lightyellow", style: "" },
        VarRule { name: "JAVA_HOME", color: "blue", style: "" },
        VarRule { name: "GOPATH", color: "blue", style: "" },
        VarRule { name: "PATH", color: "green", style: "bold" },
        VarRule { name: "SHADOWBOT_CULTURE", color: "lightred", style: "" },
        VarRule { name: "SHADOWBOT_ROOT_X64", color: "lightred", style: "" },
        VarRule { name: "RUSTUP_UPDATE_ROOT", color: "lightpurple", style: "" },
        VarRule { name: "RUSTUP_DIST_SERVER", color: "lightpurple", style: "" },
        VarRule { name: "WT_SESSION", color: "", style: "italic" },
    ]
}

pub fn var_rules() -> (r: Vec<VarRule>)
    ensures
        r@ == var_rules_spec(),
{
    let v = vec![
        VarRule { name: "SYSTEMDRIVE", color: "gray", style: "" },
        VarRule { name: "SYSTEMROOT", color: "gray", style: "" },
        VarRule { name: "TEMP", color: "gray", style: "" },
        VarRule { name: "TMP", color: "gray", style: "" },
        VarRule { name: "USERNAME", color: "gray", style: "" },
        VarRule { name: "USERPROFILE", color: "gray", style: "" },
        VarRule { name: "COMSPEC", color: "gray", style: "" },
        VarRule { name: "PROMPT", color: "gray", style: "" },
        VarRule { name: "CONDA_HOME", color: "green", style: "" },
        VarRule { name: "MYSQL_HOME", color: "lightblue", style: "" },
        VarRule { name: "NVM_HOME", color: "lightcyan", style: "" },
        VarRule { name: "NVM_SYMLINK", color: "lightcyan", style: "" },
        VarRule { name: "ENV", color: "purple", style: "" },
        VarRule { name: "ENV_PATH", color: "purple", style: "" },
        VarRule { name: "KMP_DUPLICATE_LIB_OK", color: "purple", style: "" },
        VarRule { name: "REDIS_HOME", color: "red", style: "" },
        VarRule { name: "PYTHON_HOME", color: "lightyellow", style: "" },
        VarRule { name: "JAVA_HOME", color: "blue", style: "" },
        VarRule { name: "GOPATH", color: "blue", style: "" },
        VarRule { name: "PATH", color: "green", style: "bold" },
        VarRule { name: "SHADOWBOT_CULTURE", color: "lightred", style: "" },
        VarRule { name: "SHADOWBOT_ROOT_X64", color: "lightred", style: "" },
        VarRule { name: "RUSTUP_UPDATE_ROOT", color: "lightpurple", style: "" },
        VarRule { name: "RUSTUP_DIST_SERVER", color: "lightpurple", style: "" },
        VarRule { name: "WT_SESSION", color: "", style: "italic" },
    ];
    assert(v@ =~= var_rules_spec());
    v
}

/// The first rule whose name is `name` (ASCII case ignored).
pub open spec fn var_rule_pick(rules: Seq<VarRule>, name: Seq<char>) -> Option<VarRule>
    decreases rules.len(),
{
    if rules.len() == 0 {
        None
    } else if eq_ascii_ci(rules[0].name@, name) {
        Some(rules[0])
    } else {
        var_rule_pick(rules.drop_first(), name)
    }
}

/// Colour and style of a variable's name (both empty when no rule names it).
pub fn match_var(name: &str) -> (r: (&'static str, &'static str))
    ensures
        match var_rule_pick(var_rules_spec(), name@) {
            Some(rule) => r.0@ == rule.color@ && r.1@ == rule.style@,
            None => r.0@.len() == 0 && r.1@.len() == 0,
        },
{
    let rules = var_rules();
    let mut i: usize = 0;
    assert(rules@.skip(0) =~= rules@);
    while i < rules.len()
        invariant
            i <= rules.len(),
            rules@ == var_rules_spec(),
            var_rule_pick(var_rules_spec(), name@) == var_rule_pick(rules@.skip(i as int), name@),
        decreases rules.len() - i,
    {
        assert(rules@.skip(i as int).drop_first() =~= rules@.skip(i + 1));
        if eq_ignore_ascii_case(rules[i].name, name) {
            return (rules[i].color, rules[i].style);
        }
        i += 1;
    }
    assert(rules@.skip(i as int) =~= Seq::<VarRule>::empty());
    let e: &'static str = "";
    proof {
        reveal_strlit("");
    }
    (e, e)
}

/// Variables `ss` never shows.
pub open spec fn excluded_names_spec() -> Seq<&'static str> {
    seq![
        "_PYI_APPLICATION_HOME_DIR",
        "_PYI_ARCHIVE_FILE",
        "_PYI_PARENT_PROCESS_LEVEL",
        "_OLD_VIRTUAL_PATH",
        "_OLD_VIRTUAL_PROMPT",
        "_MY_CURRENT_ENV",
        "_MY_ENV_ACTIVATED",
        "_MY_OLD_PATH",
        "_MY_OLD_PROMPT",
        "_MY_FORCE",
    ]
}

fn excluded_names() -> (r: Vec<&'static str>)
    ensures
        r@ == excluded_names_spec(),
{
    let v = vec![
        "_PYI_APPLICATION_HOME_DIR",
        "_PYI_ARCHIVE_FILE",
        "_PYI_PARENT_PROCESS_LEVEL",
        "_OLD_VIRTUAL_PATH",
        "_OLD_VIRTUAL_PROMPT",
        "_MY_CURRENT_ENV",
        "_MY_ENV_ACTIVATED",
        "_MY_OLD_PATH",
        "_MY_OLD_PROMPT",
        "_MY_FORCE",
    ];
    assert(v@ =~= excluded_names_spec());
    v
}

/// `name` is one of the hidden names, both lower-cased.
pub open spec fn ss_excluded(name: Seq<char>) -> bool {
    exists|i: int| 0 <= i < excluded_names_spec().len() && lowercase(excluded_names_spec()[i]@) == lowercase(name)
}

/// Whether `ss` hides the variable `name`.
pub fn is_excluded(name: &str) -> (r: bool)
    ensures
        r == ss_excluded(name@),
{
    let names = excluded_names();
    let lower = to_lower(name);
    let mut i: usize = 0;
    while i < names.len()
        invariant
            i <= names.len(),
            names@ == excluded_names_spec(),
            lower@ == lowercase(name@),
            forall|j: int| 0 <= j < i ==> lowercase(excluded_names_spec()[j]@) != lowercase(name@),
        decreases names.len() - i,
    {
        let e = to_lower(names[i]);
        if str_eq(e.as_str(), lower.as_str()) {
            return true;
        }
        i += 1;
    }
    false
}

/// The map built by putting the pairs in one after another (a later value
/// replaces an earlier one under the same name).
pub open spec fn inserted(v: Seq<(String, String)>) -> Map<Seq<char>, Seq<char>>
    decreases v.len(),
{
    if v.len() == 0 {
        Map::empty()
    } else {
        inserted(v.drop_last()).insert(v.last().0@, v.last().1@)
    }
}

/// Names strictly ascending (`str` order).
pub open spec fn keys_ascending(s: Pairs) -> bool {
    forall|i: int, j: int| 0 <= i < j < s.len() ==> str_lt(#[trigger] s[i].0, #[trigger] s[j].0)
}

/// A variable `ss` shows: not hidden, not starting with `=`.
pub open spec fn ss_shown(name: Seq<char>) -> bool {
    !(name.len() > 0 && name[0] == '=') && !ss_excluded(name)
}

/// The variables `ss` shows, in the order read.
pub open spec fn ss_shown_vars(v: Seq<(String, String)>) -> Seq<(String, String)>
    decreases v.len(),
{
    if v.len() == 0 {
        Seq::empty()
    } else if ss_shown(v.last().0@) {
        ss_shown_vars(v.drop_last()).push(v.last())
    } else {
        ss_shown_vars(v.drop_last())
    }
}

proof fn lemma_place(s: Pairs, k: Seq<char>, p: int)
    requires
        keys_ascending(s),
        0 <= p <= s.len(),
        forall|i: int| 0 <= i < p ==> str_lt(#[trigger] s[i].0, k),
        p < s.len() ==> !str_lt(s[p].0, k),
    ensures
        forall|i: int| p <= i < s.len() ==> !str_lt(#[trigger] s[i].0, k),
        p < s.len() && s[p].0 != k ==> forall|i: int| p <= i < s.len() ==> str_lt(k, #[trigger] s[i].0),
{
    assert forall|i: int| p <= i < s.len() implies !str_lt(#[trigger] s[i].0, k) by {
        if i > p && str_lt(s[i].0, k) {
            lemma_str_lt_trans(s[p].0, s[i].0, k);
        }
    }
    if p < s.len() && s[p].0 != k {
        lemma_str_lt_total(s[p].0, k);
        assert forall|i: int| p <= i < s.len() implies str_lt(k, #[trigger] s[i].0) by {
            if i > p {
                lemma_str_lt_trans(k, s[p].0, s[i].0);
            }
        }
    }
}

proof fn lemma_ascending_unique(s: Pairs)
    requires
        keys_ascending(s),
    ensures
        keys_unique(s),
{
    assert forall|i: int, j: int| 0 <= i < j < s.len() implies s[i].0 != s[j].0 by {
        lemma_str_lt_irrefl(s[i].0);
    }
}

fn name_before(a: &String, k: &[char]) -> (r: bool)
    ensures
        r == str_lt(a@, k@),
{
    let ac = chars_of(a.as_str());
    chars_lt(ac.as_slice(), k)
}

/// Puts `(k, v)` into a name-ordered table, replacing the value of an equal
/// name.
fn sorted_insert(m: &mut ColorMap, k: String, v: String)
    requires
        keys_ascending(old(m).pairs()),
    ensures
        keys_ascending(final(m).pairs()),
        final(m).view_map() == old(m).view_map().insert(k@, v@),
{
    let ghost before = m.pairs();
    proof {
        lemma_ascending_unique(before);
    }
    let kc = chars_of(k.as_str());
    let mut p: usize = 0;
    while p < m.entries.len() && name_before(&m.entries[p].0, kc.as_slice())
        invariant
            p <= m.entries.len(),
            m.pairs() == before,
            kc@ == k@,
            forall|i: int| 0 <= i < p ==> str_lt(#[trigger] before[i].0, k@),
        decreases m.entries.len() - p,
    {
        p += 1;
    }
    proof {
        lemma_place(before, k@, p as int);
    }
    if p < m.entries.len() && str_eq(m.entries[p].0.as_str(), k.as_str()) {
        m.entries.set(p, (k, v));
        let ghost after = m.pairs();
        assert(after =~= before.update(p as int, (k@, v@)));
        assert(keys_ascending(after)) by {
            assert forall|a: int, b: int| 0 <= a < b < after.len() implies str_lt(#[trigger] after[a].0, #[trigger] after[b].0) by {
                assert(str_lt(before[a].0, before[b].0));
            }
        }
        proof {
            lemma_ascending_unique(after);
        }
        assert(map_of(after) =~= map_of(before).insert(k@, v@)) by {
            assert forall|x: Seq<char>| #[trigger] map_of(after).dom().contains(x) == map_of(before).insert(k@, v@).dom().contains(x) by {
                if has_key(after, x) {
                    let j = choose|j: int| 0 <= j < after.len() && after[j].0 == x;
                    assert(before[j].0 == x);
                }
                if has_key(before, x) {
                    let j = choose|j: int| 0 <= j < before.len() && before[j].0 == x;
                    assert(after[j].0 == x);
                }
            }
            assert forall|x: Seq<char>| map_of(after).dom().contains(x) implies map_of(after)[x] == map_of(before).insert(k@, v@)[x] by {
                let j = choose|j: int| 0 <= j < after.len() && after[j].0 == x;
                lemma_map_of_at(after, j);
                if j != p {
                    if j < p {
                        assert(after[j].0 != after[p as int].0);
                    } else {
                        assert(after[p as int].0 != after[j].0);
                    }
                    lemma_map_of_at(before, j);
                }
            }
        }
    } else {
        m.entries.insert(p, (k, v));
        let ghost after = m.pairs();
        assert(after =~= before.insert(p as int, (k@, v@)));
        assert(keys_ascending(after)) by {
            assert forall|a: int, b: int| 0 <= a < b < after.len() implies str_lt(#[trigger] after[a].0, #[trigger] after[b].0) by {
                if a < p && b == p {
                    assert(str_lt(before[a].0, k@));
                } else if a == p {
                    assert(str_lt(k@, before[b - 1].0));
                } else {
                    let a2 = if a < p { a } else { a - 1 };
                    let b2 = if b < p { b } else { b - 1 };
                    assert(after[a] == before[a2] && after[b] == before[b2]);
                    assert(str_lt(before[a2].0, before[b2].0));
                }
            }
        }
        proof {
            lemma_ascending_unique(after);
        }
        assert(map_of(after) =~= map_of(before).insert(k@, v@)) by {
            assert forall|x: Seq<char>| #[trigger] map_of(after).dom().contains(x) == map_of(before).insert(k@, v@).dom().contains(x) by {
                if has_key(after, x) {
                    let j = choose|j: int| 0 <= j < after.len() && after[j].0 == x;
                    if j < p {
                        assert(before[j].0 == x);
                    } else if j > p {
                        assert(before[j - 1].0 == x);
                    }
                }
                if has_key(before, x) {
                    let j = choose|j: int| 0 <= j < before.len() && before[j].0 == x;
                    let j2 = if j < p { j } else { j + 1 };
                    assert(after[j2].0 == x);
                }
                assert(after[p as int].0 == k@);
            }
            assert forall|x: Seq<char>| map_of(after).dom().contains(x) implies map_of(after)[x] == map_of(before).insert(k@, v@)[x] by {
                let j = choose|j: int| 0 <= j < after.len() && after[j].0 == x;
                lemma_map_of_at(after, j);
                if j < p {
                    assert(after[j].0 != after[p as int].0);
                    lemma_map_of_at(before, j);
                } else if j > p {
                    assert(after[p as int].0 != after[j].0);
                    lemma_map_of_at(before, j - 1);
                }
            }
        }
    }
}

/// The variables `ss` lists: shown ones, by name in `str` order, one entry
/// per name with the last value read (what a `BTreeMap` gives).
pub fn sorted_vars(vars: Vec<(String, String)>) -> (r: ColorMap)
    ensures
        keys_ascending(r.pairs()),
        r.wf(),
        r.view_map() == inserted(ss_shown_vars(vars@)),
{
    let ghost o = vars@;
    let mut rest = vars;
    let mut m = ColorMap { entries: Vec::new() };
    let ghost mut n: int = 0;
    assert(m.view_map() =~= Map::<Seq<char>, Seq<char>>::empty());
    while rest.len() > 0
        invariant
            0 <= n <= o.len(),
            rest@ == o.skip(n),
            keys_ascending(m.pairs()),
            m.view_map() == inserted(ss_shown_vars(o.take(n))),
        decreases rest.len(),
    {
        let x = rest.remove(0);
        proof {
            assert(x == o[n]);
            assert(rest@ =~= o.skip(n + 1));
            assert(o.take(n + 1).drop_last() =~= o.take(n));
            assert(o.take(n + 1).last() == x);
        }
        let nc = chars_of(x.0.as_str());
        let internal = nc.len() > 0 && nc[0] == '=';
        let ghost xk = x.0@;
        let ghost xv = x.1@;
        if !internal && !is_excluded(x.0.as_str()) {
            assert(ss_shown(xk));
            let (k, v) = x;
            sorted_insert(&mut m, k, v);
            assert(ss_shown_vars(o.take(n + 1)) == ss_shown_vars(o.take(n)).push(o[n]));
            assert(ss_shown_vars(o.take(n)).push(o[n]).drop_last() =~= ss_shown_vars(o.take(n)));
            assert(inserted(ss_shown_vars(o.take(n + 1))) == inserted(ss_shown_vars(o.take(n))).insert(xk, xv));
            assert(m.view_map() =~= inserted(ss_shown_vars(o.take(n + 1))));
        } else {
            assert(!ss_shown(xk));
        }
        proof {
            n = n + 1;
        }
    }
    assert(o.take(n) =~= o);
    proof {
        lemma_ascending_unique(m.pairs());
    }
    m
}

/// A name set in a column `width` bytes wide: spaces added after it when
/// left-aligned, before it otherwise (one space per missing byte).
pub open spec fn spaced_spec(name: Seq<char>, width: nat, left_align: bool) -> Seq<char> {
    let pad = repeat_char(' ', (width - byte_len(name)) as nat);
    if left_align { name + pad } else { pad + name }
}

pub fn spaced_name(name: &str, width: usize, left_align: bool) -> (r: String)
    requires
        byte_len(name@) <= width,
    ensures
        r@ == spaced_spec(name@, width as nat, left_align),
{
    let b = name.len();
    let pad = repeat_vec(' ', width - b);
    if left_align {
        let mut s = String::from_str(name);
        crate::text::push_all(&mut s, pad.as_slice());
        s
    } else {
        let mut s = string_of(pad.as_slice());
        push_str(&mut s, name);
        s
    }
}

/// The plain lines of one variable: `name = value`, a value holding `;`
/// spread one entry per line under the first, indented `width + 3`.
pub open spec fn plain_lines_spec(name: Seq<char>, value: Seq<char>, width: nat, left_align: bool) -> Seq<Seq<char>> {
    let spaced = spaced_spec(name, width, left_align);
    if has_char(value, ';') {
        let ls = semicolon_lines(value);
        Seq::new(
            ls.len(),
            |i: int|
                if i == 0 {
                    spaced + " = "@ + ls[i]
                } else {
                    repeat_char(' ', width + 3) + ls[i]
                },
        )
    } else {
        seq![spaced + " = "@ + value]
    }
}

pub fn plain_lines(name: &str, value: &str, width: usize, left_align: bool) -> (r: Vec<String>)
    requires
        byte_len(name@) <= width,
        width + 3 <= usize::MAX,
        value@.len() + 1 <= usize::MAX,
    ensures
        texts(r@) == plain_lines_spec(name@, value@, width as nat, left_align),
{
    let spaced = spaced_name(name, width, left_align);
    let vc = chars_of(value);
    let mut out: Vec<String> = Vec::new();
    if has_ch(vc.as_slice(), ';') {
        let ls = value_lines(value, true, 1);
        let indent = repeat_vec(' ', width + 3);
        let ghost lv = texts(ls@);
        let mut i: usize = 0;
        while i < ls.len()
            invariant
                i <= ls.len(),
                lv == texts(ls@),
                lv == semicolon_lines(value@),
                has_char(value@, ';'),
                spaced@ == spaced_spec(name@, width as nat, left_align),
                indent@ == repeat_char(' ', (width + 3) as nat),
                texts(out@) =~= plain_lines_spec(name@, value@, width as nat, left_align).take(i as int),
            decreases ls.len() - i,
        {
            let mut line = if i == 0 {
                let mut t = spaced.clone();
                push_str(&mut t, " = ");
                t
            } else {
                string_of(indent.as_slice())
            };
            push_str(&mut line, ls[i].as_str());
            assert(lv[i as int] == ls@[i as int]@);
            assert(line@ == plain_lines_spec(name@, value@, width as nat, left_align)[i as int]);
            let ghost prev = texts(out@);
            out.push(line);
            assert(texts(out@) =~= prev.push(line@));
            assert(texts(out@) =~= plain_lines_spec(name@, value@, width as nat, left_align).take(i + 1));
            i += 1;
        }
        assert(plain_lines_spec(name@, value@, width as nat, left_align).take(ls.len() as int)
            =~= plain_lines_spec(name@, value@, width as nat, left_align));
    } else {
        let mut t = spaced;
        push_str(&mut t, " = ");
        push_str(&mut t, value);
        out.push(t);
        assert(texts(out@) =~= plain_lines_spec(name@, value@, width as nat, left_align));
    }
    out
}

} // verus!
