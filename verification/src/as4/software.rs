//! The `as4` catalogue: entries, name lookup, and reading the registry
//! entry PowerShell prints.

use vstd::prelude::*;
use crate::text::{
    chars_of, lower_chars, lowercase, push_str, str_eq, string_of, trim_chars, trim_seq, first_occ, find_from,
    lemma_first_occ_is, lemma_first_occ_none, occurs_at,
};
use crate::glob::{split_char, split_chars, views};

verus! {

/// How an installed program is recognised in the registry.
pub struct DetectConfig {
    pub display_name: String,
    pub publisher: Option<String>,
}

/// One version: its registry version and its download URLs by install kind.
pub struct VersionEntry {
    pub registry_version: Option<String>,
    pub urls: Vec<(String, Vec<String>)>,
}

/// One catalogue entry.
pub struct SoftwareEntry {
    pub aliases: Vec<String>,
    pub category: Option<String>,
    pub desc: String,
    pub detect: Option<DetectConfig>,
    pub versions: Vec<(String, VersionEntry)>,
}

/// An installed program as the registry shows it.
pub struct RegistryInfo {
    pub display_name: String,
    pub version: String,
    pub install_path: Option<String>,
    pub uninstall_string: Option<String>,
}

/// Some alias of `e`, lower-cased, is `q`.
pub open spec fn has_alias(e: SoftwareEntry, q: Seq<char>) -> bool {
    exists|i: int| 0 <= i < e.aliases@.len() && lowercase(e.aliases@[i]@) == q
}

/// Index of the first entry keyed `q`.
pub open spec fn key_index(all: Seq<(String, SoftwareEntry)>, q: Seq<char>) -> Option<int> {
    if exists|i: int| 0 <= i < all.len() && all[i].0@ == q {
        Some(choose|i: int| 0 <= i < all.len() && all[i].0@ == q && forall|j: int| 0 <= j < i ==> all[j].0@ != q)
    } else {
        None
    }
}

/// Index of the first entry with an alias `q`.
pub open spec fn alias_index(all: Seq<(String, SoftwareEntry)>, q: Seq<char>) -> Option<int> {
    if exists|i: int| 0 <= i < all.len() && has_alias(all[i].1, q) {
        Some(choose|i: int| 0 <= i < all.len() && has_alias(all[i].1, q) && forall|j: int| 0 <= j < i ==> !has_alias(all[j].1, q))
    } else {
        None
    }
}

/// The entry a name resolves to: keyed by the lower-cased name, else the
/// first with that alias (aliases compared lower-cased); its key with it.
pub open spec fn resolve_spec(all: Seq<(String, SoftwareEntry)>, name: Seq<char>) -> Option<(Seq<char>, int)> {
    let q = lowercase(name);
    match key_index(all, q) {
        Some(i) => Some((q, i)),
        None => match alias_index(all, q) {
            Some(i) => Some((all[i].0@, i)),
            None => None,
        },
    }
}

/// A name resolves to the entry keyed by its lower-cased form when there
/// is one; else to an entry with that alias (compared lower-cased), under
/// that entry's key; else to nothing.
pub proof fn resolve_law(all: Seq<(String, SoftwareEntry)>, name: Seq<char>)
    ensures
        (exists|i: int| 0 <= i < all.len() && (#[trigger] all[i]).0@ == lowercase(name)) ==> (resolve_spec(all, name) matches Some(
            p,
        ) && p.0 == lowercase(name) && 0 <= p.1 < all.len() && all[p.1].0@ == p.0),
        (!exists|i: int| 0 <= i < all.len() && (#[trigger] all[i]).0@ == lowercase(name)) && (exists|i: int|
            0 <= i < all.len() && has_alias(#[trigger] all[i].1, lowercase(name))) ==> (resolve_spec(all, name) matches Some(
            p,
        ) && 0 <= p.1 < all.len() && all[p.1].0@ == p.0 && has_alias(all[p.1].1, lowercase(name))),
        (!exists|i: int| 0 <= i < all.len() && (#[trigger] all[i]).0@ == lowercase(name)) && (!exists|i: int|
            0 <= i < all.len() && has_alias(#[trigger] all[i].1, lowercase(name))) ==> resolve_spec(all, name) is None,
{
    let q = lowercase(name);
    if exists|i: int| 0 <= i < all.len() && all[i].0@ == q {
        let w = choose|i: int| 0 <= i < all.len() && all[i].0@ == q;
        lemma_first_key(all, q, w);
    } else if exists|i: int| 0 <= i < all.len() && has_alias(all[i].1, q) {
        let w = choose|i: int| 0 <= i < all.len() && has_alias(all[i].1, q);
        lemma_first_alias(all, q, w);
    }
}

proof fn lemma_first_key(all: Seq<(String, SoftwareEntry)>, q: Seq<char>, w: int)
    requires
        0 <= w < all.len(),
        all[w].0@ == q,
    ensures
        exists|i: int| 0 <= i < all.len() && all[i].0@ == q && forall|j: int| 0 <= j < i ==> all[j].0@ != q,
    decreases w,
{
    if exists|j: int| 0 <= j < w && all[j].0@ == q {
        let j = choose|j: int| 0 <= j < w && all[j].0@ == q;
        lemma_first_key(all, q, j);
    }
}

proof fn lemma_first_alias(all: Seq<(String, SoftwareEntry)>, q: Seq<char>, w: int)
    requires
        0 <= w < all.len(),
        has_alias(all[w].1, q),
    ensures
        exists|i: int| 0 <= i < all.len() && has_alias(all[i].1, q) && forall|j: int| 0 <= j < i ==> !has_alias(all[j].1, q),
    decreases w,
{
    if exists|j: int| 0 <= j < w && has_alias(all[j].1, q) {
        let j = choose|j: int| 0 <= j < w && has_alias(all[j].1, q);
        lemma_first_alias(all, q, j);
    }
}

fn entry_has_alias(e: &SoftwareEntry, q: &str) -> (r: bool)
    ensures
        r == has_alias(*e, q@),
{
    let mut i: usize = 0;
    while i < e.aliases.len()
        invariant
            i <= e.aliases.len(),
            forall|j: int| 0 <= j < i ==> lowercase(e.aliases@[j]@) != q@,
        decreases e.aliases.len() - i,
    {
        let l = lower_chars(e.aliases[i].as_str());
        let ls = string_of(l.as_slice());
        if str_eq(ls.as_str(), q) {
            return true;
        }
        i += 1;
    }
    false
}

/// Finds a catalogue entry by name or alias; gives its key and position.
pub fn resolve(name: &str, all: &[(String, SoftwareEntry)]) -> (r: Option<(String, usize)>)
    ensures
        match r {
            Some(p) => resolve_spec(all@, name@) == Some((p.0@, p.1 as int)),
            None => resolve_spec(all@, name@) is None,
        },
{
    let lc = lower_chars(name);
    let lower = string_of(lc.as_slice());
    let mut i: usize = 0;
    while i < all.len()
        invariant
            i <= all.len(),
            lower@ == lowercase(name@),
            forall|j: int| 0 <= j < i ==> all@[j].0@ != lower@,
        decreases all.len() - i,
    {
        if str_eq(all[i].0.as_str(), lower.as_str()) {
            proof {
                let q = lower@;
                let c = choose|c: int| 0 <= c < all@.len() && all@[c].0@ == q && forall|j: int| 0 <= j < c ==> all@[j].0@ != q;
                assert(0 <= c < all@.len() && all@[c].0@ == q && forall|j: int| 0 <= j < c ==> all@[j].0@ != q);
                if c < i {
                    assert(all@[c].0@ != q);
                } else if c > i {
                    assert(all@[i as int].0@ != q);
                }
            }
            return Some((lower, i));
        }
        i += 1;
    }
    let mut k: usize = 0;
    while k < all.len()
        invariant
            k <= all.len(),
            lower@ == lowercase(name@),
            forall|j: int| 0 <= j < all.len() ==> all@[j].0@ != lower@,
            forall|j: int| 0 <= j < k ==> !has_alias(all@[j].1, lower@),
        decreases all.len() - k,
    {
        if entry_has_alias(&all[k].1, lower.as_str()) {
            proof {
                let q = lower@;
                let c = choose|c: int| 0 <= c < all@.len() && has_alias(all@[c].1, q) && forall|j: int| 0 <= j < c ==> !has_alias(all@[j].1, q);
                assert(0 <= c < all@.len() && has_alias(all@[c].1, q) && forall|j: int| 0 <= j < c ==> !has_alias(all@[j].1, q));
                if c < k {
                    assert(!has_alias(all@[c].1, q));
                } else if c > k {
                    assert(!has_alias(all@[k as int].1, q));
                }
            }
            return Some((all[k].0.clone(), k));
        }
        k += 1;
    }
    None
}

/// Positions of the entries whose key contains the lower-cased name, in
/// catalogue order (the fallback when no key or alias matches).
pub open spec fn fuzzy_spec(all: Seq<(String, SoftwareEntry)>, q: Seq<char>, n: int) -> Seq<usize>
    decreases n,
{
    if n <= 0 {
        Seq::empty()
    } else if crate::text::contains_seq(all[n - 1].0@, q) {
        fuzzy_spec(all, q, n - 1).push((n - 1) as usize)
    } else {
        fuzzy_spec(all, q, n - 1)
    }
}

/// The entries whose key contains `name` (lower-cased).
pub fn fuzzy_matches(name: &str, all: &[(String, SoftwareEntry)]) -> (r: Vec<usize>)
    ensures
        r@ == fuzzy_spec(all@, lowercase(name@), all@.len() as int),
{
    let q = lower_chars(name);
    let mut out: Vec<usize> = Vec::new();
    let mut i: usize = 0;
    while i < all.len()
        invariant
            i <= all.len(),
            q@ == lowercase(name@),
            out@ == fuzzy_spec(all@, q@, i as int),
        decreases all.len() - i,
    {
        let k = chars_of(all[i].0.as_str());
        if crate::text::contains(k.as_slice(), q.as_slice()) {
            out.push(i);
        }
        i += 1;
    }
    out
}

/// The PowerShell command that prints the first uninstall entry whose
/// display name contains `name`.
pub open spec fn detect_command_spec(name: Seq<char>) -> Seq<char> {
    "Get-ItemProperty 'HKLM:\\SOFTWARE\\Microsoft\\Windows\\CurrentVersion\\Uninstall\\*', 'HKLM:\\SOFTWARE\\Wow6432Node\\Microsoft\\Windows\\CurrentVersion\\Uninstall\\*', 'HKCU:\\SOFTWARE\\Microsoft\\Windows\\CurrentVersion\\Uninstall\\*' 2>$null | Where-Object { $_.DisplayName -like '*"@
        + name + "*' } | Select-Object -First 1"@
}

/// The registry query for a detection entry.
pub fn detect_command(detect: &DetectConfig) -> (r: String)
    ensures
        r@ == detect_command_spec(detect.display_name@),
{
    let mut s = String::from_str("Get-ItemProperty 'HKLM:\\SOFTWARE\\Microsoft\\Windows\\CurrentVersion\\Uninstall\\*', 'HKLM:\\SOFTWARE\\Wow6432Node\\Microsoft\\Windows\\CurrentVersion\\Uninstall\\*', 'HKCU:\\SOFTWARE\\Microsoft\\Windows\\CurrentVersion\\Uninstall\\*' 2>$null | Where-Object { $_.DisplayName -like '*");
    push_str(&mut s, detect.display_name.as_str());
    push_str(&mut s, "*' } | Select-Object -First 1");
    s
}

/// Registry fields read from PowerShell's output so far: name, version,
/// location, uninstall command.
pub type Fields = (Seq<char>, Seq<char>, Option<Seq<char>>, Option<Seq<char>>);

/// One `Key : value` line applied to the fields (the value is everything
/// after the first colon, trimmed; keys compared trimmed and lower-cased).
pub open spec fn apply_line(f: Fields, line: Seq<char>) -> Fields {
    match first_occ(line, seq![':'], 0) {
        None => f,
        Some(c) => {
            let key = lowercase(trim_seq(line.take(c)));
            let value = trim_seq(line.skip(c + 1));
            if key == "displayname"@ {
                (value, f.1, f.2, f.3)
            } else if key == "displayversion"@ {
                (f.0, value, f.2, f.3)
            } else if key == "installlocation"@ {
                (f.0, f.1, Some(value), f.3)
            } else if key == "uninstallstring"@ {
                (f.0, f.1, f.2, Some(value))
            } else {
                f
            }
        },
    }
}

pub open spec fn apply_lines(lines: Seq<Seq<char>>, n: int) -> Fields
    decreases n,
{
    if n <= 0 {
        (Seq::empty(), Seq::empty(), None, None)
    } else {
        apply_line(apply_lines(lines, n - 1), lines[n - 1])
    }
}

/// The registry entry PowerShell printed, when it has a display name.
pub open spec fn parse_registry_spec(out: Seq<char>) -> Option<Fields> {
    let lines = split_char(out, '\n');
    let f = apply_lines(lines, lines.len() as int);
    if f.0.len() > 0 { Some(f) } else { None }
}

fn slice_chars(s: &[char], from: usize, to: usize) -> (r: Vec<char>)
    requires
        from <= to <= s.len(),
    ensures
        r@ == s@.subrange(from as int, to as int),
{
    let mut v: Vec<char> = Vec::new();
    let mut i = from;
    while i < to
        invariant
            from <= i <= to <= s.len(),
            v@ == s@.subrange(from as int, i as int),
        decreases to - i,
    {
        v.push(s[i]);
        assert(s@.subrange(from as int, i + 1) =~= s@.subrange(from as int, i as int).push(s@[i as int]));
        i += 1;
    }
    v
}

pub open spec fn info_fields(r: RegistryInfo) -> Fields {
    (r.display_name@, r.version@, crate::aspkg::locate::opt_text(r.install_path), crate::aspkg::locate::opt_text(r.uninstall_string))
}

/// Reads the registry entry from PowerShell's `Get-ItemProperty` output.
pub fn parse_registry_output(out: &str) -> (r: Option<RegistryInfo>)
    ensures
        match r {
            Some(info) => parse_registry_spec(out@) == Some(info_fields(info)),
            None => parse_registry_spec(out@) is None,
        },
{
    let c = chars_of(out);
    let lines = split_chars(c.as_slice(), '\n');
    let ghost lv = views(lines@);
    let mut info = RegistryInfo { display_name: String::new(), version: String::new(), install_path: None, uninstall_string: None };
    let mut i: usize = 0;
    proof {
        assert(info_fields(info) =~= apply_lines(lv, 0));
    }
    while i < lines.len()
        invariant
            i <= lines.len(),
            lv == views(lines@),
            info_fields(info) == apply_lines(lv, i as int),
        decreases lines.len() - i,
    {
        let line = lines[i].as_slice();
        assert(lv[i as int] == line@);
        let colon: Vec<char> = vec![':'];
        assert(colon@ =~= seq![':']);
        match find_from(line, colon.as_slice(), 0) {
            None => {
                proof {
                    lemma_first_occ_none(line@, seq![':'], 0);
                }
            },
            Some(ci) => {
                proof {
                    lemma_first_occ_is(line@, seq![':'], 0, ci as int);
                }
                assert(ci < line.len());
                let k0 = slice_chars(line, 0, ci);
                let v0 = slice_chars(line, ci + 1, line.len());
                assert(k0@ =~= line@.take(ci as int));
                assert(v0@ =~= line@.skip(ci + 1));
                let kt = trim_chars(k0.as_slice());
                let kts = string_of(kt.as_slice());
                let kl = lower_chars(kts.as_str());
                let key = string_of(kl.as_slice());
                let vt = trim_chars(v0.as_slice());
                let value = string_of(vt.as_slice());
                let k = key.as_str();
                if str_eq(k, "displayname") {
                    info.display_name = value;
                } else if str_eq(k, "displayversion") {
                    info.version = value;
                } else if str_eq(k, "installlocation") {
                    info.install_path = Some(value);
                } else if str_eq(k, "uninstallstring") {
                    info.uninstall_string = Some(value);
                }
            },
        }
        i += 1;
    }
    let n = chars_of(info.display_name.as_str());
    if n.len() > 0 {
        Some(info)
    } else {
        None
    }
}

} // verus!
