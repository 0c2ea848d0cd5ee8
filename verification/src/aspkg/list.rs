//! The decisions behind `as list` and `as install`: version numbers and their
//! order, how registry versions map to catalogue keys, the status and type
//! labels of a catalogue entry, and the clean-up of install paths.

use vstd::prelude::*;
use std::cmp::Ordering;
use crate::text::{
    all_digits, digit_run, digit_run_end, digits_upto, digits_value, is_ascii_digit, is_digit,
    chars_of, lemma_digit_run_bound, str_lt, chars_lt, lemma_str_lt_irrefl, lemma_str_lt_asym,
    lemma_str_lt_total, lemma_str_lt_trans, is_prefix, starts_with, str_eq, contains_seq, has_char,
    contains, has_ch, lowercase, lower_chars, to_lower, trim_seq, trim_end_char, trim_start_char, trim_chars,
    trim_end_char_vec, trim_start_char_vec, string_of, eq_ascii_ci, eq_ignore_ascii_case, replace_all,
    replace_str, push_str, push_char, occurs_at, lemma_replace_step, lemma_replace_none,
};
use crate::aspkg::software::utf8;
use crate::environ::EnvVars;
use crate::aspkg::software::{SoftwareEntry, VersionEntry, opt_str_view};

verus! {

/// Numbers of a version string: each maximal run of ASCII digits, read in
/// decimal; runs whose value does not fit in a `u32` are left out.
pub open spec fn version_nums(s: Seq<char>) -> Seq<u32>
    decreases s.len(),
{
    if s.len() == 0 {
        Seq::empty()
    } else if !is_digit(s[0]) {
        version_nums(s.drop_first())
    } else {
        let n = digit_run(s) as int;
        proof {
            lemma_digit_run_bound(s);
        }
        let v = digits_value(s.take(n));
        if v <= u32::MAX {
            seq![v as u32] + version_nums(s.skip(n))
        } else {
            version_nums(s.skip(n))
        }
    }
}

/// Number `i` of a version, 0 past its end.
pub open spec fn part_at(v: Seq<u32>, i: int) -> int {
    if 0 <= i < v.len() {
        v[i] as int
    } else {
        0
    }
}

pub open spec fn max_len(a: Seq<u32>, b: Seq<u32>) -> int {
    if a.len() >= b.len() {
        a.len() as int
    } else {
        b.len() as int
    }
}

/// Sign of the comparison of `a` and `b` from number `i` on, the shorter
/// one padded with zeros: -1, 0 or 1.
pub open spec fn version_order_from(a: Seq<u32>, b: Seq<u32>, i: int) -> int
    decreases max_len(a, b) - i,
{
    if i < 0 || i >= max_len(a, b) {
        0
    } else if part_at(a, i) < part_at(b, i) {
        -1
    } else if part_at(a, i) > part_at(b, i) {
        1
    } else {
        version_order_from(a, b, i + 1)
    }
}

/// Sign of the comparison of two version numbers.
pub open spec fn version_order(a: Seq<u32>, b: Seq<u32>) -> int {
    version_order_from(a, b, 0)
}

/// `o` is the ordering whose sign is `s`.
pub open spec fn ordering_has_sign(o: Ordering, s: int) -> bool {
    match o {
        Ordering::Less => s < 0,
        Ordering::Equal => s == 0,
        Ordering::Greater => s > 0,
    }
}

/// The numbers of a version string (`parse_version`).
pub fn parse_version(v: &str) -> (r: Vec<u32>)
    ensures
        r@ == version_nums(v@),
{
    let s = chars_of(v);
    let mut out: Vec<u32> = Vec::new();
    let mut i: usize = 0;
    proof {
        assert(s@.skip(0) =~= s@);
        assert(out@ + version_nums(s@) =~= version_nums(s@));
    }
    while i < s.len()
        invariant
            i <= s.len(),
            s@ == v@,
            out@ + version_nums(s@.skip(i as int)) == version_nums(v@),
        decreases s.len() - i,
    {
        let ghost rest = s@.skip(i as int);
        if !is_ascii_digit(s[i]) {
            proof {
                assert(rest.drop_first() =~= s@.skip(i + 1));
            }
            i += 1;
        } else {
            let j = digit_run_end(s.as_slice(), i);
            let val = digits_upto(s.as_slice(), i, j, 0xffff_ffff);
            proof {
                let n = (j - i) as int;
                assert(rest.take(n) =~= s@.subrange(i as int, j as int));
                assert(rest.skip(n) =~= s@.skip(j as int));
            }
            match val {
                Some(x) => {
                    let ghost before = out@;
                    out.push(x as u32);
                    proof {
                        let tail = version_nums(s@.skip(j as int));
                        assert(version_nums(rest) == seq![x as u32] + tail);
                        assert(before + (seq![x as u32] + tail) =~= out@ + tail);
                    }
                },
                None => {},
            }
            i = j;
        }
    }
    proof {
        assert(s@.skip(i as int) =~= Seq::<char>::empty());
        assert(out@ + Seq::<u32>::empty() =~= out@);
    }
    out
}

fn part_at_exec(v: &[u32], i: usize) -> (r: u32)
    ensures
        r as int == part_at(v@, i as int),
{
    if i < v.len() {
        v[i]
    } else {
        0
    }
}

/// Sign of the comparison of two number lists, zero padded.
pub fn version_sign(a: &[u32], b: &[u32]) -> (r: i8)
    ensures
        r as int == version_order(a@, b@),
{
    let n = if a.len() >= b.len() { a.len() } else { b.len() };
    let mut i: usize = 0;
    while i < n
        invariant
            n as int == max_len(a@, b@),
            i <= n,
            version_order(a@, b@) == version_order_from(a@, b@, i as int),
        decreases n - i,
    {
        let x = part_at_exec(a, i);
        let y = part_at_exec(b, i);
        if x < y {
            return -1;
        } else if x > y {
            return 1;
        }
        i += 1;
    }
    0
}

/// Order of two version strings by their numbers, the shorter padded with
/// zeros (so `3.14.5` is after `3.10.11`, and `1.0` equals `1`).
pub fn cmp_versions(a: &str, b: &str) -> (r: Ordering)
    ensures
        ordering_has_sign(r, version_order(version_nums(a@), version_nums(b@))),
{
    let x = parse_version(a);
    let y = parse_version(b);
    let s = version_sign(x.as_slice(), y.as_slice());
    if s < 0 {
        Ordering::Less
    } else if s > 0 {
        Ordering::Greater
    } else {
        Ordering::Equal
    }
}

proof fn lemma_order_from_refl(a: Seq<u32>, i: int)
    ensures
        version_order_from(a, a, i) == 0,
    decreases max_len(a, a) - i,
{
    if 0 <= i < max_len(a, a) {
        lemma_order_from_refl(a, i + 1);
    }
}

proof fn lemma_order_from_antisym(a: Seq<u32>, b: Seq<u32>, i: int)
    ensures
        version_order_from(a, b, i) == -version_order_from(b, a, i),
    decreases max_len(a, b) - i,
{
    if 0 <= i < max_len(a, b) {
        lemma_order_from_antisym(a, b, i + 1);
    }
}

proof fn lemma_order_from_trans(a: Seq<u32>, b: Seq<u32>, c: Seq<u32>, i: int)
    requires
        0 <= i,
        version_order_from(a, b, i) <= 0,
        version_order_from(b, c, i) <= 0,
    ensures
        version_order_from(a, c, i) <= 0,
    decreases max_len(a, b) + max_len(b, c) + max_len(a, c) - i,
{
    if i < max_len(a, c) {
        if part_at(a, i) == part_at(c, i) {
            if i >= max_len(a, b) && i >= max_len(b, c) {
                assert(false);
            } else {
                lemma_order_from_trans(a, b, c, i + 1);
            }
        }
    }
}

/// A version compares equal to itself.
pub proof fn version_order_reflexive(a: Seq<char>)
    ensures
        version_order(version_nums(a), version_nums(a)) == 0,
{
    lemma_order_from_refl(version_nums(a), 0);
}

/// Swapping the two versions reverses the order.
pub proof fn version_order_antisymmetric(a: Seq<char>, b: Seq<char>)
    ensures
        version_order(version_nums(a), version_nums(b)) == -version_order(version_nums(b), version_nums(a)),
{
    lemma_order_from_antisym(version_nums(a), version_nums(b), 0);
}

/// The order of versions is transitive.
pub proof fn version_order_transitive(a: Seq<char>, b: Seq<char>, c: Seq<char>)
    requires
        version_order(version_nums(a), version_nums(b)) <= 0,
        version_order(version_nums(b), version_nums(c)) <= 0,
    ensures
        version_order(version_nums(a), version_nums(c)) <= 0,
{
    lemma_order_from_trans(version_nums(a), version_nums(b), version_nums(c), 0);
}

/// Version keys of an entry with their registry versions.
pub open spec fn version_pairs(vs: Seq<(String, VersionEntry)>) -> Seq<(Seq<char>, Option<Seq<char>>)> {
    vs.map_values(|p: (String, VersionEntry)| (p.0@, opt_str_view(p.1.registry_version)))
}

/// Key of the first version whose registry version is exactly `rv`.
pub open spec fn exact_registry_key(vv: Seq<(Seq<char>, Option<Seq<char>>)>, rv: Seq<char>) -> Option<Seq<char>>
    decreases vv.len(),
{
    if vv.len() == 0 {
        None
    } else if vv[0].1 == Some(rv) {
        Some(vv[0].0)
    } else {
        exact_registry_key(vv.drop_first(), rv)
    }
}

/// First version key that `rv` starts with.
pub open spec fn prefix_registry_key(vv: Seq<(Seq<char>, Option<Seq<char>>)>, rv: Seq<char>) -> Option<Seq<char>>
    decreases vv.len(),
{
    if vv.len() == 0 {
        None
    } else if is_prefix(vv[0].0, rv) {
        Some(vv[0].0)
    } else {
        prefix_registry_key(vv.drop_first(), rv)
    }
}

/// The catalogue key of a registry version: the exact registry version
/// first, then a key the registry version starts with.
pub open spec fn registry_key(vv: Seq<(Seq<char>, Option<Seq<char>>)>, rv: Seq<char>) -> Option<Seq<char>> {
    match exact_registry_key(vv, rv) {
        Some(k) => Some(k),
        None => prefix_registry_key(vv, rv),
    }
}

fn find_exact_registry_key(vs: &Vec<(String, VersionEntry)>, rv: &str) -> (r: Option<String>)
    ensures
        match r {
            Some(k) => exact_registry_key(version_pairs(vs@), rv@) == Some(k@),
            None => exact_registry_key(version_pairs(vs@), rv@) is None,
        },
{
    let ghost vv = version_pairs(vs@);
    let mut i: usize = 0;
    assert(vv.skip(0) =~= vv);
    while i < vs.len()
        invariant
            i <= vs.len(),
            vv == version_pairs(vs@),
            exact_registry_key(vv, rv@) == exact_registry_key(vv.skip(i as int), rv@),
        decreases vs.len() - i,
    {
        assert(vv.skip(i as int).drop_first() =~= vv.skip(i + 1));
        assert(vv.skip(i as int)[0] == vv[i as int]);
        let hit = match &vs[i].1.registry_version {
            Some(x) => str_eq(x.as_str(), rv),
            None => false,
        };
        if hit {
            return Some(vs[i].0.clone());
        }
        i += 1;
    }
    assert(vv.skip(i as int) =~= Seq::<(Seq<char>, Option<Seq<char>>)>::empty());
    None
}

fn find_prefix_registry_key(vs: &Vec<(String, VersionEntry)>, rv: &str) -> (r: Option<String>)
    ensures
        match r {
            Some(k) => prefix_registry_key(version_pairs(vs@), rv@) == Some(k@),
            None => prefix_registry_key(version_pairs(vs@), rv@) is None,
        },
{
    let ghost vv = version_pairs(vs@);
    let rc = chars_of(rv);
    let mut i: usize = 0;
    assert(vv.skip(0) =~= vv);
    while i < vs.len()
        invariant
            i <= vs.len(),
            vv == version_pairs(vs@),
            rc@ == rv@,
            prefix_registry_key(vv, rv@) == prefix_registry_key(vv.skip(i as int), rv@),
        decreases vs.len() - i,
    {
        assert(vv.skip(i as int).drop_first() =~= vv.skip(i + 1));
        assert(vv.skip(i as int)[0] == vv[i as int]);
        let kc = chars_of(vs[i].0.as_str());
        if starts_with(rc.as_slice(), kc.as_slice()) {
            return Some(vs[i].0.clone());
        }
        i += 1;
    }
    assert(vv.skip(i as int) =~= Seq::<(Seq<char>, Option<Seq<char>>)>::empty());
    None
}

/// Maps a registry version back to the catalogue key of `entry`
/// (e.g. registry `3.14.5150.0` to key `3.14.5`); `None` when nothing maps.
pub fn map_registry_version(entry: Option<&SoftwareEntry>, reg_version: &str) -> (r: Option<String>)
    ensures
        match entry {
            None => r is None,
            Some(e) => opt_str_view(r) == registry_key(version_pairs(e.versions@), reg_version@),
        },
{
    match entry {
        None => None,
        Some(e) => {
            match find_exact_registry_key(&e.versions, reg_version) {
                Some(k) => Some(k),
                None => find_prefix_registry_key(&e.versions, reg_version),
            }
        },
    }
}

/// Version keys of an entry.
pub open spec fn version_keys(vs: Seq<(String, VersionEntry)>) -> Seq<Seq<char>> {
    vs.map_values(|p: (String, VersionEntry)| p.0@)
}

/// `k` sorts last among `keys`.
pub open spec fn is_last_key(keys: Seq<Seq<char>>, k: Seq<char>) -> bool {
    keys.contains(k) && forall|j: int| 0 <= j < keys.len() ==> !str_lt(k, #[trigger] keys[j])
}

/// The key that sorts last (string order), if there is any key.
pub open spec fn last_key(keys: Seq<Seq<char>>) -> Option<Seq<char>> {
    if keys.len() == 0 {
        None
    } else {
        Some(choose|k: Seq<char>| is_last_key(keys, k))
    }
}

proof fn lemma_last_key_unique(keys: Seq<Seq<char>>, a: Seq<char>, b: Seq<char>)
    requires
        is_last_key(keys, a),
        is_last_key(keys, b),
    ensures
        a == b,
{
    let ia = choose|i: int| 0 <= i < keys.len() && keys[i] == a;
    let ib = choose|i: int| 0 <= i < keys.len() && keys[i] == b;
    assert(!str_lt(a, keys[ib]));
    assert(!str_lt(b, keys[ia]));
    lemma_str_lt_total(a, b);
}

/// The catalogue's latest version of an entry: the key that sorts last.
pub fn latest_version(entry: &SoftwareEntry) -> (r: Option<String>)
    ensures
        opt_str_view(r) == last_key(version_keys(entry.versions@)),
{
    let vs = &entry.versions;
    let ghost keys = version_keys(vs@);
    if vs.len() == 0 {
        return None;
    }
    let mut best: usize = 0;
    let mut best_c = chars_of(vs[0].0.as_str());
    let mut i: usize = 1;
    proof {
        lemma_str_lt_irrefl(keys[0]);
    }
    while i < vs.len()
        invariant
            1 <= i <= vs.len(),
            best < vs.len(),
            keys == version_keys(vs@),
            best_c@ == keys[best as int],
            forall|j: int| 0 <= j < i ==> !str_lt(keys[best as int], #[trigger] keys[j]),
        decreases vs.len() - i,
    {
        let c = chars_of(vs[i].0.as_str());
        if chars_lt(best_c.as_slice(), c.as_slice()) {
            proof {
                let kb = keys[best as int];
                let ki = keys[i as int];
                assert forall|j: int| 0 <= j < i + 1 implies !str_lt(ki, #[trigger] keys[j]) by {
                    if j == i {
                        lemma_str_lt_irrefl(ki);
                    } else if str_lt(ki, keys[j]) {
                        lemma_str_lt_total(keys[j], kb);
                        if keys[j] == kb {
                            lemma_str_lt_asym(kb, ki);
                        } else {
                            assert(str_lt(keys[j], kb));
                            lemma_str_lt_trans(ki, keys[j], kb);
                            lemma_str_lt_asym(kb, ki);
                        }
                    }
                }
            }
            best = i;
            best_c = c;
        }
        i += 1;
    }
    let r = vs[best].0.clone();
    proof {
        assert(keys[best as int] == r@);
        assert(is_last_key(keys, r@));
        lemma_last_key_unique(keys, r@, choose|k: Seq<char>| is_last_key(keys, k));
    }
    Some(r)
}

/// Install kinds a version offers a download for.
pub open spec fn url_kinds(ve: VersionEntry) -> Seq<Seq<char>> {
    ve.urls@.map_values(|u: (String, Vec<String>)| u.0@)
}

/// Some version of `e` offers the install kind `kind`.
pub open spec fn entry_offers(e: SoftwareEntry, kind: Seq<char>) -> bool {
    exists|i: int| 0 <= i < e.versions@.len() && #[trigger] url_kinds(e.versions@[i].1).contains(kind)
}

/// Label for the install kinds on offer.
pub open spec fn kind_label(has_installer: bool, has_portable: bool) -> Seq<char> {
    if has_installer && has_portable {
        "安装/便携"@
    } else if has_installer {
        "安装版"@
    } else if has_portable {
        "便携版"@
    } else {
        "-"@
    }
}

fn kind_label_string(has_installer: bool, has_portable: bool) -> (r: String)
    ensures
        r@ == kind_label(has_installer, has_portable),
{
    if has_installer && has_portable {
        String::from_str("安装/便携")
    } else if has_installer {
        String::from_str("安装版")
    } else if has_portable {
        String::from_str("便携版")
    } else {
        String::from_str("-")
    }
}

/// Whether the version offers a download of kind `kind`.
pub fn offers_kind(ve: &VersionEntry, kind: &str) -> (r: bool)
    ensures
        r == url_kinds(*ve).contains(kind@),
{
    let ghost ks = url_kinds(*ve);
    let mut i: usize = 0;
    while i < ve.urls.len()
        invariant
            i <= ve.urls.len(),
            ks == url_kinds(*ve),
            forall|j: int| 0 <= j < i ==> ks[j] != kind@,
        decreases ve.urls.len() - i,
    {
        if str_eq(ve.urls[i].0.as_str(), kind) {
            assert(ks[i as int] == kind@);
            return true;
        }
        i += 1;
    }
    false
}

/// Whether some version of the entry offers a download of kind `kind`.
fn entry_offers_kind(entry: &SoftwareEntry, kind: &str) -> (r: bool)
    ensures
        r == entry_offers(*entry, kind@),
{
    let mut i: usize = 0;
    while i < entry.versions.len()
        invariant
            i <= entry.versions.len(),
            forall|j: int| 0 <= j < i ==> !(#[trigger] url_kinds(entry.versions@[j].1).contains(kind@)),
        decreases entry.versions.len() - i,
    {
        if offers_kind(&entry.versions[i].1, kind) {
            return true;
        }
        i += 1;
    }
    false
}

/// The install kinds offered over all versions of the entry.
pub fn get_type_label(entry: &SoftwareEntry) -> (r: String)
    ensures
        r@ == kind_label(entry_offers(*entry, "installer"@), entry_offers(*entry, "portable"@)),
{
    let has_i = entry_offers_kind(entry, "installer");
    let has_p = entry_offers_kind(entry, "portable");
    kind_label_string(has_i, has_p)
}

/// The version stored under `key` (the first with that key).
pub open spec fn version_named(vs: Seq<(String, VersionEntry)>, key: Seq<char>) -> Option<VersionEntry>
    decreases vs.len(),
{
    if vs.len() == 0 {
        None
    } else if vs[0].0@ == key {
        Some(vs[0].1)
    } else {
        version_named(vs.drop_first(), key)
    }
}

fn find_version<'a>(vs: &'a Vec<(String, VersionEntry)>, key: &str) -> (r: Option<&'a VersionEntry>)
    ensures
        match r {
            Some(v) => version_named(vs@, key@) == Some(*v),
            None => version_named(vs@, key@) is None,
        },
{
    let mut i: usize = 0;
    assert(vs@.skip(0) =~= vs@);
    while i < vs.len()
        invariant
            i <= vs.len(),
            version_named(vs@, key@) == version_named(vs@.skip(i as int), key@),
        decreases vs.len() - i,
    {
        assert(vs@.skip(i as int).drop_first() =~= vs@.skip(i + 1));
        assert(vs@.skip(i as int)[0] == vs@[i as int]);
        if str_eq(vs[i].0.as_str(), key) {
            return Some(&vs[i].1);
        }
        i += 1;
    }
    assert(vs@.skip(i as int) =~= Seq::<(String, VersionEntry)>::empty());
    None
}

/// Label of the install kinds of one version.
pub open spec fn version_label(entry: Option<SoftwareEntry>, key: Seq<char>) -> Seq<char> {
    match entry {
        Some(e) => match version_named(e.versions@, key) {
            Some(v) => kind_label(url_kinds(v).contains("installer"@), url_kinds(v).contains("portable"@)),
            None => "-"@,
        },
        None => "-"@,
    }
}

/// The install kinds offered by the version `version_key` of the entry.
pub fn version_type_label(entry: Option<&SoftwareEntry>, version_key: &str) -> (r: String)
    ensures
        r@ == version_label(match entry { Some(e) => Some(*e), None => None }, version_key@),
{
    let ve = match entry {
        Some(e) => find_version(&e.versions, version_key),
        None => None,
    };
    match ve {
        Some(v) => {
            let has_i = offers_kind(v, "installer");
            let has_p = offers_kind(v, "portable");
            kind_label_string(has_i, has_p)
        },
        None => String::from_str("-"),
    }
}

/// Status of an installed `version` against the catalogue entry: the
/// version (mapped to its key when it is a registry version) is the latest
/// key, or not, or there is nothing to compare.
pub open spec fn status_of(e: SoftwareEntry, version: Option<Seq<char>>) -> Seq<char> {
    let normalized = match version {
        Some(v) => match exact_registry_key(version_pairs(e.versions@), v) {
            Some(k) => Some(k),
            None => Some(v),
        },
        None => None,
    };
    match (normalized, last_key(version_keys(e.versions@))) {
        (Some(v), Some(l)) => if v == l { "最新"@ } else { "可更新"@ },
        _ => "-"@,
    }
}

/// Category text of an entry.
pub open spec fn category_of(e: SoftwareEntry) -> Seq<char> {
    match e.category {
        Some(c) => c@,
        None => "-"@,
    }
}

/// Category and status of an installed version (`-` for both without an entry).
pub fn eval_entry(entry: Option<&SoftwareEntry>, version: Option<&str>) -> (r: (String, String))
    ensures
        match entry {
            Some(e) => r.0@ == category_of(*e) && r.1@ == status_of(*e, match version { Some(v) => Some(v@), None => None }),
            None => r.0@ == "-"@ && r.1@ == "-"@,
        },
{
    match entry {
        Some(e) => {
            let cat = match &e.category {
                Some(c) => c.clone(),
                None => String::from_str("-"),
            };
            let normalized: Option<String> = match version {
                Some(v) => match find_exact_registry_key(&e.versions, v) {
                    Some(k) => Some(k),
                    None => Some(String::from_str(v)),
                },
                None => None,
            };
            let latest = latest_version(e);
            let status = match (normalized, latest) {
                (Some(v), Some(l)) => if str_eq(v.as_str(), l.as_str()) {
                    String::from_str("最新")
                } else {
                    String::from_str("可更新")
                },
                _ => String::from_str("-"),
            };
            (cat, status)
        },
        None => (String::from_str("-"), String::from_str("-")),
    }
}

/// Whether the lower-cased text `t` occurs in `s`.
fn has_text(s: &[char], t: &str) -> (r: bool)
    ensures
        r == contains_seq(s@, t@),
{
    let tc = chars_of(t);
    contains(s, tc.as_slice())
}

/// Registry entries that are runtimes, SDKs or system updates rather than
/// programs (compared lower-cased).
pub open spec fn non_software(n: Seq<char>) -> bool {
    contains_seq(n, "microsoft visual c++"@) || contains_seq(n, "windows sdk"@)
        || contains_seq(n, "windows software development kit"@) || contains_seq(n, "windows sdk addon"@)
        || contains_seq(n, "update for windows"@) || contains_seq(n, "microsoft update health"@)
        || is_prefix("vs_"@, n) || (contains_seq(n, "windows 10 for"@) && contains_seq(n, "based"@))
}

/// Whether a registry display name is a system component to hide by default.
pub fn is_non_software(name: &str) -> (r: bool)
    ensures
        r == non_software(lowercase(name@)),
{
    let n = lower_chars(name);
    let ns = n.as_slice();
    if has_text(ns, "microsoft visual c++") {
        return true;
    }
    if has_text(ns, "windows sdk") || has_text(ns, "windows software development kit") {
        return true;
    }
    if has_text(ns, "windows sdk addon") {
        return true;
    }
    if has_text(ns, "update for windows") {
        return true;
    }
    if has_text(ns, "microsoft update health") {
        return true;
    }
    let vs = chars_of("vs_");
    if starts_with(ns, vs.as_slice()) {
        return true;
    }
    if has_text(ns, "windows 10 for") && has_text(ns, "based") {
        return true;
    }
    false
}

/// Whether the text mentions `msiexec`, ignoring case.
pub fn contains_msiexec(s: &str) -> (r: bool)
    ensures
        r == contains_seq(lowercase(s@), "msiexec"@),
{
    let l = lower_chars(s);
    has_text(l.as_slice(), "msiexec")
}

/// Text that could be a Windows path: not empty, no brackets or braces,
/// and at least one slash or backslash.
pub open spec fn path_like(s: Seq<char>) -> bool {
    s.len() > 0 && !has_char(s, '[') && !has_char(s, ']') && !has_char(s, '{') && !has_char(s, '}')
        && (has_char(s, '\\') || has_char(s, '/'))
}

/// Whether the text looks like a Windows path.
pub fn looks_like_path(s: &str) -> (r: bool)
    ensures
        r == path_like(s@),
{
    let c = chars_of(s);
    let cs = c.as_slice();
    if c.len() == 0 {
        return false;
    }
    if has_ch(cs, '[') || has_ch(cs, ']') || has_ch(cs, '{') || has_ch(cs, '}') {
        return false;
    }
    has_ch(cs, '\\') || has_ch(cs, '/')
}

/// A path worth showing as an install location: not empty, not a drive
/// root, not a Windows system directory and not the MSI package cache
/// (checked after trailing separators are dropped).
pub open spec fn sensible_path(s: Seq<char>) -> bool {
    let t = trim_end_char(trim_end_char(s, '\\'), '/');
    let b = utf8(t);
    &&& s.len() > 0
    &&& !(b.len() <= 3 && t.len() > 0 && t.last() == ':')
    &&& !(b.len() == 3 && b[1] == 0x3a && b[2] == 0x5c)
    &&& !eq_ascii_ci(t, "C:\\Windows"@)
    &&& !eq_ascii_ci(t, "C:\\Windows\\System32"@)
    &&& !eq_ascii_ci(t, "C:\\Windows\\SysWOW64"@)
    &&& !eq_ascii_ci(t, "C:\\Windows\\System"@)
    &&& !contains_seq(lowercase(t), "package cache"@)
}

/// Whether the path is a plausible install location.
pub fn is_sensible_install_path(s: &str) -> (r: bool)
    ensures
        r == sensible_path(s@),
{
    let c = chars_of(s);
    if c.len() == 0 {
        return false;
    }
    let t1 = trim_end_char_vec(c.as_slice(), '\\');
    let t = trim_end_char_vec(t1.as_slice(), '/');
    let ts = string_of(t.as_slice());
    let b = ts.as_str().as_bytes();
    let n = t.len();
    if b.len() <= 3 && n > 0 && t[n - 1] == ':' {
        return false;
    }
    if b.len() == 3 && b[1] == 0x3a && b[2] == 0x5c {
        return false;
    }
    if eq_ignore_ascii_case(ts.as_str(), "C:\\Windows") {
        return false;
    }
    if eq_ignore_ascii_case(ts.as_str(), "C:\\Windows\\System32") {
        return false;
    }
    if eq_ignore_ascii_case(ts.as_str(), "C:\\Windows\\SysWOW64") {
        return false;
    }
    if eq_ignore_ascii_case(ts.as_str(), "C:\\Windows\\System") {
        return false;
    }
    let l = lower_chars(ts.as_str());
    if has_text(l.as_slice(), "package cache") {
        return false;
    }
    true
}

/// `s` with quotes around it, trailing separators and semicolons, and
/// surrounding whitespace removed.
pub open spec fn clean_path(s: Seq<char>) -> Seq<char> {
    let a = trim_end_char(trim_start_char(trim_seq(s), '"'), '"');
    trim_seq(trim_end_char(trim_end_char(trim_end_char(a, '\\'), '/'), ';'))
}

/// Cleans up a path read from the registry or a shortcut.
pub fn format_path(path: &str) -> (r: String)
    ensures
        r@ == clean_path(path@),
{
    let c = chars_of(path);
    let a0 = trim_chars(c.as_slice());
    let a1 = trim_start_char_vec(a0.as_slice(), '"');
    let a = trim_end_char_vec(a1.as_slice(), '"');
    let b1 = trim_end_char_vec(a.as_slice(), '\\');
    let b2 = trim_end_char_vec(b1.as_slice(), '/');
    let b3 = trim_end_char_vec(b2.as_slice(), ';');
    let d = trim_chars(b3.as_slice());
    string_of(d.as_slice())
}

/// `%name%`.
pub open spec fn env_pattern(name: Seq<char>) -> Seq<char> {
    seq!['%'] + name + seq!['%']
}

/// `s` with `%name%` replaced by the value of `name`, when it occurs and the
/// variable is set.
pub open spec fn expand_var(s: Seq<char>, env: EnvVars, name: Seq<char>) -> Seq<char> {
    match env.lookup(name) {
        Some(v) => if contains_seq(s, env_pattern(name)) { replace_all(s, env_pattern(name), v) } else { s },
        None => s,
    }
}

/// The common Windows variables replaced by their usual values, then the
/// per-user ones by their values in `env`.
pub open spec fn expand_env_spec(s: Seq<char>, env: EnvVars) -> Seq<char> {
    let a = replace_all(s, "%ProgramFiles%"@, "C:\\Program Files"@);
    let b = replace_all(a, "%ProgramFiles(x86)%"@, "C:\\Program Files (x86)"@);
    let c = replace_all(b, "%CommonProgramFiles%"@, "C:\\Program Files\\Common Files"@);
    let d = replace_all(c, "%CommonProgramFiles(x86)%"@, "C:\\Program Files (x86)\\Common Files"@);
    let e = replace_all(d, "%SystemRoot%"@, "C:\\Windows"@);
    let f = replace_all(e, "%SystemDrive%"@, "C:"@);
    let g = expand_var(f, env, "APPDATA"@);
    let h = expand_var(g, env, "LOCALAPPDATA"@);
    let i = expand_var(h, env, "USERPROFILE"@);
    let j = expand_var(i, env, "ProgramFiles"@);
    let k = expand_var(j, env, "ProgramFiles(x86)"@);
    expand_var(k, env, "ProgramData"@)
}

/// `s` holds no `%`.
pub open spec fn no_pct(s: Seq<char>) -> bool {
    forall|i: int| 0 <= i < s.len() ==> s[i] != '%'
}

/// A text without `%` holds no `%`-word: replacing one leaves it as it is.
proof fn lemma_no_pct_kept(s: Seq<char>, q: Seq<char>, r: Seq<char>)
    requires
        no_pct(s),
        q.len() > 0,
        q[0] == '%',
    ensures
        !contains_seq(s, q),
        replace_all(s, q, r) == s,
{
    assert forall|j: int| 0 <= j implies !occurs_at(s, q, j) by {
        if occurs_at(s, q, j) {
            assert(s.subrange(j, j + q.len())[0] == s[j]);
        }
    }
    lemma_replace_none(s, q, r, 0);
    assert(s.skip(0) =~= s);
    assert(s.subrange(0, s.len() as int) =~= s);
}

/// In `%n%` followed by a text without `%`, no other `%`-word occurs.
proof fn lemma_other_word(n: Seq<char>, x: Seq<char>, q: Seq<char>, r: Seq<char>)
    requires
        no_pct(n),
        no_pct(x),
        q.len() >= 2,
        q[0] == '%',
        q[q.len() - 1] == '%',
        q != env_pattern(n),
    ensures
        !contains_seq(env_pattern(n) + x, q),
        replace_all(env_pattern(n) + x, q, r) == env_pattern(n) + x,
{
    let t = env_pattern(n) + x;
    let k = n.len() + 1;
    assert forall|i: int| 0 <= i < t.len() && t[i] == '%' implies i == 0 || i == k by {
        if 0 < i < k {
            assert(t[i] == n[i - 1]);
        } else if i > k {
            assert(t[i] == x[i - k - 1]);
        }
    }
    assert forall|j: int| 0 <= j implies !occurs_at(t, q, j) by {
        if occurs_at(t, q, j) {
            let sub = t.subrange(j, j + q.len());
            assert(sub[0] == t[j]);
            assert(sub[q.len() - 1] == t[j + q.len() - 1]);
            assert(j == 0 || j == k);
            assert(j + q.len() - 1 == 0 || j + q.len() - 1 == k);
            assert(j == 0 && q.len() == k + 1);
            assert(q =~= env_pattern(n)) by {
                assert forall|i: int| 0 <= i < q.len() implies q[i] == env_pattern(n)[i] by {
                    assert(q[i] == sub[i]);
                    assert(sub[i] == t[i]);
                }
            }
        }
    }
    lemma_replace_none(t, q, r, 0);
    assert(t.skip(0) =~= t);
    assert(t.subrange(0, t.len() as int) =~= t);
}

/// `%n%` followed by a text without `%`, with `%n%` replaced by `v`, is `v`
/// followed by the text.
proof fn lemma_own_word(n: Seq<char>, x: Seq<char>, v: Seq<char>)
    requires
        no_pct(x),
    ensures
        contains_seq(env_pattern(n) + x, env_pattern(n)),
        replace_all(env_pattern(n) + x, env_pattern(n), v) == v + x,
{
    let p = env_pattern(n);
    let t = p + x;
    assert(t.subrange(0, p.len() as int) =~= p);
    assert(occurs_at(t, p, 0));
    lemma_replace_step(t, p, v, 0, 0);
    assert(t.skip(0) =~= t);
    assert(t.subrange(0, 0) =~= Seq::<char>::empty());
    assert(t.skip(p.len() as int) =~= x);
    lemma_no_pct_kept(x, p, v);
    assert(Seq::<char>::empty() + v + x =~= v + x);
}

/// One variable step of the expansion, for `%n%` + `x`: the step for `n`
/// gives `target` (the value and `x` when `n` is set, else the text as it
/// was); a step for another variable leaves the text as it is.
proof fn lemma_var_step(s: Seq<char>, env: EnvVars, m: Seq<char>, n: Seq<char>, x: Seq<char>, target: Seq<char>)
    requires
        no_pct(n),
        no_pct(x),
        target == (match env.lookup(n) {
            Some(v) => v + x,
            None => env_pattern(n) + x,
        }),
        env.lookup(n) matches Some(v) ==> no_pct(v),
        s == env_pattern(n) + x || s == target,
    ensures
        expand_var(s, env, m) == (if m == n { target } else { s }),
{
    let p = env_pattern(m);
    assert(p[0] == '%' && p[p.len() - 1] == '%' && p.len() >= 2);
    if m != n {
        assert(p != env_pattern(n)) by {
            if p == env_pattern(n) {
                assert(m =~= p.subrange(1, p.len() - 1));
                assert(n =~= env_pattern(n).subrange(1, p.len() - 1));
            }
        }
    }
    if let Some(v) = env.lookup(n) {
        if s == target {
            assert(no_pct(v + x)) by {
                assert forall|i: int| 0 <= i < (v + x).len() implies (v + x)[i] != '%' by {
                    if i < v.len() {
                        assert((v + x)[i] == v[i]);
                    } else {
                        assert((v + x)[i] == x[i - v.len()]);
                    }
                }
            }
            lemma_no_pct_kept(v + x, p, Seq::empty());
        } else {
            if m == n {
                lemma_own_word(n, x, v);
            } else {
                lemma_other_word(n, x, p, Seq::empty());
            }
        }
    } else {
        if m != n {
            lemma_other_word(n, x, p, Seq::empty());
        }
    }
}

/// A per-user folder variable written `%APPDATA%`, `%LOCALAPPDATA%`,
/// `%USERPROFILE%` or `%ProgramData%` in front of a path is replaced by its
/// value in the environment when it is set, and left as written when it is
/// not (value and rest of the path without `%`).
pub proof fn expand_env_user_folder(n: Seq<char>, x: Seq<char>, env: EnvVars)
    requires
        n == "APPDATA"@ || n == "LOCALAPPDATA"@ || n == "USERPROFILE"@ || n == "ProgramData"@,
        no_pct(x),
        env.lookup(n) matches Some(v) ==> no_pct(v),
    ensures
        env.lookup(n) matches Some(v) ==> expand_env_spec(env_pattern(n) + x, env) == v + x,
        env.lookup(n) is None ==> expand_env_spec(env_pattern(n) + x, env) == env_pattern(n) + x,
{
    reveal_strlit("APPDATA");
    reveal_strlit("LOCALAPPDATA");
    reveal_strlit("USERPROFILE");
    reveal_strlit("ProgramData");
    reveal_strlit("ProgramFiles");
    reveal_strlit("ProgramFiles(x86)");
    reveal_strlit("%ProgramFiles%");
    reveal_strlit("%ProgramFiles(x86)%");
    reveal_strlit("%CommonProgramFiles%");
    reveal_strlit("%CommonProgramFiles(x86)%");
    reveal_strlit("%SystemRoot%");
    reveal_strlit("%SystemDrive%");
    let t = env_pattern(n) + x;
    let target = match env.lookup(n) {
        Some(v) => v + x,
        None => t,
    };
    assert(no_pct(n));
    let fixed = seq![
        "%ProgramFiles%"@, "%ProgramFiles(x86)%"@, "%CommonProgramFiles%"@, "%CommonProgramFiles(x86)%"@,
        "%SystemRoot%"@, "%SystemDrive%"@
    ];
    assert forall|i: int| 0 <= i < 6 implies #[trigger] fixed[i] != env_pattern(n) && fixed[i].len() >= 2
        && fixed[i][0] == '%' && fixed[i][fixed[i].len() - 1] == '%' by {
        let q = fixed[i];
        let p = env_pattern(n);
        if q == p {
            assert(q.len() == p.len());
            assert(q[1] == p[1]);
            assert(q[2] == p[2]);
            assert(q[9] == p[9]);
        }
    }
    let c1 = "C:\\Program Files"@;
    lemma_other_word(n, x, fixed[0], c1);
    let s1 = replace_all(t, "%ProgramFiles%"@, c1);
    lemma_other_word(n, x, fixed[1], "C:\\Program Files (x86)"@);
    let s2 = replace_all(s1, "%ProgramFiles(x86)%"@, "C:\\Program Files (x86)"@);
    lemma_other_word(n, x, fixed[2], "C:\\Program Files\\Common Files"@);
    let s3 = replace_all(s2, "%CommonProgramFiles%"@, "C:\\Program Files\\Common Files"@);
    lemma_other_word(n, x, fixed[3], "C:\\Program Files (x86)\\Common Files"@);
    let s4 = replace_all(s3, "%CommonProgramFiles(x86)%"@, "C:\\Program Files (x86)\\Common Files"@);
    lemma_other_word(n, x, fixed[4], "C:\\Windows"@);
    let s5 = replace_all(s4, "%SystemRoot%"@, "C:\\Windows"@);
    lemma_other_word(n, x, fixed[5], "C:"@);
    let s6 = replace_all(s5, "%SystemDrive%"@, "C:"@);
    assert(s6 == t);
    lemma_var_step(s6, env, "APPDATA"@, n, x, target);
    let s7 = expand_var(s6, env, "APPDATA"@);
    lemma_var_step(s7, env, "LOCALAPPDATA"@, n, x, target);
    let s8 = expand_var(s7, env, "LOCALAPPDATA"@);
    lemma_var_step(s8, env, "USERPROFILE"@, n, x, target);
    let s9 = expand_var(s8, env, "USERPROFILE"@);
    lemma_var_step(s9, env, "ProgramFiles"@, n, x, target);
    let s10 = expand_var(s9, env, "ProgramFiles"@);
    lemma_var_step(s10, env, "ProgramFiles(x86)"@, n, x, target);
    let s11 = expand_var(s10, env, "ProgramFiles(x86)"@);
    lemma_var_step(s11, env, "ProgramData"@, n, x, target);
    assert(expand_env_spec(t, env) == expand_var(s11, env, "ProgramData"@));
}

/// `%ProgramFiles%` in front of a path becomes `C:\Program Files` whatever
/// the environment holds (the fixed folder is put in before the
/// environment is read), the rest of the path (without `%`) kept.
pub proof fn expand_env_program_files(x: Seq<char>, env: EnvVars)
    requires
        no_pct(x),
    ensures
        expand_env_spec("%ProgramFiles%"@ + x, env) == "C:\\Program Files"@ + x,
{
    reveal_strlit("%ProgramFiles%");
    reveal_strlit("%ProgramFiles(x86)%");
    reveal_strlit("%CommonProgramFiles%");
    reveal_strlit("%CommonProgramFiles(x86)%");
    reveal_strlit("%SystemRoot%");
    reveal_strlit("%SystemDrive%");
    reveal_strlit("C:\\Program Files");
    let n = "ProgramFiles"@;
    reveal_strlit("ProgramFiles");
    assert(env_pattern(n) =~= "%ProgramFiles%"@);
    assert(no_pct(n));
    let u = "C:\\Program Files"@ + x;
    lemma_own_word(n, x, "C:\\Program Files"@);
    assert(no_pct(u)) by {
        assert forall|i: int| 0 <= i < u.len() implies u[i] != '%' by {
            if i >= 16 {
                assert(u[i] == x[i - 16]);
            }
        }
    }
    lemma_no_pct_kept(u, "%ProgramFiles(x86)%"@, "C:\\Program Files (x86)"@);
    lemma_no_pct_kept(u, "%CommonProgramFiles%"@, "C:\\Program Files\\Common Files"@);
    lemma_no_pct_kept(u, "%CommonProgramFiles(x86)%"@, "C:\\Program Files (x86)\\Common Files"@);
    lemma_no_pct_kept(u, "%SystemRoot%"@, "C:\\Windows"@);
    lemma_no_pct_kept(u, "%SystemDrive%"@, "C:"@);
    lemma_no_pct_kept(u, env_pattern("APPDATA"@), Seq::empty());
    lemma_no_pct_kept(u, env_pattern("LOCALAPPDATA"@), Seq::empty());
    lemma_no_pct_kept(u, env_pattern("USERPROFILE"@), Seq::empty());
    lemma_no_pct_kept(u, env_pattern("ProgramFiles"@), Seq::empty());
    lemma_no_pct_kept(u, env_pattern("ProgramFiles(x86)"@), Seq::empty());
    lemma_no_pct_kept(u, env_pattern("ProgramData"@), Seq::empty());
}

/// Replaces `%var%` by the value of `var` in `env` when both are there.
pub fn resolve_runtime_env(s: String, var: &str, env: &EnvVars) -> (r: String)
    ensures
        r@ == expand_var(s@, *env, var@),
{
    let mut pat = String::new();
    push_char(&mut pat, '%');
    push_str(&mut pat, var);
    push_char(&mut pat, '%');
    assert(pat@ =~= env_pattern(var@));
    let sc = chars_of(s.as_str());
    let pc = chars_of(pat.as_str());
    if contains(sc.as_slice(), pc.as_slice()) {
        match env.get(var) {
            Some(val) => {
                return replace_str(s.as_str(), pat.as_str(), val.as_str());
            },
            None => {},
        }
    }
    s
}

/// Expands the environment variables that commonly appear in install paths.
pub fn expand_env(s: &str, env: &EnvVars) -> (r: String)
    ensures
        r@ == expand_env_spec(s@, *env),
{
    proof {
        reveal_strlit("%ProgramFiles%");
        reveal_strlit("%ProgramFiles(x86)%");
        reveal_strlit("%CommonProgramFiles%");
        reveal_strlit("%CommonProgramFiles(x86)%");
        reveal_strlit("%SystemRoot%");
        reveal_strlit("%SystemDrive%");
    }
    let a = replace_str(s, "%ProgramFiles%", "C:\\Program Files");
    let b = replace_str(a.as_str(), "%ProgramFiles(x86)%", "C:\\Program Files (x86)");
    let c = replace_str(b.as_str(), "%CommonProgramFiles%", "C:\\Program Files\\Common Files");
    let d = replace_str(c.as_str(), "%CommonProgramFiles(x86)%", "C:\\Program Files (x86)\\Common Files");
    let e = replace_str(d.as_str(), "%SystemRoot%", "C:\\Windows");
    let f = replace_str(e.as_str(), "%SystemDrive%", "C:");
    let g = resolve_runtime_env(f, "APPDATA", env);
    let h = resolve_runtime_env(g, "LOCALAPPDATA", env);
    let i = resolve_runtime_env(h, "USERPROFILE", env);
    let j = resolve_runtime_env(i, "ProgramFiles", env);
    let k = resolve_runtime_env(j, "ProgramFiles(x86)", env);
    resolve_runtime_env(k, "ProgramData", env)
}

/// Sum of the first `n` widths.
pub open spec fn width_sum(w: Seq<usize>, n: int) -> int
    decreases n,
{
    if n <= 0 {
        0
    } else {
        width_sum(w, n - 1) + w[n - 1]
    }
}

/// Columns of the `as list` table that fit a terminal `tw` wide, from the
/// left, one space between columns, at least four; the path column (the
/// eighth) is dropped first when it alone is as wide as the terminal.
pub open spec fn visible_from(w: Seq<usize>, tw: int, v: int) -> int
    decreases v,
{
    if v <= 4 || width_sum(w, v) + (v - 1) <= tw {
        v
    } else {
        visible_from(w, tw, v - 1)
    }
}

/// Number of columns the table has and how many of them are shown.
pub open spec fn layout_spec(w: Seq<usize>, tw: int) -> (int, int) {
    let effective = if w[7] >= tw { 8int } else { 9int };
    (effective, visible_from(w, tw, effective))
}

/// How many of the nine columns of widths `w` to show on a terminal `tw`
/// columns wide: (columns in the table, columns shown).
pub fn visible_columns(w: &[usize], tw: usize) -> (r: (usize, usize))
    requires
        w.len() == 9,
    ensures
        r.0 as int == layout_spec(w@, tw as int).0,
        r.1 as int == layout_spec(w@, tw as int).1,
{
    let effective: usize = if w[7] >= tw { 8 } else { 9 };
    let mut visible = effective;
    loop
        invariant
            w.len() == 9,
            1 <= visible <= effective <= 9,
            effective as int == layout_spec(w@, tw as int).0,
            visible_from(w@, tw as int, effective as int) == visible_from(w@, tw as int, visible as int),
        decreases visible,
    {
        let mut total: u128 = 0;
        let mut i: usize = 0;
        while i < visible
            invariant
                i <= visible <= 9,
                w.len() == 9,
                total == width_sum(w@, i as int),
                total <= i * 0xffff_ffff_ffff_ffffu128,
            decreases visible - i,
        {
            total = total + w[i] as u128;
            i += 1;
        }
        if total + (visible as u128 - 1) <= tw as u128 || visible <= 4 {
            return (effective, visible);
        }
        visible -= 1;
    }
}

/// Whether a catalogue entry that detects `detect_name` is already among
/// the registry display names (either text contains the other, ignoring case).
pub open spec fn shadowed_spec(detect_name: Seq<char>, names: Seq<Seq<char>>) -> bool {
    exists|i: int| 0 <= i < names.len() && (contains_seq(lowercase(names[i]), lowercase(detect_name))
        || contains_seq(lowercase(detect_name), lowercase(names[i])))
}

/// Whether the registry already lists the program a catalogue entry detects.
pub fn registry_shadows(detect_name: &str, names: &Vec<String>) -> (r: bool)
    ensures
        r == shadowed_spec(detect_name@, names@.map_values(|s: String| s@)),
{
    let ghost nv = names@.map_values(|s: String| s@);
    let dl = lower_chars(detect_name);
    let mut i: usize = 0;
    while i < names.len()
        invariant
            i <= names.len(),
            nv == names@.map_values(|s: String| s@),
            dl@ == lowercase(detect_name@),
            forall|j: int| 0 <= j < i ==> !(contains_seq(lowercase(nv[j]), lowercase(detect_name@))
                || contains_seq(lowercase(detect_name@), lowercase(nv[j]))),
        decreases names.len() - i,
    {
        assert(nv[i as int] == names@[i as int]@);
        let nl = lower_chars(names[i].as_str());
        if contains(nl.as_slice(), dl.as_slice()) || contains(dl.as_slice(), nl.as_slice()) {
            return true;
        }
        i += 1;
    }
    false
}

} // verus!
