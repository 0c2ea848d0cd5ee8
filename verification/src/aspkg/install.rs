//! The decisions of `as install`: reading `name=version`, which versions
//! count as installed, whether to go on, which install kind to use, and what
//! a download URL names.

use vstd::prelude::*;
use crate::text::{
    chars_of, find_from, first_occ, lemma_first_occ_is, lemma_first_occ_none, occurs_at, string_of, str_eq,
    trim_chars, trim_seq, lower_chars, lowercase, has_char,
};
use crate::glob::{split_char, split_chars, views};
use crate::aspkg::software::{SoftwareEntry, VersionEntry, RegistryInfo, opt_str_view};
use crate::aspkg::list::{
    exact_registry_key, version_pairs, version_keys, version_nums, version_order, parse_version, version_sign,
    offers_kind, url_kinds,
};
use crate::aspkg::locate::{opt_text, texts};
use crate::order::{weak_order, stably_sorted, stable_sort_by};

verus! {

/// `name=version` split at the first `=`.
pub open spec fn name_version_spec(input: Seq<char>) -> (Seq<char>, Option<Seq<char>>) {
    match first_occ(input, seq!['='], 0) {
        Some(i) => (input.take(i), Some(input.skip(i + 1))),
        None => (input, None),
    }
}

fn sub_chars(s: &[char], from: usize, to: usize) -> (r: Vec<char>)
    requires
        from <= to <= s.len(),
    ensures
        r@ == s@.subrange(from as int, to as int),
{
    let mut t: Vec<char> = Vec::new();
    let mut k = from;
    while k < to
        invariant
            from <= k <= to <= s.len(),
            t@ == s@.subrange(from as int, k as int),
        decreases to - k,
    {
        t.push(s[k]);
        assert(s@.subrange(from as int, k + 1) =~= s@.subrange(from as int, k as int).push(s@[k as int]));
        k += 1;
    }
    t
}

/// Splits an install request `name=version` into the name and the version asked for.
pub fn split_name_version(input: &str) -> (r: (String, Option<String>))
    ensures
        (r.0@, opt_text(r.1)) == name_version_spec(input@),
{
    let c = chars_of(input);
    let eq: Vec<char> = vec!['='];
    assert(eq@ =~= seq!['=']);
    match find_from(c.as_slice(), eq.as_slice(), 0) {
        Some(i) => {
            proof {
                lemma_first_occ_is(c@, seq!['='], 0, i as int);
            }
            assert(i < c.len());
            let a = sub_chars(c.as_slice(), 0, i);
            let b = sub_chars(c.as_slice(), i + 1, c.len());
            assert(a@ =~= c@.take(i as int));
            assert(b@ =~= c@.skip(i + 1));
            (string_of(a.as_slice()), Some(string_of(b.as_slice())))
        },
        None => {
            proof {
                lemma_first_occ_none(c@, seq!['='], 0);
            }
            (String::from_str(input), None)
        },
    }
}

/// Catalogue key of a registry version: the version whose registry version
/// it is, else the registry version itself.
pub open spec fn source_key(e: SoftwareEntry, reg_version: Seq<char>) -> Seq<char> {
    match exact_registry_key(version_pairs(e.versions@), reg_version) {
        Some(k) => k,
        None => reg_version,
    }
}

/// `s` with `x` added at the end unless already there.
pub open spec fn push_new(s: Seq<Seq<char>>, x: Seq<char>) -> Seq<Seq<char>> {
    if s.contains(x) { s } else { s.push(x) }
}

/// Installed catalogue keys from the first `n` registry versions, after the
/// recorded version.
pub open spec fn installed_keys_upto(rec: Option<Seq<char>>, e: SoftwareEntry, regs: Seq<Seq<char>>, n: int) -> Seq<Seq<char>>
    decreases n,
{
    if n <= 0 {
        match rec {
            Some(v) => seq![v],
            None => Seq::empty(),
        }
    } else {
        push_new(installed_keys_upto(rec, e, regs, n - 1), source_key(e, regs[n - 1]))
    }
}

fn find_exact(vs: &Vec<(String, VersionEntry)>, rv: &str) -> (r: Option<String>)
    ensures
        opt_text(r) == exact_registry_key(version_pairs(vs@), rv@),
{
    let ghost vv = version_pairs(vs@);
    let mut i: usize = 0;
    assert(vv.skip(0) =~= vv);
    while i < vs.len()
        invariant
            i <= vs.len(),
            vv == version_pairs(vs@),
            exact_registry_key(vv, rv@) == exact_registry_key(vv.skip(i as int), rv@),
        decreases vs.len() - i,
    {
        assert(vv.skip(i as int).drop_first() =~= vv.skip(i + 1));
        assert(vv.skip(i as int)[0] == vv[i as int]);
        let hit = match &vs[i].1.registry_version {
            Some(x) => str_eq(x.as_str(), rv),
            None => false,
        };
        if hit {
            return Some(vs[i].0.clone());
        }
        i += 1;
    }
    assert(vv.skip(i as int) =~= Seq::<(Seq<char>, Option<Seq<char>>)>::empty());
    None
}

fn contains_text(v: &Vec<String>, x: &str) -> (r: bool)
    ensures
        r == texts(v@).contains(x@),
{
    let mut i: usize = 0;
    while i < v.len()
        invariant
            i <= v.len(),
            forall|j: int| 0 <= j < i ==> texts(v@)[j] != x@,
        decreases v.len() - i,
    {
        if str_eq(v[i].as_str(), x) {
            assert(texts(v@)[i as int] == x@);
            return true;
        }
        i += 1;
    }
    false
}

/// The catalogue keys of every installed version: the version `as` recorded,
/// then the keys of the registry versions, each once.
pub fn installed_source_keys(recorded: Option<&str>, entry: &SoftwareEntry, regs: &Vec<RegistryInfo>) -> (r: Vec<String>)
    ensures
        texts(r@) == installed_keys_upto(
            match recorded { Some(v) => Some(v@), None => None },
            *entry,
            regs@.map_values(|x: RegistryInfo| x.version@),
            regs@.len() as int,
        ),
{
    let ghost rv = regs@.map_values(|x: RegistryInfo| x.version@);
    let ghost rec = match recorded { Some(v) => Some(v@), None => None };
    let mut out: Vec<String> = Vec::new();
    match recorded {
        Some(v) => out.push(String::from_str(v)),
        None => {},
    }
    assert(texts(out@) =~= installed_keys_upto(rec, *entry, rv, 0));
    let mut i: usize = 0;
    while i < regs.len()
        invariant
            i <= regs.len(),
            rv == regs@.map_values(|x: RegistryInfo| x.version@),
            texts(out@) == installed_keys_upto(rec, *entry, rv, i as int),
        decreases regs.len() - i,
    {
        let sk = match find_exact(&entry.versions, regs[i].version.as_str()) {
            Some(k) => k,
            None => regs[i].version.clone(),
        };
        assert(sk@ == source_key(*entry, rv[i as int]));
        if !contains_text(&out, sk.as_str()) {
            let ghost before = texts(out@);
            out.push(sk);
            assert(texts(out@) =~= before.push(rv[i as int]).update(before.len() as int, texts(out@).last()));
            assert(texts(out@) =~= before.push(source_key(*entry, rv[i as int])));
        }
        i += 1;
    }
    out
}

/// Among the first `n` keys, the index of the newest (by version order; the
/// later one on ties, as `Iterator::max_by` picks).
pub open spec fn newest_upto(keys: Seq<Seq<char>>, n: int) -> int
    decreases n,
{
    if n <= 1 {
        0
    } else {
        let b = newest_upto(keys, n - 1);
        if version_order(version_nums(keys[n - 1]), version_nums(keys[b])) >= 0 { n - 1 } else { b }
    }
}

/// The newest version key of an entry, if it has versions.
pub open spec fn newest_key(e: SoftwareEntry) -> Option<Seq<char>> {
    let ks = version_keys(e.versions@);
    if ks.len() == 0 { None } else { Some(ks[newest_upto(ks, ks.len() as int)]) }
}

proof fn lemma_newest_range(keys: Seq<Seq<char>>, n: int)
    requires
        1 <= n,
    ensures
        0 <= newest_upto(keys, n) < n,
    decreases n,
{
    if n > 1 {
        lemma_newest_range(keys, n - 1);
    }
}

/// The newest version key of the entry by version order.
pub fn newest_version(entry: &SoftwareEntry) -> (r: Option<String>)
    ensures
        opt_text(r) == newest_key(*entry),
{
    let vs = &entry.versions;
    let ghost ks = version_keys(vs@);
    if vs.len() == 0 {
        return None;
    }
    let mut best: usize = 0;
    let mut i: usize = 1;
    while i < vs.len()
        invariant
            1 <= i <= vs.len(),
            ks == version_keys(vs@),
            best as int == newest_upto(ks, i as int),
            best < i,
        decreases vs.len() - i,
    {
        let a = parse_version(vs[i].0.as_str());
        let b = parse_version(vs[best].0.as_str());
        if version_sign(a.as_slice(), b.as_slice()) >= 0 {
            best = i;
        }
        i += 1;
    }
    Some(vs[best].0.clone())
}

/// Whether to go on when versions are already installed: with the newest
/// installed only on `y`/`yes`, otherwise unless `n`/`no` (the answer
/// trimmed and lower-cased).
pub open spec fn go_on_spec(has_latest: bool, answer: Seq<char>) -> bool {
    let a = lowercase(trim_seq(answer));
    if has_latest {
        a == "y"@ || a == "yes"@
    } else {
        !(a == "n"@ || a == "no"@)
    }
}

/// Whether the user's answer lets the install go on.
pub fn wants_install(has_latest: bool, answer: &str) -> (r: bool)
    ensures
        r == go_on_spec(has_latest, answer@),
{
    let c = chars_of(answer);
    let t = trim_chars(c.as_slice());
    let ts = string_of(t.as_slice());
    let l = lower_chars(ts.as_str());
    let ls = string_of(l.as_slice());
    if has_latest {
        str_eq(ls.as_str(), "y") || str_eq(ls.as_str(), "yes")
    } else {
        !(str_eq(ls.as_str(), "n") || str_eq(ls.as_str(), "no"))
    }
}

/// The install kind to use for a version.
pub enum InstallChoice {
    Installer,
    Portable,
    /// Both are on offer and nothing decides: ask the user.
    Ask,
    /// The version has no download.
    NoDownload,
}

/// Install kind from what the version offers and the user's preferences.
pub open spec fn choice_spec(has_i: bool, has_p: bool, prefer_p: bool, prefer_i: bool) -> InstallChoice {
    if has_i && !has_p {
        InstallChoice::Installer
    } else if !has_i && has_p {
        InstallChoice::Portable
    } else if has_i && has_p && prefer_p {
        InstallChoice::Portable
    } else if has_i && has_p && prefer_i {
        InstallChoice::Installer
    } else if has_i && has_p {
        InstallChoice::Ask
    } else {
        InstallChoice::NoDownload
    }
}

/// The chosen kind is always one the version offers, the `--portable` and
/// `--installer` flags are honoured when both kinds are on offer (portable
/// winning when both flags are given), the user is asked only when both are
/// on offer and no flag decides, and there is nothing to install only when
/// neither kind is offered.
pub proof fn install_choice_law(ve: VersionEntry, prefer_portable: bool, prefer_installer: bool)
    ensures
        ({
            let has_i = url_kinds(ve).contains("installer"@);
            let has_p = url_kinds(ve).contains("portable"@);
            let c = choice_spec(has_i, has_p, prefer_portable, prefer_installer);
            &&& c is Installer ==> has_i
            &&& c is Portable ==> has_p
            &&& c is NoDownload <==> (!has_i && !has_p)
            &&& c is Ask <==> (has_i && has_p && !prefer_portable && !prefer_installer)
            &&& (has_i && has_p && prefer_portable) ==> c is Portable
            &&& (has_i && has_p && !prefer_portable && prefer_installer) ==> c is Installer
            &&& (has_i && !has_p) ==> c is Installer
            &&& (!has_i && has_p) ==> c is Portable
        }),
{
}

/// Which install kind to use for a version.
pub fn select_install_type(version_entry: &VersionEntry, prefer_portable: bool, prefer_installer: bool) -> (r: InstallChoice)
    ensures
        r == choice_spec(
            url_kinds(*version_entry).contains("installer"@),
            url_kinds(*version_entry).contains("portable"@),
            prefer_portable,
            prefer_installer,
        ),
{
    let has_i = offers_kind(version_entry, "installer");
    let has_p = offers_kind(version_entry, "portable");
    if has_i && !has_p {
        InstallChoice::Installer
    } else if !has_i && has_p {
        InstallChoice::Portable
    } else if has_i && has_p && prefer_portable {
        InstallChoice::Portable
    } else if has_i && has_p && prefer_installer {
        InstallChoice::Installer
    } else if has_i && has_p {
        InstallChoice::Ask
    } else {
        InstallChoice::NoDownload
    }
}

/// The install kind the user typed when asked (`1`/`2` or the names), trimmed.
pub open spec fn answer_kind_spec(answer: Seq<char>) -> Option<InstallChoice> {
    let a = trim_seq(answer);
    if a == "1"@ || a == "安装版"@ || a == "installer"@ {
        Some(InstallChoice::Installer)
    } else if a == "2"@ || a == "便携版"@ || a == "portable"@ {
        Some(InstallChoice::Portable)
    } else {
        None
    }
}

/// Reads the user's choice of install kind; `None` when it names neither.
pub fn install_type_from_answer(answer: &str) -> (r: Option<InstallChoice>)
    ensures
        r == answer_kind_spec(answer@),
{
    let c = chars_of(answer);
    let t = trim_chars(c.as_slice());
    let ts = string_of(t.as_slice());
    let a = ts.as_str();
    if str_eq(a, "1") || str_eq(a, "安装版") || str_eq(a, "installer") {
        Some(InstallChoice::Installer)
    } else if str_eq(a, "2") || str_eq(a, "便携版") || str_eq(a, "portable") {
        Some(InstallChoice::Portable)
    } else {
        None
    }
}

/// The file name a download URL names: after its last `/`, before any `?`.
pub open spec fn url_filename_spec(url: Seq<char>) -> Seq<char> {
    let parts = split_char(url, '/');
    split_char(parts.last(), '?')[0]
}

/// File name of a download URL.
pub fn url_filename(url: &str) -> (r: String)
    ensures
        r@ == url_filename_spec(url@),
{
    let c = chars_of(url);
    let parts = split_chars(c.as_slice(), '/');
    let last = &parts[parts.len() - 1];
    assert(views(parts@).last() == last@);
    let q = split_chars(last.as_slice(), '?');
    assert(views(q@)[0] == q@[0]@);
    string_of(q[0].as_slice())
}

/// Lines of a batch file that name nothing to install: blank, comments and
/// section headers.
pub open spec fn batch_skip_spec(line: Seq<char>) -> bool {
    let t = trim_seq(line);
    t.len() == 0 || t[0] == '#' || t[0] == '['
}

/// Whether a batch file line is skipped.
pub fn batch_line_skipped(line: &str) -> (r: bool)
    ensures
        r == batch_skip_spec(line@),
{
    let c = chars_of(line);
    let t = trim_chars(c.as_slice());
    t.len() == 0 || t[0] == '#' || t[0] == '['
}

/// `Path::file_stem` of a file name: the part before its last dot; the
/// whole name when it has no dot, when its only dot leads, or for `..`.
pub open spec fn stem_of(name: Seq<char>) -> Seq<char> {
    if name == ".."@ {
        name
    } else {
        match crate::ls::display::last_dot(name) {
            Some(k) => if k == 0 { name } else { name.take(k) },
            None => name,
        }
    }
}

/// Stem of the file a path names, if it names one.
pub open spec fn path_stem(p: Seq<char>) -> Option<Seq<char>> {
    match crate::ls::display::file_name_of(p) {
        Some(n) => Some(stem_of(n)),
        None => None,
    }
}

fn path_stem_exec(p: &str) -> (r: Option<String>)
    ensures
        match r {
            Some(s) => path_stem(p@) == Some(s@),
            None => path_stem(p@) is None,
        },
{
    let c = chars_of(p);
    match crate::ls::display::file_name_exec(c.as_slice()) {
        Some(n) => {
            if str_eq(string_of(n.as_slice()).as_str(), "..") {
                return Some(string_of(n.as_slice()));
            }
            match crate::ls::display::last_dot_exec(n.as_slice()) {
                Some(k) => if k == 0 {
                    Some(string_of(n.as_slice()))
                } else {
                    let mut s = String::new();
                    let mut i: usize = 0;
                    while i < k
                        invariant
                            i <= k <= n.len(),
                            s@ == n@.take(i as int),
                        decreases k - i,
                    {
                        crate::text::push_char(&mut s, n[i]);
                        assert(n@.take(i + 1) =~= n@.take(i as int).push(n@[i as int]));
                        i += 1;
                    }
                    Some(s)
                },
                None => Some(string_of(n.as_slice())),
            }
        },
        None => None,
    }
}

/// The first program whose stem is `lower` (case folded); the search stops
/// with none at a path that names no file.
pub open spec fn stem_match(exes: Seq<Seq<char>>, lower: Seq<char>) -> Option<Seq<char>>
    decreases exes.len(),
{
    if exes.len() == 0 {
        None
    } else {
        match path_stem(exes[0]) {
            None => None,
            Some(st) => if lowercase(st) == lower {
                Some(exes[0])
            } else {
                stem_match(exes.drop_first(), lower)
            },
        }
    }
}

/// The program a portable install is started by: the only one found, else
/// the one named like the software (case ignored), else none.
pub open spec fn entry_exe_spec(name: Seq<char>, exes: Seq<Seq<char>>) -> Option<Seq<char>> {
    if exes.len() == 0 {
        None
    } else if exes.len() == 1 {
        Some(exes[0])
    } else {
        stem_match(exes, lowercase(name))
    }
}

/// Picks the program to start among the `.exe` files found.
pub fn pick_entry_exe(name: &str, exes: &[String]) -> (r: Option<String>)
    ensures
        match r {
            Some(s) => entry_exe_spec(name@, texts(exes@)) == Some(s@),
            None => entry_exe_spec(name@, texts(exes@)) is None,
        },
{
    if exes.len() == 0 {
        return None;
    }
    if exes.len() == 1 {
        return Some(exes[0].clone());
    }
    let nl = crate::text::to_lower(name);
    let mut i: usize = 0;
    assert(texts(exes@).skip(0) =~= texts(exes@));
    while i < exes.len()
        invariant
            i <= exes.len(),
            nl@ == lowercase(name@),
            exes.len() >= 2,
            stem_match(texts(exes@), lowercase(name@)) == stem_match(texts(exes@).skip(i as int), lowercase(name@)),
        decreases exes.len() - i,
    {
        assert(texts(exes@).skip(i as int).drop_first() =~= texts(exes@).skip(i + 1));
        assert(texts(exes@).skip(i as int)[0] == exes@[i as int]@);
        match path_stem_exec(exes[i].as_str()) {
            None => {
                return None;
            },
            Some(st) => {
                let sl = crate::text::to_lower(st.as_str());
                if str_eq(sl.as_str(), nl.as_str()) {
                    return Some(exes[i].clone());
                }
            },
        }
        i += 1;
    }
    assert(texts(exes@).skip(i as int) =~= Seq::<Seq<char>>::empty());
    None
}

/// The batch file that starts a portable program: `@echo off`, then the
/// quoted program with all arguments, CRLF line ends.
pub open spec fn shim_spec(exe_path: Seq<char>) -> Seq<char> {
    "@echo off\r\n\""@ + exe_path + "\" %*\r\n"@
}

pub fn shim_content(exe_path: &str) -> (r: String)
    ensures
        r@ == shim_spec(exe_path@),
{
    let mut s = String::from_str("@echo off\r\n\"");
    crate::text::push_str(&mut s, exe_path);
    crate::text::push_str(&mut s, "\" %*\r\n");
    s
}

/// A PATH value holds the folder `bin` (lower-cased both, quotes around an
/// entry ignored).
pub open spec fn bin_in_path_spec(path: Seq<char>, bin: Seq<char>) -> bool {
    let parts = split_char(path, ';');
    exists|i: int|
        0 <= i < parts.len() && lowercase(crate::text::trim_both_char(#[trigger] parts[i], '"')) == lowercase(bin)
}

/// Whether the PATH value names the folder of the program shims.
pub fn bin_in_path(path: &str, bin: &str) -> (r: bool)
    ensures
        r == bin_in_path_spec(path@, bin@),
{
    let c = chars_of(path);
    let parts = split_chars(c.as_slice(), ';');
    let ghost pv = views(parts@);
    let bl = crate::text::to_lower(bin);
    let mut i: usize = 0;
    while i < parts.len()
        invariant
            i <= parts.len(),
            pv == views(parts@),
            pv == split_char(path@, ';'),
            bl@ == lowercase(bin@),
            forall|j: int| 0 <= j < i ==> lowercase(crate::text::trim_both_char(#[trigger] pv[j], '"')) != lowercase(bin@),
        decreases parts.len() - i,
    {
        let t = crate::text::trim_both_char_vec(parts[i].as_slice(), '"');
        let ts = string_of(t.as_slice());
        let tl = crate::text::to_lower(ts.as_str());
        assert(pv[i as int] == parts@[i as int]@);
        if str_eq(tl.as_str(), bl.as_str()) {
            return true;
        }
        i += 1;
    }
    false
}

/// Position `i` of `vs` holds a newer version than position `j` (positions
/// past the end count as oldest).
pub open spec fn newer_at(vs: Seq<(String, VersionEntry)>) -> spec_fn(usize, usize) -> bool {
    |i: usize, j: usize|
        if i < vs.len() && j < vs.len() {
            version_order(version_nums(vs[i as int].0@), version_nums(vs[j as int].0@)) > 0
        } else {
            i < vs.len()
        }
}

proof fn lemma_newer_weak(vs: Seq<(String, VersionEntry)>)
    ensures
        weak_order(newer_at(vs)),
{
    let lt = newer_at(vs);
    assert forall|a: usize, b: usize| #[trigger] lt(a, b) implies !lt(b, a) by {
        crate::aspkg::list::version_order_antisymmetric(vs[a as int].0@, vs[b as int].0@);
    }
    assert forall|a: usize, b: usize, c: usize| #![trigger lt(a, b), lt(b, c)] !lt(a, b) && !lt(b, c) implies !lt(a, c) by {
        if a < vs.len() && b < vs.len() && c < vs.len() {
            crate::aspkg::list::version_order_antisymmetric(vs[a as int].0@, vs[b as int].0@);
            crate::aspkg::list::version_order_antisymmetric(vs[b as int].0@, vs[c as int].0@);
            crate::aspkg::list::version_order_antisymmetric(vs[a as int].0@, vs[c as int].0@);
            crate::aspkg::list::version_order_transitive(vs[a as int].0@, vs[b as int].0@, vs[c as int].0@);
        }
    }
}

fn newer_than(a: &str, b: &str) -> (r: bool)
    ensures
        r == (version_order(version_nums(a@), version_nums(b@)) > 0),
{
    let x = parse_version(a);
    let y = parse_version(b);
    version_sign(x.as_slice(), y.as_slice()) > 0
}

/// The positions `0..n` in order.
pub open spec fn positions(n: nat) -> Seq<usize> {
    Seq::new(n, |i: int| i as usize)
}

/// The versions of an entry, newest first (positions in `versions`; equal
/// versions keep their order).
pub fn newest_first(vs: &Vec<(String, VersionEntry)>) -> (r: Vec<usize>)
    ensures
        stably_sorted(positions(vs.len() as nat), r@, newer_at(vs@)),
{
    let mut idx: Vec<usize> = Vec::new();
    let mut i: usize = 0;
    while i < vs.len()
        invariant
            i <= vs.len(),
            idx@ =~= positions(i as nat),
        decreases vs.len() - i,
    {
        idx.push(i);
        i += 1;
    }
    proof {
        lemma_newer_weak(vs@);
    }
    let ghost lt = newer_at(vs@);
    let less = |a: &usize, b: &usize| -> (r: bool)
        ensures
            r == newer_at(vs@)(*a, *b),
        {
            if *a < vs.len() && *b < vs.len() {
                newer_than(vs[*a].0.as_str(), vs[*b].0.as_str())
            } else {
                *a < vs.len()
            }
        };
    stable_sort_by(idx, less, Ghost(lt))
}

/// What choosing a version comes to: the version asked for or the only one,
/// or a question listing the versions newest first.
pub enum VersionPick {
    /// This position of `versions`.
    Chosen(usize),
    /// Ask, offering these positions in this order.
    Ask(Vec<usize>),
}

/// Why no version was chosen.
#[derive(PartialEq, Eq, Structural, Clone, Copy, Debug)]
pub enum PickError {
    /// The version asked for does not exist.
    NoSuchVersion,
    /// The answer was empty.
    Cancelled,
    /// The answer is no number of the list.
    Invalid,
}

/// The first position of `vs` whose key is `key`.
pub open spec fn key_pos(vs: Seq<(String, VersionEntry)>, key: Seq<char>) -> Option<int>
    decreases vs.len(),
{
    if vs.len() == 0 {
        None
    } else {
        match key_pos(vs.drop_last(), key) {
            Some(i) => Some(i),
            None => if vs.last().0@ == key { Some(vs.len() - 1) } else { None },
        }
    }
}

fn find_key(vs: &Vec<(String, VersionEntry)>, key: &str) -> (r: Option<usize>)
    ensures
        match r {
            Some(i) => key_pos(vs@, key@) == Some(i as int),
            None => key_pos(vs@, key@) is None,
        },
{
    let mut i: usize = 0;
    while i < vs.len()
        invariant
            i <= vs.len(),
            key_pos(vs@.take(i as int), key@) is None,
        decreases vs.len() - i,
    {
        assert(vs@.take(i + 1).drop_last() =~= vs@.take(i as int));
        if str_eq(vs[i].0.as_str(), key) {
            proof {
                lemma_key_pos_prefix(vs@, key@, i as int + 1);
            }
            return Some(i);
        }
        i += 1;
    }
    assert(vs@.take(vs.len() as int) =~= vs@);
    None
}

proof fn lemma_key_pos_prefix(vs: Seq<(String, VersionEntry)>, key: Seq<char>, n: int)
    requires
        0 <= n <= vs.len(),
        key_pos(vs.take(n), key) is Some,
    ensures
        key_pos(vs, key) == key_pos(vs.take(n), key),
    decreases vs.len() - n,
{
    if n < vs.len() {
        assert(vs.take(n + 1).drop_last() =~= vs.take(n));
        lemma_key_pos_prefix(vs, key, n + 1);
    } else {
        assert(vs.take(n) =~= vs);
    }
}

/// Chooses the version to install: the one asked for (refused when
/// missing); with none asked, the only version, or else a question over the
/// versions newest first.
pub fn select_version(entry: &SoftwareEntry, requested: Option<&str>) -> (r: Result<VersionPick, PickError>)
    ensures
        match requested {
            Some(v) => match key_pos(entry.versions@, v@) {
                Some(i) => r matches Ok(VersionPick::Chosen(k)) && k == i,
                None => r == Err::<VersionPick, PickError>(PickError::NoSuchVersion),
            },
            None => {
                let n = entry.versions@.len();
                match r {
                    Ok(VersionPick::Chosen(k)) => n == 1 && k == 0,
                    Ok(VersionPick::Ask(order)) => n != 1 && stably_sorted(
                        positions(n),
                        order@,
                        newer_at(entry.versions@),
                    ),
                    Err(_) => false,
                }
            },
        },
{
    match requested {
        Some(v) => match find_key(&entry.versions, v) {
            Some(i) => Ok(VersionPick::Chosen(i)),
            None => Err(PickError::NoSuchVersion),
        },
        None => {
            let order = newest_first(&entry.versions);
            if order.len() == 1 {
                proof {
                    let p = choose|p: Seq<int>| crate::order::stable_perm(positions(entry.versions@.len()), order@, p, newer_at(entry.versions@));
                    assert(order@[0] == positions(entry.versions@.len())[p[0]]);
                }
                Ok(VersionPick::Chosen(order[0]))
            } else {
                proof {
                    if entry.versions@.len() == 1 {
                        let p = choose|p: Seq<int>| crate::order::stable_perm(positions(entry.versions@.len()), order@, p, newer_at(entry.versions@));
                    }
                }
                Ok(VersionPick::Ask(order))
            }
        },
    }
}

/// How an answer to the version question is read: empty (after trimming)
/// cancels; a number from 1 to `count` picks that line (position one less);
/// anything else is invalid.
pub open spec fn answer_spec(input: Seq<char>, count: nat) -> Result<nat, PickError> {
    let t = trim_seq(input);
    if t.len() == 0 {
        Err(PickError::Cancelled)
    } else {
        match crate::text::u64_text(t) {
            Some(n) => if 1 <= n && n <= count { Ok((n - 1) as nat) } else { Err(PickError::Invalid) },
            None => Err(PickError::Invalid),
        }
    }
}

pub fn parse_choice(input: &str, count: usize) -> (r: Result<usize, PickError>)
    ensures
        match r {
            Ok(k) => answer_spec(input@, count as nat) == Ok::<nat, PickError>(k as nat),
            Err(e) => answer_spec(input@, count as nat) == Err::<nat, PickError>(e),
        },
{
    let c = chars_of(input);
    let t = trim_chars(c.as_slice());
    if t.len() == 0 {
        return Err(PickError::Cancelled);
    }
    match crate::text::parse_u64(t.as_slice()) {
        Some(n) => if 1 <= n && n <= count as u64 {
            Ok((n - 1) as usize)
        } else {
            Err(PickError::Invalid)
        },
        None => Err(PickError::Invalid),
    }
}

/// The install kinds a menu line shows: joined by `+` when there are
/// several, else the one there is.
pub open spec fn menu_types_spec(ve: VersionEntry) -> Seq<char> {
    let kinds = url_kinds(ve);
    if kinds.len() >= 2 { crate::text::join_with(kinds, "+"@) } else { kinds[0] }
}

pub fn menu_types(ve: &VersionEntry) -> (r: String)
    requires
        ve.urls.len() > 0,
    ensures
        r@ == menu_types_spec(*ve),
{
    let mut kinds: Vec<String> = Vec::new();
    let mut i: usize = 0;
    while i < ve.urls.len()
        invariant
            i <= ve.urls.len(),
            texts(kinds@) =~= url_kinds(*ve).take(i as int),
        decreases ve.urls.len() - i,
    {
        let ghost prev = texts(kinds@);
        kinds.push(ve.urls[i].0.clone());
        assert(texts(kinds@) =~= prev.push(ve.urls@[i as int].0@));
        i += 1;
    }
    assert(url_kinds(*ve).take(ve.urls.len() as int) =~= url_kinds(*ve));
    if kinds.len() >= 2 {
        crate::text::join_strings(kinds.as_slice(), "+")
    } else {
        kinds[0].clone()
    }
}

} // verus!
