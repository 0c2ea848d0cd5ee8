//! The rows of `as list`: the programs recorded by `as`, those the registry
//! shows and the catalogue knows, the other registry entries, and (with `-a`)
//! the catalogue programs not installed, sorted by lower-cased name.

use vstd::prelude::*;
use crate::aspkg::software::{SoftwareEntry, RegistryInfo, InstalledDatabase, InstallRecord, opt_str_view};
use crate::aspkg::list::{
    registry_key, version_pairs, map_registry_version, eval_entry, status_of, category_of, version_type_label,
    version_label, get_type_label, kind_label, entry_offers, latest_version, last_key, version_keys, is_non_software,
    non_software, registry_shadows, shadowed_spec, parse_version, version_nums, version_sign, version_order,
};
use crate::aspkg::locate::{resolve_path, resolve_path_spec, index_view, StartMenuIndex};
use crate::environ::EnvVars;
use crate::order::{stable_sort_by, stably_sorted};
use crate::text::{
    lowercase, to_lower, str_lt, chars_lt, chars_of, str_eq, push_str, lemma_str_lt_irrefl, lemma_str_lt_asym,
    lemma_str_lt_total, lemma_str_lt_trans,
};

verus! {

/// The entry behind an optional reference.
pub open spec fn opt_entry(e: Option<&SoftwareEntry>) -> Option<SoftwareEntry> {
    match e {
        Some(x) => Some(*x),
        None => None,
    }
}

/// Texts of a vector of strings.
pub open spec fn texts(v: Seq<String>) -> Seq<Seq<char>> {
    v.map_values(|s: String| s@)
}

/// `s` without repeats, first occurrences kept in order.
pub open spec fn dedup(s: Seq<Seq<char>>) -> Seq<Seq<char>>
    decreases s.len(),
{
    if s.len() == 0 {
        Seq::empty()
    } else {
        let d = dedup(s.drop_last());
        if d.contains(s.last()) { d } else { d.push(s.last()) }
    }
}

/// Version `a` is strictly newer than `b` (by their numbers).
pub open spec fn newer(a: Seq<char>, b: Seq<char>) -> bool {
    version_order(version_nums(a), version_nums(b)) > 0
}

/// `x` put into the newest-first list `r`: after every version it is not
/// newer than (a stable insertion from the back).
pub open spec fn insert_newest(r: Seq<Seq<char>>, x: Seq<char>) -> Seq<Seq<char>>
    decreases r.len(),
{
    if r.len() == 0 {
        seq![x]
    } else if newer(x, r.last()) {
        insert_newest(r.drop_last(), x).push(r.last())
    } else {
        r.push(x)
    }
}

/// `s` sorted newest first, stably.
pub open spec fn newest_first_spec(s: Seq<Seq<char>>) -> Seq<Seq<char>>
    decreases s.len(),
{
    if s.len() == 0 {
        Seq::empty()
    } else {
        insert_newest(newest_first_spec(s.drop_last()), s.last())
    }
}

/// The texts joined with `", "`.
pub open spec fn join_comma(s: Seq<Seq<char>>) -> Seq<char>
    decreases s.len(),
{
    if s.len() == 0 {
        Seq::empty()
    } else if s.len() == 1 {
        s[0]
    } else {
        join_comma(s.drop_last()) + ", "@ + s.last()
    }
}

/// The "all versions" column: the catalogue keys of the entry and the
/// installed versions, without repeats, newest first, joined with `", "`;
/// `-` when there is none.
pub open spec fn all_versions_spec(entry: Option<SoftwareEntry>, installed: Seq<Seq<char>>) -> Seq<char> {
    let keys = match entry {
        Some(e) => version_keys(e.versions@),
        None => Seq::empty(),
    };
    let c = dedup(keys + installed);
    if c.len() == 0 { "-"@ } else { join_comma(newest_first_spec(c)) }
}

fn contains_text(v: &Vec<String>, s: &str) -> (r: bool)
    ensures
        r == texts(v@).contains(s@),
{
    let mut i: usize = 0;
    while i < v.len()
        invariant
            i <= v.len(),
            forall|j: int| 0 <= j < i ==> texts(v@)[j] != s@,
        decreases v.len() - i,
    {
        if str_eq(v[i].as_str(), s) {
            assert(texts(v@)[i as int] == s@);
            return true;
        }
        i += 1;
    }
    false
}

fn is_newer(a: &str, b: &str) -> (r: bool)
    ensures
        r == newer(a@, b@),
{
    let x = parse_version(a);
    let y = parse_version(b);
    version_sign(x.as_slice(), y.as_slice()) > 0
}

fn insert_newest_exec(r: Vec<String>, x: String) -> (out: Vec<String>)
    ensures
        texts(out@) == insert_newest(texts(r@), x@),
    decreases r.len(),
{
    let mut r = r;
    if r.len() == 0 {
        r.push(x);
        assert(texts(r@) =~= seq![x@]);
        return r;
    }
    let n = r.len();
    if is_newer(x.as_str(), r[n - 1].as_str()) {
        let ghost tr = texts(r@);
        let last = r.pop().unwrap();
        assert(texts(r@) =~= tr.drop_last());
        let mut out = insert_newest_exec(r, x);
        let ghost before = texts(out@);
        out.push(last);
        assert(texts(out@) =~= before.push(tr.last()));
        out
    } else {
        let ghost tr = texts(r@);
        r.push(x);
        assert(texts(r@) =~= tr.push(x@));
        r
    }
}

/// The text of the "all versions" column.
pub fn all_versions_text(entry: Option<&SoftwareEntry>, installed: &Vec<String>) -> (r: String)
    ensures
        r@ == all_versions_spec(opt_entry(entry), texts(installed@)),
{
    let ghost keys = match opt_entry(entry) {
        Some(e) => version_keys(e.versions@),
        None => Seq::<Seq<char>>::empty(),
    };
    let ghost all = keys + texts(installed@);
    let mut cands: Vec<String> = Vec::new();
    let mut n: usize = 0;
    match entry {
        Some(e) => {
            while n < e.versions.len()
                invariant
                    n <= e.versions.len(),
                    keys == version_keys(e.versions@),
                    texts(cands@) == dedup(keys.take(n as int)),
                decreases e.versions.len() - n,
            {
                assert(keys.take(n + 1).drop_last() =~= keys.take(n as int));
                assert(keys.take(n + 1).last() == e.versions@[n as int].0@);
                if !contains_text(&cands, e.versions[n].0.as_str()) {
                    let ghost before = texts(cands@);
                    cands.push(e.versions[n].0.clone());
                    assert(texts(cands@) =~= before.push(e.versions@[n as int].0@));
                }
                n += 1;
            }
            assert(keys.take(n as int) =~= keys);
        },
        None => {
            assert(keys =~= Seq::<Seq<char>>::empty());
            assert(texts(cands@) =~= dedup(keys));
        },
    }
    assert(all.take(keys.len() as int) =~= keys);
    let mut i: usize = 0;
    while i < installed.len()
        invariant
            i <= installed.len(),
            all == keys + texts(installed@),
            texts(cands@) == dedup(all.take(keys.len() + i)),
        decreases installed.len() - i,
    {
        assert(all.take(keys.len() + i + 1).drop_last() =~= all.take(keys.len() + i));
        assert(all.take(keys.len() + i + 1).last() == installed@[i as int]@);
        if !contains_text(&cands, installed[i].as_str()) {
            let ghost before = texts(cands@);
            cands.push(installed[i].clone());
            assert(texts(cands@) =~= before.push(installed@[i as int]@));
        }
        i += 1;
    }
    assert(all.take(keys.len() + i) =~= all);
    if cands.len() == 0 {
        return String::from_str("-");
    }
    let ghost c = texts(cands@);
    let mut sorted: Vec<String> = Vec::new();
    let mut k: usize = 0;
    while k < cands.len()
        invariant
            k <= cands.len(),
            c == texts(cands@),
            texts(sorted@) == newest_first_spec(c.take(k as int)),
        decreases cands.len() - k,
    {
        assert(c.take(k + 1).drop_last() =~= c.take(k as int));
        sorted = insert_newest_exec(sorted, cands[k].clone());
        k += 1;
    }
    assert(c.take(k as int) =~= c);
    let ghost ss = texts(sorted@);
    let mut out = String::new();
    let mut j: usize = 0;
    while j < sorted.len()
        invariant
            j <= sorted.len(),
            ss == texts(sorted@),
            out@ == join_comma(ss.take(j as int)),
        decreases sorted.len() - j,
    {
        assert(ss.take(j + 1).drop_last() =~= ss.take(j as int));
        if j > 0 {
            push_str(&mut out, ", ");
        }
        push_str(&mut out, sorted[j].as_str());
        proof {
            if j == 0 {
                assert(ss.take(1) =~= seq![ss[0]]);
                assert(out@ =~= ss[0]);
            }
        }
        j += 1;
    }
    assert(ss.take(j as int) =~= ss);
    out
}

/// The entry named `n` (the first with that key).
pub open spec fn entry_named(es: Seq<(String, SoftwareEntry)>, n: Seq<char>) -> Option<SoftwareEntry>
    decreases es.len(),
{
    if es.len() == 0 {
        None
    } else if es[0].0@ == n {
        Some(es[0].1)
    } else {
        entry_named(es.drop_first(), n)
    }
}

/// The registry entries matched to the catalogue name `n`.
pub open spec fn group_named(gs: Seq<(String, Vec<RegistryInfo>)>, n: Seq<char>) -> Option<Seq<RegistryInfo>>
    decreases gs.len(),
{
    if gs.len() == 0 {
        None
    } else if gs[0].0@ == n {
        Some(gs[0].1@)
    } else {
        group_named(gs.drop_first(), n)
    }
}

/// The Steam game folder found for an uninstall command.
pub open spec fn steam_named(steam: Seq<(String, String)>, us: Seq<char>) -> Option<Seq<char>>
    decreases steam.len(),
{
    if steam.len() == 0 {
        None
    } else if steam[0].0@ == us {
        Some(steam[0].1@)
    } else {
        steam_named(steam.drop_first(), us)
    }
}

/// The folders the caller found on disk for the path column: the Start
/// Menu index, the environment, and the Steam game folder of each uninstall
/// command that names a Steam game.
pub struct PathContext {
    pub index: StartMenuIndex,
    pub env: EnvVars,
    pub steam: Vec<(String, String)>,
}

/// The path column of a program.
pub open spec fn path_cell(
    ctx: PathContext,
    name: Seq<char>,
    version: Seq<char>,
    install_path: Option<String>,
    uninstall: Option<String>,
) -> Seq<char> {
    resolve_path_spec(
        name,
        Some(version),
        opt_str_view(install_path),
        opt_str_view(uninstall),
        index_view(ctx.index),
        ctx.env,
        match uninstall {
            Some(u) => steam_named(ctx.steam@, u@),
            None => None,
        },
    )
}

/// The catalogue key a registry version maps to.
pub open spec fn mapped_key(e: Option<SoftwareEntry>, v: Seq<char>) -> Option<Seq<char>> {
    match e {
        Some(x) => registry_key(version_pairs(x.versions@), v),
        None => None,
    }
}

/// The first registry entry whose version maps to the recorded version `ver`.
pub open spec fn info_for(infos: Seq<RegistryInfo>, e: Option<SoftwareEntry>, ver: Seq<char>) -> Option<RegistryInfo>
    decreases infos.len(),
{
    if infos.len() == 0 {
        None
    } else if mapped_key(e, infos[0].version@) == Some(ver) {
        Some(infos[0])
    } else {
        info_for(infos.drop_first(), e, ver)
    }
}

/// The first of the newest registry entries.
pub open spec fn newest_info(infos: Seq<RegistryInfo>) -> RegistryInfo
    decreases infos.len(),
{
    if infos.len() <= 1 {
        infos[0]
    } else {
        let b = newest_info(infos.drop_last());
        if newer(infos.last().version@, b.version@) { infos.last() } else { b }
    }
}

pub open spec fn cat_cell(e: Option<SoftwareEntry>) -> Seq<char> {
    match e {
        Some(x) => category_of(x),
        None => "-"@,
    }
}

pub open spec fn status_cell(e: Option<SoftwareEntry>, v: Seq<char>) -> Seq<char> {
    match e {
        Some(x) => status_of(x, Some(v)),
        None => "-"@,
    }
}

/// Install kinds offered over all versions of an entry.
pub open spec fn kinds_cell(e: Option<SoftwareEntry>) -> Seq<char> {
    match e {
        Some(x) => kind_label(entry_offers(x, "installer"@), entry_offers(x, "portable"@)),
        None => "-"@,
    }
}

/// Row of a program recorded by `as`: its registry entry (when the registry
/// shows the version it recorded) gives the version and the path.
pub open spec fn recorded_row(
    es: Seq<(String, SoftwareEntry)>,
    gs: Seq<(String, Vec<RegistryInfo>)>,
    ctx: PathContext,
    name: Seq<char>,
    rec: InstallRecord,
) -> Seq<Seq<char>> {
    let e = entry_named(es, name);
    let is_reg = group_named(gs, name) is Some;
    let info = if is_reg { info_for(group_named(gs, name)->0, e, rec.version@) } else { None };
    let dv = match info {
        Some(i) => i.version@,
        None => rec.version@,
    };
    let path = match info {
        Some(i) => path_cell(ctx, name, dv, i.install_path, i.uninstall_string),
        None => path_cell(ctx, name, dv, None, None),
    };
    seq![
        name,
        dv,
        if is_reg { "注册表+源"@ } else { "源"@ },
        version_label(e, rec.version@),
        cat_cell(e),
        status_cell(e, rec.version@),
        path,
        all_versions_spec(e, seq![rec.version@])
    ]
}

/// Row of a catalogue program the registry shows, from its newest entry.
pub open spec fn matched_row(
    es: Seq<(String, SoftwareEntry)>,
    ctx: PathContext,
    name: Seq<char>,
    infos: Seq<RegistryInfo>,
) -> Seq<Seq<char>> {
    let e = entry_named(es, name);
    let info = newest_info(infos);
    let key = match mapped_key(e, info.version@) {
        Some(k) => k,
        None => Seq::empty(),
    };
    seq![
        name,
        info.version@,
        "注册表+源"@,
        if key.len() == 0 { kinds_cell(e) } else { version_label(e, key) },
        cat_cell(e),
        status_cell(e, info.version@),
        path_cell(ctx, name, info.version@, info.install_path, info.uninstall_string),
        all_versions_spec(e, Seq::empty())
    ]
}

/// Row of a registry entry the catalogue does not know.
pub open spec fn registry_row(ctx: PathContext, info: RegistryInfo) -> Seq<Seq<char>> {
    seq![
        info.display_name@,
        info.version@,
        "注册表"@,
        "-"@,
        "-"@,
        "-"@,
        path_cell(ctx, info.display_name@, info.version@, info.install_path, info.uninstall_string),
        "-"@
    ]
}

/// Row of a catalogue program that is not installed.
pub open spec fn catalogue_row(name: Seq<char>, e: SoftwareEntry) -> Seq<Seq<char>> {
    seq![
        name,
        match last_key(version_keys(e.versions@)) {
            Some(l) => l,
            None => "-"@,
        },
        "源"@,
        kinds_cell(Some(e)),
        category_of(e),
        "未安装"@,
        "-"@,
        all_versions_spec(Some(e), Seq::empty())
    ]
}

fn make_row(
    a: String,
    b: String,
    c: String,
    d: String,
    e: String,
    f: String,
    g: String,
    h: String,
) -> (r: Vec<String>)
    ensures
        texts(r@) == seq![a@, b@, c@, d@, e@, f@, g@, h@],
{
    let mut r: Vec<String> = Vec::new();
    r.push(a);
    r.push(b);
    r.push(c);
    r.push(d);
    r.push(e);
    r.push(f);
    r.push(g);
    r.push(h);
    assert(texts(r@) =~= seq![a@, b@, c@, d@, e@, f@, g@, h@]);
    r
}

fn entry_named_exec<'a>(es: &'a Vec<(String, SoftwareEntry)>, n: &str) -> (r: Option<&'a SoftwareEntry>)
    ensures
        opt_entry(r) == entry_named(es@, n@),
{
    let mut i: usize = 0;
    assert(es@.skip(0) =~= es@);
    while i < es.len()
        invariant
            i <= es.len(),
            entry_named(es@, n@) == entry_named(es@.skip(i as int), n@),
        decreases es.len() - i,
    {
        assert(es@.skip(i as int).drop_first() =~= es@.skip(i + 1));
        assert(es@.skip(i as int)[0] == es@[i as int]);
        if str_eq(es[i].0.as_str(), n) {
            return Some(&es[i].1);
        }
        i += 1;
    }
    assert(es@.skip(i as int) =~= Seq::<(String, SoftwareEntry)>::empty());
    None
}

fn group_named_exec<'a>(gs: &'a Vec<(String, Vec<RegistryInfo>)>, n: &str) -> (r: Option<&'a Vec<RegistryInfo>>)
    ensures
        match r {
            Some(v) => group_named(gs@, n@) == Some(v@),
            None => group_named(gs@, n@) is None,
        },
{
    let mut i: usize = 0;
    assert(gs@.skip(0) =~= gs@);
    while i < gs.len()
        invariant
            i <= gs.len(),
            group_named(gs@, n@) == group_named(gs@.skip(i as int), n@),
        decreases gs.len() - i,
    {
        assert(gs@.skip(i as int).drop_first() =~= gs@.skip(i + 1));
        assert(gs@.skip(i as int)[0] == gs@[i as int]);
        if str_eq(gs[i].0.as_str(), n) {
            return Some(&gs[i].1);
        }
        i += 1;
    }
    assert(gs@.skip(i as int) =~= Seq::<(String, Vec<RegistryInfo>)>::empty());
    None
}

fn steam_named_exec<'a>(steam: &'a Vec<(String, String)>, us: &str) -> (r: Option<&'a str>)
    ensures
        match r {
            Some(v) => steam_named(steam@, us@) == Some(v@),
            None => steam_named(steam@, us@) is None,
        },
{
    let mut i: usize = 0;
    assert(steam@.skip(0) =~= steam@);
    while i < steam.len()
        invariant
            i <= steam.len(),
            steam_named(steam@, us@) == steam_named(steam@.skip(i as int), us@),
        decreases steam.len() - i,
    {
        assert(steam@.skip(i as int).drop_first() =~= steam@.skip(i + 1));
        assert(steam@.skip(i as int)[0] == steam@[i as int]);
        if str_eq(steam[i].0.as_str(), us) {
            return Some(steam[i].1.as_str());
        }
        i += 1;
    }
    assert(steam@.skip(i as int) =~= Seq::<(String, String)>::empty());
    None
}

fn opt_str<'a>(o: &'a Option<String>) -> (r: Option<&'a str>)
    ensures
        match r {
            Some(v) => opt_str_view(*o) == Some(v@),
            None => o is None,
        },
{
    match o {
        Some(s) => Some(s.as_str()),
        None => None,
    }
}

fn path_exec(
    ctx: &PathContext,
    name: &str,
    version: &str,
    install_path: &Option<String>,
    uninstall: &Option<String>,
) -> (r: String)
    ensures
        r@ == path_cell(*ctx, name@, version@, *install_path, *uninstall),
{
    let steam = match uninstall {
        Some(u) => steam_named_exec(&ctx.steam, u.as_str()),
        None => None,
    };
    resolve_path(name, Some(version), opt_str(install_path), opt_str(uninstall), &ctx.index, &ctx.env, steam)
}

fn mapped_key_exec(e: Option<&SoftwareEntry>, v: &str) -> (r: Option<String>)
    ensures
        opt_str_view(r) == mapped_key(opt_entry(e), v@),
{
    map_registry_version(e, v)
}

fn info_for_exec<'a>(infos: &'a Vec<RegistryInfo>, e: Option<&SoftwareEntry>, ver: &str) -> (r: Option<&'a RegistryInfo>)
    ensures
        match r {
            Some(i) => info_for(infos@, opt_entry(e), ver@) == Some(*i),
            None => info_for(infos@, opt_entry(e), ver@) is None,
        },
{
    let mut i: usize = 0;
    assert(infos@.skip(0) =~= infos@);
    while i < infos.len()
        invariant
            i <= infos.len(),
            info_for(infos@, opt_entry(e), ver@) == info_for(infos@.skip(i as int), opt_entry(e), ver@),
        decreases infos.len() - i,
    {
        assert(infos@.skip(i as int).drop_first() =~= infos@.skip(i + 1));
        assert(infos@.skip(i as int)[0] == infos@[i as int]);
        let k = mapped_key_exec(e, infos[i].version.as_str());
        let hit = match &k {
            Some(s) => str_eq(s.as_str(), ver),
            None => false,
        };
        if hit {
            return Some(&infos[i]);
        }
        i += 1;
    }
    assert(infos@.skip(i as int) =~= Seq::<RegistryInfo>::empty());
    None
}

fn newest_info_exec(infos: &Vec<RegistryInfo>) -> (r: &RegistryInfo)
    requires
        infos.len() > 0,
    ensures
        *r == newest_info(infos@),
{
    let mut b: usize = 0;
    let mut i: usize = 1;
    assert(infos@.take(1).drop_last().len() == 0);
    while i < infos.len()
        invariant
            1 <= i <= infos.len(),
            b < i,
            infos@[b as int] == newest_info(infos@.take(i as int)),
        decreases infos.len() - i,
    {
        assert(infos@.take(i + 1).drop_last() =~= infos@.take(i as int));
        assert(infos@.take(i + 1).last() == infos@[i as int]);
        if is_newer(infos[i].version.as_str(), infos[b].version.as_str()) {
            b = i;
        }
        i += 1;
    }
    assert(infos@.take(i as int) =~= infos@);
    &infos[b]
}

fn cat_exec(e: Option<&SoftwareEntry>) -> (r: String)
    ensures
        r@ == cat_cell(opt_entry(e)),
{
    eval_entry(e, None).0
}

fn status_exec(e: Option<&SoftwareEntry>, v: &str) -> (r: String)
    ensures
        r@ == status_cell(opt_entry(e), v@),
{
    eval_entry(e, Some(v)).1
}

fn kinds_exec(e: Option<&SoftwareEntry>) -> (r: String)
    ensures
        r@ == kinds_cell(opt_entry(e)),
{
    match e {
        Some(x) => get_type_label(x),
        None => String::from_str("-"),
    }
}

fn one(s: &String) -> (r: Vec<String>)
    ensures
        texts(r@) == seq![s@],
{
    let mut v: Vec<String> = Vec::new();
    v.push(s.clone());
    assert(texts(v@) =~= seq![s@]);
    v
}

fn recorded_row_exec(
    es: &Vec<(String, SoftwareEntry)>,
    gs: &Vec<(String, Vec<RegistryInfo>)>,
    ctx: &PathContext,
    name: &String,
    rec: &InstallRecord,
) -> (r: Vec<String>)
    ensures
        texts(r@) == recorded_row(es@, gs@, *ctx, name@, *rec),
{
    let e = entry_named_exec(es, name.as_str());
    let g = group_named_exec(gs, name.as_str());
    let is_reg = g.is_some();
    let info = match g {
        Some(infos) => info_for_exec(infos, e, rec.version.as_str()),
        None => None,
    };
    let dv = match info {
        Some(i) => i.version.clone(),
        None => rec.version.clone(),
    };
    let path = match info {
        Some(i) => path_exec(ctx, name.as_str(), dv.as_str(), &i.install_path, &i.uninstall_string),
        None => path_exec(ctx, name.as_str(), dv.as_str(), &None, &None),
    };
    let src = if is_reg { String::from_str("注册表+源") } else { String::from_str("源") };
    make_row(
        name.clone(),
        dv,
        src,
        version_type_label(e, rec.version.as_str()),
        cat_exec(e),
        status_exec(e, rec.version.as_str()),
        path,
        all_versions_text(e, &one(&rec.version)),
    )
}

fn matched_row_exec(
    es: &Vec<(String, SoftwareEntry)>,
    ctx: &PathContext,
    name: &String,
    infos: &Vec<RegistryInfo>,
) -> (r: Vec<String>)
    requires
        infos.len() > 0,
    ensures
        texts(r@) == matched_row(es@, *ctx, name@, infos@),
{
    let e = entry_named_exec(es, name.as_str());
    let info = newest_info_exec(infos);
    let key = match mapped_key_exec(e, info.version.as_str()) {
        Some(k) => k,
        None => String::new(),
    };
    let kinds = if key.as_str().unicode_len() == 0 {
        kinds_exec(e)
    } else {
        version_type_label(e, key.as_str())
    };
    make_row(
        name.clone(),
        info.version.clone(),
        String::from_str("注册表+源"),
        kinds,
        cat_exec(e),
        status_exec(e, info.version.as_str()),
        path_exec(ctx, name.as_str(), info.version.as_str(), &info.install_path, &info.uninstall_string),
        all_versions_text(e, &Vec::new()),
    )
}

fn registry_row_exec(ctx: &PathContext, info: &RegistryInfo) -> (r: Vec<String>)
    ensures
        texts(r@) == registry_row(*ctx, *info),
{
    make_row(
        info.display_name.clone(),
        info.version.clone(),
        String::from_str("注册表"),
        String::from_str("-"),
        String::from_str("-"),
        String::from_str("-"),
        path_exec(ctx, info.display_name.as_str(), info.version.as_str(), &info.install_path, &info.uninstall_string),
        String::from_str("-"),
    )
}

fn catalogue_row_exec(name: &String, e: &SoftwareEntry) -> (r: Vec<String>)
    ensures
        texts(r@) == catalogue_row(name@, *e),
{
    let latest = match latest_version(e) {
        Some(l) => l,
        None => String::from_str("-"),
    };
    make_row(
        name.clone(),
        latest,
        String::from_str("源"),
        get_type_label(e),
        cat_exec(Some(e)),
        String::from_str("未安装"),
        String::from_str("-"),
        all_versions_text(Some(e), &Vec::new()),
    )
}

/// Names of the install records.
pub open spec fn record_names(recs: Seq<(String, InstallRecord)>) -> Seq<Seq<char>> {
    recs.map_values(|p: (String, InstallRecord)| p.0@)
}

/// Catalogue names of the matched registry groups.
pub open spec fn group_keys(gs: Seq<(String, Vec<RegistryInfo>)>) -> Seq<Seq<char>> {
    gs.map_values(|p: (String, Vec<RegistryInfo>)| p.0@)
}

/// Texts of the rows.
pub open spec fn row_texts(rows: Seq<Vec<String>>) -> Seq<Seq<Seq<char>>> {
    rows.map_values(|v: Vec<String>| texts(v@))
}

/// Rows of the programs recorded by `as`.
pub open spec fn recorded_rows(
    es: Seq<(String, SoftwareEntry)>,
    gs: Seq<(String, Vec<RegistryInfo>)>,
    ctx: PathContext,
    recs: Seq<(String, InstallRecord)>,
) -> Seq<Seq<Seq<char>>> {
    recs.map_values(|p: (String, InstallRecord)| recorded_row(es, gs, ctx, p.0@, p.1))
}

/// Rows of the matched registry groups whose program `as` has not recorded
/// (each catalogue name once).
pub open spec fn matched_rows(
    es: Seq<(String, SoftwareEntry)>,
    ctx: PathContext,
    recs: Seq<(String, InstallRecord)>,
    gs: Seq<(String, Vec<RegistryInfo>)>,
) -> Seq<Seq<Seq<char>>>
    decreases gs.len(),
{
    if gs.len() == 0 {
        Seq::empty()
    } else {
        let prev = matched_rows(es, ctx, recs, gs.drop_last());
        let n = gs.last().0@;
        if record_names(recs).contains(n) || group_keys(gs.drop_last()).contains(n) {
            prev
        } else {
            prev.push(matched_row(es, ctx, n, gs.last().1@))
        }
    }
}

/// Rows of the registry entries the catalogue does not know; system
/// components are left out unless `show_all`.
pub open spec fn registry_rows(ctx: PathContext, un: Seq<RegistryInfo>, show_all: bool) -> Seq<Seq<Seq<char>>>
    decreases un.len(),
{
    if un.len() == 0 {
        Seq::empty()
    } else {
        let prev = registry_rows(ctx, un.drop_last(), show_all);
        if show_all || !non_software(lowercase(un.last().display_name@)) {
            prev.push(registry_row(ctx, un.last()))
        } else {
            prev
        }
    }
}

/// Display names of the matched registry entries.
pub open spec fn group_names(gs: Seq<(String, Vec<RegistryInfo>)>) -> Seq<Seq<char>>
    decreases gs.len(),
{
    if gs.len() == 0 {
        Seq::empty()
    } else {
        group_names(gs.drop_last()) + gs.last().1@.map_values(|i: RegistryInfo| i.display_name@)
    }
}

/// Display names of every registry entry.
pub open spec fn registry_names(gs: Seq<(String, Vec<RegistryInfo>)>, un: Seq<RegistryInfo>) -> Seq<Seq<char>> {
    group_names(gs) + un.map_values(|i: RegistryInfo| i.display_name@)
}

/// Rows of the catalogue programs neither recorded nor matched, nor shown
/// by the registry under their detect name.
pub open spec fn catalogue_rows(
    es: Seq<(String, SoftwareEntry)>,
    recs: Seq<(String, InstallRecord)>,
    gs: Seq<(String, Vec<RegistryInfo>)>,
    names: Seq<Seq<char>>,
) -> Seq<Seq<Seq<char>>>
    decreases es.len(),
{
    if es.len() == 0 {
        Seq::empty()
    } else {
        let prev = catalogue_rows(es.drop_last(), recs, gs, names);
        let n = es.last().0@;
        let shadowed = match es.last().1.detect {
            Some(d) => shadowed_spec(d.display_name@, names),
            None => false,
        };
        if record_names(recs).contains(n) || group_keys(gs).contains(n) || shadowed {
            prev
        } else {
            prev.push(catalogue_row(n, es.last().1))
        }
    }
}

/// The rows of `as list` before sorting.
pub open spec fn list_rows_spec(
    es: Seq<(String, SoftwareEntry)>,
    recs: Seq<(String, InstallRecord)>,
    gs: Seq<(String, Vec<RegistryInfo>)>,
    un: Seq<RegistryInfo>,
    show_all: bool,
    ctx: PathContext,
) -> Seq<Seq<Seq<char>>> {
    recorded_rows(es, gs, ctx, recs) + matched_rows(es, ctx, recs, gs) + registry_rows(ctx, un, show_all) + if show_all {
        catalogue_rows(es, recs, gs, registry_names(gs, un))
    } else {
        Seq::empty()
    }
}

/// The text a row is sorted by: its name, lower-cased.
pub open spec fn row_key(v: Vec<String>) -> Seq<char> {
    if v@.len() > 0 { lowercase(v@[0]@) } else { Seq::empty() }
}

/// The order of rows: by lower-cased name.
pub open spec fn row_order() -> spec_fn(Vec<String>, Vec<String>) -> bool {
    |a: Vec<String>, b: Vec<String>| str_lt(row_key(a), row_key(b))
}

proof fn lemma_row_order(a: Vec<String>, b: Vec<String>, c: Vec<String>)
    ensures
        row_order()(a, b) ==> !row_order()(b, a),
        !row_order()(a, b) && !row_order()(b, c) ==> !row_order()(a, c),
{
    let (x, y, z) = (row_key(a), row_key(b), row_key(c));
    lemma_str_lt_asym(x, y);
    lemma_str_lt_total(x, y);
    lemma_str_lt_total(y, z);
    lemma_str_lt_irrefl(x);
    if !str_lt(x, y) && !str_lt(y, z) && x != y && y != z {
        lemma_str_lt_trans(z, y, x);
        lemma_str_lt_asym(z, x);
    }
}

fn row_less(a: &Vec<String>, b: &Vec<String>) -> (r: bool)
    ensures
        r == row_order()(*a, *b),
{
    let ka: Vec<char> = if a.len() > 0 { chars_of(to_lower(a[0].as_str()).as_str()) } else { Vec::new() };
    let kb: Vec<char> = if b.len() > 0 { chars_of(to_lower(b[0].as_str()).as_str()) } else { Vec::new() };
    assert(ka@ == row_key(*a));
    assert(kb@ == row_key(*b));
    chars_lt(ka.as_slice(), kb.as_slice())
}

fn has_record(recs: &Vec<(String, InstallRecord)>, n: &str) -> (r: bool)
    ensures
        r == record_names(recs@).contains(n@),
{
    let mut i: usize = 0;
    while i < recs.len()
        invariant
            i <= recs.len(),
            forall|j: int| 0 <= j < i ==> record_names(recs@)[j] != n@,
        decreases recs.len() - i,
    {
        if str_eq(recs[i].0.as_str(), n) {
            assert(record_names(recs@)[i as int] == n@);
            return true;
        }
        i += 1;
    }
    false
}

fn has_group_before(gs: &Vec<(String, Vec<RegistryInfo>)>, n: &str, upto: usize) -> (r: bool)
    requires
        upto <= gs.len(),
    ensures
        r == group_keys(gs@.take(upto as int)).contains(n@),
{
    let ghost ks = group_keys(gs@.take(upto as int));
    let mut i: usize = 0;
    while i < upto
        invariant
            i <= upto <= gs.len(),
            ks == group_keys(gs@.take(upto as int)),
            forall|j: int| 0 <= j < i ==> ks[j] != n@,
        decreases upto - i,
    {
        if str_eq(gs[i].0.as_str(), n) {
            assert(ks[i as int] == n@);
            return true;
        }
        i += 1;
    }
    false
}

/// The rows of `as list` (name, version, source, type, category, status,
/// path, all versions), sorted stably by lower-cased name: the programs
/// `as` recorded, then the registry entries matched to the catalogue and
/// not recorded, then the other registry entries (system components only
/// with `show_all`), then, with `show_all`, the catalogue programs not
/// installed. `ctx` holds what the caller read from disk for the path column.
pub fn list_rows(
    entries: &Vec<(String, SoftwareEntry)>,
    installed: &InstalledDatabase,
    matched: &Vec<(String, Vec<RegistryInfo>)>,
    unmatched: &Vec<RegistryInfo>,
    show_all: bool,
    ctx: &PathContext,
) -> (r: Vec<Vec<String>>)
    requires
        forall|i: int| 0 <= i < matched.len() ==> (#[trigger] matched@[i]).1.len() > 0,
        forall|i: int| 0 <= i < matched.len() ==> entry_named(entries@, (#[trigger] matched@[i]).0@) is Some,
    ensures
        exists|o: Seq<Vec<String>>|
            row_texts(o) == list_rows_spec(entries@, installed.records@, matched@, unmatched@, show_all, *ctx)
                && #[trigger] stably_sorted(o, r@, row_order()),
{
    let recs = &installed.records;
    let ghost es = entries@;
    let ghost gs = matched@;
    let mut rows: Vec<Vec<String>> = Vec::new();
    let mut i: usize = 0;
    while i < recs.len()
        invariant
            i <= recs.len(),
            es == entries@,
            gs == matched@,
            row_texts(rows@) == recorded_rows(es, gs, *ctx, recs@.take(i as int)),
        decreases recs.len() - i,
    {
        let row = recorded_row_exec(entries, matched, ctx, &recs[i].0, &recs[i].1);
        let ghost before = row_texts(rows@);
        rows.push(row);
        assert(row_texts(rows@) =~= before.push(texts(row@)));
        assert(recorded_rows(es, gs, *ctx, recs@.take(i + 1)) =~= recorded_rows(es, gs, *ctx, recs@.take(i as int)).push(
            recorded_row(es, gs, *ctx, recs@[i as int].0@, recs@[i as int].1),
        ));
        i += 1;
    }
    assert(recs@.take(i as int) =~= recs@);
    let ghost p1 = row_texts(rows@);
    let mut g: usize = 0;
    assert(p1 + matched_rows(es, *ctx, recs@, gs.take(0)) =~= p1);
    while g < matched.len()
        invariant
            g <= matched.len(),
            es == entries@,
            gs == matched@,
            forall|k: int| 0 <= k < matched.len() ==> (#[trigger] matched@[k]).1.len() > 0,
            row_texts(rows@) == p1 + matched_rows(es, *ctx, recs@, gs.take(g as int)),
        decreases matched.len() - g,
    {
        let ghost t = gs.take(g + 1);
        assert(t.drop_last() =~= gs.take(g as int));
        assert(t.last() == gs[g as int]);
        let n = &matched[g].0;
        let skip = has_record(recs, n.as_str()) || has_group_before(matched, n.as_str(), g);
        if !skip {
            assert(matched@[g as int].1.len() > 0);
            let row = matched_row_exec(entries, ctx, n, &matched[g].1);
            let ghost before = row_texts(rows@);
            rows.push(row);
            assert(row_texts(rows@) =~= before.push(texts(row@)));
            assert(row_texts(rows@) =~= p1 + matched_rows(es, *ctx, recs@, t));
        }
        g += 1;
    }
    assert(gs.take(g as int) =~= gs);
    let ghost p2 = row_texts(rows@);
    let mut u: usize = 0;
    assert(p2 + registry_rows(*ctx, unmatched@.take(0), show_all) =~= p2);
    while u < unmatched.len()
        invariant
            u <= unmatched.len(),
            row_texts(rows@) == p2 + registry_rows(*ctx, unmatched@.take(u as int), show_all),
        decreases unmatched.len() - u,
    {
        let ghost t = unmatched@.take(u + 1);
        assert(t.drop_last() =~= unmatched@.take(u as int));
        assert(t.last() == unmatched@[u as int]);
        if show_all || !is_non_software(unmatched[u].display_name.as_str()) {
            let row = registry_row_exec(ctx, &unmatched[u]);
            let ghost before = row_texts(rows@);
            rows.push(row);
            assert(row_texts(rows@) =~= before.push(texts(row@)));
            assert(row_texts(rows@) =~= p2 + registry_rows(*ctx, t, show_all));
        }
        u += 1;
    }
    assert(unmatched@.take(u as int) =~= unmatched@);
    let ghost p3 = row_texts(rows@);
    if show_all {
        let names = all_registry_names(matched, unmatched);
        let ghost nv = registry_names(gs, unmatched@);
        let mut k: usize = 0;
        assert(p3 + catalogue_rows(es.take(0), recs@, gs, nv) =~= p3);
        while k < entries.len()
            invariant
                k <= entries.len(),
                es == entries@,
                gs == matched@,
                texts(names@) == nv,
                row_texts(rows@) == p3 + catalogue_rows(es.take(k as int), recs@, gs, nv),
            decreases entries.len() - k,
        {
            let ghost t = es.take(k + 1);
            assert(t.drop_last() =~= es.take(k as int));
            assert(t.last() == es[k as int]);
            let n = &entries[k].0;
            let mut skip = has_record(recs, n.as_str()) || has_group_before(matched, n.as_str(), matched.len());
            proof {
                assert(gs.take(gs.len() as int) =~= gs);
            }
            match &entries[k].1.detect {
                Some(d) => {
                    if registry_shadows(d.display_name.as_str(), &names) {
                        skip = true;
                    }
                    assert(names@.map_values(|s: String| s@) =~= texts(names@));
                },
                None => {},
            }
            if !skip {
                let row = catalogue_row_exec(n, &entries[k].1);
                let ghost before = row_texts(rows@);
                rows.push(row);
                assert(row_texts(rows@) =~= before.push(texts(row@)));
                assert(row_texts(rows@) =~= p3 + catalogue_rows(t, recs@, gs, nv));
            }
            k += 1;
        }
        assert(es.take(k as int) =~= es);
    }
    assert(row_texts(rows@) =~= list_rows_spec(entries@, installed.records@, matched@, unmatched@, show_all, *ctx));
    let ghost o = rows@;
    proof {
        let lt = row_order();
        assert forall|a: Vec<String>, b: Vec<String>| #[trigger] lt(a, b) implies !lt(b, a) by {
            lemma_row_order(a, b, a);
        }
        assert forall|a: Vec<String>, b: Vec<String>, c: Vec<String>| #![trigger lt(a, b), lt(b, c)]
            !lt(a, b) && !lt(b, c) implies !lt(a, c) by {
            lemma_row_order(a, b, c);
        }
    }
    let less = |a: &Vec<String>, b: &Vec<String>| -> (r: bool)
        ensures
            r == row_order()(*a, *b),
        { row_less(a, b) };
    let r = stable_sort_by(rows, less, Ghost(row_order()));
    assert(stably_sorted(o, r@, row_order()));
    r
}

fn all_registry_names(gs: &Vec<(String, Vec<RegistryInfo>)>, un: &Vec<RegistryInfo>) -> (r: Vec<String>)
    ensures
        texts(r@) == registry_names(gs@, un@),
{
    let mut names: Vec<String> = Vec::new();
    let mut i: usize = 0;
    assert(gs@.take(0) =~= Seq::<(String, Vec<RegistryInfo>)>::empty());
    while i < gs.len()
        invariant
            i <= gs.len(),
            texts(names@) == group_names(gs@.take(i as int)),
        decreases gs.len() - i,
    {
        let ghost t = gs@.take(i + 1);
        assert(t.drop_last() =~= gs@.take(i as int));
        assert(t.last() == gs@[i as int]);
        let ghost base = texts(names@);
        let infos = &gs[i].1;
        let mut j: usize = 0;
        while j < infos.len()
            invariant
                j <= infos.len(),
                texts(names@) == base + infos@.take(j as int).map_values(|x: RegistryInfo| x.display_name@),
            decreases infos.len() - j,
        {
            let ghost before = texts(names@);
            names.push(infos[j].display_name.clone());
            assert(infos@.take(j + 1).map_values(|x: RegistryInfo| x.display_name@) =~= infos@.take(j as int).map_values(
                |x: RegistryInfo| x.display_name@,
            ).push(infos@[j as int].display_name@));
            assert(texts(names@) =~= before.push(infos@[j as int].display_name@));
            j += 1;
        }
        assert(infos@.take(j as int) =~= infos@);
        i += 1;
    }
    assert(gs@.take(i as int) =~= gs@);
    let ghost gn = texts(names@);
    let mut k: usize = 0;
    while k < un.len()
        invariant
            k <= un.len(),
            texts(names@) == gn + un@.take(k as int).map_values(|x: RegistryInfo| x.display_name@),
        decreases un.len() - k,
    {
        let ghost before = texts(names@);
        names.push(un[k].display_name.clone());
        assert(un@.take(k + 1).map_values(|x: RegistryInfo| x.display_name@) =~= un@.take(k as int).map_values(
            |x: RegistryInfo| x.display_name@,
        ).push(un@[k as int].display_name@));
        assert(texts(names@) =~= before.push(un@[k as int].display_name@));
        k += 1;
    }
    assert(un@.take(k as int) =~= un@);
    names
}

} // verus!
