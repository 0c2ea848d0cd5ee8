//! The downloader configuration (`downloader.toml`): backend strategies,
//! their names, and the backend list built from them.

use vstd::prelude::*;
use crate::text::{eq_ascii_ci, eq_ignore_ascii_case, str_eq};
use crate::environ::EnvVars;
use crate::config::paths::{join_path, join_spec};
use crate::net::backend::{BackendKind, sort_by_priority, sorted_by_priority};

verus! {

/// One backend entry of the configuration.
pub struct Strategy {
    pub name: String,
    pub enabled: bool,
    pub threads: Option<u8>,
    pub resume: Option<bool>,
}

/// An entry as plain values.
pub type StrategyView = (Seq<char>, bool, Option<u8>, Option<bool>);

pub open spec fn strategy_view(s: Strategy) -> StrategyView {
    (s.name@, s.enabled, s.threads, s.resume)
}

pub open spec fn strategies_view(v: Seq<Strategy>) -> Seq<StrategyView> {
    v.map_values(|s: Strategy| strategy_view(s))
}

/// The built-in strategy list.
pub open spec fn default_strategies_spec() -> Seq<StrategyView> {
    seq![
        ("aria2c"@, true, None, None),
        ("rust-range"@, true, Some(16u8), Some(true)),
        ("rust-ureq"@, true, None, None),
        ("rust-ureq(insecure)"@, true, None, None),
        ("powershell"@, true, None, None),
        ("ps-invoke"@, true, None, None),
        ("bits"@, true, None, None),
        ("curl"@, true, None, None)
    ]
}

fn strat(name: &str, threads: Option<u8>, resume: Option<bool>) -> (r: Strategy)
    ensures
        strategy_view(r) == (name@, true, threads, resume),
{
    Strategy { name: String::from_str(name), enabled: true, threads, resume }
}

/// The built-in strategy list.
pub fn default_strategies() -> (r: Vec<Strategy>)
    ensures
        strategies_view(r@) == default_strategies_spec(),
{
    let mut v: Vec<Strategy> = Vec::new();
    v.push(strat("aria2c", None, None));
    v.push(strat("rust-range", Some(16), Some(true)));
    v.push(strat("rust-ureq", None, None));
    v.push(strat("rust-ureq(insecure)", None, None));
    v.push(strat("powershell", None, None));
    v.push(strat("ps-invoke", None, None));
    v.push(strat("bits", None, None));
    v.push(strat("curl", None, None));
    assert(strategies_view(v@) =~= default_strategies_spec());
    v
}

/// `%LOCALAPPDATA%\aminos\config\downloader.toml` (`.` for an unset `LOCALAPPDATA`).
pub fn config_file_path(env: &EnvVars) -> (r: String)
    ensures
        r@ == join_spec(join_spec(join_spec(
            match env.lookup("LOCALAPPDATA"@) { Some(v) => v, None => "."@ }, "aminos"@), "config"@), "downloader.toml"@),
{
    let local = match env.get("LOCALAPPDATA") {
        Some(v) => v,
        None => String::from_str("."),
    };
    let a = join_path(local.as_str(), "aminos");
    let b = join_path(a.as_str(), "config");
    join_path(b.as_str(), "downloader.toml")
}

/// The configured name equal to `name` ignoring ASCII case (the first), else `name` itself.
pub open spec fn canonical_name(names: Seq<Seq<char>>, name: Seq<char>) -> Seq<char>
    decreases names.len(),
{
    if names.len() == 0 {
        name
    } else if eq_ascii_ci(names[0], name) {
        names[0]
    } else {
        canonical_name(names.drop_first(), name)
    }
}

/// The configured spelling of a name is the first configured name equal to
/// it ignoring ASCII case, or the name itself when there is none.
pub proof fn canonical_is_first_match(names: Seq<Seq<char>>, name: Seq<char>, i: int)
    ensures
        (0 <= i < names.len() && eq_ascii_ci(names[i], name) && forall|j: int| 0 <= j < i ==> !eq_ascii_ci(
            #[trigger] names[j],
            name,
        )) ==> canonical_name(names, name) == names[i],
        (forall|j: int| 0 <= j < names.len() ==> !eq_ascii_ci(#[trigger] names[j], name)) ==> canonical_name(names, name)
            == name,
    decreases names.len(),
{
    if names.len() > 0 {
        canonical_is_first_match(names.drop_first(), name, i - 1);
        if forall|j: int| 0 <= j < names.len() ==> !eq_ascii_ci(#[trigger] names[j], name) {
            assert(!eq_ascii_ci(names[0], name));
            assert forall|j: int| 0 <= j < names.drop_first().len() implies !eq_ascii_ci(#[trigger] names.drop_first()[j], name) by {
                assert(names.drop_first()[j] == names[j + 1]);
            }
        }
        if 0 < i < names.len() && eq_ascii_ci(names[i], name) && forall|j: int| 0 <= j < i ==> !eq_ascii_ci(
            #[trigger] names[j],
            name,
        ) {
            assert(!eq_ascii_ci(names[0], name));
            assert(names.drop_first()[i - 1] == names[i]);
            assert forall|j: int| 0 <= j < i - 1 implies !eq_ascii_ci(#[trigger] names.drop_first()[j], name) by {
                assert(names.drop_first()[j] == names[j + 1]);
            }
        }
    }
}

/// The configured spelling of a backend name.
pub fn find_backend_name(name: &str, states: &Vec<(String, bool, Option<u8>)>) -> (r: String)
    ensures
        r@ == canonical_name(states@.map_values(|s: (String, bool, Option<u8>)| s.0@), name@),
{
    let ghost ns = states@.map_values(|s: (String, bool, Option<u8>)| s.0@);
    let mut i: usize = 0;
    assert(ns.skip(0) =~= ns);
    while i < states.len()
        invariant
            i <= states.len(),
            ns == states@.map_values(|s: (String, bool, Option<u8>)| s.0@),
            canonical_name(ns, name@) == canonical_name(ns.skip(i as int), name@),
        decreases states.len() - i,
    {
        assert(ns.skip(i as int).drop_first() =~= ns.skip(i + 1));
        assert(ns.skip(i as int)[0] == states@[i as int].0@);
        if eq_ignore_ascii_case(states[i].0.as_str(), name) {
            return states[i].0.clone();
        }
        i += 1;
    }
    assert(ns.skip(i as int) =~= Seq::<Seq<char>>::empty());
    String::from_str(name)
}

/// Position of the first strategy named `name`, ignoring ASCII case.
pub open spec fn strategy_index(s: Seq<StrategyView>, name: Seq<char>) -> Option<int> {
    if exists|i: int| 0 <= i < s.len() && eq_ascii_ci(s[i].0, name) {
        Some(choose|i: int| 0 <= i < s.len() && eq_ascii_ci(s[i].0, name) && forall|j: int| 0 <= j < i ==> !eq_ascii_ci(s[j].0, name))
    } else {
        None
    }
}

/// No strategy has that name.
#[derive(PartialEq, Eq, Structural, Clone, Copy, Debug)]
pub struct UnknownBackend;

/// Enables or disables the first strategy named `name` (ASCII case ignored).
pub fn set_backend_enabled(strategies: &mut Vec<Strategy>, name: &str, enabled: bool) -> (r: Result<(), UnknownBackend>)
    ensures
        match strategy_index(strategies_view(old(strategies)@), name@) {
            Some(i) => r is Ok && strategies_view(final(strategies)@) == strategies_view(old(strategies)@).update(
                i,
                (strategies_view(old(strategies)@)[i].0, enabled, strategies_view(old(strategies)@)[i].2, strategies_view(old(strategies)@)[i].3),
            ),
            None => r is Err && strategies_view(final(strategies)@) == strategies_view(old(strategies)@),
        },
{
    let ghost sv = strategies_view(strategies@);
    let mut i: usize = 0;
    while i < strategies.len()
        invariant
            i <= strategies.len(),
            sv == strategies_view(strategies@),
            strategies@ == old(strategies)@,
            forall|j: int| 0 <= j < i ==> !eq_ascii_ci(sv[j].0, name@),
        decreases strategies.len() - i,
    {
        if eq_ignore_ascii_case(strategies[i].name.as_str(), name) {
            proof {
                assert(eq_ascii_ci(sv[i as int].0, name@));
                let c = choose|c: int| 0 <= c < sv.len() && eq_ascii_ci(sv[c].0, name@) && forall|j: int| 0 <= j < c ==> !eq_ascii_ci(sv[j].0, name@);
                assert(0 <= c < sv.len() && eq_ascii_ci(sv[c].0, name@) && forall|j: int| 0 <= j < c ==> !eq_ascii_ci(sv[j].0, name@));
                if c < i {
                    assert(!eq_ascii_ci(sv[c].0, name@));
                } else if c > i {
                    assert(!eq_ascii_ci(sv[i as int].0, name@));
                }
            }
            let e = Strategy {
                name: strategies[i].name.clone(),
                enabled,
                threads: strategies[i].threads,
                resume: strategies[i].resume,
            };
            strategies.set(i, e);
            assert(strategies_view(strategies@) =~= sv.update(i as int, (sv[i as int].0, enabled, sv[i as int].2, sv[i as int].3)));
            return Ok(());
        }
        i += 1;
    }
    Err(UnknownBackend)
}

/// Names of `s`.
pub open spec fn names_of(s: Seq<StrategyView>) -> Seq<Seq<char>> {
    s.map_values(|x: StrategyView| x.0)
}

/// The first `n` default strategies whose names `existing` lacks, appended in order.
pub open spec fn missing_upto(existing: Seq<Seq<char>>, n: int) -> Seq<StrategyView>
    decreases n,
{
    if n <= 0 {
        Seq::empty()
    } else if existing.contains(default_strategies_spec()[n - 1].0) {
        missing_upto(existing, n - 1)
    } else {
        missing_upto(existing, n - 1).push(default_strategies_spec()[n - 1])
    }
}

fn has_name(v: &Vec<Strategy>, upto: usize, name: &str) -> (r: bool)
    requires
        upto <= v.len(),
    ensures
        r == names_of(strategies_view(v@.take(upto as int))).contains(name@),
{
    let ghost ns = names_of(strategies_view(v@.take(upto as int)));
    let mut i: usize = 0;
    while i < upto
        invariant
            i <= upto <= v.len(),
            ns == names_of(strategies_view(v@.take(upto as int))),
            forall|j: int| 0 <= j < i ==> ns[j] != name@,
        decreases upto - i,
    {
        assert(ns[i as int] == v@[i as int].name@);
        if str_eq(v[i].name.as_str(), name) {
            return true;
        }
        i += 1;
    }
    false
}

/// Appends the default strategies the configuration lacks (by exact name);
/// returns whether any was added.
pub fn add_missing_defaults(strategies: &mut Vec<Strategy>) -> (r: bool)
    ensures
        strategies_view(final(strategies)@) == strategies_view(old(strategies)@)
            + missing_upto(names_of(strategies_view(old(strategies)@)), 8),
        r == (missing_upto(names_of(strategies_view(old(strategies)@)), 8).len() > 0),
{
    let ghost before = strategies_view(strategies@);
    let n0 = strategies.len();
    let defs = default_strategies();
    assert(strategies_view(defs@).len() == 8);
    let mut i: usize = 0;
    let mut changed = false;
    assert(strategies@.take(n0 as int) =~= strategies@);
    while i < defs.len()
        invariant
            i <= defs.len(),
            defs.len() == 8,
            n0 <= strategies.len(),
            strategies_view(defs@) == default_strategies_spec(),
            strategies_view(strategies@.take(n0 as int)) == before,
            strategies_view(strategies@) == before + missing_upto(names_of(before), i as int),
            changed == (missing_upto(names_of(before), i as int).len() > 0),
        decreases defs.len() - i,
    {
        assert(defs@[i as int].name@ == default_strategies_spec()[i as int].0);
        if !has_name(strategies, n0, defs[i].name.as_str()) {
            let ghost sb = strategies_view(strategies@);
            let d = Strategy {
                name: defs[i].name.clone(),
                enabled: defs[i].enabled,
                threads: defs[i].threads,
                resume: defs[i].resume,
            };
            strategies.push(d);
            assert(strategies_view(strategies@) =~= sb.push(default_strategies_spec()[i as int]));
            changed = true;
        }
        i += 1;
    }
    changed
}

/// Backend named by a strategy; none for the retired `RustSingle` and
/// unknown names.
pub open spec fn kind_of(s: StrategyView) -> Option<BackendKind> {
    let n = s.0;
    if n == "rust-range"@ || n == "RustRange"@ {
        Some(BackendKind::RustRange {
            threads: match s.2 { Some(t) => t, None => 16 },
            resume: match s.3 { Some(r) => r, None => true },
        })
    } else if n == "aria2c"@ || n == "Aria2c"@ {
        Some(BackendKind::Aria2c)
    } else if n == "rust-ureq"@ || n == "Ureq"@ {
        Some(BackendKind::Ureq)
    } else if n == "rust-ureq(insecure)"@ || n == "UreqInsecure"@ {
        Some(BackendKind::UreqInsecure)
    } else if n == "powershell"@ || n == "PowerShell"@ {
        Some(BackendKind::PowerShell)
    } else if n == "ps-invoke"@ || n == "PowerShellInvoke"@ {
        Some(BackendKind::PowerShellInvoke)
    } else if n == "bits"@ || n == "BitsTransfer"@ {
        Some(BackendKind::Bits)
    } else if n == "curl"@ || n == "Curl"@ {
        Some(BackendKind::Curl)
    } else {
        None
    }
}

fn kind_of_exec(s: &Strategy) -> (r: Option<BackendKind>)
    ensures
        r == kind_of(strategy_view(*s)),
{
    let n = s.name.as_str();
    if str_eq(n, "rust-range") || str_eq(n, "RustRange") {
        Some(BackendKind::RustRange {
            threads: match s.threads { Some(t) => t, None => 16 },
            resume: match s.resume { Some(r) => r, None => true },
        })
    } else if str_eq(n, "aria2c") || str_eq(n, "Aria2c") {
        Some(BackendKind::Aria2c)
    } else if str_eq(n, "rust-ureq") || str_eq(n, "Ureq") {
        Some(BackendKind::Ureq)
    } else if str_eq(n, "rust-ureq(insecure)") || str_eq(n, "UreqInsecure") {
        Some(BackendKind::UreqInsecure)
    } else if str_eq(n, "powershell") || str_eq(n, "PowerShell") {
        Some(BackendKind::PowerShell)
    } else if str_eq(n, "ps-invoke") || str_eq(n, "PowerShellInvoke") {
        Some(BackendKind::PowerShellInvoke)
    } else if str_eq(n, "bits") || str_eq(n, "BitsTransfer") {
        Some(BackendKind::Bits)
    } else if str_eq(n, "curl") || str_eq(n, "Curl") {
        Some(BackendKind::Curl)
    } else {
        None
    }
}

/// Backends of the first `n` enabled strategies, in order.
pub open spec fn enabled_kinds(s: Seq<StrategyView>, n: int) -> Seq<BackendKind>
    decreases n,
{
    if n <= 0 {
        Seq::empty()
    } else if s[n - 1].1 && kind_of(s[n - 1]) is Some {
        enabled_kinds(s, n - 1).push(kind_of(s[n - 1]).unwrap())
    } else {
        enabled_kinds(s, n - 1)
    }
}

/// The downloader settings.
pub struct DownloaderSettings {
    pub max_concurrent: usize,
    pub verify: bool,
    pub resume: bool,
    /// Enabled backends, by priority.
    pub backends: Vec<BackendKind>,
}

/// The built-in backend list (Aria2c first, then by the default order).
pub open spec fn default_kinds() -> Seq<BackendKind> {
    seq![
        BackendKind::Aria2c,
        BackendKind::RustRange { threads: 16, resume: true },
        BackendKind::Ureq,
        BackendKind::UreqInsecure,
        BackendKind::PowerShell,
        BackendKind::PowerShellInvoke,
        BackendKind::Bits,
        BackendKind::Curl
    ]
}

/// The built-in settings: 16 downloads at once, verify, resume, all backends.
pub fn default_settings() -> (r: DownloaderSettings)
    ensures
        r.max_concurrent == 16,
        r.verify,
        r.resume,
        r.backends@ == default_kinds(),
{
    let mut v: Vec<BackendKind> = Vec::new();
    v.push(BackendKind::Aria2c);
    v.push(BackendKind::RustRange { threads: 16, resume: true });
    v.push(BackendKind::Ureq);
    v.push(BackendKind::UreqInsecure);
    v.push(BackendKind::PowerShell);
    v.push(BackendKind::PowerShellInvoke);
    v.push(BackendKind::Bits);
    v.push(BackendKind::Curl);
    assert(v@ =~= default_kinds());
    DownloaderSettings { max_concurrent: 16, verify: true, resume: true, backends: v }
}

/// The settings a parsed configuration gives: the enabled backends by
/// priority (the built-in settings when none is enabled), the download
/// limit (16 when unset) kept between 1 and 64, verify and resume (on when unset).
pub fn settings_from_config(
    strategies: &Vec<Strategy>,
    max_concurrent: Option<usize>,
    verify: Option<bool>,
    resume: Option<bool>,
) -> (r: DownloaderSettings)
    ensures
        enabled_kinds(strategies_view(strategies@), strategies@.len() as int).len() == 0 ==> (
            r.max_concurrent == 16 && r.verify && r.resume && r.backends@ == default_kinds()),
        enabled_kinds(strategies_view(strategies@), strategies@.len() as int).len() > 0 ==> (
            r.backends@ == sorted_by_priority(enabled_kinds(strategies_view(strategies@), strategies@.len() as int))
            && r.max_concurrent == (match max_concurrent {
                Some(m) => if m < 1 { 1 } else if m > 64 { 64 } else { m },
                None => 16,
            })
            && r.verify == (match verify { Some(b) => b, None => true })
            && r.resume == (match resume { Some(b) => b, None => true })),
{
    let ghost sv = strategies_view(strategies@);
    let mut kinds: Vec<BackendKind> = Vec::new();
    let mut i: usize = 0;
    while i < strategies.len()
        invariant
            i <= strategies.len(),
            sv == strategies_view(strategies@),
            kinds@ == enabled_kinds(sv, i as int),
        decreases strategies.len() - i,
    {
        if strategies[i].enabled {
            match kind_of_exec(&strategies[i]) {
                Some(k) => kinds.push(k),
                None => {},
            }
        }
        i += 1;
    }
    if kinds.len() == 0 {
        return default_settings();
    }
    let backends = sort_by_priority(&kinds);
    let m = match max_concurrent {
        Some(m) => m,
        None => 16,
    };
    let m = if m < 1 { 1 } else if m > 64 { 64 } else { m };
    DownloaderSettings {
        max_concurrent: m,
        verify: match verify { Some(b) => b, None => true },
        resume: match resume { Some(b) => b, None => true },
        backends,
    }
}

} // verus!
