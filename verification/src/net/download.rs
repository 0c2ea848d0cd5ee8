//! Download orchestration logic: strategies and their backends, the order
//! in which backends and mirrors are tried, GitHub mirrors, ETA text, and
//! the file name a URL names.

use vstd::prelude::*;
use crate::text::{
    chars_of, contains, contains_seq, dec, push_str, push_char, str_eq, string_of, u64_to_string,
    is_prefix, is_suffix, starts_with, ends_with, lowercase, lower_chars, trim_chars, trim_seq,
    trim_start_char, trim_end_char, trim_start_char_vec, trim_end_char_vec,
};
use crate::glob::{split_char, split_chars, views};
use crate::datetime::two;
use crate::net::agent::Fingerprint;
use crate::net::backend::BackendKind;
use crate::aspkg::locate::texts;

verus! {

/// `H:MM:SS`.
pub open spec fn eta_spec(secs: u64) -> Seq<char> {
    dec((secs / 3600) as nat) + seq![':'] + two(((secs % 3600) / 60) as nat) + seq![':'] + two((secs % 60) as nat)
}

fn two_digits(n: u64) -> (r: String)
    requires
        n < 100,
    ensures
        r@ == two(n as nat),
{
    let mut s = String::new();
    if n < 10 {
        push_char(&mut s, '0');
    }
    let d = u64_to_string(n);
    push_str(&mut s, d.as_str());
    proof {
        if n >= 10 {
            assert(dec(n as nat) == dec((n / 10) as nat).push(crate::text::digit_char((n % 10) as nat)));
            assert(dec((n / 10) as nat) == seq![crate::text::digit_char((n / 10) as nat)]);
        }
    }
    assert(s@ =~= two(n as nat));
    s
}

/// Seconds as `H:MM:SS`.
pub fn format_eta_hms(secs: u64) -> (r: String)
    ensures
        r@ == eta_spec(secs),
{
    let h = secs / 3600;
    let m = (secs % 3600) / 60;
    let s = secs % 60;
    let mut out = u64_to_string(h);
    push_char(&mut out, ':');
    push_str(&mut out, two_digits(m).as_str());
    push_char(&mut out, ':');
    push_str(&mut out, two_digits(s).as_str());
    out
}

/// A GitHub URL not already behind a proxy.
pub open spec fn wants_mirror(url: Seq<char>) -> bool {
    (contains_seq(url, "github.com"@) || contains_seq(url, "raw.githubusercontent.com"@))
        && !contains_seq(url, "ghproxy"@) && !contains_seq(url, "gh-proxy"@)
}

/// The first `n` URLs, each GitHub one preceded by its ghproxy mirror.
pub open spec fn expand_upto(urls: Seq<Seq<char>>, n: int) -> Seq<Seq<char>>
    decreases n,
{
    if n <= 0 {
        Seq::empty()
    } else if wants_mirror(urls[n - 1]) {
        expand_upto(urls, n - 1) + seq!["https://ghproxy.net/"@ + urls[n - 1], urls[n - 1]]
    } else {
        expand_upto(urls, n - 1).push(urls[n - 1])
    }
}

fn mentions(s: &[char], t: &str) -> (r: bool)
    ensures
        r == contains_seq(s@, t@),
{
    let tc = chars_of(t);
    contains(s, tc.as_slice())
}

/// Puts the ghproxy mirror in front of each GitHub URL.
pub fn expand_github_urls(urls: &Vec<String>) -> (r: Vec<String>)
    ensures
        texts(r@) == expand_upto(texts(urls@), urls@.len() as int),
{
    let ghost uv = texts(urls@);
    let mut out: Vec<String> = Vec::new();
    let mut i: usize = 0;
    while i < urls.len()
        invariant
            i <= urls.len(),
            uv == texts(urls@),
            texts(out@) == expand_upto(uv, i as int),
        decreases urls.len() - i,
    {
        let u = &urls[i];
        let c = chars_of(u.as_str());
        let cs = c.as_slice();
        assert(uv[i as int] == u@);
        let ghost before = texts(out@);
        if (mentions(cs, "github.com") || mentions(cs, "raw.githubusercontent.com")) && !mentions(cs, "ghproxy") && !mentions(cs, "gh-proxy") {
            let mut m = String::from_str("https://ghproxy.net/");
            push_str(&mut m, u.as_str());
            out.push(m);
            out.push(u.clone());
            assert(texts(out@) =~= before + seq!["https://ghproxy.net/"@ + uv[i as int], uv[i as int]]);
        } else {
            out.push(u.clone());
            assert(texts(out@) =~= before.push(uv[i as int]));
        }
        i += 1;
    }
    out
}

/// A download strategy of a request.
#[derive(Clone, Copy, Debug)]
pub enum DownloadStrategy {
    RustRange { threads: u8 },
    Aria2c,
    Curl,
    PowerShell,
    PowerShellInvoke,
    BitsTransfer,
    Ureq { fingerprint: Fingerprint, insecure: bool },
}

/// The strategies tried by default, in order.
pub open spec fn default_strategy_list() -> Seq<DownloadStrategy> {
    seq![
        DownloadStrategy::RustRange { threads: 16 },
        DownloadStrategy::Aria2c,
        DownloadStrategy::Ureq { fingerprint: Fingerprint::Chrome120, insecure: false },
        DownloadStrategy::Ureq { fingerprint: Fingerprint::Chrome120, insecure: true },
        DownloadStrategy::PowerShell,
        DownloadStrategy::PowerShellInvoke,
        DownloadStrategy::BitsTransfer,
        DownloadStrategy::Curl,
    ]
}

/// What a download request asks for.
pub struct DownloadConfig {
    /// Strategies in the order to try them.
    pub strategies: Vec<DownloadStrategy>,
    pub verify: bool,
    pub resume: bool,
    /// Download again even when the file is there.
    pub renew: bool,
}

/// The backend of a strategy (ranged downloads take the request's resume flag).
pub open spec fn backend_of(s: DownloadStrategy, resume: bool) -> BackendKind {
    match s {
        DownloadStrategy::RustRange { threads } => BackendKind::RustRange { threads, resume },
        DownloadStrategy::Aria2c => BackendKind::Aria2c,
        DownloadStrategy::Curl => BackendKind::Curl,
        DownloadStrategy::PowerShell => BackendKind::PowerShell,
        DownloadStrategy::PowerShellInvoke => BackendKind::PowerShellInvoke,
        DownloadStrategy::BitsTransfer => BackendKind::Bits,
        DownloadStrategy::Ureq { fingerprint, insecure } => if insecure { BackendKind::UreqInsecure } else { BackendKind::Ureq },
    }
}

impl DownloadConfig {
    /// All strategies (ranged with 16 threads, aria2c, ureq, ureq without
    /// certificate checks, PowerShell, Invoke-WebRequest, BITS, curl),
    /// verifying and resuming, not forcing a new download.
    pub fn default_config() -> (r: Self)
        ensures
            r.strategies@ == default_strategy_list(),
            r.verify && r.resume && !r.renew,
    {
        let mut v: Vec<DownloadStrategy> = Vec::new();
        v.push(DownloadStrategy::RustRange { threads: 16 });
        v.push(DownloadStrategy::Aria2c);
        v.push(DownloadStrategy::Ureq { fingerprint: Fingerprint::Chrome120, insecure: false });
        v.push(DownloadStrategy::Ureq { fingerprint: Fingerprint::Chrome120, insecure: true });
        v.push(DownloadStrategy::PowerShell);
        v.push(DownloadStrategy::PowerShellInvoke);
        v.push(DownloadStrategy::BitsTransfer);
        v.push(DownloadStrategy::Curl);
        assert(v@ =~= default_strategy_list());
        DownloadConfig { strategies: v, verify: true, resume: true, renew: false }
    }

    /// Only the given strategies, otherwise the defaults.
    pub fn with_strategies(strategies: Vec<DownloadStrategy>) -> (r: Self)
        ensures
            r.strategies@ == strategies@,
            r.verify && r.resume && !r.renew,
    {
        DownloadConfig { strategies, verify: true, resume: true, renew: false }
    }

    /// Sets forcing a new download.
    pub fn renew(self, renew: bool) -> (r: Self)
        ensures
            r.renew == renew,
            r.verify == self.verify,
            r.resume == self.resume,
            r.strategies@ == self.strategies@,
    {
        DownloadConfig { renew, ..self }
    }

    /// Sets verifying the downloaded file.
    pub fn verify(self, verify: bool) -> (r: Self)
        ensures
            r.verify == verify,
            r.renew == self.renew,
            r.resume == self.resume,
            r.strategies@ == self.strategies@,
    {
        DownloadConfig { verify, ..self }
    }
}

/// The backends of the request's strategies, in order.
pub fn backends_from_config(config: &DownloadConfig) -> (r: Vec<BackendKind>)
    ensures
        r@ == config.strategies@.map_values(|s: DownloadStrategy| backend_of(s, config.resume)),
{
    let mut out: Vec<BackendKind> = Vec::new();
    let mut i: usize = 0;
    while i < config.strategies.len()
        invariant
            i <= config.strategies.len(),
            out@ == config.strategies@.take(i as int).map_values(|s: DownloadStrategy| backend_of(s, config.resume)),
        decreases config.strategies.len() - i,
    {
        let k = match config.strategies[i] {
            DownloadStrategy::RustRange { threads } => BackendKind::RustRange { threads, resume: config.resume },
            DownloadStrategy::Aria2c => BackendKind::Aria2c,
            DownloadStrategy::Curl => BackendKind::Curl,
            DownloadStrategy::PowerShell => BackendKind::PowerShell,
            DownloadStrategy::PowerShellInvoke => BackendKind::PowerShellInvoke,
            DownloadStrategy::BitsTransfer => BackendKind::Bits,
            DownloadStrategy::Ureq { insecure, .. } => if insecure { BackendKind::UreqInsecure } else { BackendKind::Ureq },
        };
        out.push(k);
        assert(config.strategies@.take(i + 1) =~= config.strategies@.take(i as int).push(config.strategies@[i as int]));
        assert(out@ =~= config.strategies@.take(i + 1).map_values(|s: DownloadStrategy| backend_of(s, config.resume)));
        i += 1;
    }
    assert(config.strategies@.take(config.strategies.len() as int) =~= config.strategies@);
    out
}

/// Why a download gave up.
pub enum FallbackError {
    /// No URL to download from.
    NoUrls,
    /// No backend passed its health check.
    NoBackends,
    /// The user pressed Ctrl+C.
    Cancelled,
    /// The file downloaded by backend `backend` failed verification.
    Unverified { backend: usize },
    /// Every backend failed on every URL; the last error, if any.
    AllFailed { last_error: Option<String> },
}

/// What the downloader does next.
pub enum FallbackStep {
    /// Download URL `url` with backend `backend`.
    Try { backend: usize, url: usize },
    /// The download with backend `backend` from URL `url` succeeded.
    Done { backend: usize, url: usize },
    /// Give up.
    Fail(FallbackError),
}

/// How an attempt ended.
pub enum Outcome {
    /// The file arrived; whether it passed verification (true when not verified).
    Downloaded { verified: bool },
    /// The attempt failed with this message.
    Failed(String),
    /// The user pressed Ctrl+C.
    Interrupted,
}

/// `s` is the attempt (`b`, `u`).
pub open spec fn is_try(s: FallbackStep, b: usize, u: usize) -> bool {
    match s {
        FallbackStep::Try { backend, url } => backend == b && url == u,
        _ => false,
    }
}

/// `s` is success at (`b`, `u`).
pub open spec fn is_done(s: FallbackStep, b: usize, u: usize) -> bool {
    match s {
        FallbackStep::Done { backend, url } => backend == b && url == u,
        _ => false,
    }
}

/// `s` gives up for a reason `pred` accepts.
pub open spec fn is_fail(s: FallbackStep, pred: spec_fn(FallbackError) -> bool) -> bool {
    match s {
        FallbackStep::Fail(e) => pred(e),
        _ => false,
    }
}

/// Progress through backends (outer) and URLs (inner).
pub struct Fallback {
    pub n_backends: usize,
    pub n_urls: usize,
    pub backend: usize,
    pub url: usize,
    pub last_error: Option<String>,
}

impl Fallback {
    pub open spec fn wf(&self) -> bool {
        self.n_urls > 0 && self.backend < self.n_backends && self.url < self.n_urls
    }

    /// Starts a download over `n_urls` URLs and `n_backends` healthy backends.
    pub fn start(n_urls: usize, n_backends: usize) -> (r: (Fallback, FallbackStep))
        ensures
            n_urls == 0 ==> is_fail(r.1, |e: FallbackError| e is NoUrls),
            n_urls > 0 && n_backends == 0 ==> is_fail(r.1, |e: FallbackError| e is NoBackends),
            n_urls > 0 && n_backends > 0 ==> is_try(r.1, 0, 0) && r.0.wf()
                && r.0.backend == 0 && r.0.url == 0 && r.0.n_urls == n_urls && r.0.n_backends == n_backends
                && r.0.last_error is None,
    {
        let st = Fallback { n_backends, n_urls, backend: 0, url: 0, last_error: None };
        if n_urls == 0 {
            (st, FallbackStep::Fail(FallbackError::NoUrls))
        } else if n_backends == 0 {
            (st, FallbackStep::Fail(FallbackError::NoBackends))
        } else {
            (st, FallbackStep::Try { backend: 0, url: 0 })
        }
    }

    /// The step after the attempt at (`backend`, `url`) ended with `outcome`:
    /// stop on Ctrl+C or success (refusing an unverified file), else the next
    /// URL with the same backend, else the first URL with the next backend,
    /// else fail with the last error.
    pub fn on_outcome(&mut self, outcome: Outcome) -> (r: FallbackStep)
        requires
            old(self).wf(),
        ensures
            final(self).n_urls == old(self).n_urls,
            final(self).n_backends == old(self).n_backends,
            match outcome {
                Outcome::Interrupted => is_fail(r, |e: FallbackError| e is Cancelled),
                Outcome::Downloaded { verified } => if verified {
                    is_done(r, old(self).backend, old(self).url)
                } else {
                    is_fail(r, |e: FallbackError| e == FallbackError::Unverified { backend: old(self).backend })
                },
                Outcome::Failed(msg) => {
                    &&& final(self).last_error is Some && final(self).last_error.unwrap()@ == msg@
                    &&& if old(self).url + 1 < old(self).n_urls {
                        is_try(r, old(self).backend, (old(self).url + 1) as usize)
                            && final(self).wf() && final(self).backend == old(self).backend && final(self).url == old(self).url + 1
                    } else if old(self).backend + 1 < old(self).n_backends {
                        is_try(r, (old(self).backend + 1) as usize, 0)
                            && final(self).wf() && final(self).backend == old(self).backend + 1 && final(self).url == 0
                    } else {
                        is_fail(r, |e: FallbackError| e is AllFailed && e->last_error is Some && e->last_error.unwrap()@ == msg@)
                    }
                },
            },
    {
        match outcome {
            Outcome::Interrupted => FallbackStep::Fail(FallbackError::Cancelled),
            Outcome::Downloaded { verified } => {
                if verified {
                    FallbackStep::Done { backend: self.backend, url: self.url }
                } else {
                    FallbackStep::Fail(FallbackError::Unverified { backend: self.backend })
                }
            },
            Outcome::Failed(msg) => {
                let keep = msg.clone();
                self.last_error = Some(msg);
                if self.url + 1 < self.n_urls {
                    self.url = self.url + 1;
                    FallbackStep::Try { backend: self.backend, url: self.url }
                } else if self.backend + 1 < self.n_backends {
                    self.backend = self.backend + 1;
                    self.url = 0;
                    FallbackStep::Try { backend: self.backend, url: 0 }
                } else {
                    FallbackStep::Fail(FallbackError::AllFailed { last_error: Some(keep) })
                }
            },
        }
    }
}

/// The extensions a download URL may end in for its name to be taken as is.
pub open spec fn known_ext(e: Seq<char>) -> bool {
    e == ".exe"@ || e == ".msi"@ || e == ".zip"@ || e == ".7z"@ || e == ".rar"@ || e == ".tar"@
        || e == ".gz"@ || e == ".xz"@ || e == ".bz2"@ || e == ".iso"@ || e == ".appx"@ || e == ".dmg"@
        || e == ".cab"@ || e == ".run"@
}

/// Position of the last `c` in `s`.
pub open spec fn last_of(s: Seq<char>, c: char) -> Option<int>
    decreases s.len(),
{
    if s.len() == 0 {
        None
    } else if s.last() == c {
        Some(s.len() - 1)
    } else {
        last_of(s.drop_last(), c)
    }
}

/// The name at the end of a URL's path (before any `?`) when it ends in a
/// known file extension (case ignored).
pub open spec fn url_name_spec(url: Seq<char>) -> Option<Seq<char>> {
    let path = split_char(url, '?')[0];
    let seg = split_char(path, '/').last();
    if seg.len() == 0 {
        None
    } else {
        match last_of(seg, '.') {
            Some(d) => if known_ext(lowercase(seg.skip(d))) { Some(seg) } else { None },
            None => None,
        }
    }
}

fn last_of_exec(s: &[char], c: char) -> (r: Option<usize>)
    ensures
        match r {
            Some(k) => last_of(s@, c) == Some(k as int) && k < s.len(),
            None => last_of(s@, c) is None,
        },
{
    let mut k = s.len();
    assert(s@.take(k as int) =~= s@);
    while k > 0 && s[k - 1] != c
        invariant
            k <= s.len(),
            last_of(s@, c) == last_of(s@.take(k as int), c),
        decreases k,
    {
        assert(s@.take(k as int).drop_last() =~= s@.take(k - 1));
        k -= 1;
    }
    if k == 0 {
        assert(s@.take(0) =~= Seq::<char>::empty());
        None
    } else {
        assert(s@.take(k as int).last() == s@[k - 1]);
        Some(k - 1)
    }
}

fn is_known_ext(e: &str) -> (r: bool)
    ensures
        r == known_ext(e@),
{
    str_eq(e, ".exe") || str_eq(e, ".msi") || str_eq(e, ".zip") || str_eq(e, ".7z") || str_eq(e, ".rar")
        || str_eq(e, ".tar") || str_eq(e, ".gz") || str_eq(e, ".xz") || str_eq(e, ".bz2") || str_eq(e, ".iso")
        || str_eq(e, ".appx") || str_eq(e, ".dmg") || str_eq(e, ".cab") || str_eq(e, ".run")
}

/// The file name a URL's path gives when it ends in a known extension.
pub fn filename_from_url(url: &str) -> (r: Option<String>)
    ensures
        match r {
            Some(n) => url_name_spec(url@) == Some(n@),
            None => url_name_spec(url@) is None,
        },
{
    let c = chars_of(url);
    let q = split_chars(c.as_slice(), '?');
    assert(views(q@)[0] == q@[0]@);
    let parts = split_chars(q[0].as_slice(), '/');
    let seg = &parts[parts.len() - 1];
    assert(views(parts@).last() == seg@);
    if seg.len() == 0 {
        return None;
    }
    match last_of_exec(seg.as_slice(), '.') {
        Some(d) => {
            let mut e: Vec<char> = Vec::new();
            let mut i = d;
            while i < seg.len()
                invariant
                    d <= i <= seg.len(),
                    e@ == seg@.subrange(d as int, i as int),
                decreases seg.len() - i,
            {
                e.push(seg[i]);
                assert(seg@.subrange(d as int, i + 1) =~= seg@.subrange(d as int, i as int).push(seg@[i as int]));
                i += 1;
            }
            assert(e@ =~= seg@.skip(d as int));
            let es = string_of(e.as_slice());
            let el = lower_chars(es.as_str());
            let els = string_of(el.as_slice());
            if is_known_ext(els.as_str()) {
                Some(string_of(seg.as_slice()))
            } else {
                None
            }
        },
        None => None,
    }
}

/// The `filename=` value of a Content-Disposition header: the first `;`
/// part that starts with it (after trimming), without quotes, when not empty.
pub open spec fn disposition_name_spec(cd: Seq<char>) -> Option<Seq<char>> {
    first_disposition(split_char(cd, ';'))
}

pub open spec fn disposition_value(part: Seq<char>) -> Option<Seq<char>> {
    let p = trim_seq(part);
    if is_prefix("filename="@, p) {
        let v = p.skip(9);
        let n = trim_seq(trim_end_char(trim_start_char(trim_end_char(trim_start_char(v, '"'), '"'), '\''), '\''));
        if n.len() > 0 { Some(n) } else { None }
    } else {
        None
    }
}

pub open spec fn first_disposition(parts: Seq<Seq<char>>) -> Option<Seq<char>>
    decreases parts.len(),
{
    if parts.len() == 0 {
        None
    } else {
        match disposition_value(parts[0]) {
            Some(n) => Some(n),
            None => first_disposition(parts.drop_first()),
        }
    }
}

fn disposition_value_exec(part: &[char]) -> (r: Option<String>)
    ensures
        match r {
            Some(n) => disposition_value(part@) == Some(n@),
            None => disposition_value(part@) is None,
        },
{
    let p = trim_chars(part);
    let pre = chars_of("filename=");
    proof {
        reveal_strlit("filename=");
    }
    if !starts_with(p.as_slice(), pre.as_slice()) {
        return None;
    }
    let mut v: Vec<char> = Vec::new();
    let mut i: usize = 9;
    while i < p.len()
        invariant
            9 <= i <= p.len(),
            v@ == p@.subrange(9, i as int),
        decreases p.len() - i,
    {
        v.push(p[i]);
        assert(p@.subrange(9, i + 1) =~= p@.subrange(9, i as int).push(p@[i as int]));
        i += 1;
    }
    assert(v@ =~= p@.skip(9));
    let a = trim_start_char_vec(v.as_slice(), '"');
    let b = trim_end_char_vec(a.as_slice(), '"');
    let c = trim_start_char_vec(b.as_slice(), '\'');
    let d = trim_end_char_vec(c.as_slice(), '\'');
    let n = trim_chars(d.as_slice());
    if n.len() > 0 {
        Some(string_of(n.as_slice()))
    } else {
        None
    }
}

/// The file name a Content-Disposition header gives.
pub fn filename_from_disposition(cd: &str) -> (r: Option<String>)
    ensures
        match r {
            Some(n) => disposition_name_spec(cd@) == Some(n@),
            None => disposition_name_spec(cd@) is None,
        },
{
    let c = chars_of(cd);
    let parts = split_chars(c.as_slice(), ';');
    let ghost pv = views(parts@);
    let mut i: usize = 0;
    assert(pv.skip(0) =~= pv);
    while i < parts.len()
        invariant
            i <= parts.len(),
            pv == views(parts@),
            pv == split_char(cd@, ';'),
            first_disposition(pv) == first_disposition(pv.skip(i as int)),
        decreases parts.len() - i,
    {
        assert(pv.skip(i as int).drop_first() =~= pv.skip(i + 1));
        assert(pv.skip(i as int)[0] == parts@[i as int]@);
        match disposition_value_exec(parts[i].as_slice()) {
            Some(n) => {
                return Some(n);
            },
            None => {},
        }
        i += 1;
    }
    assert(pv.skip(i as int) =~= Seq::<Seq<char>>::empty());
    None
}

/// A leftover of an interrupted download next to `target` (never the target
/// itself): a `.tmp`, `.downloading` or `.aria2` file named after the target
/// (or after it without `.downloading`), a BITS `BIT*.tmp` file, or a
/// `.parts.` folder.
pub open spec fn leftover_spec(name: Seq<char>, target: Seq<char>) -> bool {
    let base = if is_suffix(".downloading"@, target) { target.take(target.len() - 12) } else { target };
    let is_tmp = is_suffix(".tmp"@, name) || is_suffix(".downloading"@, name) || is_suffix(".aria2"@, name);
    let bits = is_prefix("BIT"@, name) && is_suffix(".tmp"@, name);
    target.len() > 0 && name != target
        && ((is_tmp && (is_prefix(target, name) || is_prefix(base, name) || bits)) || contains_seq(name, ".parts."@))
}

/// Whether a file next to the target is a leftover to delete.
pub fn is_strategy_leftover(name: &str, target: &str) -> (r: bool)
    ensures
        r == leftover_spec(name@, target@),
{
    let t = chars_of(target);
    let n = chars_of(name);
    if t.len() == 0 || str_eq(name, target) {
        return false;
    }
    let dl = chars_of(".downloading");
    proof {
        reveal_strlit(".downloading");
    }
    let base: Vec<char> = if ends_with(t.as_slice(), dl.as_slice()) {
        let mut b: Vec<char> = Vec::new();
        let keep = t.len() - 12;
        let mut i: usize = 0;
        while i < keep
            invariant
                i <= keep <= t.len(),
                b@ == t@.take(i as int),
            decreases keep - i,
        {
            b.push(t[i]);
            assert(t@.take(i + 1) =~= t@.take(i as int).push(t@[i as int]));
            i += 1;
        }
        b
    } else {
        t.clone()
    };
    assert(base@ == (if is_suffix(".downloading"@, target@) { target@.take(target@.len() - 12) } else { target@ }));
    let tmp = chars_of(".tmp");
    let aria = chars_of(".aria2");
    let bit = chars_of("BIT");
    let parts = chars_of(".parts.");
    let ns = n.as_slice();
    let is_tmp = ends_with(ns, tmp.as_slice()) || ends_with(ns, dl.as_slice()) || ends_with(ns, aria.as_slice());
    let bits = starts_with(ns, bit.as_slice()) && ends_with(ns, tmp.as_slice());
    (is_tmp && (starts_with(ns, t.as_slice()) || starts_with(ns, base.as_slice()) || bits)) || contains(ns, parts.as_slice())
}

} // verus!
