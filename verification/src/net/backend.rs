//! Download backends: what each one is, where it runs, in which order the
//! downloader tries them, and what `as downloader list` says of them.

use vstd::prelude::*;
use crate::text::str_eq;

verus! {

/// An operating system.
#[derive(PartialEq, Eq, Structural, Clone, Copy, Debug)]
pub enum Platform {
    Windows,
    Linux,
    Macos,
}

impl Platform {
    /// The platform named by `std::env::consts::OS` (`os`, given by the caller).
    pub fn current(os: &str) -> (r: Vec<Platform>)
        ensures
            r@ == (if os@ == "windows"@ {
                seq![Platform::Windows]
            } else if os@ == "linux"@ {
                seq![Platform::Linux]
            } else if os@ == "macos"@ {
                seq![Platform::Macos]
            } else {
                Seq::<Platform>::empty()
            }),
    {
        let mut v: Vec<Platform> = Vec::new();
        if str_eq(os, "windows") {
            v.push(Platform::Windows);
        } else if str_eq(os, "linux") {
            v.push(Platform::Linux);
        } else if str_eq(os, "macos") {
            v.push(Platform::Macos);
        }
        v
    }
}

/// How serious a download error is.
#[derive(PartialEq, Eq, Structural, Clone, Copy, Debug)]
pub enum ErrorKind {
    /// Worth retrying (time-outs, DNS failures).
    Transient,
    /// Not worth retrying (404, 403, a damaged file).
    Permanent,
}

/// A download error with its kind.
pub struct ClassifiedError {
    pub kind: ErrorKind,
    pub message: String,
}

impl ClassifiedError {
    /// A transient error.
    pub fn transient(msg: &str) -> (r: Self)
        ensures
            r.kind == ErrorKind::Transient,
            r.message@ == msg@,
    {
        ClassifiedError { kind: ErrorKind::Transient, message: String::from_str(msg) }
    }

    /// A permanent error.
    pub fn permanent(msg: &str) -> (r: Self)
        ensures
            r.kind == ErrorKind::Permanent,
            r.message@ == msg@,
    {
        ClassifiedError { kind: ErrorKind::Permanent, message: String::from_str(msg) }
    }
}

/// The multi-threaded ranged downloader written in Rust.
pub struct RustRangeBackend {
    pub threads: u8,
    pub resume: bool,
}

impl RustRangeBackend {
    /// 16 threads, resuming.
    pub fn default_backend() -> (r: Self)
        ensures
            r.threads == 16,
            r.resume,
    {
        RustRangeBackend { threads: 16, resume: true }
    }
}

/// The `aria2c` downloader.
pub struct Aria2cBackend;

/// The single-threaded `ureq` downloader.
pub struct UreqBackend {
    /// Skip certificate checks.
    pub insecure: bool,
}

impl UreqBackend {
    /// Certificates checked.
    pub fn normal() -> (r: Self)
        ensures
            !r.insecure,
    {
        UreqBackend { insecure: false }
    }

    /// Certificates not checked.
    pub fn insecure() -> (r: Self)
        ensures
            r.insecure,
    {
        UreqBackend { insecure: true }
    }
}

/// PowerShell `System.Net.WebClient`.
pub struct PowerShellBackend;

/// PowerShell `Invoke-WebRequest`.
pub struct PowerShellInvokeBackend;

/// Windows BITS.
pub struct BitsBackend;

/// The system `curl`.
pub struct CurlBackend;

/// One of the download backends, with its settings.
#[derive(PartialEq, Eq, Structural, Clone, Copy, Debug)]
pub enum BackendKind {
    RustRange { threads: u8, resume: bool },
    Aria2c,
    Ureq,
    UreqInsecure,
    PowerShell,
    PowerShellInvoke,
    Bits,
    Curl,
}

/// The try order of a backend (lower first).
pub open spec fn priority_spec(k: BackendKind) -> u8 {
    match k {
        BackendKind::Aria2c => 1,
        BackendKind::RustRange { .. } => 2,
        BackendKind::Ureq => 3,
        BackendKind::UreqInsecure => 4,
        BackendKind::PowerShell => 5,
        BackendKind::PowerShellInvoke => 6,
        BackendKind::Bits => 7,
        BackendKind::Curl => 8,
    }
}

/// Whether the backend shows live progress.
pub open spec fn tracked_spec(k: BackendKind) -> bool {
    match k {
        BackendKind::Aria2c | BackendKind::RustRange { .. } | BackendKind::Ureq | BackendKind::UreqInsecure => true,
        _ => false,
    }
}

/// Whether the backend runs on `p`.
pub open spec fn runs_on(k: BackendKind, p: Platform) -> bool {
    match k {
        BackendKind::PowerShell | BackendKind::PowerShellInvoke | BackendKind::Bits => p == Platform::Windows,
        _ => true,
    }
}

impl BackendKind {
    /// Identifier of the backend.
    pub fn id(&self) -> (r: &'static str)
        ensures
            r@ == id_spec(*self),
    {
        match self {
            BackendKind::RustRange { .. } => "rust-range",
            BackendKind::Aria2c => "aria2c",
            BackendKind::Ureq => "rust-ureq",
            BackendKind::UreqInsecure => "rust-ureq(insecure)",
            BackendKind::PowerShell => "powershell",
            BackendKind::PowerShellInvoke => "ps-invoke",
            BackendKind::Bits => "bits",
            BackendKind::Curl => "curl",
        }
    }

    /// Short name shown in listings.
    pub fn display_name(&self) -> (r: &'static str)
        ensures
            r@ == (if *self == BackendKind::UreqInsecure { "rust-ureq(ins)"@ } else { id_spec(*self) }),
    {
        match self {
            BackendKind::UreqInsecure => "rust-ureq(ins)",
            _ => self.id(),
        }
    }

    /// Platforms the backend runs on.
    pub fn supported_platforms(&self) -> (r: Vec<Platform>)
        ensures
            forall|p: Platform| r@.contains(p) <==> runs_on(*self, p),
    {
        let mut v: Vec<Platform> = Vec::new();
        v.push(Platform::Windows);
        match self {
            BackendKind::PowerShell | BackendKind::PowerShellInvoke | BackendKind::Bits => {},
            _ => {
                v.push(Platform::Linux);
                v.push(Platform::Macos);
            },
        }
        proof {
            assert forall|p: Platform| v@.contains(p) <==> runs_on(*self, p) by {
                if runs_on(*self, p) {
                    match p {
                        Platform::Windows => assert(v@[0] == p),
                        Platform::Linux => assert(v@[1] == p),
                        Platform::Macos => assert(v@[2] == p),
                    }
                }
            }
        }
        v
    }

    /// Try order (lower first).
    pub fn priority(&self) -> (r: u8)
        ensures
            r == priority_spec(*self),
    {
        match self {
            BackendKind::Aria2c => 1,
            BackendKind::RustRange { .. } => 2,
            BackendKind::Ureq => 3,
            BackendKind::UreqInsecure => 4,
            BackendKind::PowerShell => 5,
            BackendKind::PowerShellInvoke => 6,
            BackendKind::Bits => 7,
            BackendKind::Curl => 8,
        }
    }

    /// Whether the backend shows live progress.
    pub fn shows_progress(&self) -> (r: bool)
        ensures
            r == tracked_spec(*self),
    {
        match self {
            BackendKind::Aria2c | BackendKind::RustRange { .. } | BackendKind::Ureq | BackendKind::UreqInsecure => true,
            _ => false,
        }
    }

    /// `多线程` for the ranged downloaders, else `单线程`.
    pub fn thread_label(&self) -> (r: &'static str)
        ensures
            r@ == (match *self {
                BackendKind::RustRange { .. } | BackendKind::Aria2c => "多线程"@,
                _ => "单线程"@,
            }),
    {
        match self {
            BackendKind::RustRange { .. } | BackendKind::Aria2c => "多线程",
            _ => "单线程",
        }
    }

    /// Description shown in verbose listings.
    pub fn description(&self) -> (r: &'static str)
        ensures
            *self == BackendKind::Aria2c ==> r@ == aria2c_path_note(),
            *self != BackendKind::Aria2c ==> r@ == description_spec(id_spec(*self)),
    {
        match self {
            BackendKind::Aria2c => "基于 aria2c 的高性能多线程下载器，支持 Range 分片。安装到 PATH 中即可自动使用。",
            _ => backend_description(self.id()),
        }
    }
}

/// The Aria2c description the backend itself gives (its listing text differs).
pub open spec fn aria2c_path_note() -> Seq<char> {
    "基于 aria2c 的高性能多线程下载器，支持 Range 分片。安装到 PATH 中即可自动使用。"@
}

pub open spec fn id_spec(k: BackendKind) -> Seq<char> {
    match k {
        BackendKind::RustRange { .. } => "rust-range"@,
        BackendKind::Aria2c => "aria2c"@,
        BackendKind::Ureq => "rust-ureq"@,
        BackendKind::UreqInsecure => "rust-ureq(insecure)"@,
        BackendKind::PowerShell => "powershell"@,
        BackendKind::PowerShellInvoke => "ps-invoke"@,
        BackendKind::Bits => "bits"@,
        BackendKind::Curl => "curl"@,
    }
}

/// Names of the built-in backends (no outside program needed).
pub open spec fn builtin_spec(name: Seq<char>) -> bool {
    name == "rust-range"@ || name == "RustRange"@ || name == "rust-ureq"@ || name == "Ureq"@
        || name == "rust-ureq(insecure)"@ || name == "UreqInsecure"@
}

/// Whether the named backend is built in.
pub fn backend_is_builtin(name: &str) -> (r: bool)
    ensures
        r == builtin_spec(name@),
{
    str_eq(name, "rust-range") || str_eq(name, "RustRange") || str_eq(name, "rust-ureq") || str_eq(name, "Ureq")
        || str_eq(name, "rust-ureq(insecure)") || str_eq(name, "UreqInsecure")
}

/// Whether the named backend downloads in ranges.
pub fn backend_supports_range(name: &str) -> (r: bool)
    ensures
        r == (name@ == "rust-range"@ || name@ == "RustRange"@ || name@ == "aria2c"@ || name@ == "Aria2c"@
            || name@ == "curl"@ || name@ == "Curl"@ || name@ == "bits"@ || name@ == "BitsTransfer"@),
{
    str_eq(name, "rust-range") || str_eq(name, "RustRange") || str_eq(name, "aria2c") || str_eq(name, "Aria2c")
        || str_eq(name, "curl") || str_eq(name, "Curl") || str_eq(name, "bits") || str_eq(name, "BitsTransfer")
}

pub open spec fn description_spec(name: Seq<char>) -> Seq<char> {
    if name == "rust-range"@ || name == "RustRange"@ {
        "纯 Rust 实现的多线程分片下载器，零外部依赖。支持 Range 分片和断点续传。"@
    } else if name == "aria2c"@ || name == "Aria2c"@ {
        "基于 aria2c 的高性能多线程下载器，支持 Range 分片。需安装（as tool install aria2c）。"@
    } else if name == "rust-ureq"@ || name == "Ureq"@ {
        "纯 Rust 单线程下载器，模拟完整浏览器指纹。内置 Cookie/JS 挑战绕过机制，反反爬能力强。"@
    } else if name == "rust-ureq(insecure)"@ || name == "UreqInsecure"@ {
        "Rust Ureq 的跳过 TLS 证书验证版本，用于自签名证书或代理 MITM 场景。"@
    } else if name == "powershell"@ || name == "PowerShell"@ {
        "调用 System.Net.WebClient 下载。使用 Windows Schannel TLS 栈，JA3 指纹独特，可绕过部分 CDN 反爬。"@
    } else if name == "ps-invoke"@ || name == "PowerShellInvoke"@ {
        "调用 PowerShell Invoke-WebRequest 下载。带完整浏览器请求头，HTTP 栈与 PowerShell 后端相同。"@
    } else if name == "bits"@ || name == "BitsTransfer"@ {
        "使用 Windows BITS 后台智能传输服务，系统级下载。支持分片续传，进程退出后仍可继续下载。"@
    } else if name == "curl"@ || name == "Curl"@ {
        "调用系统 curl.exe 下载，Windows 10/11 自带。作为最终兜底方案，失败时自动尝试跳过证书验证。"@
    } else {
        ""@
    }
}

/// The sixteen backend names the downloader knows: each backend's id and
/// its type name.
pub open spec fn known_backend_name(name: Seq<char>) -> bool {
    name == "rust-range"@ || name == "RustRange"@ || name == "aria2c"@ || name == "Aria2c"@ || name == "rust-ureq"@
        || name == "Ureq"@ || name == "rust-ureq(insecure)"@ || name == "UreqInsecure"@ || name == "powershell"@
        || name == "PowerShell"@ || name == "ps-invoke"@ || name == "PowerShellInvoke"@ || name == "bits"@
        || name == "BitsTransfer"@ || name == "curl"@ || name == "Curl"@
}

/// A backend name has a description exactly when it is one of the sixteen
/// known names.
pub proof fn described_iff_known(name: Seq<char>)
    ensures
        description_spec(name).len() > 0 <==> known_backend_name(name),
{
    reveal_strlit("纯 Rust 实现的多线程分片下载器，零外部依赖。支持 Range 分片和断点续传。");
    reveal_strlit("基于 aria2c 的高性能多线程下载器，支持 Range 分片。需安装（as tool install aria2c）。");
    reveal_strlit("纯 Rust 单线程下载器，模拟完整浏览器指纹。内置 Cookie/JS 挑战绕过机制，反反爬能力强。");
    reveal_strlit("Rust Ureq 的跳过 TLS 证书验证版本，用于自签名证书或代理 MITM 场景。");
    reveal_strlit("调用 System.Net.WebClient 下载。使用 Windows Schannel TLS 栈，JA3 指纹独特，可绕过部分 CDN 反爬。");
    reveal_strlit("调用 PowerShell Invoke-WebRequest 下载。带完整浏览器请求头，HTTP 栈与 PowerShell 后端相同。");
    reveal_strlit("使用 Windows BITS 后台智能传输服务，系统级下载。支持分片续传，进程退出后仍可继续下载。");
    reveal_strlit("调用系统 curl.exe 下载，Windows 10/11 自带。作为最终兜底方案，失败时自动尝试跳过证书验证。");
    reveal_strlit("");
}

/// Description of the named backend (empty for an unknown name).
pub fn backend_description(name: &str) -> (r: &'static str)
    ensures
        r@ == description_spec(name@),
{
    if str_eq(name, "rust-range") || str_eq(name, "RustRange") {
        "纯 Rust 实现的多线程分片下载器，零外部依赖。支持 Range 分片和断点续传。"
    } else if str_eq(name, "aria2c") || str_eq(name, "Aria2c") {
        "基于 aria2c 的高性能多线程下载器，支持 Range 分片。需安装（as tool install aria2c）。"
    } else if str_eq(name, "rust-ureq") || str_eq(name, "Ureq") {
        "纯 Rust 单线程下载器，模拟完整浏览器指纹。内置 Cookie/JS 挑战绕过机制，反反爬能力强。"
    } else if str_eq(name, "rust-ureq(insecure)") || str_eq(name, "UreqInsecure") {
        "Rust Ureq 的跳过 TLS 证书验证版本，用于自签名证书或代理 MITM 场景。"
    } else if str_eq(name, "powershell") || str_eq(name, "PowerShell") {
        "调用 System.Net.WebClient 下载。使用 Windows Schannel TLS 栈，JA3 指纹独特，可绕过部分 CDN 反爬。"
    } else if str_eq(name, "ps-invoke") || str_eq(name, "PowerShellInvoke") {
        "调用 PowerShell Invoke-WebRequest 下载。带完整浏览器请求头，HTTP 栈与 PowerShell 后端相同。"
    } else if str_eq(name, "bits") || str_eq(name, "BitsTransfer") {
        "使用 Windows BITS 后台智能传输服务，系统级下载。支持分片续传，进程退出后仍可继续下载。"
    } else if str_eq(name, "curl") || str_eq(name, "Curl") {
        "调用系统 curl.exe 下载，Windows 10/11 自带。作为最终兜底方案，失败时自动尝试跳过证书验证。"
    } else {
        ""
    }
}

/// What the caller found on disk for the availability checks.
pub struct ToolProbe {
    /// `aria2c.exe` is in the tools folder (none set counts as absent).
    pub aria2c_in_tools: bool,
    /// Where `aria2c` was found, if anywhere.
    pub aria2c_path: Option<String>,
    /// Where `powershell` is on `PATH`, if anywhere.
    pub powershell_on_path: Option<String>,
    /// The system PowerShell exists at its default place.
    pub powershell_default_exists: bool,
    /// Where `curl` is on `PATH`, if anywhere.
    pub curl_on_path: Option<String>,
    /// The system `curl.exe` exists at its default place.
    pub curl_default_exists: bool,
}

pub open spec fn powershell_family(name: Seq<char>) -> bool {
    name == "powershell"@ || name == "PowerShell"@ || name == "ps-invoke"@ || name == "PowerShellInvoke"@
        || name == "bits"@ || name == "BitsTransfer"@
}

/// Whether the named backend can be used, given what is on disk.
pub open spec fn available_spec(name: Seq<char>, probe: ToolProbe) -> bool {
    if name == "rust-range"@ || name == "RustRange"@ {
        true
    } else if name == "aria2c"@ || name == "Aria2c"@ {
        probe.aria2c_in_tools
    } else if name == "rust-ureq"@ || name == "Ureq"@ || name == "rust-ureq(insecure)"@ || name == "UreqInsecure"@ {
        true
    } else if powershell_family(name) {
        probe.powershell_on_path is Some || probe.powershell_default_exists
    } else if name == "curl"@ || name == "Curl"@ {
        probe.curl_on_path is Some || probe.curl_default_exists
    } else {
        false
    }
}

fn is_powershell_family(name: &str) -> (r: bool)
    ensures
        r == powershell_family(name@),
{
    str_eq(name, "powershell") || str_eq(name, "PowerShell") || str_eq(name, "ps-invoke") || str_eq(name, "PowerShellInvoke")
        || str_eq(name, "bits") || str_eq(name, "BitsTransfer")
}

/// Whether the named backend can be used (`probe`: what the caller found on disk).
pub fn backend_is_available(name: &str, probe: &ToolProbe) -> (r: bool)
    ensures
        r == available_spec(name@, *probe),
{
    if str_eq(name, "rust-range") || str_eq(name, "RustRange") {
        true
    } else if str_eq(name, "aria2c") || str_eq(name, "Aria2c") {
        probe.aria2c_in_tools
    } else if str_eq(name, "rust-ureq") || str_eq(name, "Ureq") || str_eq(name, "rust-ureq(insecure)") || str_eq(name, "UreqInsecure") {
        true
    } else if is_powershell_family(name) {
        probe.powershell_on_path.is_some() || probe.powershell_default_exists
    } else if str_eq(name, "curl") || str_eq(name, "Curl") {
        probe.curl_on_path.is_some() || probe.curl_default_exists
    } else {
        false
    }
}

pub open spec fn opt_text(o: Option<String>) -> Option<Seq<char>> {
    match o {
        Some(s) => Some(s@),
        None => None,
    }
}

/// The program behind the named backend, if it has one.
pub open spec fn binary_spec(name: Seq<char>, probe: ToolProbe) -> Option<Seq<char>> {
    if builtin_spec(name) {
        None
    } else if name == "aria2c"@ || name == "Aria2c"@ {
        opt_text(probe.aria2c_path)
    } else if powershell_family(name) {
        match probe.powershell_on_path {
            Some(p) => Some(p@),
            None => Some("C:\\Windows\\System32\\WindowsPowerShell\\v1.0\\powershell.exe"@),
        }
    } else if name == "curl"@ || name == "Curl"@ {
        opt_text(probe.curl_on_path)
    } else {
        None
    }
}

fn clone_opt(o: &Option<String>) -> (r: Option<String>)
    ensures
        opt_text(r) == opt_text(*o),
{
    match o {
        Some(s) => Some(s.clone()),
        None => None,
    }
}

/// Path of the program behind the named backend (`probe`: what the caller found).
pub fn backend_binary_path(name: &str, probe: &ToolProbe) -> (r: Option<String>)
    ensures
        opt_text(r) == binary_spec(name@, *probe),
{
    if backend_is_builtin(name) {
        return None;
    }
    if str_eq(name, "aria2c") || str_eq(name, "Aria2c") {
        clone_opt(&probe.aria2c_path)
    } else if is_powershell_family(name) {
        match &probe.powershell_on_path {
            Some(p) => Some(p.clone()),
            None => Some(String::from_str("C:\\Windows\\System32\\WindowsPowerShell\\v1.0\\powershell.exe")),
        }
    } else if str_eq(name, "curl") || str_eq(name, "Curl") {
        clone_opt(&probe.curl_on_path)
    } else {
        None
    }
}

/// The backends of `s` whose priority is `p`, in order.
pub open spec fn with_priority(s: Seq<BackendKind>, p: int) -> Seq<BackendKind>
    decreases s.len(),
{
    if s.len() == 0 {
        s
    } else if priority_spec(s.last()) as int == p {
        with_priority(s.drop_last(), p).push(s.last())
    } else {
        with_priority(s.drop_last(), p)
    }
}

/// The backends of priority below `p`, by priority, in order within a
/// priority (a stable sort by priority).
pub open spec fn by_priority_below(s: Seq<BackendKind>, p: int) -> Seq<BackendKind>
    decreases p,
{
    if p <= 0 {
        Seq::empty()
    } else {
        by_priority_below(s, p - 1) + with_priority(s, p - 1)
    }
}

/// `s` sorted by priority, keeping the order of equal priorities.
pub open spec fn sorted_by_priority(s: Seq<BackendKind>) -> Seq<BackendKind> {
    by_priority_below(s, 256)
}

/// Sorts backends by priority, keeping the order of equal priorities.
pub fn sort_by_priority(v: &Vec<BackendKind>) -> (r: Vec<BackendKind>)
    ensures
        r@ == sorted_by_priority(v@),
{
    let mut out: Vec<BackendKind> = Vec::new();
    let mut p: u32 = 0;
    while p < 256
        invariant
            p <= 256,
            out@ == by_priority_below(v@, p as int),
        decreases 256 - p,
    {
        let ghost before = out@;
        let mut i: usize = 0;
        while i < v.len()
            invariant
                i <= v.len(),
                p < 256,
                out@ == before + with_priority(v@.take(i as int), p as int),
            decreases v.len() - i,
        {
            proof {
                assert(v@.take(i + 1).drop_last() =~= v@.take(i as int));
                assert(v@.take(i + 1).last() == v@[i as int]);
            }
            if v[i].priority() as u32 == p {
                out.push(v[i]);
            }
            i += 1;
        }
        assert(v@.take(v.len() as int) =~= v@);
        p += 1;
    }
    out
}

proof fn lemma_with_priority_only(s: Seq<BackendKind>, p: int)
    ensures
        forall|i: int| 0 <= i < with_priority(s, p).len() ==> priority_spec(#[trigger] with_priority(s, p)[i]) as int == p,
    decreases s.len(),
{
    if s.len() > 0 {
        lemma_with_priority_only(s.drop_last(), p);
        let w = with_priority(s.drop_last(), p);
        if priority_spec(s.last()) as int == p {
            assert forall|i: int| 0 <= i < w.push(s.last()).len() implies priority_spec(#[trigger] w.push(s.last())[i]) as int == p by {
                if i < w.len() {
                    assert(w.push(s.last())[i] == w[i]);
                }
            }
        }
    }
}

proof fn lemma_below_bounded(s: Seq<BackendKind>, p: int)
    ensures
        forall|i: int| 0 <= i < by_priority_below(s, p).len() ==> (priority_spec(#[trigger] by_priority_below(s, p)[i]) as int) < p,
        forall|i: int, j: int| 0 <= i < j < by_priority_below(s, p).len() ==>
            priority_spec(#[trigger] by_priority_below(s, p)[i]) <= priority_spec(#[trigger] by_priority_below(s, p)[j]),
    decreases p,
{
    if p > 0 {
        lemma_below_bounded(s, p - 1);
        lemma_with_priority_only(s, p - 1);
        let a = by_priority_below(s, p - 1);
        let b = with_priority(s, p - 1);
        assert(by_priority_below(s, p) == a + b);
        assert forall|i: int| 0 <= i < (a + b).len() implies (priority_spec(#[trigger] (a + b)[i]) as int) < p by {
            if i < a.len() {
                assert((a + b)[i] == a[i]);
            } else {
                assert((a + b)[i] == b[i - a.len()]);
            }
        }
        assert forall|i: int, j: int| 0 <= i < j < (a + b).len() implies
            priority_spec(#[trigger] (a + b)[i]) <= priority_spec(#[trigger] (a + b)[j]) by {
            if j < a.len() {
                assert((a + b)[i] == a[i] && (a + b)[j] == a[j]);
            } else if i < a.len() {
                assert((a + b)[i] == a[i] && (a + b)[j] == b[j - a.len()]);
            } else {
                assert((a + b)[i] == b[i - a.len()] && (a + b)[j] == b[j - a.len()]);
            }
        }
    }
}

/// Backends sorted for trying come in order of priority.
pub proof fn sorted_backends_are_in_priority_order(s: Seq<BackendKind>)
    ensures
        forall|i: int, j: int| 0 <= i < j < sorted_by_priority(s).len() ==>
            priority_spec(#[trigger] sorted_by_priority(s)[i]) <= priority_spec(#[trigger] sorted_by_priority(s)[j]),
{
    lemma_below_bounded(s, 256);
}

/// The default backends, sorted by priority.
pub fn with_default_backends() -> (r: Vec<BackendKind>)
    ensures
        r@ == sorted_by_priority(seq![
            BackendKind::RustRange { threads: 16, resume: true },
            BackendKind::Aria2c,
            BackendKind::Ureq,
            BackendKind::UreqInsecure,
            BackendKind::PowerShell,
            BackendKind::PowerShellInvoke,
            BackendKind::Bits,
            BackendKind::Curl
        ]),
{
    let mut v: Vec<BackendKind> = Vec::new();
    v.push(BackendKind::RustRange { threads: 16, resume: true });
    v.push(BackendKind::Aria2c);
    v.push(BackendKind::Ureq);
    v.push(BackendKind::UreqInsecure);
    v.push(BackendKind::PowerShell);
    v.push(BackendKind::PowerShellInvoke);
    v.push(BackendKind::Bits);
    v.push(BackendKind::Curl);
    assert(v@ =~= seq![
        BackendKind::RustRange { threads: 16, resume: true },
        BackendKind::Aria2c,
        BackendKind::Ureq,
        BackendKind::UreqInsecure,
        BackendKind::PowerShell,
        BackendKind::PowerShellInvoke,
        BackendKind::Bits,
        BackendKind::Curl
    ]);
    sort_by_priority(&v)
}

/// Whether the backend runs on one of the current platforms.
pub open spec fn runs_here(k: BackendKind, current: Seq<Platform>) -> bool {
    exists|i: int| 0 <= i < current.len() && runs_on(k, current[i])
}

fn runs_here_exec(k: &BackendKind, current: &Vec<Platform>) -> (r: bool)
    ensures
        r == runs_here(*k, current@),
{
    let mut i: usize = 0;
    while i < current.len()
        invariant
            i <= current.len(),
            forall|j: int| 0 <= j < i ==> !runs_on(*k, current@[j]),
        decreases current.len() - i,
    {
        let p = current[i];
        let ok = match k {
            BackendKind::PowerShell | BackendKind::PowerShellInvoke | BackendKind::Bits => p == Platform::Windows,
            _ => true,
        };
        if ok {
            return true;
        }
        i += 1;
    }
    false
}

/// The backends passing a test, in order.
pub open spec fn keep_where(s: Seq<BackendKind>, keep: spec_fn(BackendKind) -> bool) -> Seq<BackendKind>
    decreases s.len(),
{
    if s.len() == 0 {
        s
    } else if keep(s.last()) {
        keep_where(s.drop_last(), keep).push(s.last())
    } else {
        keep_where(s.drop_last(), keep)
    }
}

/// The order in which backends are tried: those with live progress first,
/// then the others, each group by priority, only those running here.
pub open spec fn ordered_spec(s: Seq<BackendKind>, current: Seq<Platform>) -> Seq<BackendKind> {
    sorted_by_priority(keep_where(s, |k: BackendKind| tracked_spec(k) && runs_here(k, current)))
        + sorted_by_priority(keep_where(s, |k: BackendKind| !tracked_spec(k) && runs_here(k, current)))
}

fn keep_tracked(v: &Vec<BackendKind>, current: &Vec<Platform>, want: bool) -> (r: Vec<BackendKind>)
    ensures
        r@ == keep_where(v@, |k: BackendKind| tracked_spec(k) == want && runs_here(k, current@)),
{
    let ghost f = |k: BackendKind| tracked_spec(k) == want && runs_here(k, current@);
    let mut out: Vec<BackendKind> = Vec::new();
    let mut i: usize = 0;
    while i < v.len()
        invariant
            i <= v.len(),
            f == (|k: BackendKind| tracked_spec(k) == want && runs_here(k, current@)),
            out@ == keep_where(v@.take(i as int), f),
        decreases v.len() - i,
    {
        proof {
            assert(v@.take(i + 1).drop_last() =~= v@.take(i as int));
            assert(v@.take(i + 1).last() == v@[i as int]);
        }
        if v[i].shows_progress() == want && runs_here_exec(&v[i], current) {
            out.push(v[i]);
        }
        i += 1;
    }
    assert(v@.take(v.len() as int) =~= v@);
    out
}

/// The try order of the registered backends on the current platforms.
pub fn ordered(backends: &Vec<BackendKind>, current: &Vec<Platform>) -> (r: Vec<BackendKind>)
    ensures
        r@ == ordered_spec(backends@, current@),
{
    let t = keep_tracked(backends, current, true);
    let u = keep_tracked(backends, current, false);
    assert((|k: BackendKind| tracked_spec(k) == true && runs_here(k, current@)) =~= (|k: BackendKind| tracked_spec(k) && runs_here(k, current@)));
    assert((|k: BackendKind| tracked_spec(k) == false && runs_here(k, current@)) =~= (|k: BackendKind| !tracked_spec(k) && runs_here(k, current@)));
    let mut a = sort_by_priority(&t);
    let b = sort_by_priority(&u);
    let mut i: usize = 0;
    let ghost a0 = a@;
    while i < b.len()
        invariant
            i <= b.len(),
            a@ == a0 + b@.take(i as int),
        decreases b.len() - i,
    {
        a.push(b[i]);
        assert(b@.take(i + 1) =~= b@.take(i as int).push(b@[i as int]));
        assert(a0 + b@.take(i + 1) =~= (a0 + b@.take(i as int)).push(b@[i as int]));
        i += 1;
    }
    assert(b@.take(b.len() as int) =~= b@);
    a
}

/// The registered backends that run here and passed their health check
/// (`healthy[i]` for backend `i`, checked by the caller).
pub fn available(backends: &Vec<BackendKind>, current: &Vec<Platform>, healthy: &Vec<bool>) -> (r: Vec<BackendKind>)
    requires
        healthy.len() == backends.len(),
    ensures
        r@ == keep_where_flag(backends@, healthy@, current@, backends@.len() as int),
{
    let mut out: Vec<BackendKind> = Vec::new();
    let mut i: usize = 0;
    while i < backends.len()
        invariant
            i <= backends.len(),
            healthy.len() == backends.len(),
            out@ == keep_where_flag(backends@, healthy@, current@, i as int),
        decreases backends.len() - i,
    {
        if runs_here_exec(&backends[i], current) && healthy[i] {
            out.push(backends[i]);
        }
        i += 1;
    }
    out
}

/// Of the first `n` backends, those that run here and are healthy.
pub open spec fn keep_where_flag(s: Seq<BackendKind>, ok: Seq<bool>, current: Seq<Platform>, n: int) -> Seq<BackendKind>
    decreases n,
{
    if n <= 0 {
        Seq::empty()
    } else if runs_here(s[n - 1], current) && ok[n - 1] {
        keep_where_flag(s, ok, current, n - 1).push(s[n - 1])
    } else {
        keep_where_flag(s, ok, current, n - 1)
    }
}

/// Position of the registered backend with identifier `id`.
pub fn by_id(backends: &Vec<BackendKind>, id: &str) -> (r: Option<usize>)
    ensures
        match r {
            Some(i) => i < backends.len() && id_spec(backends@[i as int]) == id@
                && forall|j: int| 0 <= j < i ==> id_spec(backends@[j]) != id@,
            None => forall|j: int| 0 <= j < backends.len() ==> id_spec(backends@[j]) != id@,
        },
{
    let mut i: usize = 0;
    while i < backends.len()
        invariant
            i <= backends.len(),
            forall|j: int| 0 <= j < i ==> id_spec(backends@[j]) != id@,
        decreases backends.len() - i,
    {
        if str_eq(backends[i].id(), id) {
            return Some(i);
        }
        i += 1;
    }
    None
}

} // verus!
