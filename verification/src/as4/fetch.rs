//! Download planning of `as4`: how many downloads at once, the file name a
//! URL gives, and what a downloaded file is.

use vstd::prelude::*;
use crate::text::{chars_of, contains, contains_seq, has_ch, has_char, lowercase, push_str, str_eq, string_of, display_width, str_width};
use crate::glob::{split_char, split_chars, views};
use crate::aspkg::software::utf8;
use crate::as4::software::VersionEntry;
use crate::net::download::{DownloadConfig, DownloadStrategy};
use crate::net::agent::Fingerprint;
use vstd::utf8::{is_char_boundary, decode_utf8, encode_utf8, encode_utf8_decode_utf8};

verus! {

/// Downloads at once and threads per download for `count` programs on
/// `cpus` processors: one program gets `4 × cpus` threads (the count taken
/// as `u8`, kept between 4 and 32); up to half the processors (at least
/// four counted) each get 8; more share half the processors with 4 each.
pub open spec fn concurrency_spec(count: usize, cpus: usize) -> (usize, u8) {
    let c4 = if cpus >= 4 { cpus } else { 4 };
    if count == 0 {
        (0, 0)
    } else if count == 1 {
        let t = (cpus % 256) * 4;
        (1, (if t > 32 { 32 } else if t < 4 { 4 } else { t }) as u8)
    } else if count <= c4 / 2 {
        (count, 8)
    } else {
        ((c4 / 2) as usize, 4)
    }
}

/// Parallel downloads and threads for a batch (`cpus`: the processors
/// available, found by the caller).
pub fn optimal_concurrency(software_count: usize, cpus: usize) -> (r: (usize, u8))
    requires
        software_count == 1 ==> (cpus % 256) * 4 < 256,
    ensures
        r == concurrency_spec(software_count, cpus),
{
    let c4 = if cpus >= 4 { cpus } else { 4 };
    if software_count == 0 {
        (0, 0)
    } else if software_count == 1 {
        let t: u8 = (cpus % 256) as u8 * 4;
        let t = if t > 32 { 32 } else if t < 4 { 4 } else { t };
        (1, t)
    } else if software_count <= c4 / 2 {
        (software_count, 8)
    } else {
        (c4 / 2, 4)
    }
}

/// The non-empty `/`-separated parts of a URL.
pub open spec fn nonempty_parts(ps: Seq<Seq<char>>) -> Seq<Seq<char>>
    decreases ps.len(),
{
    if ps.len() == 0 {
        Seq::empty()
    } else if ps.last().len() == 0 {
        nonempty_parts(ps.drop_last())
    } else {
        nonempty_parts(ps.drop_last()).push(ps.last())
    }
}

/// The file name for a download: the URL's last non-empty path part
/// (before `?`) when it has a dot not at its end, else `{name}-{version}.zip`
/// for zip or 7z URLs and `.exe` otherwise.
pub open spec fn filename_spec(url: Seq<char>, name: Seq<char>, version: Seq<char>) -> Seq<char> {
    let parts = nonempty_parts(split_char(url, '/'));
    let last = if parts.len() > 0 { parts.last() } else { Seq::empty() };
    let clean = split_char(last, '?')[0];
    if has_char(clean, '.') && !(clean.len() > 0 && clean.last() == '.') {
        clean
    } else {
        let ext = if contains_seq(url, ".zip"@) || contains_seq(url, ".7z"@) { "zip"@ } else { "exe"@ };
        name + seq!['-'] + version + seq!['.'] + ext
    }
}

/// The file name to save a download under.
pub fn extract_filename(url: &str, name: &str, version: &str) -> (r: String)
    ensures
        r@ == filename_spec(url@, name@, version@),
{
    let c = chars_of(url);
    let ps = split_chars(c.as_slice(), '/');
    let ghost pv = views(ps@);
    let mut last: Vec<char> = Vec::new();
    let mut found = false;
    let mut i: usize = 0;
    while i < ps.len()
        invariant
            i <= ps.len(),
            pv == views(ps@),
            found == (nonempty_parts(pv.take(i as int)).len() > 0),
            found ==> last@ == nonempty_parts(pv.take(i as int)).last(),
        decreases ps.len() - i,
    {
        assert(pv.take(i + 1).drop_last() =~= pv.take(i as int));
        assert(pv.take(i + 1).last() == ps@[i as int]@);
        if ps[i].len() > 0 {
            last = ps[i].clone();
            found = true;
        }
        i += 1;
    }
    assert(pv.take(ps.len() as int) =~= pv);
    if !found {
        last = Vec::new();
    }
    assert(last@ == (if nonempty_parts(pv).len() > 0 { nonempty_parts(pv).last() } else { Seq::<char>::empty() }));
    let q = split_chars(last.as_slice(), '?');
    assert(views(q@)[0] == q@[0]@);
    let clean = &q[0];
    let n = clean.len();
    if has_ch(clean.as_slice(), '.') && !(n > 0 && clean[n - 1] == '.') {
        return string_of(clean.as_slice());
    }
    let zip = chars_of(".zip");
    let sz = chars_of(".7z");
    let ext = if contains(c.as_slice(), zip.as_slice()) || contains(c.as_slice(), sz.as_slice()) { "zip" } else { "exe" };
    let mut s = String::from_str(name);
    push_str(&mut s, "-");
    push_str(&mut s, version);
    push_str(&mut s, ".");
    push_str(&mut s, ext);
    proof {
        reveal_strlit("-");
        reveal_strlit(".");
        assert(s@ =~= name@ + seq!['-'] + version@ + seq!['.'] + ext@);
    }
    s
}

/// The text of the first `k` UTF-8 bytes of `s`.
pub open spec fn utf8_prefix_text(s: Seq<char>, k: int) -> Seq<char> {
    decode_utf8(utf8(s).take(k))
}

pub(crate) fn utf8_prefix(s: &str, k: usize) -> (r: String)
    requires
        is_char_boundary(utf8(s@), k as int),
    ensures
        r@ == utf8_prefix_text(s@, k as int),
{
    let (a, _b) = s.split_at(k);
    proof {
        encode_utf8_decode_utf8(a@);
        assert(utf8(s@).subrange(0, k as int) =~= utf8(s@).take(k as int));
    }
    String::from_str(a)
}

/// `name` when it fits `max` columns, else its first `max - 2` bytes and `..`.
pub open spec fn truncate_name_spec(name: Seq<char>, max: nat) -> Seq<char> {
    if display_width(name) <= max {
        name
    } else {
        let k: int = if max >= 2 { max - 2 } else { 0 };
        utf8_prefix_text(name, k) + ".."@
    }
}

/// Shortens a name to `max` columns; the cut must fall between characters
/// (it is made at a byte offset).
pub(crate) fn truncate_name(name: &str, max: usize) -> (r: String)
    requires
        display_width(name@) > max ==> is_char_boundary(utf8(name@), if max >= 2 { max - 2 } else { 0 }),
    ensures
        r@ == truncate_name_spec(name@, max as nat),
{
    if str_width(name) <= max {
        return String::from_str(name);
    }
    let k: usize = if max >= 2 { max - 2 } else { 0 };
    let mut s = utf8_prefix(name, k);
    push_str(&mut s, "..");
    s
}

/// Shortens a name to `max` columns, or none when the cut would fall inside
/// a character (where slicing the name panics).
pub fn truncate_name_checked(name: &str, max: usize) -> (r: Option<String>)
    ensures
        match r {
            Some(t) => t@ == truncate_name_spec(name@, max as nat),
            None => display_width(name@) > max && !is_char_boundary(utf8(name@), if max >= 2 { max - 2 } else { 0 }),
        },
{
    if str_width(name) <= max {
        return Some(String::from_str(name));
    }
    let k: usize = if max >= 2 { max - 2 } else { 0 };
    if name.is_char_boundary(k) {
        Some(truncate_name(name, max))
    } else {
        None
    }
}

/// What a downloaded file is, from its lower-cased extension and, when it
/// could be read, its first eight bytes.
pub open spec fn archive_spec(ext: Seq<char>, head: Option<Seq<u8>>) -> Seq<char> {
    if ext == "zip"@ {
        "zip"@
    } else if ext == "7z"@ {
        "7z"@
    } else if ext == "tar"@ {
        "tar"@
    } else if ext == "exe"@ || ext == "msi"@ {
        "single"@
    } else {
        match head {
            Some(b) => if b.len() >= 8 && b[0] == 0x50 && b[1] == 0x4B && b[2] == 0x03 && b[3] == 0x04 {
                "zip"@
            } else if b.len() >= 8 && b[0] == 0x37 && b[1] == 0x7A && b[2] == 0xBC && b[3] == 0xAF && b[4] == 0x27 && b[5] == 0x1C {
                "7z"@
            } else {
                "single"@
            },
            None => "single"@,
        }
    }
}

/// The extensions zip, 7z and tar each give their own archive type whatever
/// the file holds, exe and msi are single files; for other extensions the
/// magic bytes decide: `PK\x03\x04` is zip, `7z\xBC\xAF\x27\x1C` is 7z, and
/// anything else (or an unreadable head) is a single file.
pub proof fn archive_type_law(ext: Seq<char>, head: Option<Seq<u8>>)
    ensures
        ext == "zip"@ ==> archive_spec(ext, head) == "zip"@,
        ext == "7z"@ ==> archive_spec(ext, head) == "7z"@,
        ext == "tar"@ ==> archive_spec(ext, head) == "tar"@,
        (ext == "exe"@ || ext == "msi"@) ==> archive_spec(ext, head) == "single"@,
        (ext != "zip"@ && ext != "7z"@ && ext != "tar"@ && ext != "exe"@ && ext != "msi"@) ==> (match head {
            Some(b) => {
                &&& (b.len() >= 8 && b[0] == 0x50 && b[1] == 0x4B && b[2] == 0x03 && b[3] == 0x04) ==> archive_spec(ext, head)
                    == "zip"@
                &&& (b.len() >= 8 && b[0] == 0x37 && b[1] == 0x7A && b[2] == 0xBC && b[3] == 0xAF && b[4] == 0x27 && b[5]
                    == 0x1C) ==> archive_spec(ext, head) == "7z"@
                &&& !(b.len() >= 8 && b[0] == 0x50 && b[1] == 0x4B && b[2] == 0x03 && b[3] == 0x04) && !(b.len() >= 8
                    && b[0] == 0x37 && b[1] == 0x7A && b[2] == 0xBC && b[3] == 0xAF && b[4] == 0x27 && b[5] == 0x1C)
                    ==> archive_spec(ext, head) == "single"@
            },
            None => archive_spec(ext, head) == "single"@,
        }),
{
    reveal_strlit("zip");
    reveal_strlit("7z");
    reveal_strlit("tar");
    reveal_strlit("exe");
    reveal_strlit("msi");
    if ext == "exe"@ || ext == "msi"@ {
        assert(ext.len() == 3);
        assert(ext[0] == 'e' || ext[0] == 'm');
        assert(ext != "zip"@ && ext != "tar"@) by {
            assert("zip"@[0] == 'z');
            assert("tar"@[0] == 't');
        }
        assert(ext != "7z"@) by {
            assert("7z"@.len() == 2);
        }
    }
}

/// Kind of a downloaded file: `zip`, `7z`, `tar` or `single`.
pub fn detect_archive_type(ext_lower: &str, head: Option<&[u8]>) -> (r: &'static str)
    ensures
        r@ == archive_spec(ext_lower@, match head { Some(b) => Some(b@), None => None }),
{
    if str_eq(ext_lower, "zip") {
        "zip"
    } else if str_eq(ext_lower, "7z") {
        "7z"
    } else if str_eq(ext_lower, "tar") {
        "tar"
    } else if str_eq(ext_lower, "exe") || str_eq(ext_lower, "msi") {
        "single"
    } else {
        match head {
            Some(b) => {
                if b.len() >= 8 && b[0] == 0x50 && b[1] == 0x4B && b[2] == 0x03 && b[3] == 0x04 {
                    "zip"
                } else if b.len() >= 8 && b[0] == 0x37 && b[1] == 0x7A && b[2] == 0xBC && b[3] == 0xAF && b[4] == 0x27 && b[5] == 0x1C {
                    "7z"
                } else {
                    "single"
                }
            },
            None => "single",
        }
    }
}

/// The strategies `as4` downloads with: ranged with `range_threads`
/// threads, plain with certificate checks and without, PowerShell, curl;
/// otherwise the defaults.
pub open spec fn as4_strategies(range_threads: u8) -> Seq<DownloadStrategy> {
    seq![
        DownloadStrategy::RustRange { threads: range_threads },
        DownloadStrategy::Ureq { fingerprint: Fingerprint::Chrome120, insecure: false },
        DownloadStrategy::Ureq { fingerprint: Fingerprint::Chrome120, insecure: true },
        DownloadStrategy::PowerShell,
        DownloadStrategy::Curl,
    ]
}

pub fn as4_download_config(range_threads: u8) -> (r: DownloadConfig)
    ensures
        r.strategies@ == as4_strategies(range_threads),
        r.verify && r.resume && !r.renew,
{
    let v = vec![
        DownloadStrategy::RustRange { threads: range_threads },
        DownloadStrategy::Ureq { fingerprint: Fingerprint::Chrome120, insecure: false },
        DownloadStrategy::Ureq { fingerprint: Fingerprint::Chrome120, insecure: true },
        DownloadStrategy::PowerShell,
        DownloadStrategy::Curl,
    ];
    assert(v@ =~= as4_strategies(range_threads));
    DownloadConfig::with_strategies(v)
}

/// The URLs a version offers for an install kind (none when it has no such
/// kind): those of the first entry of that kind.
pub open spec fn urls_of(ve: VersionEntry, kind: Seq<char>) -> Seq<Seq<char>> {
    kind_urls(ve.urls@, kind)
}

pub open spec fn kind_urls(u: Seq<(String, Vec<String>)>, kind: Seq<char>) -> Seq<Seq<char>>
    decreases u.len(),
{
    if u.len() == 0 {
        Seq::empty()
    } else if u[0].0@ == kind {
        u[0].1@.map_values(|s: String| s@)
    } else {
        kind_urls(u.drop_first(), kind)
    }
}

/// Some URL list of the version is of kind `kind`.
pub open spec fn has_kind(ve: VersionEntry, kind: Seq<char>) -> bool {
    exists|i: int| 0 <= i < ve.urls@.len() && ve.urls@[i].0@ == kind
}

/// The install kind `as4` downloads: the one forced by the flags, else
/// portable when offered, else installer when offered, else none.
pub open spec fn url_type_spec(ve: VersionEntry, portable: bool, installer_force: bool) -> Option<Seq<char>> {
    if portable {
        Some("portable"@)
    } else if installer_force {
        Some("installer"@)
    } else if has_kind(ve, "portable"@) {
        Some("portable"@)
    } else if has_kind(ve, "installer"@) {
        Some("installer"@)
    } else {
        None
    }
}

fn offers(ve: &VersionEntry, kind: &str) -> (r: bool)
    ensures
        r == has_kind(*ve, kind@),
{
    let mut i: usize = 0;
    while i < ve.urls.len()
        invariant
            i <= ve.urls.len(),
            forall|j: int| 0 <= j < i ==> ve.urls@[j].0@ != kind@,
        decreases ve.urls.len() - i,
    {
        if str_eq(ve.urls[i].0.as_str(), kind) {
            return true;
        }
        i += 1;
    }
    false
}

/// Chooses the install kind to download for a version.
pub fn url_type(ve: &VersionEntry, portable: bool, installer_force: bool) -> (r: Option<&'static str>)
    ensures
        match r {
            Some(t) => url_type_spec(*ve, portable, installer_force) == Some(t@),
            None => url_type_spec(*ve, portable, installer_force) is None,
        },
{
    proof {
        reveal_strlit("portable");
        reveal_strlit("installer");
    }
    if portable {
        Some("portable")
    } else if installer_force {
        Some("installer")
    } else if offers(ve, "portable") {
        Some("portable")
    } else if offers(ve, "installer") {
        Some("installer")
    } else {
        None
    }
}

/// The URLs of an install kind.
pub fn kind_url_list(ve: &VersionEntry, kind: &str) -> (r: Vec<String>)
    ensures
        r@.map_values(|s: String| s@) == urls_of(*ve, kind@),
{
    let mut i: usize = 0;
    assert(ve.urls@.skip(0) =~= ve.urls@);
    while i < ve.urls.len()
        invariant
            i <= ve.urls.len(),
            urls_of(*ve, kind@) == kind_urls(ve.urls@.skip(i as int), kind@),
        decreases ve.urls.len() - i,
    {
        assert(ve.urls@.skip(i as int).drop_first() =~= ve.urls@.skip(i + 1));
        if str_eq(ve.urls[i].0.as_str(), kind) {
            let mut out: Vec<String> = Vec::new();
            let mut j: usize = 0;
            let list = &ve.urls[i].1;
            while j < list.len()
                invariant
                    j <= list.len(),
                    out@.map_values(|s: String| s@) =~= list@.map_values(|s: String| s@).take(j as int),
                decreases list.len() - j,
            {
                let ghost prev = out@.map_values(|s: String| s@);
                out.push(list[j].clone());
                assert(out@.map_values(|s: String| s@) =~= prev.push(list@[j as int]@));
                j += 1;
            }
            assert(list@.map_values(|s: String| s@).take(list.len() as int) =~= list@.map_values(|s: String| s@));
            return out;
        }
        i += 1;
    }
    assert(ve.urls@.skip(i as int) =~= Seq::<(String, Vec<String>)>::empty());
    Vec::new()
}

/// An answer that allows overwriting an existing download: `y` or `yes`
/// after trimming and lower-casing.
pub open spec fn overwrite_spec(input: Seq<char>) -> bool {
    let l = lowercase(crate::text::trim_seq(input));
    l == "y"@ || l == "yes"@
}

pub fn overwrite_confirmed(input: &str) -> (r: bool)
    ensures
        r == overwrite_spec(input@),
{
    let t = crate::text::trim_str(input);
    let l = crate::text::to_lower(t.as_str());
    str_eq(l.as_str(), "y") || str_eq(l.as_str(), "yes")
}

} // verus!
