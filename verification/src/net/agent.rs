//! Browser fingerprints and the request headers sent with downloads.

use vstd::prelude::*;
use crate::text::{chars_of, contains, contains_seq, first_occ, find_from, lemma_first_occ_is, lemma_first_occ_none, occurs_at, push_str, str_eq, string_of};
use crate::glob::{split_char, split_chars, views};

verus! {

/// The browser a download pretends to be.
#[derive(Clone, Copy, Debug)]
pub enum Fingerprint {
    /// Chrome 120 on Windows (the default).
    Chrome120,
    /// Chrome 130 on Windows.
    Chrome130,
    /// Firefox 134 on Windows.
    Firefox,
    /// Safari 18.
    Safari,
    /// A user-supplied User-Agent and Accept.
    Custom { ua: &'static str, accept: &'static str },
}

pub open spec fn ua_spec(f: Fingerprint) -> Seq<char> {
    match f {
        Fingerprint::Chrome120 => "Mozilla/5.0 (Windows NT 10.0; Win64; x64) AppleWebKit/537.36 (KHTML, like Gecko) Chrome/120.0.0.0 Safari/537.36"@,
        Fingerprint::Chrome130 => "Mozilla/5.0 (Windows NT 10.0; Win64; x64) AppleWebKit/537.36 (KHTML, like Gecko) Chrome/130.0.0.0 Safari/537.36"@,
        Fingerprint::Firefox => "Mozilla/5.0 (Windows NT 10.0; Win64; x64; rv:134.0) Gecko/20100101 Firefox/134.0"@,
        Fingerprint::Safari => "Mozilla/5.0 (Windows NT 10.0; Win64; x64) AppleWebKit/605.1.15 (KHTML, like Gecko) Version/18.0 Safari/605.1.15"@,
        Fingerprint::Custom { ua, accept } => ua@,
    }
}

pub open spec fn accept_spec(f: Fingerprint) -> Seq<char> {
    match f {
        Fingerprint::Custom { ua, accept } => accept@,
        _ => "text/html,application/xhtml+xml,application/xml;q=0.9,image/avif,image/webp,image/apng,*/*;q=0.8"@,
    }
}

impl Fingerprint {
    /// The User-Agent header.
    pub fn user_agent(&self) -> (r: &'static str)
        ensures
            r@ == ua_spec(*self),
    {
        match self {
            Fingerprint::Chrome120 => "Mozilla/5.0 (Windows NT 10.0; Win64; x64) AppleWebKit/537.36 (KHTML, like Gecko) Chrome/120.0.0.0 Safari/537.36",
            Fingerprint::Chrome130 => "Mozilla/5.0 (Windows NT 10.0; Win64; x64) AppleWebKit/537.36 (KHTML, like Gecko) Chrome/130.0.0.0 Safari/537.36",
            Fingerprint::Firefox => "Mozilla/5.0 (Windows NT 10.0; Win64; x64; rv:134.0) Gecko/20100101 Firefox/134.0",
            Fingerprint::Safari => "Mozilla/5.0 (Windows NT 10.0; Win64; x64) AppleWebKit/605.1.15 (KHTML, like Gecko) Version/18.0 Safari/605.1.15",
            Fingerprint::Custom { ua, .. } => ua,
        }
    }

    /// The Accept header.
    pub fn accept(&self) -> (r: &'static str)
        ensures
            r@ == accept_spec(*self),
    {
        match self {
            Fingerprint::Custom { accept, .. } => accept,
            _ => "text/html,application/xhtml+xml,application/xml;q=0.9,image/avif,image/webp,image/apng,*/*;q=0.8",
        }
    }
}

/// How the HTTP client is set up.
pub struct AgentConfig {
    pub fingerprint: Fingerprint,
    /// Skip certificate checks (unsafe).
    pub insecure: bool,
    /// Connect timeout in seconds.
    pub connect_timeout: u64,
    /// Read timeout in seconds.
    pub read_timeout: u64,
}

impl AgentConfig {
    /// Chrome 120, certificates checked, 30 s to connect, 600 s to read.
    pub fn default_config() -> (r: Self)
        ensures
            r.fingerprint == Fingerprint::Chrome120,
            !r.insecure,
            r.connect_timeout == 30,
            r.read_timeout == 600,
    {
        AgentConfig { fingerprint: Fingerprint::Chrome120, insecure: false, connect_timeout: 30, read_timeout: 600 }
    }

    /// The default set-up with the given timeouts, certificates checked.
    pub fn normal(connect_timeout: u64, read_timeout: u64) -> (r: Self)
        ensures
            r.fingerprint == Fingerprint::Chrome120,
            !r.insecure,
            r.connect_timeout == connect_timeout,
            r.read_timeout == read_timeout,
    {
        AgentConfig { connect_timeout, read_timeout, ..AgentConfig::default_config() }
    }
}

impl Default for AgentConfig {
    fn default() -> (r: Self)
        ensures
            r.fingerprint == Fingerprint::Chrome120,
            !r.insecure,
            r.connect_timeout == 30,
            r.read_timeout == 600,
    {
        AgentConfig::default_config()
    }
}

/// The host of a URL: after the first `://`, up to the next `://` or `/`
/// (empty without `://`).
pub open spec fn host_spec(url: Seq<char>) -> Seq<char> {
    match first_occ(url, "://"@, 0) {
        None => Seq::empty(),
        Some(p) => {
            let after = url.skip(p + 3);
            let seg = match first_occ(after, "://"@, 0) {
                Some(q) => after.take(q),
                None => after,
            };
            split_char(seg, '/')[0]
        },
    }
}

fn skip_chars(s: &[char], from: usize) -> (r: Vec<char>)
    requires
        from <= s.len(),
    ensures
        r@ == s@.skip(from as int),
{
    let mut v: Vec<char> = Vec::new();
    let mut i = from;
    while i < s.len()
        invariant
            from <= i <= s.len(),
            v@ == s@.subrange(from as int, i as int),
        decreases s.len() - i,
    {
        v.push(s[i]);
        assert(s@.subrange(from as int, i + 1) =~= s@.subrange(from as int, i as int).push(s@[i as int]));
        i += 1;
    }
    assert(s@.subrange(from as int, s.len() as int) =~= s@.skip(from as int));
    v
}

fn take_chars(s: &[char], n: usize) -> (r: Vec<char>)
    requires
        n <= s.len(),
    ensures
        r@ == s@.take(n as int),
{
    let mut v: Vec<char> = Vec::new();
    let mut i: usize = 0;
    while i < n
        invariant
            i <= n <= s.len(),
            v@ == s@.take(i as int),
        decreases n - i,
    {
        v.push(s[i]);
        assert(s@.take(i + 1) =~= s@.take(i as int).push(s@[i as int]));
        i += 1;
    }
    v
}

/// The host of a URL.
pub fn host_of(url: &str) -> (r: String)
    ensures
        r@ == host_spec(url@),
{
    let c = chars_of(url);
    let sep = chars_of("://");
    proof {
        reveal_strlit("://");
    }
    match find_from(c.as_slice(), sep.as_slice(), 0) {
        None => {
            proof {
                lemma_first_occ_none(c@, "://"@, 0);
            }
            String::new()
        },
        Some(p) => {
            proof {
                lemma_first_occ_is(c@, "://"@, 0, p as int);
            }
            assert(p + 3 <= c.len());
            let after = skip_chars(c.as_slice(), p + 3);
            let seg = match find_from(after.as_slice(), sep.as_slice(), 0) {
                Some(q) => {
                    proof {
                        lemma_first_occ_is(after@, "://"@, 0, q as int);
                    }
                    take_chars(after.as_slice(), q)
                },
                None => {
                    proof {
                        lemma_first_occ_none(after@, "://"@, 0);
                    }
                    after
                },
            };
            let parts = split_chars(seg.as_slice(), '/');
            assert(views(parts@)[0] == parts@[0]@);
            string_of(parts[0].as_slice())
        },
    }
}

/// The Referer sent to a host: the site behind known download hosts, else
/// the host itself.
pub open spec fn referer_spec(host: Seq<char>) -> Seq<char> {
    if contains_seq(host, "baidupcs.com"@) {
        "https://pan.baidu.com/"@
    } else if host == "download.jetbrains.com"@ {
        "https://www.jetbrains.com/"@
    } else if host == "dldir1.qq.com"@ {
        "https://work.weixin.qq.com/"@
    } else if host == "softwareupdate.vmware.com"@ {
        "https://www.vmware.com/"@
    } else if host == "dl.google.com"@ {
        "https://www.google.com/"@
    } else if host == "redirector.gvt1.com"@ {
        "https://developer.android.com/"@
    } else if host == "download.trae.com.cn"@ {
        "https://www.trae.com.cn/"@
    } else if host == "download.cursor.com"@ {
        "https://www.cursor.com/"@
    } else if host == "sunlogin.oray.com"@ || host == "dl.oray.com"@ {
        "https://sunlogin.oray.com/"@
    } else {
        "https://"@ + host + "/"@
    }
}

fn referer_for(host: &str) -> (r: String)
    ensures
        r@ == referer_spec(host@),
{
    let hc = chars_of(host);
    let b = chars_of("baidupcs.com");
    if contains(hc.as_slice(), b.as_slice()) {
        String::from_str("https://pan.baidu.com/")
    } else if str_eq(host, "download.jetbrains.com") {
        String::from_str("https://www.jetbrains.com/")
    } else if str_eq(host, "dldir1.qq.com") {
        String::from_str("https://work.weixin.qq.com/")
    } else if str_eq(host, "softwareupdate.vmware.com") {
        String::from_str("https://www.vmware.com/")
    } else if str_eq(host, "dl.google.com") {
        String::from_str("https://www.google.com/")
    } else if str_eq(host, "redirector.gvt1.com") {
        String::from_str("https://developer.android.com/")
    } else if str_eq(host, "download.trae.com.cn") {
        String::from_str("https://www.trae.com.cn/")
    } else if str_eq(host, "download.cursor.com") {
        String::from_str("https://www.cursor.com/")
    } else if str_eq(host, "sunlogin.oray.com") || str_eq(host, "dl.oray.com") {
        String::from_str("https://sunlogin.oray.com/")
    } else {
        let mut s = String::from_str("https://");
        push_str(&mut s, host);
        push_str(&mut s, "/");
        s
    }
}

/// The Sec-CH-UA value sent by Chromium-based fingerprints.
pub open spec fn ch_ua() -> Seq<char> {
    "\"Not_A Brand\";v=\"8\", \"Chromium\";v=\"120\", \"Google Chrome\";v=\"120\""@
}

/// Whether the fingerprint sends the Sec-CH-UA headers.
pub open spec fn sends_client_hints(f: Fingerprint) -> bool {
    match f {
        Fingerprint::Chrome120 | Fingerprint::Chrome130 | Fingerprint::Safari => true,
        _ => false,
    }
}

/// The headers of a download request for `url`, in order.
pub open spec fn headers_spec(f: Fingerprint, url: Seq<char>) -> Seq<(Seq<char>, Seq<char>)> {
    let start = seq![
        ("Accept"@, "*/*"@),
        ("Accept-Language"@, "zh-CN,zh;q=0.9,en;q=0.8,en-GB;q=0.7,en-US;q=0.6"@)
    ];
    let hints: Seq<(Seq<char>, Seq<char>)> = if sends_client_hints(f) {
        seq![("Sec-Ch-Ua"@, ch_ua()), ("Sec-Ch-Ua-Mobile"@, "?0"@), ("Sec-Ch-Ua-Platform"@, "\"Windows\""@)]
    } else {
        Seq::empty()
    };
    let fixed = seq![
        ("Sec-Fetch-Site"@, "none"@),
        ("Sec-Fetch-Mode"@, "navigate"@),
        ("Sec-Fetch-Dest"@, "document"@),
        ("Sec-Fetch-User"@, "?1"@),
        ("Upgrade-Insecure-Requests"@, "1"@),
        ("DNT"@, "1"@),
        ("Cache-Control"@, "no-cache"@),
        ("Pragma"@, "no-cache"@)
    ];
    let host = host_spec(url);
    let referer: Seq<(Seq<char>, Seq<char>)> = if host.len() > 0 {
        seq![("Referer"@, referer_spec(host))]
    } else {
        Seq::empty()
    };
    start + hints + fixed + referer
}

pub open spec fn header_view(v: Seq<(&'static str, String)>) -> Seq<(Seq<char>, Seq<char>)> {
    v.map_values(|p: (&'static str, String)| (p.0@, p.1@))
}

impl AgentConfig {
    /// Browser-like headers for a download of `url`.
    pub fn browser_headers(&self, url: &str) -> (r: Vec<(&'static str, String)>)
        ensures
            header_view(r@) == headers_spec(self.fingerprint, url@),
    {
        let mut h: Vec<(&'static str, String)> = Vec::new();
        h.push(("Accept", String::from_str("*/*")));
        h.push(("Accept-Language", String::from_str("zh-CN,zh;q=0.9,en;q=0.8,en-GB;q=0.7,en-US;q=0.6")));
        let hints = match self.fingerprint {
            Fingerprint::Chrome120 | Fingerprint::Chrome130 | Fingerprint::Safari => true,
            _ => false,
        };
        if hints {
            h.push(("Sec-Ch-Ua", String::from_str("\"Not_A Brand\";v=\"8\", \"Chromium\";v=\"120\", \"Google Chrome\";v=\"120\"")));
            h.push(("Sec-Ch-Ua-Mobile", String::from_str("?0")));
            h.push(("Sec-Ch-Ua-Platform", String::from_str("\"Windows\"")));
        }
        h.push(("Sec-Fetch-Site", String::from_str("none")));
        h.push(("Sec-Fetch-Mode", String::from_str("navigate")));
        h.push(("Sec-Fetch-Dest", String::from_str("document")));
        h.push(("Sec-Fetch-User", String::from_str("?1")));
        h.push(("Upgrade-Insecure-Requests", String::from_str("1")));
        h.push(("DNT", String::from_str("1")));
        h.push(("Cache-Control", String::from_str("no-cache")));
        h.push(("Pragma", String::from_str("no-cache")));
        let host = host_of(url);
        let hc = chars_of(host.as_str());
        if hc.len() > 0 {
            h.push(("Referer", referer_for(host.as_str())));
        }
        assert(header_view(h@) =~= headers_spec(self.fingerprint, url@));
        h
    }

    /// The headers as `Name: value` lines (for external download tools).
    pub fn flat_headers(&self, url: &str) -> (r: Vec<String>)
        ensures
            r@.len() == headers_spec(self.fingerprint, url@).len(),
            forall|i: int| 0 <= i < r@.len() ==> (#[trigger] r@[i])@ == headers_spec(self.fingerprint, url@)[i].0
                + ": "@ + headers_spec(self.fingerprint, url@)[i].1,
    {
        let h = self.browser_headers(url);
        let mut out: Vec<String> = Vec::new();
        let mut i: usize = 0;
        while i < h.len()
            invariant
                i <= h.len(),
                header_view(h@) == headers_spec(self.fingerprint, url@),
                out@.len() == i,
                forall|k: int| 0 <= k < i ==> (#[trigger] out@[k])@ == header_view(h@)[k].0 + ": "@ + header_view(h@)[k].1,
            decreases h.len() - i,
        {
            let mut s = String::from_str(h[i].0);
            push_str(&mut s, ": ");
            push_str(&mut s, h[i].1.as_str());
            out.push(s);
            i += 1;
        }
        out
    }
}

} // verus!
