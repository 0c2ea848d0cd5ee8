//! Checks made before a download starts.

use vstd::prelude::*;
use crate::text::{chars_of, contains, contains_seq, is_prefix, starts_with, str_eq, trim_chars, trim_seq, string_of};
use crate::glob::{split_char, split_chars, views};
use crate::net::agent::{host_spec, host_of};

verus! {

/// A download request that passed the checks.
pub struct ValidatedRequest {
    /// The URL without surrounding whitespace.
    pub url: String,
}

/// Why a download URL was refused.
#[derive(PartialEq, Eq, Structural, Clone, Copy, Debug)]
pub enum UrlError {
    /// Nothing but whitespace.
    Empty,
    /// Neither `http://` nor `https://`.
    UnsupportedScheme,
    /// No host after the scheme.
    NoHost,
    /// A loopback or unspecified address.
    LocalAddress,
    /// A private network address.
    PrivateAddress,
}

/// The host is a blocked local address (alone or with a port).
pub open spec fn is_local(host: Seq<char>) -> bool {
    host == "localhost"@ || is_prefix("localhost:"@, host)
        || host == "127.0.0.1"@ || is_prefix("127.0.0.1:"@, host)
        || host == "::1"@ || is_prefix("::1:"@, host)
        || host == "0.0.0.0"@ || is_prefix("0.0.0.0:"@, host)
}

/// The host (before any port) is in a private IPv4 range.
pub open spec fn is_private(host: Seq<char>) -> bool {
    let ip = split_char(host, ':')[0];
    is_prefix("10."@, ip) || is_prefix("172.16."@, ip) || is_prefix("192.168."@, ip)
}

/// Outcome of checking a download URL.
pub open spec fn url_check(url: Seq<char>) -> Result<Seq<char>, UrlError> {
    let t = trim_seq(url);
    if t.len() == 0 {
        Err(UrlError::Empty)
    } else if !is_prefix("http://"@, t) && !is_prefix("https://"@, t) {
        Err(UrlError::UnsupportedScheme)
    } else if host_spec(t).len() == 0 {
        Err(UrlError::NoHost)
    } else if is_local(host_spec(t)) {
        Err(UrlError::LocalAddress)
    } else if is_private(host_spec(t)) {
        Err(UrlError::PrivateAddress)
    } else {
        Ok(t)
    }
}

fn prefixed(s: &[char], p: &str) -> (r: bool)
    ensures
        r == is_prefix(p@, s@),
{
    let pc = chars_of(p);
    starts_with(s, pc.as_slice())
}

/// Checks a download URL: not empty, http or https, a host that is neither
/// local nor private.
pub fn validate_download_url(url: &str) -> (r: Result<ValidatedRequest, UrlError>)
    ensures
        match r {
            Ok(v) => url_check(url@) == Ok::<Seq<char>, UrlError>(v.url@),
            Err(e) => url_check(url@) == Err::<Seq<char>, UrlError>(e),
        },
{
    let c = chars_of(url);
    let t = trim_chars(c.as_slice());
    let ts = string_of(t.as_slice());
    if t.len() == 0 {
        return Err(UrlError::Empty);
    }
    if !prefixed(t.as_slice(), "http://") && !prefixed(t.as_slice(), "https://") {
        return Err(UrlError::UnsupportedScheme);
    }
    let host = host_of(ts.as_str());
    let hc = chars_of(host.as_str());
    if hc.len() == 0 {
        return Err(UrlError::NoHost);
    }
    let h = hc.as_slice();
    let hs = host.as_str();
    if str_eq(hs, "localhost") || prefixed(h, "localhost:") || str_eq(hs, "127.0.0.1") || prefixed(h, "127.0.0.1:")
        || str_eq(hs, "::1") || prefixed(h, "::1:") || str_eq(hs, "0.0.0.0") || prefixed(h, "0.0.0.0:") {
        return Err(UrlError::LocalAddress);
    }
    let parts = split_chars(h, ':');
    assert(views(parts@)[0] == parts@[0]@);
    let ip = parts[0].as_slice();
    if prefixed(ip, "10.") || prefixed(ip, "172.16.") || prefixed(ip, "192.168.") {
        return Err(UrlError::PrivateAddress);
    }
    Ok(ValidatedRequest { url: ts })
}

/// Why a target path was refused.
#[derive(PartialEq, Eq, Structural, Clone, Copy, Debug)]
pub enum PathError {
    /// The path contains `..`.
    Traversal,
}

/// Checks that a target path does not climb out with `..`.
pub fn validate_target_path(path: &str) -> (r: Result<(), PathError>)
    ensures
        r is Err <==> contains_seq(path@, ".."@),
{
    let c = chars_of(path);
    let d = chars_of("..");
    if contains(c.as_slice(), d.as_slice()) {
        Err(PathError::Traversal)
    } else {
        Ok(())
    }
}

/// HTTP statuses worth retrying: 429, 500, 502, 503, 504.
pub fn is_retryable(status: u16) -> (r: bool)
    ensures
        r == (status == 429 || status == 500 || status == 502 || status == 503 || status == 504),
{
    status == 429 || status == 500 || status == 502 || status == 503 || status == 504
}

} // verus!
