//! The decisions of a plain HTTP download: up to three attempts, retried
//! after a failed call or an error status; an HTML or text answer is taken
//! for an anti-leech page, answered once with the cookie it sets, or once
//! more with the URL cut before its `tads` parameter; any other answer is
//! saved.

use vstd::prelude::*;
use vstd::utf8::is_char_boundary;
use crate::text::{chars_of, contains, contains_seq, dec, find_from, first_occ, occurs_at, lemma_first_occ_is, lemma_first_occ_none, push_str, string_of, u64_to_string};
use crate::aspkg::software::utf8;
use crate::as4::fetch::{utf8_prefix, utf8_prefix_text};
use crate::aspkg::software::opt_str_view;

verus! {

/// Whether a `Content-Type` marks an HTML or text page.
pub fn is_html_content_type(ct: &str) -> (r: bool)
    ensures
        r == (contains_seq(ct@, "text/html"@) || contains_seq(ct@, "text/plain"@)),
{
    let c = chars_of(ct);
    contains(c.as_slice(), chars_of("text/html").as_slice()) || contains(c.as_slice(), chars_of("text/plain").as_slice())
}

/// The next request: its number (from 0), the URL and the cookie it sends.
pub struct UreqAttempt {
    pub attempt: u8,
    pub url: String,
    pub cookie: Option<String>,
}

impl UreqAttempt {
    /// The first request: the URL as given, no cookie.
    pub fn first(url: &str) -> (r: Self)
        ensures
            r.attempt == 0,
            r.url@ == url@,
            r.cookie is None,
    {
        UreqAttempt { attempt: 0, url: String::from_str(url), cookie: None }
    }
}

/// What a request gave: the call failed (with the error's text), or an
/// answer with its status, `Content-Type` (empty when absent) and
/// `Set-Cookie` header.
pub enum UreqEvent {
    CallFailed(String),
    Answer { status: u16, content_type: String, set_cookie: Option<String> },
}

/// What to do next: another request, save the answer's body, or give up
/// with the last error.
pub enum UreqAction {
    Retry(UreqAttempt),
    Save,
    Fail(String),
}

/// An action as plain values: (0 retry, 1 save, 2 fail), the next request's
/// number, URL and cookie (retry), and the error text (fail).
pub open spec fn action_view(a: UreqAction) -> (int, int, Seq<char>, Option<Seq<char>>, Seq<char>) {
    match a {
        UreqAction::Retry(n) => (0, n.attempt as int, n.url@, opt_str_view(n.cookie), Seq::empty()),
        UreqAction::Save => (1, 0, Seq::empty(), None, Seq::empty()),
        UreqAction::Fail(e) => (2, 0, Seq::empty(), None, e@),
    }
}

/// After a failed attempt with error `err`: the same request again while
/// attempts are left, else give up with `err`.
pub open spec fn again(st: UreqAttempt, err: Seq<char>) -> (int, int, Seq<char>, Option<Seq<char>>, Seq<char>) {
    if st.attempt + 1 < 3 {
        (0, st.attempt + 1, st.url@, opt_str_view(st.cookie), Seq::empty())
    } else {
        (2, 0, Seq::empty(), None, err)
    }
}

/// The `Content-Type` as an error shows it: its first 40 bytes and `...`
/// when it is longer.
pub open spec fn ct_short(ct: Seq<char>) -> Seq<char> {
    if utf8(ct).len() > 40 { utf8_prefix_text(ct, 40) + "..."@ } else { ct }
}

/// An HTML or text `Content-Type`.
pub open spec fn html_ct(ct: Seq<char>) -> bool {
    contains_seq(ct, "text/html"@) || contains_seq(ct, "text/plain"@)
}

/// The URL cut before its first `?tads`, else before its first `&tads`
/// (none when it has neither).
pub open spec fn tads_cut(url: Seq<char>) -> Option<Seq<char>> {
    match first_occ(url, "?tads"@, 0) {
        Some(p) => Some(url.take(p)),
        None => match first_occ(url, "&tads"@, 0) {
            Some(p) => Some(url.take(p)),
            None => None,
        },
    }
}

/// The step of a download after event `ev` of request `st`.
pub open spec fn ureq_step_spec(st: UreqAttempt, ev: UreqEvent) -> (int, int, Seq<char>, Option<Seq<char>>, Seq<char>) {
    match ev {
        UreqEvent::CallFailed(e) => again(st, "ureq 请求失败: "@ + e@),
        UreqEvent::Answer { status, content_type, set_cookie } => {
            let ct = content_type@;
            if status >= 400 {
                again(st, "HTTP "@ + dec(status as nat) + " (Content-Type: "@ + ct + ")"@)
            } else if html_ct(ct) {
                if st.attempt == 0 && set_cookie is Some {
                    (0, 1, st.url@, opt_str_view(set_cookie), Seq::empty())
                } else if st.attempt == 1 && st.cookie is None && tads_cut(st.url@) is Some {
                    (0, 2, tads_cut(st.url@)->0, None, Seq::empty())
                } else {
                    again(
                        st,
                        "服务器返回了 HTML 页面（可能反盗链），HTTP="@ + dec(status as nat) + " Content-Type="@ + ct_short(ct),
                    )
                }
            } else {
                (1, 0, Seq::empty(), None, Seq::empty())
            }
        },
    }
}

/// The event can be handled: a `Content-Type` longer than 40 bytes is cut
/// between characters (elsewhere the cut panics).
pub open spec fn event_ok(ev: UreqEvent) -> bool {
    match ev {
        UreqEvent::Answer { content_type, .. } => utf8(content_type@).len() > 40 ==> is_char_boundary(
            utf8(content_type@),
            40,
        ),
        UreqEvent::CallFailed(_) => true,
    }
}

fn cut_at(url: &str, pat: &str) -> (r: Option<String>)
    ensures
        match r {
            Some(s) => first_occ(url@, pat@, 0) matches Some(p) && s@ == url@.take(p),
            None => first_occ(url@, pat@, 0) is None,
        },
{
    let c = chars_of(url);
    let p = chars_of(pat);
    match find_from(c.as_slice(), p.as_slice(), 0) {
        Some(i) => {
            proof {
                lemma_first_occ_is(url@, pat@, 0, i as int);
            }
            let mut v: Vec<char> = Vec::new();
            let mut k: usize = 0;
            while k < i
                invariant
                    k <= i <= c.len(),
                    v@ == c@.take(k as int),
                decreases i - k,
            {
                v.push(c[k]);
                assert(c@.take(k + 1) =~= c@.take(k as int).push(c@[k as int]));
                k += 1;
            }
            Some(string_of(v.as_slice()))
        },
        None => {
            proof {
                lemma_first_occ_none(url@, pat@, 0);
            }
            None
        },
    }
}

fn again_exec(st: &UreqAttempt, err: String) -> (r: UreqAction)
    requires
        st.attempt < 3,
    ensures
        action_view(r) == again(*st, err@),
{
    if st.attempt + 1 < 3 {
        let cookie = match &st.cookie {
            Some(c) => Some(c.clone()),
            None => None,
        };
        UreqAction::Retry(UreqAttempt { attempt: st.attempt + 1, url: st.url.clone(), cookie })
    } else {
        UreqAction::Fail(err)
    }
}

/// What to do after event `ev` of request `st`.
pub fn ureq_step(st: &UreqAttempt, ev: &UreqEvent) -> (r: UreqAction)
    requires
        st.attempt < 3,
        event_ok(*ev),
    ensures
        action_view(r) == ureq_step_spec(*st, *ev),
        r matches UreqAction::Retry(n) ==> n.attempt == st.attempt + 1 && n.attempt < 3,
        r matches UreqAction::Fail(_) ==> st.attempt == 2,
{
    match ev {
        UreqEvent::CallFailed(e) => {
            let mut m = String::from_str("ureq 请求失败: ");
            push_str(&mut m, e.as_str());
            again_exec(st, m)
        },
        UreqEvent::Answer { status, content_type, set_cookie } => {
            if *status >= 400 {
                let mut m = String::from_str("HTTP ");
                push_str(&mut m, u64_to_string(*status as u64).as_str());
                push_str(&mut m, " (Content-Type: ");
                push_str(&mut m, content_type.as_str());
                push_str(&mut m, ")");
                again_exec(st, m)
            } else if is_html_content_type(content_type.as_str()) {
                if st.attempt == 0 && set_cookie.is_some() {
                    let c = match set_cookie {
                        Some(c) => c.clone(),
                        None => String::new(),
                    };
                    return UreqAction::Retry(UreqAttempt { attempt: 1, url: st.url.clone(), cookie: Some(c) });
                }
                if st.attempt == 1 && st.cookie.is_none() {
                    match cut_at(st.url.as_str(), "?tads") {
                        Some(u) => {
                            return UreqAction::Retry(UreqAttempt { attempt: 2, url: u, cookie: None });
                        },
                        None => {},
                    }
                    match cut_at(st.url.as_str(), "&tads") {
                        Some(u) => {
                            return UreqAction::Retry(UreqAttempt { attempt: 2, url: u, cookie: None });
                        },
                        None => {},
                    }
                }
                let mut m = String::from_str("服务器返回了 HTML 页面（可能反盗链），HTTP=");
                push_str(&mut m, u64_to_string(*status as u64).as_str());
                push_str(&mut m, " Content-Type=");
                let len = content_type.as_str().as_bytes().len();
                if len > 40 {
                    let p = utf8_prefix(content_type.as_str(), 40);
                    push_str(&mut m, p.as_str());
                    push_str(&mut m, "...");
                } else {
                    push_str(&mut m, content_type.as_str());
                }
                again_exec(st, m)
            } else {
                UreqAction::Save
            }
        },
    }
}

} // verus!
