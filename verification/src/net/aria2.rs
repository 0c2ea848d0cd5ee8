//! Reading aria2c's progress lines.

use vstd::prelude::*;
use crate::text::{
    chars_of, first_occ, find_from, is_prefix, is_suffix, lemma_first_occ_is, lemma_first_occ_none,
    occurs_at, push_str, starts_with, ends_with, string_of, trim_chars, trim_seq,
};
use crate::glob::{split_char, split_chars, views};
use crate::net::agent::{host_of, host_spec, ua_spec, Fingerprint};
use crate::aspkg::rows::texts;

verus! {

/// The headers aria2c sends: a Chrome User-Agent, `Accept`,
/// `Accept-Language`, and a Referer of the URL's host when it has one.
pub open spec fn aria2c_headers_spec(url: Seq<char>) -> Seq<Seq<char>> {
    let base = seq![
        "User-Agent: "@ + ua_spec(Fingerprint::Chrome120),
        "Accept: */*"@,
        "Accept-Language: zh-CN,zh;q=0.9,en;q=0.8"@
    ];
    let host = host_spec(url);
    if host.len() > 0 { base.push("Referer: https://"@ + host + "/"@) } else { base }
}

/// The headers aria2c sends for `url`.
pub fn aria2c_headers(url: &str) -> (r: Vec<String>)
    ensures
        texts(r@) == aria2c_headers_spec(url@),
{
    let mut v: Vec<String> = Vec::new();
    let mut ua = String::from_str("User-Agent: ");
    push_str(&mut ua, Fingerprint::Chrome120.user_agent());
    v.push(ua);
    v.push(String::from_str("Accept: */*"));
    v.push(String::from_str("Accept-Language: zh-CN,zh;q=0.9,en;q=0.8"));
    let host = host_of(url);
    let ghost base = texts(v@);
    if chars_of(host.as_str()).len() > 0 {
        let mut r = String::from_str("Referer: https://");
        push_str(&mut r, host.as_str());
        push_str(&mut r, "/");
        v.push(r);
        assert(texts(v@) =~= base.push("Referer: https://"@ + host@ + "/"@));
    }
    assert(texts(v@) =~= aria2c_headers_spec(url@));
    v
}

/// The arguments aria2c runs with, before the headers and the URL: the
/// connections (16 connections and 16 pieces of 1 MiB when split, else one),
/// the retry and timeout settings, `--continue=true` when a partial file or
/// the target is there, and the output folder and name.
pub open spec fn aria2c_args_spec(split: bool, resume: bool, dir: Seq<char>, out: Seq<char>) -> Seq<Seq<char>> {
    let conn = if split {
        seq!["-x"@, "16"@, "-s"@, "16"@, "-k"@, "1M"@]
    } else {
        seq!["-x"@, "1"@, "-s"@, "1"@]
    };
    let common = seq![
        "--retry-wait"@, "1"@, "--max-tries"@, "2"@, "--connect-timeout"@, "8"@, "--timeout"@, "120"@,
        "--allow-overwrite=true"@, "--auto-file-renaming=false"@, "--summary-interval"@, "1"@
    ];
    let cont = if resume { seq!["--continue=true"@] } else { Seq::empty() };
    conn + common + cont + seq!["--dir"@, dir, "--out"@, out]
}

fn push_s(v: &mut Vec<String>, s: &str)
    ensures
        texts(final(v)@) == texts(old(v)@).push(s@),
{
    let ghost before = texts(v@);
    v.push(String::from_str(s));
    assert(texts(v@) =~= before.push(s@));
}

/// The arguments aria2c runs with.
pub fn aria2c_args(split: bool, resume: bool, dir: &str, out: &str) -> (r: Vec<String>)
    ensures
        texts(r@) == aria2c_args_spec(split, resume, dir@, out@),
{
    let mut v: Vec<String> = Vec::new();
    push_s(&mut v, "-x");
    push_s(&mut v, if split { "16" } else { "1" });
    push_s(&mut v, "-s");
    push_s(&mut v, if split { "16" } else { "1" });
    if split {
        push_s(&mut v, "-k");
        push_s(&mut v, "1M");
    }
    push_s(&mut v, "--retry-wait");
    push_s(&mut v, "1");
    push_s(&mut v, "--max-tries");
    push_s(&mut v, "2");
    push_s(&mut v, "--connect-timeout");
    push_s(&mut v, "8");
    push_s(&mut v, "--timeout");
    push_s(&mut v, "120");
    push_s(&mut v, "--allow-overwrite=true");
    push_s(&mut v, "--auto-file-renaming=false");
    push_s(&mut v, "--summary-interval");
    push_s(&mut v, "1");
    if resume {
        push_s(&mut v, "--continue=true");
    }
    push_s(&mut v, "--dir");
    push_s(&mut v, dir);
    push_s(&mut v, "--out");
    push_s(&mut v, out);
    assert(texts(v@) =~= aria2c_args_spec(split, resume, dir@, out@));
    v
}

/// Text up to the first carriage return or line feed.
pub open spec fn first_line(s: Seq<char>) -> Seq<char>
    decreases s.len(),
{
    if s.len() == 0 || s[0] == '\r' || s[0] == '\n' {
        Seq::empty()
    } else {
        seq![s[0]] + first_line(s.drop_first())
    }
}

/// A character of a size: an ASCII letter or digit, or a dot.
pub open spec fn size_char(c: char) -> bool {
    c == '.' || ('0' <= c && c <= '9') || ('a' <= c && c <= 'z') || ('A' <= c && c <= 'Z')
}

/// Position of the first character of `s` that cannot be part of a size.
pub open spec fn first_stop(s: Seq<char>) -> Option<int>
    decreases s.len(),
{
    if s.len() == 0 {
        None
    } else if !size_char(s[0]) {
        Some(0)
    } else {
        match first_stop(s.drop_first()) {
            Some(i) => Some(i + 1),
            None => None,
        }
    }
}

/// A speed with its unit per second (`B/s` added to a bare number).
pub open spec fn speed_text(v: Seq<char>) -> Seq<char> {
    if is_suffix("B"@, v) { v + "/s"@ } else { v + "B/s"@ }
}

/// The speed after `DL:` in the first space-separated part that starts with
/// it (parts and the value trimmed).
pub open spec fn dl_speed(parts: Seq<Seq<char>>) -> Option<Seq<char>>
    decreases parts.len(),
{
    if parts.len() == 0 {
        None
    } else if is_prefix("DL:"@, trim_seq(parts[0])) {
        Some(speed_text(trim_seq(trim_seq(parts[0]).skip(3))))
    } else {
        dl_speed(parts.drop_first())
    }
}

/// The fields of an aria2c progress line `[#gid cur/total(pct) ... DL:speed ...]`
/// (first line only): the current and total size texts and the speed; none
/// unless the line starts with `[#` and has a space, then a `/`, then a
/// character that ends the total.
pub open spec fn progress_spec(line: Seq<char>) -> Option<(Seq<char>, Seq<char>, Option<Seq<char>>)> {
    let seg = first_line(line);
    if !is_prefix("[#"@, seg) {
        None
    } else {
        match first_occ(seg, " "@, 0) {
            None => None,
            Some(sp) => {
                let rest = seg.skip(sp + 1);
                match first_occ(rest, "/"@, 0) {
                    None => None,
                    Some(sl) => {
                        let after = rest.skip(sl + 1);
                        match first_stop(after) {
                            None => None,
                            Some(e) => Some((rest.take(sl), after.take(e), dl_speed(split_char(seg, ' ')))),
                        }
                    },
                }
            },
        }
    }
}

fn first_line_exec(s: &[char]) -> (r: Vec<char>)
    ensures
        r@ == first_line(s@),
{
    let mut v: Vec<char> = Vec::new();
    let mut i: usize = 0;
    assert(s@.skip(0) =~= s@);
    while i < s.len() && s[i] != '\r' && s[i] != '\n'
        invariant
            i <= s.len(),
            v@ + first_line(s@.skip(i as int)) == first_line(s@),
        decreases s.len() - i,
    {
        assert(s@.skip(i as int).drop_first() =~= s@.skip(i + 1));
        assert(s@.skip(i as int)[0] == s@[i as int]);
        let ghost before = v@;
        v.push(s[i]);
        assert(before + first_line(s@.skip(i as int)) =~= v@ + first_line(s@.skip(i + 1)));
        i += 1;
    }
    proof {
        if i < s.len() {
            assert(s@.skip(i as int)[0] == s@[i as int]);
        }
        assert(first_line(s@.skip(i as int)) =~= Seq::<char>::empty());
        assert(v@ + Seq::<char>::empty() =~= v@);
    }
    v
}

fn first_stop_exec(s: &[char]) -> (r: Option<usize>)
    ensures
        match r {
            Some(i) => first_stop(s@) == Some(i as int) && i < s.len(),
            None => first_stop(s@) is None,
        },
{
    let mut i: usize = 0;
    assert(s@.skip(0) =~= s@);
    while i < s.len()
        invariant
            i <= s.len(),
            first_stop(s@) == (match first_stop(s@.skip(i as int)) {
                Some(k) => Some(k + i),
                None => None,
            }),
        decreases s.len() - i,
    {
        assert(s@.skip(i as int).drop_first() =~= s@.skip(i + 1));
        assert(s@.skip(i as int)[0] == s@[i as int]);
        let c = s[i];
        if !(c == '.' || ('0' <= c && c <= '9') || ('a' <= c && c <= 'z') || ('A' <= c && c <= 'Z')) {
            return Some(i);
        }
        i += 1;
    }
    assert(s@.skip(i as int) =~= Seq::<char>::empty());
    None
}

fn sub_chars(s: &[char], a: usize, b: usize) -> (r: Vec<char>)
    requires
        a <= b <= s.len(),
    ensures
        r@ == s@.subrange(a as int, b as int),
{
    let mut v: Vec<char> = Vec::new();
    let mut i = a;
    while i < b
        invariant
            a <= i <= b <= s.len(),
            v@ == s@.subrange(a as int, i as int),
        decreases b - i,
    {
        v.push(s[i]);
        assert(s@.subrange(a as int, i + 1) =~= s@.subrange(a as int, i as int).push(s@[i as int]));
        i += 1;
    }
    v
}

fn dl_speed_exec(parts: &Vec<Vec<char>>) -> (r: Option<String>)
    ensures
        match r {
            Some(t) => dl_speed(views(parts@)) == Some(t@),
            None => dl_speed(views(parts@)) is None,
        },
{
    let ghost pv = views(parts@);
    let mut i: usize = 0;
    assert(pv.skip(0) =~= pv);
    let dl = chars_of("DL:");
    while i < parts.len()
        invariant
            i <= parts.len(),
            pv == views(parts@),
            dl@ == "DL:"@,
            dl_speed(pv) == dl_speed(pv.skip(i as int)),
        decreases parts.len() - i,
    {
        assert(pv.skip(i as int).drop_first() =~= pv.skip(i + 1));
        assert(pv.skip(i as int)[0] == parts@[i as int]@);
        let t = trim_chars(parts[i].as_slice());
        if starts_with(t.as_slice(), dl.as_slice()) {
            proof {
                reveal_strlit("DL:");
            }
            let rest = sub_chars(t.as_slice(), 3, t.len());
            assert(rest@ =~= t@.skip(3));
            let v = trim_chars(rest.as_slice());
            let mut out = string_of(v.as_slice());
            if ends_with(v.as_slice(), chars_of("B").as_slice()) {
                push_str(&mut out, "/s");
            } else {
                push_str(&mut out, "B/s");
            }
            return Some(out);
        }
        i += 1;
    }
    assert(pv.skip(i as int) =~= Seq::<Seq<char>>::empty());
    None
}

/// The current size, total size and speed texts of an aria2c progress line.
pub fn progress_fields(line: &str) -> (r: Option<(String, String, Option<String>)>)
    ensures
        match r {
            Some(f) => progress_spec(line@) == Some((f.0@, f.1@, match f.2 {
                Some(v) => Some(v@),
                None => None,
            })),
            None => progress_spec(line@) is None,
        },
{
    let c = chars_of(line);
    let seg = first_line_exec(c.as_slice());
    if !starts_with(seg.as_slice(), chars_of("[#").as_slice()) {
        return None;
    }
    let space = chars_of(" ");
    proof {
        reveal_strlit(" ");
        reveal_strlit("/");
    }
    assert(space@.len() == 1);
    let found = find_from(seg.as_slice(), space.as_slice(), 0);
    let sp = match found {
        Some(i) => i,
        None => {
            proof {
                lemma_first_occ_none(seg@, " "@, 0);
            }
            return None;
        },
    };
    assert(found == Some(sp));
    assert(occurs_at(seg@, space@, sp as int));
    proof {
        lemma_first_occ_is(seg@, " "@, 0, sp as int);
    }
    assert(space@.len() == 1);
    assert(sp + space@.len() <= seg@.len());
    assert(sp + 1 <= seg.len());
    let rest = sub_chars(seg.as_slice(), sp + 1, seg.len());
    assert(rest@ =~= seg@.skip(sp + 1));
    let slash = chars_of("/");
    assert(slash@.len() == 1);
    let found2 = find_from(rest.as_slice(), slash.as_slice(), 0);
    let sl = match found2 {
        Some(i) => i,
        None => {
            proof {
                lemma_first_occ_none(rest@, "/"@, 0);
            }
            return None;
        },
    };
    assert(found2 == Some(sl));
    assert(occurs_at(rest@, slash@, sl as int));
    proof {
        lemma_first_occ_is(rest@, "/"@, 0, sl as int);
    }
    let after = sub_chars(rest.as_slice(), sl + 1, rest.len());
    assert(after@ =~= rest@.skip(sl + 1));
    let e = match first_stop_exec(after.as_slice()) {
        Some(e) => e,
        None => {
            return None;
        },
    };
    let cur = sub_chars(rest.as_slice(), 0, sl);
    assert(cur@ =~= rest@.take(sl as int));
    let total = sub_chars(after.as_slice(), 0, e);
    assert(total@ =~= after@.take(e as int));
    let parts = split_chars(seg.as_slice(), ' ');
    let speed = dl_speed_exec(&parts);
    Some((string_of(cur.as_slice()), string_of(total.as_slice()), speed))
}

} // verus!
