//! Where an installed program lives: the registry install location, the
//! Start Menu shortcuts, a Steam manifest, or the folder of the uninstaller.

use vstd::prelude::*;
use crate::text::{
    chars_of, contains, contains_seq, find_from, first_occ, is_digit, is_prefix, lemma_first_occ_is, lemma_first_occ_none,
    lower_chars, lowercase, occurs_at, push_all, starts_with, str_eq, string_of,
};
use crate::aspkg::software::utf8;
use crate::aspkg::list::{
    clean_path, format_path, is_sensible_install_path, sensible_path, path_like, looks_like_path,
    expand_env, expand_env_spec, contains_msiexec,
};
use crate::environ::EnvVars;
use crate::glob::{split_char, split_chars, views};
use crate::text::{
    is_ws, is_whitespace, u64_text, parse_u64, trim_seq, trim_chars, trim_start_char, trim_end_char,
    trim_start_char_vec, trim_end_char_vec, eq_ascii_ci, digit_run, digit_run_end, u64_to_string, dec,
    push_str, push_char, to_lower,
};

verus! {

/// Start Menu shortcuts: lower-cased shortcut name with the folders its
/// targets live in, in the order the index is walked.
pub type StartMenuIndex = Vec<(String, Vec<String>)>;

/// The index as plain text.
pub open spec fn index_view(idx: StartMenuIndex) -> Seq<(Seq<char>, Seq<Seq<char>>)> {
    idx@.map_values(|e: (String, Vec<String>)| (e.0@, e.1@.map_values(|t: String| t@)))
}

/// The first target folder that is a plausible install location, cleaned.
pub open spec fn first_sensible(ts: Seq<Seq<char>>) -> Option<Seq<char>>
    decreases ts.len(),
{
    if ts.len() == 0 {
        None
    } else if sensible_path(clean_path(ts[0])) {
        Some(clean_path(ts[0]))
    } else {
        first_sensible(ts.drop_first())
    }
}

fn hit(targets: &Vec<String>) -> (r: Option<String>)
    ensures
        opt_text(r) == first_sensible(targets@.map_values(|t: String| t@)),
{
    let ghost ts = targets@.map_values(|t: String| t@);
    let mut i: usize = 0;
    assert(ts.skip(0) =~= ts);
    while i < targets.len()
        invariant
            i <= targets.len(),
            ts == targets@.map_values(|t: String| t@),
            first_sensible(ts) == first_sensible(ts.skip(i as int)),
        decreases targets.len() - i,
    {
        assert(ts.skip(i as int).drop_first() =~= ts.skip(i + 1));
        assert(ts.skip(i as int)[0] == targets@[i as int]@);
        let cleaned = format_path(targets[i].as_str());
        if is_sensible_install_path(cleaned.as_str()) {
            return Some(cleaned);
        }
        i += 1;
    }
    assert(ts.skip(i as int) =~= Seq::<Seq<char>>::empty());
    None
}

/// Text of an optional string.
pub open spec fn opt_text(o: Option<String>) -> Option<Seq<char>> {
    match o {
        Some(s) => Some(s@),
        None => None,
    }
}

/// A test on shortcut names.
pub enum KeyTest {
    /// The name starts with the first text and contains the second.
    StartsContains(String, String),
    /// The name starts with the text.
    StartsWith(String),
    /// The name starts with the text and, when the flag is set, contains the second text.
    StartsMaybeContains(String, String, bool),
    /// The name starts with the text and is longer than it.
    Extends(String),
}

/// A name test as plain values: kind (0 starts-and-contains, 1 starts,
/// 2 starts-and-maybe-contains, 3 extends), texts and flag.
pub type TestView = (int, Seq<char>, Seq<char>, bool);

pub open spec fn test_view(t: KeyTest) -> TestView {
    match t {
        KeyTest::StartsContains(a, b) => (0, a@, b@, true),
        KeyTest::StartsWith(a) => (1, a@, Seq::empty(), false),
        KeyTest::StartsMaybeContains(a, b, f) => (2, a@, b@, f),
        KeyTest::Extends(a) => (3, a@, Seq::empty(), false),
    }
}

/// Whether the shortcut name `key` passes the test.
pub open spec fn key_passes(t: TestView, key: Seq<char>) -> bool {
    if t.0 == 0 {
        is_prefix(t.1, key) && contains_seq(key, t.2)
    } else if t.0 == 1 {
        is_prefix(t.1, key)
    } else if t.0 == 2 {
        is_prefix(t.1, key) && (!t.3 || contains_seq(key, t.2))
    } else {
        key != t.1 && is_prefix(t.1, key)
    }
}

fn passes(t: &KeyTest, key: &str) -> (r: bool)
    ensures
        r == key_passes(test_view(*t), key@),
{
    let k = chars_of(key);
    match t {
        KeyTest::StartsContains(a, b) => {
            let ac = chars_of(a.as_str());
            let bc = chars_of(b.as_str());
            starts_with(k.as_slice(), ac.as_slice()) && contains(k.as_slice(), bc.as_slice())
        },
        KeyTest::StartsWith(a) => {
            let ac = chars_of(a.as_str());
            starts_with(k.as_slice(), ac.as_slice())
        },
        KeyTest::StartsMaybeContains(a, b, f) => {
            let ac = chars_of(a.as_str());
            let bc = chars_of(b.as_str());
            starts_with(k.as_slice(), ac.as_slice()) && (!*f || contains(k.as_slice(), bc.as_slice()))
        },
        KeyTest::Extends(a) => {
            let ac = chars_of(a.as_str());
            !str_eq(key, a.as_str()) && starts_with(k.as_slice(), ac.as_slice())
        },
    }
}

/// The first usable folder of the first `n` shortcuts whose name passes the test.
pub open spec fn scan_upto(idx: Seq<(Seq<char>, Seq<Seq<char>>)>, t: TestView, n: int) -> Option<Seq<char>>
    decreases n,
{
    if n <= 0 {
        None
    } else {
        match scan_upto(idx, t, n - 1) {
            Some(h) => Some(h),
            None => if key_passes(t, idx[n - 1].0) { first_sensible(idx[n - 1].1) } else { None },
        }
    }
}

/// The first usable folder of the shortcuts whose name passes the test, in index order.
pub open spec fn scan_hit(idx: Seq<(Seq<char>, Seq<Seq<char>>)>, t: TestView) -> Option<Seq<char>> {
    scan_upto(idx, t, idx.len() as int)
}

fn scan(index: &StartMenuIndex, t: &KeyTest) -> (r: Option<String>)
    ensures
        opt_text(r) == scan_hit(index_view(*index), test_view(*t)),
{
    let ghost iv = index_view(*index);
    let mut found: Option<String> = None;
    let mut i: usize = 0;
    while i < index.len()
        invariant
            i <= index.len(),
            iv == index_view(*index),
            opt_text(found) == scan_upto(iv, test_view(*t), i as int),
        decreases index.len() - i,
    {
        if found.is_none() {
            assert(iv[i as int] == (index@[i as int].0@, index@[i as int].1@.map_values(|t: String| t@)));
            if passes(t, index[i].0.as_str()) {
                found = hit(&index[i].1);
            }
        }
        i += 1;
    }
    found
}

/// The usable folder of the first shortcut named exactly `key`.
pub open spec fn exact_hit(idx: Seq<(Seq<char>, Seq<Seq<char>>)>, key: Seq<char>) -> Option<Seq<char>>
    decreases idx.len(),
{
    if idx.len() == 0 {
        None
    } else if idx[0].0 == key {
        first_sensible(idx[0].1)
    } else {
        exact_hit(idx.drop_first(), key)
    }
}

fn exact(index: &StartMenuIndex, key: &str) -> (r: Option<String>)
    ensures
        opt_text(r) == exact_hit(index_view(*index), key@),
{
    let ghost iv = index_view(*index);
    let mut i: usize = 0;
    assert(iv.skip(0) =~= iv);
    while i < index.len()
        invariant
            i <= index.len(),
            iv == index_view(*index),
            exact_hit(iv, key@) == exact_hit(iv.skip(i as int), key@),
        decreases index.len() - i,
    {
        assert(iv.skip(i as int).drop_first() =~= iv.skip(i + 1));
        assert(iv.skip(i as int)[0] == iv[i as int]);
        assert(iv[i as int] == (index@[i as int].0@, index@[i as int].1@.map_values(|t: String| t@)));
        if str_eq(index[i].0.as_str(), key) {
            return hit(&index[i].1);
        }
        i += 1;
    }
    assert(iv.skip(i as int) =~= Seq::<(Seq<char>, Seq<Seq<char>>)>::empty());
    None
}

/// Among the first `n` shortcuts whose name starts with `p` and that have a
/// usable folder, the one with the shortest name (in bytes; the earlier on
/// ties): its name length and folder.
pub open spec fn shortest_upto(idx: Seq<(Seq<char>, Seq<Seq<char>>)>, p: Seq<char>, n: int) -> Option<(nat, Seq<char>)>
    decreases n,
{
    if n <= 0 {
        None
    } else {
        let prev = shortest_upto(idx, p, n - 1);
        let e = idx[n - 1];
        if is_prefix(p, e.0) && first_sensible(e.1) is Some {
            let l = utf8(e.0).len();
            match prev {
                Some(b) => if b.0 <= l { prev } else { Some((l, first_sensible(e.1).unwrap())) },
                None => Some((l, first_sensible(e.1).unwrap())),
            }
        } else {
            prev
        }
    }
}

/// The folder of the shortest-named shortcut starting with `p` that has one.
pub open spec fn shortest_hit(idx: Seq<(Seq<char>, Seq<Seq<char>>)>, p: Seq<char>) -> Option<Seq<char>> {
    match shortest_upto(idx, p, idx.len() as int) {
        Some(b) => Some(b.1),
        None => None,
    }
}

fn shortest(index: &StartMenuIndex, p: &str) -> (r: Option<String>)
    ensures
        opt_text(r) == shortest_hit(index_view(*index), p@),
{
    let ghost iv = index_view(*index);
    let pc = chars_of(p);
    let mut best: Option<(usize, String)> = None;
    let mut i: usize = 0;
    while i < index.len()
        invariant
            i <= index.len(),
            iv == index_view(*index),
            pc@ == p@,
            match best {
                Some(b) => shortest_upto(iv, p@, i as int) == Some((b.0 as nat, b.1@)),
                None => shortest_upto(iv, p@, i as int) is None,
            },
        decreases index.len() - i,
    {
        assert(iv[i as int] == (index@[i as int].0@, index@[i as int].1@.map_values(|t: String| t@)));
        let k = chars_of(index[i].0.as_str());
        if starts_with(k.as_slice(), pc.as_slice()) {
            match hit(&index[i].1) {
                Some(h) => {
                    let l = index[i].0.as_str().as_bytes().len();
                    let replace = match &best {
                        Some(b) => !(b.0 <= l),
                        None => true,
                    };
                    if replace {
                        best = Some((l, h));
                    }
                },
                None => {},
            }
        }
        i += 1;
    }
    match best {
        Some(b) => Some(b.1),
        None => None,
    }
}

/// The first version prefix (in order) whose shortest matching shortcut has a folder.
pub open spec fn prefixes_hit(idx: Seq<(Seq<char>, Seq<Seq<char>>)>, ps: Seq<Seq<char>>) -> Option<Seq<char>>
    decreases ps.len(),
{
    if ps.len() == 0 {
        None
    } else {
        match shortest_hit(idx, ps[0]) {
            Some(h) => Some(h),
            None => prefixes_hit(idx, ps.drop_first()),
        }
    }
}

/// Position of the first ASCII digit of `s`, if any.
pub open spec fn first_digit(s: Seq<char>) -> Option<int> {
    if exists|i: int| 0 <= i < s.len() && is_digit(s[i]) {
        Some(choose|i: int| 0 <= i < s.len() && is_digit(s[i]) && forall|j: int| 0 <= j < i ==> !is_digit(s[j]))
    } else {
        None
    }
}

/// A name such as `python3.13` split at its first digit into a non-empty
/// stem and the rest.
pub open spec fn stem_split(s: Seq<char>) -> Option<(Seq<char>, Seq<char>)> {
    match first_digit(s) {
        Some(i) => if i > 0 { Some((s.take(i), s.skip(i))) } else { None },
        None => None,
    }
}

/// `major.minor` of a version: the text before its second dot (all of it
/// with a single dot); none without a dot.
pub open spec fn two_parts(v: Seq<char>) -> Option<Seq<char>> {
    match first_occ(v, seq!['.'], 0) {
        None => None,
        Some(i) => match first_occ(v, seq!['.'], i + 1) {
            Some(j) => Some(v.take(j)),
            None => Some(v),
        },
    }
}

/// `a b`.
pub open spec fn spaced(a: Seq<char>, b: Seq<char>) -> Seq<char> {
    a + seq![' '] + b
}

/// Shortcut name prefixes tried for a version, in order.
pub open spec fn version_prefixes(ln: Seq<char>, stem: Option<(Seq<char>, Seq<char>)>, v: Seq<char>) -> Seq<Seq<char>> {
    let mm: Seq<Seq<char>> = match two_parts(v) {
        Some(t) => seq![spaced(ln, t)] + match stem { Some(r) => seq![spaced(r.0, t)], None => Seq::<Seq<char>>::empty() },
        None => Seq::empty(),
    };
    mm + seq![spaced(ln, v)] + match stem { Some(r) => seq![spaced(r.0, v)], None => Seq::<Seq<char>>::empty() }
}

pub open spec fn or_else(a: Option<Seq<char>>, b: Option<Seq<char>>) -> Option<Seq<char>> {
    match a {
        Some(x) => Some(x),
        None => b,
    }
}

/// The install folder found through the Start Menu shortcuts of program
/// `name` (optionally of `version`), or `-`: the shortcut named like the
/// program, then the shortest shortcut starting with `name major.minor`
/// (and the other version prefixes), then shortcuts starting with the name
/// and mentioning the version, then any starting with the name, then any
/// extending the name.
pub open spec fn start_menu_path(name: Seq<char>, version: Option<Seq<char>>, idx: Seq<(Seq<char>, Seq<Seq<char>>)>) -> Seq<char> {
    let ln = lowercase(name);
    let lns = ln + seq![' '];
    let stem = stem_split(ln);
    let step1 = exact_hit(idx, ln);
    let step2 = match version {
        Some(v) => prefixes_hit(idx, version_prefixes(ln, stem, v)),
        None => None,
    };
    let step3 = match version {
        Some(v) => or_else(
            scan_hit(idx, (0, lns, lowercase(v), true)),
            match stem {
                Some(r) => scan_hit(idx, (0, r.0 + seq![' '], lowercase(v), true)),
                None => None,
            },
        ),
        None => None,
    };
    let step4 = or_else(
        scan_hit(idx, (1, lns, Seq::empty(), false)),
        match stem {
            Some(r) => scan_hit(idx, (2, r.0 + seq![' '], r.1, utf8(r.1).len() >= 3)),
            None => None,
        },
    );
    let step5 = scan_hit(idx, (3, ln, Seq::empty(), false));
    match or_else(step1, or_else(step2, or_else(step3, or_else(step4, step5)))) {
        Some(p) => p,
        None => "-"@,
    }
}

fn first_digit_index(s: &[char]) -> (r: Option<usize>)
    ensures
        match r {
            Some(i) => first_digit(s@) == Some(i as int) && i < s.len(),
            None => first_digit(s@) is None,
        },
{
    let mut i: usize = 0;
    while i < s.len() && !crate::text::is_ascii_digit(s[i])
        invariant
            i <= s.len(),
            forall|j: int| 0 <= j < i ==> !is_digit(s@[j]),
        decreases s.len() - i,
    {
        i += 1;
    }
    if i < s.len() {
        proof {
            let c = choose|c: int| 0 <= c < s@.len() && is_digit(s@[c]) && forall|j: int| 0 <= j < c ==> !is_digit(s@[j]);
            assert(0 <= c < s@.len() && is_digit(s@[c]) && forall|j: int| 0 <= j < c ==> !is_digit(s@[j]));
            if c < i {
                assert(!is_digit(s@[c]));
            } else if c > i {
                assert(!is_digit(s@[i as int]));
            }
        }
        Some(i)
    } else {
        None
    }
}

fn two_parts_exec(v: &[char]) -> (r: Option<Vec<char>>)
    ensures
        match r {
            Some(t) => two_parts(v@) == Some(t@),
            None => two_parts(v@) is None,
        },
{
    let dot: Vec<char> = vec!['.'];
    assert(dot@ =~= seq!['.']);
    match find_from(v, dot.as_slice(), 0) {
        None => {
            proof {
                lemma_first_occ_none(v@, seq!['.'], 0);
            }
            None
        },
        Some(i) => {
            proof {
                lemma_first_occ_is(v@, seq!['.'], 0, i as int);
            }
            assert(i < v.len());
            match find_from(v, dot.as_slice(), i + 1) {
                Some(j) => {
                    proof {
                        lemma_first_occ_is(v@, seq!['.'], i + 1, j as int);
                    }
                    let mut t: Vec<char> = Vec::new();
                    let mut k: usize = 0;
                    while k < j
                        invariant
                            k <= j,
                            j <= v.len(),
                            t@ == v@.take(k as int),
                        decreases j - k,
                    {
                        t.push(v[k]);
                        assert(v@.take(k + 1) =~= v@.take(k as int).push(v@[k as int]));
                        k += 1;
                    }
                    Some(t)
                },
                None => {
                    proof {
                        lemma_first_occ_none(v@, seq!['.'], i + 1);
                    }
                    let mut t: Vec<char> = Vec::new();
                    let mut k: usize = 0;
                    while k < v.len()
                        invariant
                            k <= v.len(),
                            t@ == v@.take(k as int),
                        decreases v.len() - k,
                    {
                        t.push(v[k]);
                        assert(v@.take(k + 1) =~= v@.take(k as int).push(v@[k as int]));
                        k += 1;
                    }
                    assert(v@.take(v@.len() as int) =~= v@);
                    Some(t)
                },
            }
        },
    }
}

fn spaced_string(a: &[char], b: &[char]) -> (r: String)
    ensures
        r@ == spaced(a@, b@),
{
    let mut s = string_of(a);
    crate::text::push_char(&mut s, ' ');
    push_all(&mut s, b);
    s
}

fn sub_chars(s: &[char], from: usize, to: usize) -> (r: Vec<char>)
    requires
        from <= to <= s.len(),
    ensures
        r@ == s@.subrange(from as int, to as int),
{
    let mut t: Vec<char> = Vec::new();
    let mut k = from;
    while k < to
        invariant
            from <= k <= to <= s.len(),
            t@ == s@.subrange(from as int, k as int),
        decreases to - k,
    {
        t.push(s[k]);
        assert(s@.subrange(from as int, k + 1) =~= s@.subrange(from as int, k as int).push(s@[k as int]));
        k += 1;
    }
    t
}

/// The stem and rest of a name split at its first digit.
fn stem_split_exec(s: &[char]) -> (r: Option<(Vec<char>, Vec<char>)>)
    ensures
        match r {
            Some(p) => stem_split(s@) == Some((p.0@, p.1@)),
            None => stem_split(s@) is None,
        },
{
    match first_digit_index(s) {
        Some(i) => {
            if i > 0 {
                let a = sub_chars(s, 0, i);
                let b = sub_chars(s, i, s.len());
                assert(a@ =~= s@.take(i as int));
                assert(b@ =~= s@.skip(i as int));
                Some((a, b))
            } else {
                None
            }
        },
        None => None,
    }
}

pub open spec fn texts(v: Seq<String>) -> Seq<Seq<char>> {
    v.map_values(|s: String| s@)
}

fn version_prefix_list(ln: &[char], stem: &Option<(Vec<char>, Vec<char>)>, v: &[char]) -> (r: Vec<String>)
    ensures
        texts(r@) == version_prefixes(ln@, match stem { Some(p) => Some((p.0@, p.1@)), None => None }, v@),
{
    let ghost st = match stem { Some(p) => Some((p.0@, p.1@)), None => None };
    let mut out: Vec<String> = Vec::new();
    match two_parts_exec(v) {
        Some(t) => {
            out.push(spaced_string(ln, t.as_slice()));
            match stem {
                Some(p) => out.push(spaced_string(p.0.as_slice(), t.as_slice())),
                None => {},
            }
        },
        None => {},
    }
    out.push(spaced_string(ln, v));
    match stem {
        Some(p) => out.push(spaced_string(p.0.as_slice(), v)),
        None => {},
    }
    assert(texts(out@) =~= version_prefixes(ln@, st, v@));
    out
}

fn prefixes_first_hit(index: &StartMenuIndex, ps: &Vec<String>) -> (r: Option<String>)
    ensures
        opt_text(r) == prefixes_hit(index_view(*index), texts(ps@)),
{
    let ghost tv = texts(ps@);
    let mut i: usize = 0;
    assert(tv.skip(0) =~= tv);
    while i < ps.len()
        invariant
            i <= ps.len(),
            tv == texts(ps@),
            prefixes_hit(index_view(*index), tv) == prefixes_hit(index_view(*index), tv.skip(i as int)),
        decreases ps.len() - i,
    {
        assert(tv.skip(i as int).drop_first() =~= tv.skip(i + 1));
        assert(tv.skip(i as int)[0] == ps@[i as int]@);
        match shortest(index, ps[i].as_str()) {
            Some(h) => {
                return Some(h);
            },
            None => {},
        }
        i += 1;
    }
    assert(tv.skip(i as int) =~= Seq::<Seq<char>>::empty());
    None
}

/// The install folder of a program found through its Start Menu shortcuts
/// (`index`, built by the caller from the shortcuts on disk), or `-`.
pub fn resolve_via_start_menu(name: &str, version: Option<&str>, index: &StartMenuIndex) -> (r: String)
    ensures
        r@ == start_menu_path(name@, match version { Some(v) => Some(v@), None => None }, index_view(*index)),
{
    let ghost iv = index_view(*index);
    let ln = lower_chars(name);
    let lns = spaced_string(ln.as_slice(), &[]);
    assert(lns@ =~= ln@ + seq![' ']);
    let stem = stem_split_exec(ln.as_slice());
    let step1 = exact(index, string_of(ln.as_slice()).as_str());
    if let Some(p) = step1 {
        return p;
    }
    if let Some(v) = version {
        let vc = chars_of(v);
        let ps = version_prefix_list(ln.as_slice(), &stem, vc.as_slice());
        if let Some(p) = prefixes_first_hit(index, &ps) {
            return p;
        }
        let vl = to_lower_string(v);
        let t1 = KeyTest::StartsContains(lns.clone(), vl.clone());
        if let Some(p) = scan(index, &t1) {
            return p;
        }
        if let Some(st) = &stem {
            let rs = spaced_string(st.0.as_slice(), &[]);
            assert(rs@ =~= st.0@ + seq![' ']);
            let t2 = KeyTest::StartsContains(rs, vl);
            if let Some(p) = scan(index, &t2) {
                return p;
            }
        }
    }
    let t3 = KeyTest::StartsWith(lns);
    if let Some(p) = scan(index, &t3) {
        return p;
    }
    if let Some(st) = &stem {
        let rs = spaced_string(st.0.as_slice(), &[]);
        assert(rs@ =~= st.0@ + seq![' ']);
        let suffix = string_of(st.1.as_slice());
        let long = suffix.as_str().as_bytes().len() >= 3;
        let t4 = KeyTest::StartsMaybeContains(rs, suffix, long);
        if let Some(p) = scan(index, &t4) {
            return p;
        }
    }
    let t5 = KeyTest::Extends(string_of(ln.as_slice()));
    if let Some(p) = scan(index, &t5) {
        return p;
    }
    String::from_str("-")
}

fn to_lower_string(s: &str) -> (r: String)
    ensures
        r@ == lowercase(s@),
{
    crate::text::to_lower(s)
}

/// A path separator.
pub open spec fn is_sep(c: char) -> bool {
    c == '\\' || c == '/'
}

/// `s` without trailing separators.
pub open spec fn trim_seps(s: Seq<char>) -> Seq<char>
    decreases s.len(),
{
    if s.len() > 0 && is_sep(s.last()) {
        trim_seps(s.drop_last())
    } else {
        s
    }
}

/// Position of the last separator of `s`.
pub open spec fn last_sep(s: Seq<char>) -> Option<int>
    decreases s.len(),
{
    if s.len() == 0 {
        None
    } else if is_sep(s.last()) {
        Some(s.len() - 1)
    } else {
        last_sep(s.drop_last())
    }
}

/// A bare drive such as `C:`.
pub open spec fn is_drive(s: Seq<char>) -> bool {
    s.len() == 2 && s[1] == ':'
}

/// Parent folder of a plain Windows path (drive-absolute or relative, with
/// no `.`/`..` components and no UNC or verbatim prefix), as `Path::parent`
/// gives it there: the path up to its last component, without the
/// separators before it; the root of a drive keeps its separator; a path of
/// one component has the empty parent; a root or a bare drive has none.
pub open spec fn parent_dir(p: Seq<char>) -> Option<Seq<char>> {
    let t = trim_seps(p);
    match last_sep(t) {
        None => if t.len() == 0 || is_drive(t) { None } else { Some(Seq::empty()) },
        Some(k) => {
            let head = trim_seps(t.take(k));
            if head.len() == 0 {
                Some(t.take(1))
            } else if is_drive(head) {
                Some(t.take(3))
            } else {
                head_or_self(head)
            }
        },
    }
}

pub open spec fn head_or_self(h: Seq<char>) -> Option<Seq<char>> {
    Some(h)
}

proof fn lemma_trim_seps_prefix(s: Seq<char>)
    ensures
        trim_seps(s).len() <= s.len(),
        trim_seps(s) == s.take(trim_seps(s).len() as int),
        trim_seps(s).len() > 0 ==> !is_sep(trim_seps(s).last()),
    decreases s.len(),
{
    if s.len() > 0 && is_sep(s.last()) {
        lemma_trim_seps_prefix(s.drop_last());
        assert(s.drop_last().take(trim_seps(s).len() as int) =~= s.take(trim_seps(s).len() as int));
    } else {
        assert(s.take(s.len() as int) =~= s);
    }
}

fn trim_seps_len(s: &[char], n: usize) -> (r: usize)
    requires
        n <= s.len(),
    ensures
        r <= n,
        s@.take(n as int).take(r as int) == trim_seps(s@.take(n as int)),
{
    let mut k = n;
    proof {
        assert(s@.take(n as int).take(n as int) =~= s@.take(n as int));
    }
    while k > 0 && (s[k - 1] == '\\' || s[k - 1] == '/')
        invariant
            k <= n <= s.len(),
            trim_seps(s@.take(n as int)) == trim_seps(s@.take(n as int).take(k as int)),
        decreases k,
    {
        assert(s@.take(n as int).take(k as int).drop_last() =~= s@.take(n as int).take(k - 1));
        k -= 1;
    }
    proof {
        let u = s@.take(n as int).take(k as int);
        if k > 0 {
            assert(u.last() == s@[k - 1]);
        }
        assert(trim_seps(u) == u);
    }
    k
}

fn last_sep_before(s: &[char], n: usize) -> (r: Option<usize>)
    requires
        n <= s.len(),
    ensures
        match r {
            Some(k) => last_sep(s@.take(n as int)) == Some(k as int) && k < n,
            None => last_sep(s@.take(n as int)) is None,
        },
{
    let mut k = n;
    proof {
        assert(s@.take(n as int).take(n as int) =~= s@.take(n as int));
    }
    while k > 0 && !(s[k - 1] == '\\' || s[k - 1] == '/')
        invariant
            k <= n <= s.len(),
            last_sep(s@.take(n as int)) == last_sep(s@.take(n as int).take(k as int)),
        decreases k,
    {
        assert(s@.take(n as int).take(k as int).drop_last() =~= s@.take(n as int).take(k - 1));
        k -= 1;
    }
    if k == 0 {
        assert(s@.take(n as int).take(0) =~= Seq::<char>::empty());
        None
    } else {
        assert(s@.take(n as int).take(k as int).last() == s@[k - 1]);
        Some(k - 1)
    }
}

/// Parent folder of a plain Windows path (see [`parent_dir`]).
pub fn parent_of(p: &[char]) -> (r: Option<Vec<char>>)
    ensures
        match r {
            Some(v) => parent_dir(p@) == Some(v@),
            None => parent_dir(p@) is None,
        },
{
    let n = trim_seps_len(p, p.len());
    assert(p@.take(p.len() as int) =~= p@);
    let ghost t = trim_seps(p@);
    assert(t =~= p@.take(n as int));
    match last_sep_before(p, n) {
        None => {
            if n == 0 || (n == 2 && p[1] == ':') {
                None
            } else {
                Some(Vec::new())
            }
        },
        Some(k) => {
            let h = trim_seps_len(p, k);
            assert(t.take(k as int) =~= p@.take(k as int));
            assert(p@.take(k as int).take(h as int) =~= p@.take(h as int));
            if h == 0 {
                assert(t.take(1) =~= p@.subrange(0, 1));
                Some(sub_chars(p, 0, 1))
            } else if h == 2 && p[1] == ':' {
                assert(t.take(3) =~= p@.subrange(0, 3));
                Some(sub_chars(p, 0, 3))
            } else {
                Some(sub_chars(p, 0, h))
            }
        },
    }
}

/// Whether `t` equals `.exe` ignoring ASCII case, at position `i` of `s`.
pub open spec fn exe_at(s: Seq<char>, i: int) -> bool {
    0 <= i && i + 4 <= s.len() && eq_ascii_ci(s.subrange(i, i + 4), ".exe"@)
}

/// `s` up to and including its first `.exe` (ASCII case ignored).
pub open spec fn through_exe(s: Seq<char>) -> Option<Seq<char>> {
    if exists|i: int| exe_at(s, i) {
        let i = choose|i: int| exe_at(s, i) && forall|j: int| 0 <= j < i ==> !exe_at(s, j);
        Some(s.take(i + 4))
    } else {
        None
    }
}

fn through_exe_exec(s: &[char]) -> (r: Option<Vec<char>>)
    ensures
        match r {
            Some(v) => through_exe(s@) == Some(v@),
            None => through_exe(s@) is None,
        },
{
    let mut i: usize = 0;
    while i < s.len() && s.len() - i >= 4
        invariant
            i <= s.len(),
            forall|j: int| 0 <= j < i ==> !exe_at(s@, j),
        decreases s.len() - i,
    {
        let w = sub_chars(s, i, i + 4);
        let ws = string_of(w.as_slice());
        if crate::text::eq_ignore_ascii_case(ws.as_str(), ".exe") {
            proof {
                assert(exe_at(s@, i as int));
                let c = choose|c: int| exe_at(s@, c) && forall|j: int| 0 <= j < c ==> !exe_at(s@, j);
                assert(exe_at(s@, c) && forall|j: int| 0 <= j < c ==> !exe_at(s@, j));
                if c < i {
                    assert(!exe_at(s@, c));
                } else if c > i {
                    assert(!exe_at(s@, i as int));
                }
            }
            let t = sub_chars(s, 0, i + 4);
            assert(t@ =~= s@.take(i + 4));
            return Some(t);
        }
        i += 1;
    }
    assert(forall|j: int| i <= j ==> !exe_at(s@, j));
    None
}

/// The executable of an uninstall command: the quoted part when the command
/// starts with a quote (all of it when the quote is not closed), else the
/// text through the first `.exe`, else the first space-separated word.
pub open spec fn uninstaller_exe(us: Seq<char>) -> Seq<char> {
    if us.len() > 0 && us[0] == '"' {
        match first_occ(us, seq!['"'], 1) {
            Some(e) => us.subrange(1, e),
            None => us,
        }
    } else {
        match through_exe(us) {
            Some(t) => t,
            None => split_char(us, ' ')[0],
        }
    }
}

fn uninstaller_exe_exec(us: &[char]) -> (r: Vec<char>)
    ensures
        r@ == uninstaller_exe(us@),
{
    if us.len() > 0 && us[0] == '"' {
        let q: Vec<char> = vec!['"'];
        assert(q@ =~= seq!['"']);
        match find_from(us, q.as_slice(), 1) {
            Some(e) => {
                proof {
                    lemma_first_occ_is(us@, seq!['"'], 1, e as int);
                }
                sub_chars(us, 1, e)
            },
            None => {
                proof {
                    lemma_first_occ_none(us@, seq!['"'], 1);
                }
                sub_chars(us, 0, us.len())
            },
        }
    } else {
        match through_exe_exec(us) {
            Some(t) => t,
            None => {
                let parts = split_chars(us, ' ');
                assert(views(parts@)[0] == parts@[0]@);
                parts[0].clone()
            },
        }
    }
}

/// Tokens of `s` separated by whitespace (`str::split_whitespace`).
pub open spec fn ws_tokens(s: Seq<char>) -> Seq<Seq<char>>
    decreases s.len(),
{
    if s.len() == 0 {
        Seq::empty()
    } else if is_ws(s[0]) {
        ws_tokens(s.drop_first())
    } else {
        let n = non_ws_run(s);
        proof {
            lemma_non_ws_run(s);
        }
        seq![s.take(n as int)] + ws_tokens(s.skip(n as int))
    }
}

/// Number of non-whitespace characters at the start of `s`.
pub open spec fn non_ws_run(s: Seq<char>) -> nat
    decreases s.len(),
{
    if s.len() > 0 && !is_ws(s[0]) {
        1 + non_ws_run(s.drop_first())
    } else {
        0
    }
}

pub proof fn lemma_non_ws_run(s: Seq<char>)
    ensures
        non_ws_run(s) <= s.len(),
    decreases s.len(),
{
    if s.len() > 0 && !is_ws(s[0]) {
        lemma_non_ws_run(s.drop_first());
    }
}

proof fn lemma_non_ws_run_is(s: Seq<char>, i: int, k: int)
    requires
        0 <= i <= k <= s.len(),
        forall|m: int| i <= m < k ==> !is_ws(s[m]),
        k == s.len() || is_ws(s[k]),
    ensures
        non_ws_run(s.skip(i)) == k - i,
    decreases k - i,
{
    if i < k {
        lemma_non_ws_run_is(s, i + 1, k);
        assert(s.skip(i).drop_first() =~= s.skip(i + 1));
    }
}

/// The Steam app id named by one token: the token as a number, or the digits
/// after `uninstall/` in it (quotes around the token ignored).
pub open spec fn token_appid(t: Seq<char>) -> Option<u64> {
    match u64_text(t) {
        Some(v) => Some(v),
        None => {
            let t2 = trim_end_char(trim_start_char(t, '"'), '"');
            match first_occ(t2, "uninstall/"@, 0) {
                Some(pos) => {
                    let rest = t2.skip(pos + 10);
                    let n = digit_run(rest);
                    if n > 0 { u64_text(rest.take(n as int)) } else { None }
                },
                None => None,
            }
        },
    }
}

/// The first token naming an app id.
pub open spec fn first_appid(ts: Seq<Seq<char>>) -> Option<u64>
    decreases ts.len(),
{
    if ts.len() == 0 {
        None
    } else {
        match token_appid(ts[0]) {
            Some(v) => Some(v),
            None => first_appid(ts.drop_first()),
        }
    }
}

fn token_appid_exec(t: &[char]) -> (r: Option<u64>)
    ensures
        r == token_appid(t@),
{
    match parse_u64(t) {
        Some(v) => Some(v),
        None => {
            let a = trim_start_char_vec(t, '"');
            let t2 = trim_end_char_vec(a.as_slice(), '"');
            let pat = chars_of("uninstall/");
            proof {
                reveal_strlit("uninstall/");
                assert("uninstall/"@.len() == 10);
            }
            match find_from(t2.as_slice(), pat.as_slice(), 0) {
                Some(pos) => {
                    proof {
                        lemma_first_occ_is(t2@, "uninstall/"@, 0, pos as int);
                    }
                    assert(occurs_at(t2@, pat@, pos as int));
                    assert(pat@.len() == 10);
                    assert(pos + 10 <= t2@.len());
                    assert(t2@.len() == t2.len());
                    let start = pos + 10;
                    let rest = sub_chars(t2.as_slice(), start, t2.len());
                    assert(rest@ =~= t2@.skip(start as int));
                    let j = digit_run_end(rest.as_slice(), 0);
                    assert(rest@.skip(0) =~= rest@);
                    if j > 0 {
                        let d = sub_chars(rest.as_slice(), 0, j);
                        assert(d@ =~= rest@.take(j as int));
                        parse_u64(d.as_slice())
                    } else {
                        None
                    }
                },
                None => {
                    proof {
                        lemma_first_occ_none(t2@, "uninstall/"@, 0);
                    }
                    None
                },
            }
        },
    }
}

/// The Steam app id in an uninstall command.
pub fn steam_appid(us: &[char]) -> (r: Option<u64>)
    ensures
        r == first_appid(ws_tokens(us@)),
{
    let mut i: usize = 0;
    assert(us@.skip(0) =~= us@);
    while i < us.len()
        invariant
            i <= us.len(),
            first_appid(ws_tokens(us@)) == first_appid(ws_tokens(us@.skip(i as int))),
        decreases us.len() - i,
    {
        let ghost rest = us@.skip(i as int);
        if is_whitespace(us[i]) {
            assert(rest.drop_first() =~= us@.skip(i + 1));
            i += 1;
        } else {
            let mut k = i;
            while k < us.len() && !is_whitespace(us[k])
                invariant
                    i <= k <= us.len(),
                    forall|m: int| i <= m < k ==> !is_ws(us@[m]),
                decreases us.len() - k,
            {
                k += 1;
            }
            proof {
                lemma_non_ws_run_is(us@, i as int, k as int);
                assert(rest.take(k - i) =~= us@.subrange(i as int, k as int));
                assert(rest.skip(k - i) =~= us@.skip(k as int));
                assert(rest[0] == us@[i as int]);
                let toks = ws_tokens(rest);
                assert(toks == seq![rest.take(k - i)] + ws_tokens(rest.skip(k - i)));
                assert(toks.drop_first() =~= ws_tokens(us@.skip(k as int)));
                assert(toks[0] == us@.subrange(i as int, k as int));
            }
            let tok = sub_chars(us, i, k);
            match token_appid_exec(tok.as_slice()) {
                Some(v) => {
                    return Some(v);
                },
                None => {},
            }
            i = k;
        }
    }
    assert(us@.skip(i as int) =~= Seq::<char>::empty());
    None
}

/// The Steam folder and app id of an uninstall command that runs
/// `steam.exe`: the folder of the (quoted, or through `.exe`) executable.
pub open spec fn steam_request_spec(us: Seq<char>) -> Option<(Seq<char>, u64)> {
    if !contains_seq(lowercase(us), "steam.exe"@) {
        None
    } else {
        let exe: Option<Seq<char>> = if us.len() > 0 && us[0] == '"' {
            match first_occ(us, seq!['"'], 1) {
                Some(e) => Some(us.subrange(1, e)),
                None => None,
            }
        } else {
            through_exe(us)
        };
        match exe {
            None => None,
            Some(x) => match parent_dir(x) {
                None => None,
                Some(base) => match first_appid(ws_tokens(us)) {
                    Some(id) => Some((base, id)),
                    None => None,
                },
            },
        }
    }
}

/// The Steam folder and app id of an uninstall command, when it runs Steam.
pub fn steam_request(us: &str) -> (r: Option<(String, u64)>)
    ensures
        match r {
            Some(p) => steam_request_spec(us@) == Some((p.0@, p.1)),
            None => steam_request_spec(us@) is None,
        },
{
    let l = lower_chars(us);
    let pat = chars_of("steam.exe");
    if !contains(l.as_slice(), pat.as_slice()) {
        return None;
    }
    let c = chars_of(us);
    let exe: Option<Vec<char>> = if c.len() > 0 && c[0] == '"' {
        let q: Vec<char> = vec!['"'];
        assert(q@ =~= seq!['"']);
        match find_from(c.as_slice(), q.as_slice(), 1) {
            Some(e) => {
                proof {
                    lemma_first_occ_is(c@, seq!['"'], 1, e as int);
                }
                Some(sub_chars(c.as_slice(), 1, e))
            },
            None => {
                proof {
                    lemma_first_occ_none(c@, seq!['"'], 1);
                }
                None
            },
        }
    } else {
        through_exe_exec(c.as_slice())
    };
    match exe {
        None => None,
        Some(x) => match parent_of(x.as_slice()) {
            None => None,
            Some(base) => match steam_appid(c.as_slice()) {
                Some(id) => Some((string_of(base.as_slice()), id)),
                None => None,
            },
        },
    }
}

/// `{base}\steamapps\appmanifest_{id}.acf`.
pub open spec fn manifest_path_spec(base: Seq<char>, id: u64) -> Seq<char> {
    base + "\\steamapps\\appmanifest_"@ + dec(id as nat) + ".acf"@
}

/// Path of the Steam manifest of app `id`.
pub fn steam_manifest_path(base: &str, id: u64) -> (r: String)
    ensures
        r@ == manifest_path_spec(base@, id),
{
    let mut s = String::from_str(base);
    push_str(&mut s, "\\steamapps\\appmanifest_");
    let n = u64_to_string(id);
    push_str(&mut s, n.as_str());
    push_str(&mut s, ".acf");
    s
}

/// Text after the third double quote of `t`.
pub open spec fn after_third_quote(t: Seq<char>) -> Option<Seq<char>> {
    match first_occ(t, seq!['"'], 0) {
        None => None,
        Some(a) => match first_occ(t, seq!['"'], a + 1) {
            None => None,
            Some(b) => match first_occ(t, seq!['"'], b + 1) {
                None => None,
                Some(c) => Some(t.skip(c + 1)),
            },
        },
    }
}

/// The `installdir` of a Steam manifest: the first line whose trimmed,
/// lower-cased text starts with `"installdir"`, read after its third quote.
pub open spec fn installdir_spec(content: Seq<char>) -> Option<Seq<char>> {
    match first_installdir_line(split_char(content, '\n')) {
        Some(l) => after_third_quote(trim_seq(l)),
        None => None,
    }
}

pub open spec fn is_installdir_line(l: Seq<char>) -> bool {
    is_prefix("\"installdir\""@, lowercase(trim_seq(l)))
}

pub open spec fn first_installdir_line(ls: Seq<Seq<char>>) -> Option<Seq<char>>
    decreases ls.len(),
{
    if ls.len() == 0 {
        None
    } else if is_installdir_line(ls[0]) {
        Some(ls[0])
    } else {
        first_installdir_line(ls.drop_first())
    }
}

fn next_quote(t: &[char], from: usize) -> (r: Option<usize>)
    ensures
        match r {
            Some(i) => first_occ(t@, seq!['"'], from as int) == Some(i as int) && i < t.len(),
            None => first_occ(t@, seq!['"'], from as int) is None,
        },
{
    let q: Vec<char> = vec!['"'];
    assert(q@ =~= seq!['"']);
    match find_from(t, q.as_slice(), from) {
        Some(i) => {
            proof {
                lemma_first_occ_is(t@, seq!['"'], from as int, i as int);
            }
            Some(i)
        },
        None => {
            proof {
                lemma_first_occ_none(t@, seq!['"'], from as int);
            }
            None
        },
    }
}

fn line_is_installdir(l: &[char]) -> (r: bool)
    ensures
        r == is_installdir_line(l@),
{
    let t = trim_chars(l);
    let ts = string_of(t.as_slice());
    let tl = lower_chars(ts.as_str());
    let pat = chars_of("\"installdir\"");
    starts_with(tl.as_slice(), pat.as_slice())
}

fn third_quote_rest(t: &[char]) -> (r: Option<String>)
    ensures
        opt_text(r) == after_third_quote(t@),
{
    match next_quote(t, 0) {
        None => None,
        Some(a) => match next_quote(t, a + 1) {
            None => None,
            Some(b) => match next_quote(t, b + 1) {
                None => None,
                Some(q) => {
                    let rest = sub_chars(t, q + 1, t.len());
                    assert(rest@ =~= t@.skip(q + 1));
                    Some(string_of(rest.as_slice()))
                },
            },
        },
    }
}

/// The install folder name recorded in a Steam manifest.
pub fn acf_installdir(content: &str) -> (r: Option<String>)
    ensures
        opt_text(r) == installdir_spec(content@),
{
    let c = chars_of(content);
    let lines = split_chars(c.as_slice(), '\n');
    let ghost lv = views(lines@);
    let mut i: usize = 0;
    assert(lv.skip(0) =~= lv);
    while i < lines.len()
        invariant
            i <= lines.len(),
            lv == views(lines@),
            lv == split_char(content@, '\n'),
            first_installdir_line(lv) == first_installdir_line(lv.skip(i as int)),
        decreases lines.len() - i,
    {
        assert(lv.skip(i as int).drop_first() =~= lv.skip(i + 1));
        assert(lv.skip(i as int)[0] == lines@[i as int]@);
        if line_is_installdir(lines[i].as_slice()) {
            let t = trim_chars(lines[i].as_slice());
            return third_quote_rest(t.as_slice());
        }
        i += 1;
    }
    assert(lv.skip(i as int) =~= Seq::<Seq<char>>::empty());
    None
}

/// `{base}\steamapps\common\{dir}` when it looks like a path.
pub open spec fn steam_game_spec(base: Seq<char>, dir: Seq<char>) -> Option<Seq<char>> {
    let p = base + "\\steamapps\\common\\"@ + dir;
    if path_like(p) { Some(p) } else { None }
}

/// The game folder of a Steam install.
pub fn steam_game_path(base: &str, installdir: &str) -> (r: Option<String>)
    ensures
        opt_text(r) == steam_game_spec(base@, installdir@),
{
    let mut s = String::from_str(base);
    push_str(&mut s, "\\steamapps\\common\\");
    push_str(&mut s, installdir);
    if looks_like_path(s.as_str()) {
        Some(s)
    } else {
        None
    }
}

/// The folder shown for an installed program: the registry install
/// location when usable, else the Start Menu result, else the Steam game
/// folder (`steam`, found by the caller), else the folder of the
/// uninstaller (unless it runs `msiexec`), else `-`.
pub open spec fn resolve_path_spec(
    name: Seq<char>,
    version: Option<Seq<char>>,
    install_path: Option<Seq<char>>,
    uninstall_string: Option<Seq<char>>,
    idx: Seq<(Seq<char>, Seq<Seq<char>>)>,
    env: EnvVars,
    steam: Option<Seq<char>>,
) -> Seq<char> {
    let from_location: Option<Seq<char>> = match install_path {
        Some(p0) => {
            let p = trim_end_char(trim_start_char(trim_seq(p0), '"'), '"');
            if p.len() > 0 && path_like(p) && !contains_seq(lowercase(p), "package cache"@) {
                let cleaned = clean_path(expand_env_spec(p, env));
                if sensible_path(cleaned) { Some(cleaned) } else { None }
            } else {
                None
            }
        },
        None => None,
    };
    let sm = start_menu_path(name, version, idx);
    match from_location {
        Some(c) => c,
        None => if sm != "-"@ {
            sm
        } else {
            match uninstall_string {
                None => "-"@,
                Some(u0) => {
                    let us = trim_seq(u0);
                    if us.len() == 0 {
                        "-"@
                    } else {
                        let from_steam: Option<Seq<char>> = match steam {
                            Some(g) => if sensible_path(clean_path(g)) { Some(clean_path(g)) } else { None },
                            None => None,
                        };
                        match from_steam {
                            Some(g) => g,
                            None => if contains_seq(lowercase(us), "msiexec"@) {
                                "-"@
                            } else {
                                match parent_dir(uninstaller_exe(us)) {
                                    Some(par) => {
                                        let d = clean_path(expand_env_spec(par, env));
                                        if sensible_path(d) { d } else { "-"@ }
                                    },
                                    None => "-"@,
                                }
                            },
                        }
                    }
                },
            }
        },
    }
}

/// The install folder shown for a program. `index` is the Start Menu index
/// and `steam` the Steam game folder for the uninstall command, both read
/// from disk by the caller.
pub fn resolve_path(
    name: &str,
    version: Option<&str>,
    install_path: Option<&str>,
    uninstall_string: Option<&str>,
    index: &StartMenuIndex,
    env: &EnvVars,
    steam: Option<&str>,
) -> (r: String)
    ensures
        r@ == resolve_path_spec(
            name@,
            match version { Some(v) => Some(v@), None => None },
            match install_path { Some(v) => Some(v@), None => None },
            match uninstall_string { Some(v) => Some(v@), None => None },
            index_view(*index),
            *env,
            match steam { Some(v) => Some(v@), None => None },
        ),
{
    if let Some(p0) = install_path {
        let c = chars_of(p0);
        let t0 = trim_chars(c.as_slice());
        let t1 = trim_start_char_vec(t0.as_slice(), '"');
        let t = trim_end_char_vec(t1.as_slice(), '"');
        let p = string_of(t.as_slice());
        let pl = lower_chars(p.as_str());
        let pc = chars_of("package cache");
        if t.len() > 0 && looks_like_path(p.as_str()) && !contains(pl.as_slice(), pc.as_slice()) {
            let expanded = expand_env(p.as_str(), env);
            let cleaned = format_path(expanded.as_str());
            if is_sensible_install_path(cleaned.as_str()) {
                return cleaned;
            }
        }
    }
    let sm = resolve_via_start_menu(name, version, index);
    if !str_eq(sm.as_str(), "-") {
        return sm;
    }
    match uninstall_string {
        None => String::from_str("-"),
        Some(u0) => {
            let uc = chars_of(u0);
            let us = trim_chars(uc.as_slice());
            if us.len() == 0 {
                return String::from_str("-");
            }
            if let Some(g) = steam {
                let cleaned = format_path(g);
                if is_sensible_install_path(cleaned.as_str()) {
                    return cleaned;
                }
            }
            let uss = string_of(us.as_slice());
            if contains_msiexec(uss.as_str()) {
                return String::from_str("-");
            }
            let exe = uninstaller_exe_exec(us.as_slice());
            match parent_of(exe.as_slice()) {
                Some(par) => {
                    let ps = string_of(par.as_slice());
                    let d = format_path(expand_env(ps.as_str(), env).as_str());
                    if is_sensible_install_path(d.as_str()) {
                        d
                    } else {
                        String::from_str("-")
                    }
                },
                None => String::from_str("-"),
            }
        },
    }
}

} // verus!
