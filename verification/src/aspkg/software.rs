//! The software catalogue of `as`: entries, name suggestions, install
//! records and the matching of registry entries against the catalogue.

use vstd::prelude::*;
use vstd::utf8::{encode_utf8, is_char_boundary};
use crate::text::{
    bytes_contain, bytes_contains, chars_eq, chars_of, contains, contains_seq, display_width, lower_chars,
    lowercase, pad_left_with, pad_right_with, push_all, repeat_vec, str_eq, str_width, string_of, to_lower,
};

verus! {

/// How an installed program is recognised in the registry.
pub struct DetectConfig {
    /// Text looked for in the registry `DisplayName`.
    pub display_name: String,
    /// Optional publisher, checked when the registry names one too.
    pub publisher: Option<String>,
}

/// One version of a catalogue entry.
pub struct VersionEntry {
    /// The version string the registry records, when it differs from the key.
    pub registry_version: Option<String>,
    /// Install type (`installer` / `portable`) with its download URLs.
    pub urls: Vec<(String, Vec<String>)>,
}

/// One catalogue entry.
pub struct SoftwareEntry {
    pub aliases: Vec<String>,
    pub category: Option<String>,
    pub detect: Option<DetectConfig>,
    /// Version key with its data; keys are distinct.
    pub versions: Vec<(String, VersionEntry)>,
}

/// A program installed by `as` itself.
pub struct InstallRecord {
    pub version: String,
    /// `installer` or `portable`.
    pub kind: String,
    pub install_path: String,
    pub install_time: String,
}

/// The install records, keyed by program name.
pub struct InstalledDatabase {
    /// Program name with its record; names are distinct.
    pub records: Vec<(String, InstallRecord)>,
}

/// An installed program as found in the registry.
pub struct RegistryInfo {
    pub display_name: String,
    pub version: String,
    pub publisher: Option<String>,
    pub install_path: Option<String>,
    pub uninstall_string: Option<String>,
}

/// UTF-8 bytes of a character sequence.
pub open spec fn utf8(s: Seq<char>) -> Seq<u8> {
    encode_utf8(s)
}

/// Length of the common prefix of `a` and `b`, in characters.
pub open spec fn common_prefix(a: Seq<char>, b: Seq<char>) -> nat
    decreases a.len(),
{
    if a.len() > 0 && b.len() > 0 && a[0] == b[0] {
        1 + common_prefix(a.drop_first(), b.drop_first())
    } else {
        0
    }
}

/// The `w`-byte window of `q` at byte `i` occurs in `t`.
pub open spec fn window_hit(q: Seq<u8>, t: Seq<u8>, w: int, i: int) -> bool {
    3 <= w <= q.len() && 0 <= i <= q.len() - w && bytes_contain(t, q.subrange(i, i + w))
}

/// Some `w`-byte window of `q` occurs in `t`.
pub open spec fn width_hits(q: Seq<u8>, t: Seq<u8>, w: int) -> bool {
    exists|i: int| window_hit(q, t, w, i)
}

/// The widest window (of at least three bytes) of `q` that occurs in `t`, or 0.
pub open spec fn widest_window(q: Seq<u8>, t: Seq<u8>) -> int {
    if exists|w: int| width_hits(q, t, w) {
        choose|w: int| width_hits(q, t, w) && forall|v: int| v > w ==> !width_hits(q, t, v)
    } else {
        0
    }
}

/// Window `(w, i)` is looked at by the scan of [`similarity_score`]: no wider
/// window hits, and no earlier window of the same width does.
pub open spec fn window_examined(q: Seq<u8>, t: Seq<u8>, w: int, i: int) -> bool {
    &&& 3 <= w <= q.len() && 0 <= i <= q.len() - w
    &&& forall|v: int| w < v ==> !width_hits(q, t, v)
    &&& forall|j: int| 0 <= j < i ==> !window_hit(q, t, w, j)
}

/// Score of `target` against `query` (both lowered): containment either way,
/// then a shared prefix of two or more characters, then the widest shared
/// window of at least three bytes.
pub open spec fn similarity(query: Seq<char>, target: Seq<char>) -> nat {
    let q = lowercase(query);
    let t = lowercase(target);
    let qb = utf8(q);
    let tb = utf8(t);
    if bytes_contain(tb, qb) {
        10 + qb.len() * 2
    } else if bytes_contain(qb, tb) {
        5 + tb.len()
    } else if common_prefix(q, t) >= 2 {
        common_prefix(q, t)
    } else if qb.len() >= 3 && tb.len() >= 3 {
        widest_window(qb, tb) as nat
    } else {
        0
    }
}

/// [`similarity`] looks only at windows that start and end on character
/// boundaries (otherwise slicing the query would panic).
pub open spec fn similarity_safe(query: Seq<char>, target: Seq<char>) -> bool {
    let q = lowercase(query);
    let t = lowercase(target);
    let qb = utf8(q);
    let tb = utf8(t);
    (bytes_contain(tb, qb) || bytes_contain(qb, tb) || common_prefix(q, t) >= 2 || qb.len() < 3 || tb.len() < 3)
        || forall|w: int, i: int|
        window_examined(qb, tb, w, i) ==> is_char_boundary(qb, i) && is_char_boundary(qb, i + w)
}

fn common_prefix_len(a: &[char], b: &[char]) -> (r: usize)
    ensures
        r == common_prefix(a@, b@),
{
    let mut i: usize = 0;
    proof {
        lemma_skip_zero(a@, b@);
    }
    while i < a.len() && i < b.len() && a[i] == b[i]
        invariant
            i <= a.len(),
            i <= b.len(),
            common_prefix(a@, b@) == i + common_prefix(a@.skip(i as int), b@.skip(i as int)),
        decreases a.len() - i,
    {
        proof {
            assert(a@.skip(i as int).drop_first() =~= a@.skip(i + 1));
            assert(b@.skip(i as int).drop_first() =~= b@.skip(i + 1));
        }
        i += 1;
    }
    proof {
        assert(a@.skip(0) =~= a@);
        assert(b@.skip(0) =~= b@);
    }
    i
}

proof fn lemma_skip_zero(a: Seq<char>, b: Seq<char>)
    ensures
        common_prefix(a, b) == 0 + common_prefix(a.skip(0), b.skip(0)),
{
    assert(a.skip(0) =~= a);
    assert(b.skip(0) =~= b);
}

/// The widest shared window, scanning widths from widest down and windows
/// from left to right, as the score does.
fn window_scan(q: &[u8], t: &[u8]) -> (r: usize)
    requires
        q.len() >= 3,
    ensures
        r == widest_window(q@, t@),
{
    let mut w: usize = q.len();
    while w >= 3
        invariant
            w <= q.len(),
            forall|v: int| w < v ==> !width_hits(q@, t@, v),
        decreases w,
    {
        let mut i: usize = 0;
        while i <= q.len() - w
            invariant
                3 <= w <= q.len(),
                i <= q.len() - w + 1,
                forall|v: int| w < v ==> !width_hits(q@, t@, v),
                forall|j: int| 0 <= j < i ==> !window_hit(q@, t@, w as int, j),
            decreases q.len() - w + 1 - i,
        {
            let sub = slice_window(q, i, w);
            if bytes_contains(t, sub.as_slice()) {
                proof {
                    assert(window_hit(q@, t@, w as int, i as int));
                    lemma_widest_is(q@, t@, w as int);
                }
                return w;
            }
            i += 1;
        }
        assert(!width_hits(q@, t@, w as int));
        w -= 1;
    }
    proof {
        lemma_no_width(q@, t@, w as int);
    }
    0
}

proof fn lemma_widest_is(q: Seq<u8>, t: Seq<u8>, w: int)
    requires
        width_hits(q, t, w),
        forall|v: int| w < v ==> !width_hits(q, t, v),
    ensures
        widest_window(q, t) == w,
{
    let c = choose|c: int| width_hits(q, t, c) && forall|v: int| v > c ==> !width_hits(q, t, v);
    if c < w {
        assert(!width_hits(q, t, w));
    } else if c > w {
        assert(!width_hits(q, t, c));
    }
}

proof fn lemma_no_width(q: Seq<u8>, t: Seq<u8>, w: int)
    requires
        w < 3,
        forall|v: int| w < v ==> !width_hits(q, t, v),
    ensures
        widest_window(q, t) == 0,
{
    assert forall|v: int| !width_hits(q, t, v) by {
        if v <= w && width_hits(q, t, v) {
            let i = choose|i: int| window_hit(q, t, v, i);
        }
    }
}

fn slice_window(q: &[u8], i: usize, w: usize) -> (r: Vec<u8>)
    requires
        i + w <= q.len(),
    ensures
        r@ == q@.subrange(i as int, i + w),
{
    let mut r: Vec<u8> = Vec::new();
    let mut k: usize = 0;
    while k < w
        invariant
            i + w <= q.len(),
            k <= w,
            r@ == q@.subrange(i as int, i + k),
        decreases w - k,
    {
        r.push(q[i + k]);
        k += 1;
    }
    r
}

/// Similarity of `target` to `query` (higher is closer).
pub fn similarity_score(query: &str, target: &str) -> (r: usize)
    requires
        similarity_safe(query@, target@),
        utf8(lowercase(query@)).len() < usize::MAX / 4,
        utf8(lowercase(target@)).len() < usize::MAX / 4,
    ensures
        r == similarity(query@, target@),
{
    let ql = to_lower(query);
    let tl = to_lower(target);
    let qb = ql.as_str().as_bytes();
    let tb = tl.as_str().as_bytes();
    if bytes_contains(tb, qb) {
        return 10 + qb.len() * 2;
    }
    if bytes_contains(qb, tb) {
        return 5 + tb.len();
    }
    let qc = chars_of(ql.as_str());
    let tc = chars_of(tl.as_str());
    let cp = common_prefix_len(qc.as_slice(), tc.as_slice());
    if cp >= 2 {
        return cp;
    }
    if qb.len() >= 3 && tb.len() >= 3 {
        return window_scan(qb, tb);
    }
    0
}

/// A suggestion: score and catalogue name.
pub type Suggestion = (usize, String);

/// Scores that `suggest_similar` collects, in catalogue order: each name
/// scored by itself, or else by its first alias that scores.
pub open spec fn candidates(q: Seq<char>, all: Seq<(Seq<char>, Seq<Seq<char>>)>) -> Seq<(nat, Seq<char>)>
    decreases all.len(),
{
    if all.len() == 0 {
        Seq::empty()
    } else {
        let rest = candidates(q, all.drop_last());
        let (name, aliases) = all.last();
        match name_score(q, name, aliases) {
            Some(s) => rest.push((s, name)),
            None => rest,
        }
    }
}

/// Score of one catalogue name, if any.
pub open spec fn name_score(q: Seq<char>, name: Seq<char>, aliases: Seq<Seq<char>>) -> Option<nat> {
    let ql = lowercase(q);
    let nl = lowercase(name);
    if nl == ql {
        None
    } else if similarity(ql, nl) > 0 {
        Some(similarity(ql, nl))
    } else {
        alias_score(ql, aliases)
    }
}

/// First positive score among the aliases (an alias equal to the query is skipped).
pub open spec fn alias_score(ql: Seq<char>, aliases: Seq<Seq<char>>) -> Option<nat>
    decreases aliases.len(),
{
    if aliases.len() == 0 {
        None
    } else {
        let al = lowercase(aliases[0]);
        if al != ql && similarity(ql, al) > 0 {
            Some(similarity(ql, al))
        } else {
            alias_score(ql, aliases.drop_first())
        }
    }
}

/// Index of the first element with the highest score.
pub open spec fn first_max(c: Seq<(nat, Seq<char>)>) -> int
    decreases c.len(),
{
    if c.len() <= 1 {
        0
    } else {
        let m = first_max(c.drop_last());
        if c.last().0 > c[m].0 {
            c.len() - 1
        } else {
            m
        }
    }
}

/// Stable sort by descending score.
pub open spec fn sort_desc(c: Seq<(nat, Seq<char>)>) -> Seq<(nat, Seq<char>)>
    decreases c.len(),
{
    if c.len() == 0 {
        c
    } else {
        let m = first_max(c);
        proof {
            lemma_first_max(c);
        }
        seq![c[m]] + sort_desc(c.remove(m))
    }
}

pub proof fn lemma_first_max(c: Seq<(nat, Seq<char>)>)
    requires
        c.len() > 0,
    ensures
        0 <= first_max(c) < c.len(),
        forall|j: int| 0 <= j < c.len() ==> #[trigger] c[j].0 <= c[first_max(c)].0,
        forall|j: int| 0 <= j < first_max(c) ==> #[trigger] c[j].0 < c[first_max(c)].0,
    decreases c.len(),
{
    if c.len() > 1 {
        let d = c.drop_last();
        lemma_first_max(d);
        assert forall|j: int| 0 <= j < d.len() implies d[j] == c[j] by {}
        let m = first_max(d);
        assert forall|j: int| 0 <= j < c.len() implies #[trigger] c[j].0 <= c[first_max(c)].0 by {
            if j < d.len() {
                assert(d[j].0 <= d[m].0);
            }
        }
    }
}

proof fn lemma_sort_desc_len(c: Seq<(nat, Seq<char>)>)
    ensures
        sort_desc(c).len() == c.len(),
    decreases c.len(),
{
    if c.len() > 0 {
        lemma_first_max(c);
        lemma_sort_desc_len(c.remove(first_max(c)));
    }
}

/// The name and alias texts of a catalogue.
pub open spec fn catalog_view(all: Seq<(String, SoftwareEntry)>) -> Seq<(Seq<char>, Seq<Seq<char>>)> {
    all.map_values(|e: (String, SoftwareEntry)| (e.0@, e.1.aliases@.map_values(|a: String| a@)))
}

/// Scores with names as plain values.
pub open spec fn scored_view(v: Seq<Suggestion>) -> Seq<(nat, Seq<char>)> {
    v.map_values(|p: Suggestion| (p.0 as nat, p.1@))
}

/// The first `n` elements (all of them when there are fewer).
pub open spec fn first_n<T>(s: Seq<T>, n: int) -> Seq<T> {
    if s.len() <= n {
        s
    } else {
        s.take(n)
    }
}

/// Every score that [`suggest_similar`] computes stays on character
/// boundaries and within the machine range.
pub open spec fn scoring_safe(ql: Seq<char>, t: Seq<char>) -> bool {
    similarity_safe(ql, lowercase(t)) && utf8(lowercase(ql)).len() < usize::MAX / 4 && utf8(
        lowercase(lowercase(t)),
    ).len() < usize::MAX / 4
}

/// The aliases that the scan scores (from the first on, skipping one equal
/// to the query, up to the first that scores) can be scored safely.
pub open spec fn aliases_safe(ql: Seq<char>, aliases: Seq<Seq<char>>) -> bool
    decreases aliases.len(),
{
    if aliases.len() == 0 {
        true
    } else if lowercase(aliases[0]) == ql {
        aliases_safe(ql, aliases.drop_first())
    } else {
        scoring_safe(ql, aliases[0]) && (similarity(ql, lowercase(aliases[0])) == 0 ==> aliases_safe(
            ql,
            aliases.drop_first(),
        ))
    }
}

/// What the scan scores of one catalogue entry can be scored safely: its
/// name unless it equals the query, and its aliases when the name scores 0.
pub open spec fn entry_safe(ql: Seq<char>, name: Seq<char>, aliases: Seq<Seq<char>>) -> bool {
    lowercase(name) == ql || (scoring_safe(ql, name) && (similarity(ql, lowercase(name)) == 0 ==> aliases_safe(
        ql,
        aliases,
    )))
}

/// Every score the suggestion scan computes stays on character boundaries
/// (where the scan would slice the query elsewhere, the tools panic).
pub open spec fn suggest_safe(query: Seq<char>, all: Seq<(Seq<char>, Seq<Seq<char>>)>) -> bool {
    forall|k: int| 0 <= k < all.len() ==> #[trigger] entry_safe(lowercase(query), all[k].0, all[k].1)
}

fn first_max_index(c: &Vec<Suggestion>) -> (m: usize)
    requires
        c.len() > 0,
    ensures
        m == first_max(scored_view(c@)),
{
    let ghost cv = scored_view(c@);
    let mut m: usize = 0;
    let mut j: usize = 1;
    assert(cv.take(1).len() == 1);
    while j < c.len()
        invariant
            1 <= j <= c.len(),
            m < j,
            cv == scored_view(c@),
            m == first_max(cv.take(j as int)),
        decreases c.len() - j,
    {
        assert(cv.take(j + 1).drop_last() =~= cv.take(j as int));
        assert(cv.take(j + 1).last() == cv[j as int]);
        proof {
            lemma_first_max(cv.take(j as int));
        }
        assert(cv.take(j as int)[m as int] == cv[m as int]);
        if c[j].0 > c[m].0 {
            m = j;
        }
        j += 1;
    }
    assert(cv.take(c.len() as int) =~= cv);
    m
}

fn alias_hit(ql: &str, aliases: &Vec<String>) -> (r: Option<usize>)
    requires
        aliases_safe(ql@, aliases@.map_values(|a: String| a@)),
    ensures
        match r {
            Some(s) => alias_score(ql@, aliases@.map_values(|a: String| a@)) == Some(s as nat),
            None => alias_score(ql@, aliases@.map_values(|a: String| a@)) is None,
        },
{
    let ghost av = aliases@.map_values(|a: String| a@);
    let mut i: usize = 0;
    assert(av.skip(0) =~= av);
    while i < aliases.len()
        invariant
            i <= aliases.len(),
            av == aliases@.map_values(|a: String| a@),
            aliases_safe(ql@, av.skip(i as int)),
            alias_score(ql@, av) == alias_score(ql@, av.skip(i as int)),
        decreases aliases.len() - i,
    {
        assert(av.skip(i as int).drop_first() =~= av.skip(i + 1));
        assert(av.skip(i as int)[0] == aliases@[i as int]@);
        let al = to_lower(aliases[i].as_str());
        if !str_eq(al.as_str(), ql) {
            let s = similarity_score(ql, al.as_str());
            if s > 0 {
                return Some(s);
            }
        }
        i += 1;
    }
    assert(av.skip(i as int) =~= Seq::<Seq<char>>::empty());
    None
}

/// Up to five catalogue names close to `query`, best first (ties in
/// catalogue order); a name counts by itself or else by its first alias that
/// scores, and a name or alias equal to the query is skipped.
#[verifier::rlimit(40)]
pub fn suggest_similar(query: &str, all: &[(String, SoftwareEntry)]) -> (r: Vec<Suggestion>)
    requires
        suggest_safe(query@, catalog_view(all@)),
    ensures
        scored_view(r@) == first_n(sort_desc(candidates(query@, catalog_view(all@))), 5),
{
    let ghost cat = catalog_view(all@);
    let ql = to_lower(query);
    let mut cands: Vec<Suggestion> = Vec::new();
    let mut k: usize = 0;
    while k < all.len()
        invariant
            k <= all.len(),
            cat == catalog_view(all@),
            ql@ == lowercase(query@),
            suggest_safe(query@, cat),
            scored_view(cands@) == candidates(query@, cat.take(k as int)),
        decreases all.len() - k,
    {
        assert(cat.take(k + 1).drop_last() =~= cat.take(k as int));
        assert(cat.take(k + 1).last() == cat[k as int]);
        let name = &all[k].0;
        let entry = &all[k].1;
        assert(cat[k as int].0 == name@);
        assert(cat[k as int].1 == entry.aliases@.map_values(|a: String| a@));
        let nl = to_lower(name.as_str());
        let ghost ns = name_score(query@, cat[k as int].0, cat[k as int].1);
        let ghost prev = scored_view(cands@);
        assert(candidates(query@, cat.take(k + 1)) == match ns {
            Some(sc) => prev.push((sc, name@)),
            None => prev,
        });
        if !str_eq(nl.as_str(), ql.as_str()) {
            assert(entry_safe(lowercase(query@), cat[k as int].0, cat[k as int].1));
            let s = similarity_score(ql.as_str(), nl.as_str());
            if s > 0 {
                assert(ns == Some(s as nat));
                let ghost before = scored_view(cands@);
                cands.push((s, name.clone()));
                assert(scored_view(cands@) =~= before.push((s as nat, name@)));
            } else {
                assert(entry_safe(lowercase(query@), cat[k as int].0, cat[k as int].1));
                let ah = alias_hit(ql.as_str(), &entry.aliases);
                assert(ns == alias_score(ql@, entry.aliases@.map_values(|a: String| a@)));
                match ah {
                    Some(sa) => {
                        let ghost before = scored_view(cands@);
                        cands.push((sa, name.clone()));
                        assert(scored_view(cands@) =~= before.push((sa as nat, name@)));
                    },
                    None => {},
                }
            }
        } else {
            assert(ns is None);
        }
        assert(scored_view(cands@) =~= match ns {
            Some(sc) => prev.push((sc, name@)),
            None => prev,
        });
        k += 1;
    }
    assert(cat.take(all.len() as int) =~= cat);
    let ghost full = scored_view(cands@);
    let mut result: Vec<Suggestion> = Vec::new();
    proof {
        lemma_sort_desc_len(full);
    }
    while result.len() < 5 && cands.len() > 0
        invariant
            sort_desc(full) == scored_view(result@) + sort_desc(scored_view(cands@)),
            result.len() <= 5,
        decreases cands.len(),
    {
        let m = first_max_index(&cands);
        let ghost cv = scored_view(cands@);
        proof {
            lemma_first_max(cv);
        }
        let picked = cands.remove(m);
        assert(scored_view(cands@) =~= cv.remove(m as int));
        let ghost rv = scored_view(result@);
        result.push(picked);
        assert(scored_view(result@) =~= rv.push(cv[m as int]));
        assert(sort_desc(cv) == seq![cv[m as int]] + sort_desc(cv.remove(m as int)));
        assert(scored_view(result@) + sort_desc(scored_view(cands@)) =~= rv + sort_desc(cv));
    }
    proof {
        lemma_sort_desc_len(scored_view(cands@));
        lemma_sort_desc_len(full);
        if cands.len() == 0 {
            assert(sort_desc(scored_view(cands@)) =~= Seq::<(nat, Seq<char>)>::empty());
            assert(sort_desc(full) =~= scored_view(result@));
        } else {
            assert(sort_desc(full).take(5) =~= scored_view(result@));
        }
    }
    result
}

/// Index of the record named `name`, if any.
pub open spec fn record_index(records: Seq<(String, InstallRecord)>, name: Seq<char>) -> Option<int> {
    if exists|i: int| 0 <= i < records.len() && records[i].0@ == name {
        Some(choose|i: int| 0 <= i < records.len() && records[i].0@ == name)
    } else {
        None
    }
}

/// Record names are distinct.
pub open spec fn names_distinct(records: Seq<(String, InstallRecord)>) -> bool {
    forall|i: int, j: int| 0 <= i < j < records.len() ==> records[i].0@ != records[j].0@
}

/// The texts of one install record: version, kind, path, time.
pub open spec fn record_view(r: InstallRecord) -> (Seq<char>, Seq<char>, Seq<char>, Seq<char>) {
    (r.version@, r.kind@, r.install_path@, r.install_time@)
}

/// The install records as a map from program name to record texts.
pub open spec fn records_map(records: Seq<(String, InstallRecord)>) -> Map<Seq<char>, (Seq<char>, Seq<char>, Seq<char>, Seq<char>)> {
    Map::new(
        |k: Seq<char>| exists|i: int| 0 <= i < records.len() && records[i].0@ == k,
        |k: Seq<char>| record_view(records[record_index(records, k)->0].1),
    )
}

impl InstalledDatabase {
    /// The records as a map from program name to record texts.
    pub open spec fn view_map(&self) -> Map<Seq<char>, (Seq<char>, Seq<char>, Seq<char>, Seq<char>)> {
        records_map(self.records@)
    }

    /// Record names are distinct.
    pub open spec fn wf(&self) -> bool {
        names_distinct(self.records@)
    }

    /// An empty database.
    pub fn new() -> (r: Self)
        ensures
            r.wf(),
            r.view_map() == Map::<Seq<char>, (Seq<char>, Seq<char>, Seq<char>, Seq<char>)>::empty(),
    {
        let r = InstalledDatabase { records: Vec::new() };
        assert(r.view_map() =~= Map::<Seq<char>, (Seq<char>, Seq<char>, Seq<char>, Seq<char>)>::empty());
        r
    }
}

/// The records of a map that are not of kind `installer` (the registry
/// already knows installer installs, so the database does not keep them).
pub open spec fn without_installers(
    m: Map<Seq<char>, (Seq<char>, Seq<char>, Seq<char>, Seq<char>)>,
) -> Map<Seq<char>, (Seq<char>, Seq<char>, Seq<char>, Seq<char>)> {
    Map::new(
        |k: Seq<char>| m.dom().contains(k) && m[k].1 != "installer"@,
        |k: Seq<char>| m[k],
    )
}

/// Whether some record of the map is of kind `installer`.
pub open spec fn has_installer(m: Map<Seq<char>, (Seq<char>, Seq<char>, Seq<char>, Seq<char>)>) -> bool {
    exists|k: Seq<char>| m.dom().contains(k) && #[trigger] m[k].1 == "installer"@
}

/// `rec` copies a record of kind other than `installer` among the first `i`.
pub open spec fn kept_origin(rec: (String, InstallRecord), old: Seq<(String, InstallRecord)>, i: int) -> bool {
    exists|x: int|
        0 <= x < i && rec.0@ == old[x].0@ && record_view(rec.1) == record_view(old[x].1) && old[x].1.kind@ != "installer"@
}

proof fn lemma_index_unique(s: Seq<(String, InstallRecord)>, x: int)
    requires
        names_distinct(s),
        0 <= x < s.len(),
    ensures
        record_index(s, s[x].0@) == Some(x),
        records_map(s).dom().contains(s[x].0@),
        records_map(s)[s[x].0@] == record_view(s[x].1),
{
    let k = s[x].0@;
    let c = choose|i: int| 0 <= i < s.len() && s[i].0@ == k;
    assert(0 <= c < s.len() && s[c].0@ == k);
    if c < x {
        assert(s[c].0@ != s[x].0@);
    } else if c > x {
        assert(s[x].0@ != s[c].0@);
    }
}

fn copy_record(r: &InstallRecord) -> (c: InstallRecord)
    ensures
        record_view(c) == record_view(*r),
{
    InstallRecord {
        version: r.version.clone(),
        kind: r.kind.clone(),
        install_path: r.install_path.clone(),
        install_time: r.install_time.clone(),
    }
}

impl InstalledDatabase {
    /// Drops every record of kind `installer`, as each read of the database
    /// does; tells whether there was one (then the file is written back).
    pub fn drop_installer_records(&mut self) -> (had: bool)
        requires
            old(self).wf(),
        ensures
            final(self).wf(),
            final(self).view_map() == without_installers(old(self).view_map()),
            had == has_installer(old(self).view_map()),
    {
        let ghost old_recs = self.records@;
        let mut kept: Vec<(String, InstallRecord)> = Vec::new();
        let mut had = false;
        let mut i: usize = 0;
        while i < self.records.len()
            invariant
                old_recs == self.records@,
                names_distinct(old_recs),
                i <= old_recs.len(),
                names_distinct(kept@),
                forall|a: int| 0 <= a < kept.len() ==> #[trigger] kept_origin(kept@[a], old_recs, i as int),
                forall|x: int| #![trigger old_recs[x]] 0 <= x < i && old_recs[x].1.kind@ != "installer"@ ==> exists|a: int|
                    0 <= a < kept.len() && kept@[a].0@ == old_recs[x].0@,
                had == exists|x: int| 0 <= x < i && #[trigger] old_recs[x].1.kind@ == "installer"@,
            decreases old_recs.len() - i,
        {
            let is_inst = str_eq(self.records[i].1.kind.as_str(), "installer");
            if is_inst {
                had = true;
                proof {
                    assert forall|a: int| 0 <= a < kept.len() implies #[trigger] kept_origin(kept@[a], old_recs, i + 1) by {
                        assert(kept_origin(kept@[a], old_recs, i as int));
                        let x = choose|x: int| 0 <= x < i && kept@[a].0@ == old_recs[x].0@
                            && record_view(kept@[a].1) == record_view(old_recs[x].1)
                            && old_recs[x].1.kind@ != "installer"@;
                        assert(0 <= x < i + 1);
                    }
                }
            } else {
                let nm = self.records[i].0.clone();
                let rc = copy_record(&self.records[i].1);
                let ghost before = kept@;
                kept.push((nm, rc));
                proof {
                    assert forall|a: int, b: int| 0 <= a < b < kept@.len() implies kept@[a].0@ != kept@[b].0@ by {
                        if b == kept@.len() - 1 {
                            assert(before[a] == kept@[a]);
                            assert(kept_origin(before[a], old_recs, i as int));
                            let x = choose|x: int| 0 <= x < i && before[a].0@ == old_recs[x].0@
                                && record_view(before[a].1) == record_view(old_recs[x].1)
                                && old_recs[x].1.kind@ != "installer"@;
                            assert(old_recs[x].0@ != old_recs[i as int].0@);
                        } else {
                            assert(before[a] == kept@[a]);
                            assert(before[b] == kept@[b]);
                        }
                    }
                    assert forall|a: int| 0 <= a < kept.len() implies #[trigger] kept_origin(kept@[a], old_recs, i + 1) by {
                        if a < before.len() {
                            assert(before[a] == kept@[a]);
                            assert(kept_origin(before[a], old_recs, i as int));
                            let x = choose|x: int| 0 <= x < i && before[a].0@ == old_recs[x].0@
                                && record_view(before[a].1) == record_view(old_recs[x].1)
                                && old_recs[x].1.kind@ != "installer"@;
                            assert(0 <= x < i + 1);
                        } else {
                            assert(kept@[a].0@ == old_recs[i as int].0@);
                            assert(record_view(kept@[a].1) == record_view(old_recs[i as int].1));
                            assert(old_recs[i as int].1.kind@ != "installer"@);
                        }
                    }
                    assert forall|x: int| #![trigger old_recs[x]] 0 <= x < i + 1 && old_recs[x].1.kind@ != "installer"@ implies exists|a: int|
                        0 <= a < kept.len() && kept@[a].0@ == old_recs[x].0@ by {
                        if x < i {
                            let a = choose|a: int| 0 <= a < before.len() && before[a].0@ == old_recs[x].0@;
                            assert(kept@[a] == before[a]);
                        } else {
                            assert(kept@[before.len() as int].0@ == old_recs[x].0@);
                        }
                    }
                }
            }
            i += 1;
        }
        let ghost om = records_map(old_recs);
        self.records = kept;
        proof {
            let nr = self.records@;
            assert forall|k: Seq<char>| #[trigger] records_map(nr).dom().contains(k) == without_installers(om).dom().contains(k) by {
                if records_map(nr).dom().contains(k) {
                    let a = choose|a: int| 0 <= a < nr.len() && nr[a].0@ == k;
                    assert(nr[a] == kept@[a]);
                    assert(kept_origin(kept@[a], old_recs, old_recs.len() as int));
                    let x = choose|x: int| 0 <= x < old_recs.len() && kept@[a].0@ == old_recs[x].0@
                        && record_view(kept@[a].1) == record_view(old_recs[x].1)
                        && old_recs[x].1.kind@ != "installer"@;
                    lemma_index_unique(old_recs, x);
                }
                if without_installers(om).dom().contains(k) {
                    let x = choose|x: int| 0 <= x < old_recs.len() && old_recs[x].0@ == k;
                    lemma_index_unique(old_recs, x);
                    assert(old_recs[x].1.kind@ != "installer"@);
                    let a = choose|a: int| 0 <= a < kept.len() && kept@[a].0@ == old_recs[x].0@;
                    assert(nr[a].0@ == k);
                }
            }
            assert forall|k: Seq<char>| records_map(nr).dom().contains(k) implies #[trigger] records_map(nr)[k] == without_installers(om)[k] by {
                let a = choose|a: int| 0 <= a < nr.len() && nr[a].0@ == k;
                lemma_index_unique(nr, a);
                assert(kept_origin(kept@[a], old_recs, old_recs.len() as int));
                let x = choose|x: int| 0 <= x < old_recs.len() && kept@[a].0@ == old_recs[x].0@
                    && record_view(kept@[a].1) == record_view(old_recs[x].1)
                    && old_recs[x].1.kind@ != "installer"@;
                lemma_index_unique(old_recs, x);
            }
            assert(records_map(nr) =~= without_installers(om));
            if had {
                let x = choose|x: int| 0 <= x < old_recs.len() && #[trigger] old_recs[x].1.kind@ == "installer"@;
                lemma_index_unique(old_recs, x);
                assert(om[old_recs[x].0@].1 == "installer"@);
            }
            if has_installer(om) {
                let k = choose|k: Seq<char>| om.dom().contains(k) && #[trigger] om[k].1 == "installer"@;
                let x = record_index(old_recs, k)->0;
                assert(old_recs[x].1.kind@ == "installer"@);
            }
        }
        had
    }
}

fn find_record(records: &Vec<(String, InstallRecord)>, name: &str) -> (r: Option<usize>)
    requires
        names_distinct(records@),
    ensures
        match r {
            Some(i) => i < records.len() && records@[i as int].0@ == name@ && record_index(records@, name@)
                == Some(i as int),
            None => record_index(records@, name@) is None,
        },
{
    let mut i: usize = 0;
    while i < records.len()
        invariant
            i <= records.len(),
            names_distinct(records@),
            forall|k: int| 0 <= k < i ==> records@[k].0@ != name@,
        decreases records.len() - i,
    {
        if str_eq(records[i].0.as_str(), name) {
            proof {
                assert(records@[i as int].0@ == name@);
                assert(exists|c: int| 0 <= c < records@.len() && records@[c].0@ == name@);
                let c = choose|c: int| 0 <= c < records@.len() && records@[c].0@ == name@;
                if c < i {
                    assert(records@[c].0@ != records@[i as int].0@);
                } else if c > i {
                    assert(records@[i as int].0@ != records@[c].0@);
                }
            }
            return Some(i);
        }
        i += 1;
    }
    None
}

/// Records an installation: an `installer` install is not recorded (the
/// registry knows it) and leaves the database as it is; any other kind drops
/// the `installer` records, as a read of the database does, and sets the
/// record of `name`, replacing an earlier one.
pub fn record_install(
    db: &mut InstalledDatabase,
    name: &str,
    ver: &str,
    kind: &str,
    install_path: &str,
    install_time: String,
) -> (changed: bool)
    requires
        old(db).wf(),
    ensures
        final(db).wf(),
        changed == (kind@ != "installer"@),
        !changed ==> final(db).view_map() == old(db).view_map(),
        changed ==> final(db).view_map() == without_installers(old(db).view_map()).insert(
            name@,
            (ver@, kind@, install_path@, install_time@),
        ),
{
    let installer = "installer";
    if str_eq(kind, installer) {
        return false;
    }
    db.drop_installer_records();
    let rec = InstallRecord {
        version: String::from_str(ver),
        kind: String::from_str(kind),
        install_path: String::from_str(install_path),
        install_time,
    };
    let ghost old_recs = db.records@;
    let ghost val = record_view(rec);
    match find_record(&db.records, name) {
        Some(i) => {
            let nm = String::from_str(name);
            db.records.set(i, (nm, rec));
            proof {
                let nr = db.records@;
                assert forall|a: int, b: int| 0 <= a < b < nr.len() implies nr[a].0@ != nr[b].0@ by {
                    assert(nr[a].0@ == old_recs[a].0@);
                    assert(nr[b].0@ == old_recs[b].0@);
                }
                assert forall|k: Seq<char>| #[trigger] records_map(nr).dom().contains(k) == records_map(old_recs).insert(name@, val).dom().contains(k) by {
                    if exists|x: int| 0 <= x < nr.len() && nr[x].0@ == k {
                        let x = choose|x: int| 0 <= x < nr.len() && nr[x].0@ == k;
                        assert(old_recs[x].0@ == k);
                    }
                    if exists|x: int| 0 <= x < old_recs.len() && old_recs[x].0@ == k {
                        let x = choose|x: int| 0 <= x < old_recs.len() && old_recs[x].0@ == k;
                        assert(nr[x].0@ == k);
                    }
                }
                assert forall|k: Seq<char>| records_map(nr).dom().contains(k) implies #[trigger] records_map(nr)[k] == records_map(old_recs).insert(name@, val)[k] by {
                    let x = record_index(nr, k)->0;
                    let y = choose|y: int| 0 <= y < nr.len() && nr[y].0@ == k;
                    if k != name@ {
                        assert(old_recs[y].0@ == k);
                        let z = record_index(old_recs, k)->0;
                        assert(old_recs[z].0@ == k);
                        assert(nr[z].0@ == k);
                    } else {
                        assert(nr[i as int].0@ == k);
                    }
                }
                assert(records_map(nr) =~= records_map(old_recs).insert(name@, val));
            }
        },
        None => {
            let nm = String::from_str(name);
            db.records.push((nm, rec));
            proof {
                let nr = db.records@;
                assert forall|a: int, b: int| 0 <= a < b < nr.len() implies nr[a].0@ != nr[b].0@ by {
                    if b == nr.len() - 1 {
                        assert(old_recs[a].0@ != name@);
                    } else {
                        assert(nr[a] == old_recs[a]);
                        assert(nr[b] == old_recs[b]);
                    }
                }
                assert forall|k: Seq<char>| #[trigger] records_map(nr).dom().contains(k) == records_map(old_recs).insert(name@, val).dom().contains(k) by {
                    if exists|x: int| 0 <= x < nr.len() && nr[x].0@ == k {
                        let x = choose|x: int| 0 <= x < nr.len() && nr[x].0@ == k;
                        if x < old_recs.len() {
                            assert(old_recs[x].0@ == k);
                        }
                    }
                    if exists|x: int| 0 <= x < old_recs.len() && old_recs[x].0@ == k {
                        let x = choose|x: int| 0 <= x < old_recs.len() && old_recs[x].0@ == k;
                        assert(nr[x].0@ == k);
                    }
                    if k == name@ {
                        assert(nr[nr.len() - 1].0@ == k);
                    }
                }
                assert forall|k: Seq<char>| records_map(nr).dom().contains(k) implies #[trigger] records_map(nr)[k] == records_map(old_recs).insert(name@, val)[k] by {
                    let x = record_index(nr, k)->0;
                    let y = choose|y: int| 0 <= y < nr.len() && nr[y].0@ == k;
                    if k != name@ {
                        assert(y < old_recs.len());
                        assert(old_recs[y].0@ == k);
                        let z = record_index(old_recs, k)->0;
                        assert(old_recs[z].0@ == k);
                        assert(nr[z].0@ == k);
                    } else {
                        assert(nr[nr.len() - 1].0@ == k);
                    }
                }
                assert(records_map(nr) =~= records_map(old_recs).insert(name@, val));
            }
        },
    }
    true
}

/// Removes the record of `name`, if there is one, after dropping the
/// `installer` records as a read of the database does.
pub fn remove_install_record(db: &mut InstalledDatabase, name: &str)
    requires
        old(db).wf(),
    ensures
        final(db).wf(),
        final(db).view_map() == without_installers(old(db).view_map()).remove(name@),
{
    db.drop_installer_records();
    let ghost old_recs = db.records@;
    match find_record(&db.records, name) {
        Some(i) => {
            db.records.remove(i);
            proof {
                let nr = db.records@;
                assert(nr =~= old_recs.remove(i as int));
                assert forall|a: int, b: int| 0 <= a < b < nr.len() implies nr[a].0@ != nr[b].0@ by {
                    let a2 = if a < i { a } else { a + 1 };
                    let b2 = if b < i { b } else { b + 1 };
                    assert(nr[a] == old_recs[a2]);
                    assert(nr[b] == old_recs[b2]);
                }
                assert forall|k: Seq<char>| #[trigger] records_map(nr).dom().contains(k) == records_map(old_recs).remove(name@).dom().contains(k) by {
                    if exists|x: int| 0 <= x < nr.len() && nr[x].0@ == k {
                        let x = choose|x: int| 0 <= x < nr.len() && nr[x].0@ == k;
                        let x2 = if x < i { x } else { x + 1 };
                        assert(old_recs[x2].0@ == k);
                        assert(k != name@);
                    }
                    if k != name@ && exists|x: int| 0 <= x < old_recs.len() && old_recs[x].0@ == k {
                        let x = choose|x: int| 0 <= x < old_recs.len() && old_recs[x].0@ == k;
                        assert(x != i);
                        let x2 = if x < i { x } else { x - 1 };
                        assert(nr[x2].0@ == k);
                    }
                }
                assert forall|k: Seq<char>| records_map(nr).dom().contains(k) implies #[trigger] records_map(nr)[k] == records_map(old_recs).remove(name@)[k] by {
                    let x = record_index(nr, k)->0;
                    let x2 = if x < i { x } else { x + 1 };
                    assert(old_recs[x2].0@ == k);
                    let z = record_index(old_recs, k)->0;
                    assert(old_recs[z].0@ == k);
                }
                assert(records_map(nr) =~= records_map(old_recs).remove(name@));
            }
        },
        None => {
            proof {
                assert(records_map(old_recs) =~= records_map(old_recs).remove(name@));
            }
        },
    }
}

/// A record just written is what the database gives back for that name,
/// and removing it forgets the name while every other record stays.
pub proof fn record_then_remove(
    db: Map<Seq<char>, (Seq<char>, Seq<char>, Seq<char>, Seq<char>)>,
    name: Seq<char>,
    rec: (Seq<char>, Seq<char>, Seq<char>, Seq<char>),
    other: Seq<char>,
)
    requires
        other != name,
    ensures
        db.insert(name, rec)[name] == rec,
        !db.insert(name, rec).remove(name).dom().contains(name),
        db.insert(name, rec).remove(name).dom().contains(other) == db.dom().contains(other),
        db.dom().contains(other) ==> db.insert(name, rec).remove(name)[other] == db[other],
{
}

/// Registry values of one uninstall entry: value name with its text.
pub type RegValues = Vec<(String, String)>;

/// Text of an optional string.
pub open spec fn opt_str_view(o: Option<String>) -> Option<Seq<char>> {
    match o {
        Some(p) => Some(p@),
        None => None,
    }
}

/// Value texts as plain sequences.
pub open spec fn reg_view(m: RegValues) -> Seq<(Seq<char>, Seq<char>)> {
    m@.map_values(|p: (String, String)| (p.0@, p.1@))
}

/// The value stored under `key` (the first pair with that name).
pub open spec fn reg_get(m: Seq<(Seq<char>, Seq<char>)>, key: Seq<char>) -> Option<Seq<char>>
    decreases m.len(),
{
    if m.len() == 0 {
        None
    } else if m[0].0 == key {
        Some(m[0].1)
    } else {
        reg_get(m.drop_first(), key)
    }
}

/// A registry entry as plain values: name, version, publisher, path, uninstall command.
pub type InfoView = (Seq<char>, Seq<char>, Option<Seq<char>>, Option<Seq<char>>, Option<Seq<char>>);

/// The texts of a [`RegistryInfo`].
pub open spec fn info_view(r: RegistryInfo) -> InfoView {
    (
        r.display_name@,
        r.version@,
        opt_str_view(r.publisher),
        opt_str_view(r.install_path),
        opt_str_view(r.uninstall_string),
    )
}

/// The registry entry `m` whose display name is `dn`, as plain values.
pub open spec fn scanned_info(dn: Seq<char>, m: Seq<(Seq<char>, Seq<char>)>) -> InfoView {
    (
        dn,
        match reg_get(m, "version"@) { Some(v) => v, None => Seq::<char>::empty() },
        reg_get(m, "publisher"@),
        reg_get(m, "install_path"@),
        reg_get(m, "uninstall_string"@),
    )
}

/// Detection data as plain values.
pub open spec fn detect_view(d: Option<DetectConfig>) -> Option<(Seq<char>, Option<Seq<char>>)> {
    match d {
        Some(c) => Some((c.display_name@, opt_str_view(c.publisher))),
        None => None,
    }
}

/// Catalogue keys with their detection data.
pub open spec fn detect_table(entries: Seq<(String, SoftwareEntry)>) -> Seq<(Seq<char>, Option<(Seq<char>, Option<Seq<char>>)>)> {
    entries.map_values(|e: (String, SoftwareEntry)| (e.0@, detect_view(e.1.detect)))
}

/// Whether the detection data `det` recognises the display name `dn` with publisher `pb`
/// (the publisher is compared only when both sides have one), ignoring case.
pub open spec fn detect_hit(det: (Seq<char>, Option<Seq<char>>), dn: Seq<char>, pb: Option<Seq<char>>) -> bool {
    contains_seq(lowercase(dn), lowercase(det.0)) && match (pb, det.1) {
        (Some(rp), Some(dp)) => contains_seq(lowercase(rp), lowercase(dp)),
        _ => true,
    }
}

/// Key of the first catalogue entry whose detection data recognises the registry entry.
pub open spec fn match_key(
    table: Seq<(Seq<char>, Option<(Seq<char>, Option<Seq<char>>)>)>,
    dn: Seq<char>,
    pb: Option<Seq<char>>,
) -> Option<Seq<char>>
    decreases table.len(),
{
    if table.len() == 0 {
        None
    } else if table[0].1 matches Some(det) && detect_hit(det, dn, pb) {
        Some(table[0].0)
    } else {
        match_key(table.drop_first(), dn, pb)
    }
}

/// Adds `info` to the group of `key`, creating the group at the end if needed.
pub open spec fn group_add(g: Seq<(Seq<char>, Seq<InfoView>)>, key: Seq<char>, info: InfoView) -> Seq<(Seq<char>, Seq<InfoView>)> {
    if exists|i: int| 0 <= i < g.len() && g[i].0 == key {
        let i = choose|i: int| 0 <= i < g.len() && g[i].0 == key;
        g.update(i, (key, g[i].1.push(info)))
    } else {
        g.push((key, seq![info]))
    }
}

/// Group keys are distinct.
pub open spec fn keys_distinct(g: Seq<(Seq<char>, Seq<InfoView>)>) -> bool {
    forall|i: int, j: int| 0 <= i < j < g.len() ==> g[i].0 != g[j].0
}

/// Registry entries matched to catalogue keys (grouped, groups in order of
/// first match) and entries no catalogue entry recognises; registry entries
/// without a display name are skipped.
pub open spec fn scan_spec(
    table: Seq<(Seq<char>, Option<(Seq<char>, Option<Seq<char>>)>)>,
    regs: Seq<Seq<(Seq<char>, Seq<char>)>>,
) -> (Seq<(Seq<char>, Seq<InfoView>)>, Seq<InfoView>)
    decreases regs.len(),
{
    if regs.len() == 0 {
        (Seq::empty(), Seq::empty())
    } else {
        let (g, u) = scan_spec(table, regs.drop_last());
        let m = regs.last();
        match reg_get(m, "display_name"@) {
            None => (g, u),
            Some(dn) => {
                let info = scanned_info(dn, m);
                match match_key(table, dn, reg_get(m, "publisher"@)) {
                    Some(k) => (group_add(g, k, info), u),
                    None => (g, u.push(info)),
                }
            },
        }
    }
}

/// Value stored under `key` in the registry values `m`.
pub fn reg_value(m: &RegValues, key: &str) -> (r: Option<String>)
    ensures
        match r {
            Some(v) => reg_get(reg_view(*m), key@) == Some(v@),
            None => reg_get(reg_view(*m), key@) is None,
        },
{
    let ghost mv = reg_view(*m);
    let mut i: usize = 0;
    assert(mv.skip(0) =~= mv);
    while i < m.len()
        invariant
            i <= m.len(),
            mv == reg_view(*m),
            reg_get(mv, key@) == reg_get(mv.skip(i as int), key@),
        decreases m.len() - i,
    {
        assert(mv.skip(i as int).drop_first() =~= mv.skip(i + 1));
        assert(mv.skip(i as int)[0] == (m@[i as int].0@, m@[i as int].1@));
        if str_eq(m[i].0.as_str(), key) {
            return Some(m[i].1.clone());
        }
        i += 1;
    }
    assert(mv.skip(i as int) =~= Seq::<(Seq<char>, Seq<char>)>::empty());
    None
}

fn contains_ci(hay: &str, needle: &str) -> (r: bool)
    ensures
        r == contains_seq(lowercase(hay@), lowercase(needle@)),
{
    let h = lower_chars(hay);
    let n = lower_chars(needle);
    contains(h.as_slice(), n.as_slice())
}

fn detect_matches(det: &DetectConfig, dn: &str, pb: &Option<String>) -> (r: bool)
    ensures
        r == detect_hit(
            detect_view(Some(*det))->0,
            dn@,
            opt_str_view(*pb),
        ),
{
    if !contains_ci(dn, det.display_name.as_str()) {
        return false;
    }
    match (pb, &det.publisher) {
        (Some(rp), Some(dp)) => contains_ci(rp.as_str(), dp.as_str()),
        _ => true,
    }
}

fn find_key(entries: &[(String, SoftwareEntry)], dn: &str, pb: &Option<String>) -> (r: Option<usize>)
    ensures
        match r {
            Some(i) => i < entries.len() && match_key(
                detect_table(entries@),
                dn@,
                opt_str_view(*pb),
            ) == Some(entries@[i as int].0@),
            None => match_key(
                detect_table(entries@),
                dn@,
                opt_str_view(*pb),
            ) is None,
        },
{
    let ghost t = detect_table(entries@);
    let ghost pv = opt_str_view(*pb);
    let mut i: usize = 0;
    assert(t.skip(0) =~= t);
    while i < entries.len()
        invariant
            i <= entries.len(),
            t == detect_table(entries@),
            pv == opt_str_view(*pb),
            match_key(t, dn@, pv) == match_key(t.skip(i as int), dn@, pv),
        decreases entries.len() - i,
    {
        assert(t.skip(i as int).drop_first() =~= t.skip(i + 1));
        assert(t.skip(i as int)[0] == (entries@[i as int].0@, detect_view(entries@[i as int].1.detect)));
        match &entries[i].1.detect {
            Some(det) => {
                if detect_matches(det, dn, pb) {
                    return Some(i);
                }
            },
            None => {},
        }
        i += 1;
    }
    assert(t.skip(i as int) =~= Seq::<(Seq<char>, Option<(Seq<char>, Option<Seq<char>>)>)>::empty());
    None
}

/// Group views of matched registry entries.
pub open spec fn groups_view(g: Seq<(String, Vec<RegistryInfo>)>) -> Seq<(Seq<char>, Seq<InfoView>)> {
    g.map_values(|e: (String, Vec<RegistryInfo>)| (e.0@, e.1@.map_values(|r: RegistryInfo| info_view(r))))
}

fn make_info(dn: &String, m: &RegValues) -> (r: RegistryInfo)
    ensures
        info_view(r) == scanned_info(dn@, reg_view(*m)),
{
    let version = match reg_value(m, "version") {
        Some(v) => v,
        None => String::new(),
    };
    RegistryInfo {
        display_name: dn.clone(),
        version,
        publisher: reg_value(m, "publisher"),
        install_path: reg_value(m, "install_path"),
        uninstall_string: reg_value(m, "uninstall_string"),
    }
}

fn add_to_group(groups: &mut Vec<(String, Vec<RegistryInfo>)>, key: &String, info: RegistryInfo)
    requires
        keys_distinct(groups_view(old(groups)@)),
    ensures
        keys_distinct(groups_view(final(groups)@)),
        groups_view(final(groups)@) == group_add(groups_view(old(groups)@), key@, info_view(info)),
{
    let ghost g = groups_view(groups@);
    let ghost iv = info_view(info);
    let mut i: usize = 0;
    while i < groups.len()
        invariant
            i <= groups.len(),
            g == groups_view(groups@),
            g == groups_view(old(groups)@),
            iv == info_view(info),
            keys_distinct(g),
            forall|k: int| 0 <= k < i ==> g[k].0 != key@,
        decreases groups.len() - i,
    {
        assert(g[i as int].0 == groups@[i as int].0@);
        if str_eq(groups[i].0.as_str(), key.as_str()) {
            proof {
                assert(exists|x: int| 0 <= x < g.len() && g[x].0 == key@);
                let c = choose|x: int| 0 <= x < g.len() && g[x].0 == key@;
                if c < i {
                } else if c > i {
                    assert(g[i as int].0 != g[c].0);
                }
            }
            let ghost s0 = groups@;
            let mut entry = groups.remove(i);
            assert(groups@ =~= s0.remove(i as int));
            let ghost e0 = entry;
            let ghost inf = info;
            entry.1.push(info);
            assert(entry.1@ == e0.1@.push(inf));
            assert(info_view(inf) == iv);
            assert(entry.1@.map_values(|r: RegistryInfo| info_view(r)) =~= e0.1@.map_values(
                |r: RegistryInfo| info_view(r),
            ).push(iv));
            let ghost e1 = entry;
            groups.insert(i, entry);
            proof {
                assert(groups@ =~= s0.update(i as int, e1));
                let ng = groups_view(groups@);
                assert(ng =~= g.update(i as int, (key@, g[i as int].1.push(iv))));
            }
            return;
        }
        i += 1;
    }
    let mut v: Vec<RegistryInfo> = Vec::new();
    v.push(info);
    assert(v@.map_values(|r: RegistryInfo| info_view(r)) =~= seq![iv]);
    let ghost s0 = groups@;
    let k2 = key.clone();
    let ghost e1 = (k2, v);
    groups.push((k2, v));
    proof {
        assert(groups@ =~= s0.push(e1));
        let ng = groups_view(groups@);
        assert(ng =~= g.push((key@, seq![iv])));
    }
}

/// Sorts registry entries into those recognised by a catalogue entry
/// (grouped by catalogue key) and the rest.
pub fn scan_registry_installed(
    entries: &[(String, SoftwareEntry)],
    all_reg: &[RegValues],
) -> (r: (Vec<(String, Vec<RegistryInfo>)>, Vec<RegistryInfo>))
    ensures
        (groups_view(r.0@), r.1@.map_values(|x: RegistryInfo| info_view(x))) == scan_spec(
            detect_table(entries@),
            all_reg@.map_values(|m: RegValues| reg_view(m)),
        ),
{
    let ghost regs = all_reg@.map_values(|m: RegValues| reg_view(m));
    let ghost table = detect_table(entries@);
    let mut matched: Vec<(String, Vec<RegistryInfo>)> = Vec::new();
    let mut unmatched: Vec<RegistryInfo> = Vec::new();
    let mut i: usize = 0;
    while i < all_reg.len()
        invariant
            i <= all_reg.len(),
            regs == all_reg@.map_values(|m: RegValues| reg_view(m)),
            table == detect_table(entries@),
            keys_distinct(groups_view(matched@)),
            (groups_view(matched@), unmatched@.map_values(|x: RegistryInfo| info_view(x))) == scan_spec(
                table,
                regs.take(i as int),
            ),
        decreases all_reg.len() - i,
    {
        assert(regs.take(i + 1).drop_last() =~= regs.take(i as int));
        assert(regs.take(i + 1).last() == reg_view(all_reg@[i as int]));
        let m = &all_reg[i];
        match reg_value(m, "display_name") {
            None => {},
            Some(dn) => {
                let info = make_info(&dn, m);
                let pb = reg_value(m, "publisher");
                match find_key(entries, dn.as_str(), &pb) {
                    Some(k) => {
                        let key = &entries[k].0;
                        add_to_group(&mut matched, key, info);
                    },
                    None => {
                        let ghost u = unmatched@.map_values(|x: RegistryInfo| info_view(x));
                        let ghost iv = info_view(info);
                        unmatched.push(info);
                        assert(unmatched@.map_values(|x: RegistryInfo| info_view(x)) =~= u.push(iv));
                    },
                }
            },
        }
        i += 1;
    }
    assert(regs.take(all_reg.len() as int) =~= regs);
    (matched, unmatched)
}

/// The registry entry reported for a detection query, as plain values.
pub open spec fn raw_info(m: Seq<(Seq<char>, Seq<char>)>) -> InfoView {
    (
        match reg_get(m, "DisplayName"@) { Some(v) => v, None => Seq::<char>::empty() },
        match reg_get(m, "DisplayVersion"@) { Some(v) => v, None => Seq::<char>::empty() },
        reg_get(m, "Publisher"@),
        reg_get(m, "InstallLocation"@),
        reg_get(m, "UninstallString"@),
    )
}

fn info_from_raw(m: &RegValues) -> (r: RegistryInfo)
    ensures
        info_view(r) == raw_info(reg_view(*m)),
{
    let display_name = match reg_value(m, "DisplayName") {
        Some(v) => v,
        None => String::new(),
    };
    let version = match reg_value(m, "DisplayVersion") {
        Some(v) => v,
        None => String::new(),
    };
    RegistryInfo {
        display_name,
        version,
        publisher: reg_value(m, "Publisher"),
        install_path: reg_value(m, "InstallLocation"),
        uninstall_string: reg_value(m, "UninstallString"),
    }
}

/// Converts the registry values found for a detection query (if any) into a
/// [`RegistryInfo`]; missing name and version read as empty.
pub fn detect_from_registry_raw(found: Option<RegValues>) -> (r: Option<RegistryInfo>)
    ensures
        match (found, r) {
            (None, None) => true,
            (Some(m), Some(i)) => info_view(i) == raw_info(reg_view(m)),
            _ => false,
        },
{
    match found {
        Some(m) => Some(info_from_raw(&m)),
        None => None,
    }
}

/// Registry entries of one program, keeping for each non-empty version only
/// its first entry and dropping entries without a version.
pub open spec fn dedup_versions(regs: Seq<Seq<(Seq<char>, Seq<char>)>>) -> Seq<InfoView>
    decreases regs.len(),
{
    if regs.len() == 0 {
        Seq::empty()
    } else {
        let prev = dedup_versions(regs.drop_last());
        let info = raw_info(regs.last());
        if info.1.len() == 0 || exists|k: int| 0 <= k < prev.len() && prev[k].1 == info.1 {
            prev
        } else {
            prev.push(info)
        }
    }
}

/// The versions detected for a program are non-empty and pairwise
/// distinct, and there are no more of them than registry entries.
pub proof fn detected_versions_are_distinct(regs: Seq<Seq<(Seq<char>, Seq<char>)>>)
    ensures
        dedup_versions(regs).len() <= regs.len(),
        forall|k: int| 0 <= k < dedup_versions(regs).len() ==> (#[trigger] dedup_versions(regs)[k]).1.len() > 0,
        forall|a: int, b: int| 0 <= a < b < dedup_versions(regs).len() ==> (#[trigger] dedup_versions(regs)[a]).1
            != (#[trigger] dedup_versions(regs)[b]).1,
    decreases regs.len(),
{
    if regs.len() > 0 {
        detected_versions_are_distinct(regs.drop_last());
        let prev = dedup_versions(regs.drop_last());
        let info = raw_info(regs.last());
        if !(info.1.len() == 0 || exists|k: int| 0 <= k < prev.len() && prev[k].1 == info.1) {
            let d = dedup_versions(regs);
            assert(d == prev.push(info));
            assert forall|a: int, b: int| 0 <= a < b < d.len() implies (#[trigger] d[a]).1 != (#[trigger] d[b]).1 by {
                if b == d.len() - 1 {
                    assert(d[a] == prev[a]);
                } else {
                    assert(d[a] == prev[a] && d[b] == prev[b]);
                }
            }
            assert forall|k: int| 0 <= k < d.len() implies (#[trigger] d[k]).1.len() > 0 by {
                if k < prev.len() {
                    assert(d[k] == prev[k]);
                }
            }
        }
    }
}

/// The key `match_key` finds belongs to an entry with detection data.
proof fn lemma_match_key_in_table(
    table: Seq<(Seq<char>, Option<(Seq<char>, Option<Seq<char>>)>)>,
    dn: Seq<char>,
    pb: Option<Seq<char>>,
)
    ensures
        match_key(table, dn, pb) matches Some(k) ==> exists|i: int| 0 <= i < table.len() && (#[trigger] table[i]).0 == k,
    decreases table.len(),
{
    if table.len() > 0 {
        lemma_match_key_in_table(table.drop_first(), dn, pb);
        if let Some(k) = match_key(table.drop_first(), dn, pb) {
            if !(table[0].1 matches Some(det) && detect_hit(det, dn, pb)) {
                let i = choose|i: int| 0 <= i < table.drop_first().len() && (#[trigger] table.drop_first()[i]).0 == k;
                assert(table[i + 1] == table.drop_first()[i]);
            }
        }
    }
}

/// Every group of the registry scan is named by a catalogue key, holds at
/// least one registry entry, and no two groups share a key.
pub proof fn scan_groups_are_catalogue_keys(
    table: Seq<(Seq<char>, Option<(Seq<char>, Option<Seq<char>>)>)>,
    regs: Seq<Seq<(Seq<char>, Seq<char>)>>,
)
    ensures
        keys_distinct(scan_spec(table, regs).0),
        forall|g: int| 0 <= g < scan_spec(table, regs).0.len() ==> (#[trigger] scan_spec(table, regs).0[g]).1.len() > 0,
        forall|g: int| 0 <= g < scan_spec(table, regs).0.len() ==> exists|i: int| 0 <= i < table.len()
            && (#[trigger] table[i]).0 == (#[trigger] scan_spec(table, regs).0[g]).0,
    decreases regs.len(),
{
    if regs.len() > 0 {
        scan_groups_are_catalogue_keys(table, regs.drop_last());
        let (g, u) = scan_spec(table, regs.drop_last());
        let m = regs.last();
        if let Some(dn) = reg_get(m, "display_name"@) {
            let info = scanned_info(dn, m);
            lemma_match_key_in_table(table, dn, reg_get(m, "publisher"@));
            if let Some(k) = match_key(table, dn, reg_get(m, "publisher"@)) {
                let g2 = group_add(g, k, info);
                assert(scan_spec(table, regs).0 == g2);
                if exists|i: int| 0 <= i < g.len() && g[i].0 == k {
                    let i = choose|i: int| 0 <= i < g.len() && g[i].0 == k;
                    assert(g2 == g.update(i, (k, g[i].1.push(info))));
                    assert forall|x: int| 0 <= x < g2.len() implies exists|t: int| 0 <= t < table.len()
                        && (#[trigger] table[t]).0 == (#[trigger] g2[x]).0 by {
                        assert(g2[x].0 == g[x].0);
                    }
                    assert forall|x: int| 0 <= x < g2.len() implies (#[trigger] g2[x]).1.len() > 0 by {
                        if x != i {
                            assert(g2[x] == g[x]);
                        }
                    }
                    assert forall|a: int, b: int| 0 <= a < b < g2.len() implies g2[a].0 != g2[b].0 by {
                        assert(g2[a].0 == g[a].0 && g2[b].0 == g[b].0);
                    }
                } else {
                    assert(g2 == g.push((k, seq![info])));
                    assert forall|x: int| 0 <= x < g2.len() implies exists|t: int| 0 <= t < table.len()
                        && (#[trigger] table[t]).0 == (#[trigger] g2[x]).0 by {
                        if x < g.len() {
                            assert(g2[x] == g[x]);
                        }
                    }
                    assert forall|x: int| 0 <= x < g2.len() implies (#[trigger] g2[x]).1.len() > 0 by {
                        if x < g.len() {
                            assert(g2[x] == g[x]);
                        }
                    }
                    assert forall|a: int, b: int| 0 <= a < b < g2.len() implies g2[a].0 != g2[b].0 by {
                        if b == g.len() {
                            assert(g2[a] == g[a]);
                        } else {
                            assert(g2[a] == g[a] && g2[b] == g[b]);
                        }
                    }
                }
            }
        }
    }
}

/// Registry entries counted over all groups.
pub open spec fn group_total(g: Seq<(Seq<char>, Seq<InfoView>)>) -> nat
    decreases g.len(),
{
    if g.len() == 0 { 0 } else { group_total(g.drop_last()) + g.last().1.len() }
}

/// Registry entries that have a display name.
pub open spec fn named_count(regs: Seq<Seq<(Seq<char>, Seq<char>)>>) -> nat
    decreases regs.len(),
{
    if regs.len() == 0 {
        0
    } else {
        named_count(regs.drop_last()) + if reg_get(regs.last(), "display_name"@) is Some { 1nat } else { 0nat }
    }
}

proof fn lemma_group_total_update(g: Seq<(Seq<char>, Seq<InfoView>)>, i: int, k: Seq<char>, x: InfoView)
    requires
        0 <= i < g.len(),
    ensures
        group_total(g.update(i, (k, g[i].1.push(x)))) == group_total(g) + 1,
    decreases g.len(),
{
    let g2 = g.update(i, (k, g[i].1.push(x)));
    if i == g.len() - 1 {
        assert(g2.drop_last() =~= g.drop_last());
    } else {
        lemma_group_total_update(g.drop_last(), i, k, x);
        assert(g2.drop_last() =~= g.drop_last().update(i, (k, g.drop_last()[i].1.push(x))));
    }
}

proof fn lemma_group_total_add(g: Seq<(Seq<char>, Seq<InfoView>)>, key: Seq<char>, info: InfoView)
    ensures
        group_total(group_add(g, key, info)) == group_total(g) + 1,
{
    if exists|i: int| 0 <= i < g.len() && g[i].0 == key {
        assert(exists|j: int| 0 <= j < g.len() && #[trigger] g[j].0 == key && group_add(g, key, info) == g.update(
            j,
            (key, g[j].1.push(info)),
        ));
        let j = choose|j: int| 0 <= j < g.len() && #[trigger] g[j].0 == key && group_add(g, key, info) == g.update(
            j,
            (key, g[j].1.push(info)),
        );
        lemma_group_total_update(g, j, key, info);
    } else {
        let g2 = g.push((key, seq![info]));
        assert(g2.drop_last() =~= g);
        assert(group_add(g, key, info) == g2);
        assert(g2.last().1.len() == 1);
        assert(group_total(g2) == group_total(g) + 1);
    }
}

/// Each registry entry with a display name lands exactly once in the scan:
/// in one group or among the unmatched ones; those without are dropped.
pub proof fn scan_keeps_every_named_entry(
    table: Seq<(Seq<char>, Option<(Seq<char>, Option<Seq<char>>)>)>,
    regs: Seq<Seq<(Seq<char>, Seq<char>)>>,
)
    ensures
        group_total(scan_spec(table, regs).0) + scan_spec(table, regs).1.len() == named_count(regs),
    decreases regs.len(),
{
    if regs.len() > 0 {
        scan_keeps_every_named_entry(table, regs.drop_last());
        let (g, u) = scan_spec(table, regs.drop_last());
        let m = regs.last();
        if let Some(dn) = reg_get(m, "display_name"@) {
            let info = scanned_info(dn, m);
            if let Some(k) = match_key(table, dn, reg_get(m, "publisher"@)) {
                assert(scan_spec(table, regs) == (group_add(g, k, info), u));
                lemma_group_total_add(g, k, info);
            } else {
                assert(scan_spec(table, regs) == (g, u.push(info)));
            }
        } else {
            assert(scan_spec(table, regs) == (g, u));
        }
    }
}

/// The registry entries (as scanned) that the catalogue key `k` recognises,
/// in registry order.
pub open spec fn group_of(
    table: Seq<(Seq<char>, Option<(Seq<char>, Option<Seq<char>>)>)>,
    regs: Seq<Seq<(Seq<char>, Seq<char>)>>,
    k: Seq<char>,
) -> Seq<InfoView>
    decreases regs.len(),
{
    if regs.len() == 0 {
        Seq::empty()
    } else {
        let prev = group_of(table, regs.drop_last(), k);
        let m = regs.last();
        match reg_get(m, "display_name"@) {
            Some(dn) => if match_key(table, dn, reg_get(m, "publisher"@)) == Some(k) {
                prev.push(scanned_info(dn, m))
            } else {
                prev
            },
            None => prev,
        }
    }
}

/// The registry entries with a display name that no catalogue entry
/// recognises, in registry order.
pub open spec fn unmatched_of(
    table: Seq<(Seq<char>, Option<(Seq<char>, Option<Seq<char>>)>)>,
    regs: Seq<Seq<(Seq<char>, Seq<char>)>>,
) -> Seq<InfoView>
    decreases regs.len(),
{
    if regs.len() == 0 {
        Seq::empty()
    } else {
        let prev = unmatched_of(table, regs.drop_last());
        let m = regs.last();
        match reg_get(m, "display_name"@) {
            Some(dn) => if match_key(table, dn, reg_get(m, "publisher"@)) is None {
                prev.push(scanned_info(dn, m))
            } else {
                prev
            },
            None => prev,
        }
    }
}

/// The registry scan places every entry with a display name exactly where
/// its match sends it: each group holds exactly the entries its catalogue
/// key recognises (the first entry whose detection data matches the display
/// name and, when both have one, the publisher, ignoring case), every key
/// that recognises an entry has a group, the unmatched list holds exactly the
/// entries no key recognises, and entries without a display name are
/// dropped. Group keys are catalogue keys, distinct, and groups non-empty.
pub proof fn scan_places_every_entry(
    table: Seq<(Seq<char>, Option<(Seq<char>, Option<Seq<char>>)>)>,
    regs: Seq<Seq<(Seq<char>, Seq<char>)>>,
)
    ensures
        forall|j: int| 0 <= j < scan_spec(table, regs).0.len() ==> (#[trigger] scan_spec(table, regs).0[j]).1
            == group_of(table, regs, scan_spec(table, regs).0[j].0),
        forall|k: Seq<char>| #[trigger] group_of(table, regs, k).len() > 0 ==> exists|j: int|
            0 <= j < scan_spec(table, regs).0.len() && scan_spec(table, regs).0[j].0 == k,
        scan_spec(table, regs).1 == unmatched_of(table, regs),
        keys_distinct(scan_spec(table, regs).0),
        forall|g: int| 0 <= g < scan_spec(table, regs).0.len() ==> (#[trigger] scan_spec(table, regs).0[g]).1.len() > 0,
        forall|g: int| 0 <= g < scan_spec(table, regs).0.len() ==> exists|i: int| 0 <= i < table.len()
            && (#[trigger] table[i]).0 == (#[trigger] scan_spec(table, regs).0[g]).0,
    decreases regs.len(),
{
    scan_groups_are_catalogue_keys(table, regs);
    if regs.len() > 0 {
        let r0 = regs.drop_last();
        scan_places_every_entry(table, r0);
        scan_groups_are_catalogue_keys(table, r0);
        let (g, u) = scan_spec(table, r0);
        let m = regs.last();
        match reg_get(m, "display_name"@) {
            None => {
                assert(scan_spec(table, regs) == (g, u));
                assert forall|j: int| 0 <= j < g.len() implies (#[trigger] g[j]).1 == group_of(table, regs, g[j].0) by {
                    assert(group_of(table, regs, g[j].0) == group_of(table, r0, g[j].0));
                }
                assert forall|k: Seq<char>| #[trigger] group_of(table, regs, k).len() > 0 implies exists|j: int|
                    0 <= j < g.len() && g[j].0 == k by {
                    assert(group_of(table, regs, k) == group_of(table, r0, k));
                }
            },
            Some(dn) => {
                let info = scanned_info(dn, m);
                let pb = reg_get(m, "publisher"@);
                match match_key(table, dn, pb) {
                    None => {
                        assert(scan_spec(table, regs) == (g, u.push(info)));
                        assert forall|j: int| 0 <= j < g.len() implies (#[trigger] g[j]).1 == group_of(table, regs, g[j].0) by {
                            assert(group_of(table, regs, g[j].0) == group_of(table, r0, g[j].0));
                        }
                        assert forall|k: Seq<char>| #[trigger] group_of(table, regs, k).len() > 0 implies exists|j: int|
                            0 <= j < g.len() && g[j].0 == k by {
                            assert(group_of(table, regs, k) == group_of(table, r0, k));
                        }
                    },
                    Some(key) => {
                        assert(scan_spec(table, regs) == (group_add(g, key, info), u));
                        let g2 = group_add(g, key, info);
                        if exists|i: int| 0 <= i < g.len() && g[i].0 == key {
                            assert(exists|jj: int| 0 <= jj < g.len() && #[trigger] g[jj].0 == key && g2 == g.update(
                                jj,
                                (key, g[jj].1.push(info)),
                            ));
                            let jj = choose|jj: int| 0 <= jj < g.len() && #[trigger] g[jj].0 == key && g2 == g.update(
                                jj,
                                (key, g[jj].1.push(info)),
                            );
                            assert forall|j: int| 0 <= j < g2.len() implies (#[trigger] g2[j]).1 == group_of(
                                table,
                                regs,
                                g2[j].0,
                            ) by {
                                if j == jj {
                                    assert(group_of(table, regs, key) == group_of(table, r0, key).push(info));
                                } else {
                                    assert(g2[j] == g[j]);
                                    assert(g[j].0 != key);
                                    assert(group_of(table, regs, g[j].0) == group_of(table, r0, g[j].0));
                                }
                            }
                            assert forall|k: Seq<char>| #[trigger] group_of(table, regs, k).len() > 0 implies exists|j: int|
                                0 <= j < g2.len() && g2[j].0 == k by {
                                if k == key {
                                    assert(g2[jj].0 == k);
                                } else {
                                    assert(group_of(table, regs, k) == group_of(table, r0, k));
                                    let j = choose|j: int| 0 <= j < g.len() && g[j].0 == k;
                                    assert(g2[j].0 == k);
                                }
                            }
                        } else {
                            assert(g2 == g.push((key, seq![info])));
                            assert(group_of(table, r0, key).len() == 0) by {
                                if group_of(table, r0, key).len() > 0 {
                                    let j = choose|j: int| 0 <= j < g.len() && g[j].0 == key;
                                    assert(g[j].0 == key);
                                }
                            }
                            assert(group_of(table, regs, key) =~= seq![info]);
                            assert forall|j: int| 0 <= j < g2.len() implies (#[trigger] g2[j]).1 == group_of(
                                table,
                                regs,
                                g2[j].0,
                            ) by {
                                if j < g.len() {
                                    assert(g2[j] == g[j]);
                                    assert(g[j].0 != key);
                                    assert(group_of(table, regs, g[j].0) == group_of(table, r0, g[j].0));
                                }
                            }
                            assert forall|k: Seq<char>| #[trigger] group_of(table, regs, k).len() > 0 implies exists|j: int|
                                0 <= j < g2.len() && g2[j].0 == k by {
                                if k == key {
                                    assert(g2[g.len() as int].0 == k);
                                } else {
                                    assert(group_of(table, regs, k) == group_of(table, r0, k));
                                    let j = choose|j: int| 0 <= j < g.len() && g[j].0 == k;
                                    assert(g2[j].0 == k);
                                }
                            }
                        }
                    },
                }
            },
        }
    }
}

/// All installed versions of `entry` among the registry entries found for
/// its detection data, one entry per version; none when the entry has no
/// detection data.
pub fn detect_all_from_registry(entry: &SoftwareEntry, results: &[RegValues]) -> (r: Vec<RegistryInfo>)
    ensures
        entry.detect is None ==> r.len() == 0,
        entry.detect is Some ==> r@.map_values(|x: RegistryInfo| info_view(x)) == dedup_versions(
            results@.map_values(|m: RegValues| reg_view(m)),
        ),
{
    let mut out: Vec<RegistryInfo> = Vec::new();
    if entry.detect.is_none() {
        return out;
    }
    let ghost regs = results@.map_values(|m: RegValues| reg_view(m));
    let mut i: usize = 0;
    while i < results.len()
        invariant
            i <= results.len(),
            regs == results@.map_values(|m: RegValues| reg_view(m)),
            out@.map_values(|x: RegistryInfo| info_view(x)) == dedup_versions(regs.take(i as int)),
        decreases results.len() - i,
    {
        assert(regs.take(i + 1).drop_last() =~= regs.take(i as int));
        assert(regs.take(i + 1).last() == reg_view(results@[i as int]));
        let info = info_from_raw(&results[i]);
        let ghost ov = out@.map_values(|x: RegistryInfo| info_view(x));
        let mut seen = false;
        let mut k: usize = 0;
        while k < out.len()
            invariant
                k <= out.len(),
                ov == out@.map_values(|x: RegistryInfo| info_view(x)),
                seen == exists|j: int| 0 <= j < k && ov[j].1 == info.version@,
            decreases out.len() - k,
        {
            assert(ov[k as int] == info_view(out@[k as int]));
            if str_eq(out[k].version.as_str(), info.version.as_str()) {
                seen = true;
            }
            proof {
                if seen {
                    if out@[k as int].version@ == info.version@ {
                        assert(ov[k as int].1 == info.version@);
                    }
                }
            }
            k += 1;
        }
        if !info.version.as_str().is_empty() && !seen {
            let ghost iv = info_view(info);
            out.push(info);
            assert(out@.map_values(|x: RegistryInfo| info_view(x)) =~= ov.push(iv));
        }
        i += 1;
    }
    assert(regs.take(results.len() as int) =~= regs);
    out
}

/// `s` padded with spaces on the right to display width `w`.
pub open spec fn pad_spec(s: Seq<char>, w: nat) -> Seq<char> {
    if display_width(s) >= w {
        s
    } else {
        s + Seq::new((w - display_width(s)) as nat, |_i: int| ' ')
    }
}

/// `s` padded with spaces on the left to display width `w`.
pub open spec fn pad_r_spec(s: Seq<char>, w: nat) -> Seq<char> {
    if display_width(s) >= w {
        s
    } else {
        Seq::new((w - display_width(s)) as nat, |_i: int| ' ') + s
    }
}

/// Left-aligns `s` in a column of display width `w`.
pub fn pad(s: &str, w: usize) -> (r: String)
    ensures
        r@ == pad_spec(s@, w as nat),
{
    let cw = str_width(s);
    if cw >= w {
        String::from_str(s)
    } else {
        let mut r = String::from_str(s);
        let sp = repeat_vec(' ', w - cw);
        push_all(&mut r, sp.as_slice());
        r
    }
}

/// Right-aligns `s` in a column of display width `w`.
pub fn pad_r(s: &str, w: usize) -> (r: String)
    ensures
        r@ == pad_r_spec(s@, w as nat),
{
    let cw = str_width(s);
    if cw >= w {
        String::from_str(s)
    } else {
        let sp = repeat_vec(' ', w - cw);
        let mut r = string_of(sp.as_slice());
        crate::text::push_str(&mut r, s);
        r
    }
}

/// Outcome of looking a query up in the catalogue.
pub enum Resolution {
    /// The catalogue entry at this index.
    Found(usize),
    /// Several entries have the query as an alias (indices in catalogue order).
    Ambiguous(Vec<usize>),
    /// No entry; these are the closest names.
    Suggest(Vec<Suggestion>),
    /// No entry and nothing close.
    NotFound,
}

/// Index of the first entry whose key equals `q`.
pub open spec fn key_index(all: Seq<(String, SoftwareEntry)>, q: Seq<char>) -> Option<int> {
    if exists|i: int| 0 <= i < all.len() && all[i].0@ == q {
        Some(choose|i: int| 0 <= i < all.len() && all[i].0@ == q && forall|j: int| 0 <= j < i ==> all[j].0@ != q)
    } else {
        None
    }
}

/// Entry `e` has an alias that lowers to `q`.
pub open spec fn alias_hit_spec(e: SoftwareEntry, q: Seq<char>) -> bool {
    exists|a: int| 0 <= a < e.aliases.len() && lowercase(e.aliases@[a]@) == q
}

/// Indices of the entries with an alias lowering to `q`, in catalogue order.
pub open spec fn alias_indices(all: Seq<(String, SoftwareEntry)>, q: Seq<char>) -> Seq<usize>
    decreases all.len(),
{
    if all.len() == 0 {
        Seq::empty()
    } else {
        let prev = alias_indices(all.drop_last(), q);
        if alias_hit_spec(all.last().1, q) {
            prev.push((all.len() - 1) as usize)
        } else {
            prev
        }
    }
}

fn has_alias(e: &SoftwareEntry, q: &str) -> (r: bool)
    ensures
        r == alias_hit_spec(*e, q@),
{
    let mut a: usize = 0;
    while a < e.aliases.len()
        invariant
            a <= e.aliases.len(),
            forall|k: int| 0 <= k < a ==> lowercase(e.aliases@[k]@) != q@,
        decreases e.aliases.len() - a,
    {
        let al = to_lower(e.aliases[a].as_str());
        if str_eq(al.as_str(), q) {
            return true;
        }
        a += 1;
    }
    false
}

/// The answer to looking `query` up: the entry keyed by the lowered query,
/// else the one entry with a matching alias, else all of them when several,
/// else up to five suggestions, else nothing found.
pub open spec fn resolves_to(all: Seq<(String, SoftwareEntry)>, query: Seq<char>, r: Resolution) -> bool {
    &&& key_index(all, lowercase(query)) matches Some(i) ==> r == Resolution::Found(i as usize)
    &&& key_index(all, lowercase(query)) is None ==> {
        let hits = alias_indices(all, lowercase(query));
        let sugg = first_n(sort_desc(candidates(query, catalog_view(all))), 5);
        &&& hits.len() == 1 ==> r == Resolution::Found(hits[0])
        &&& hits.len() > 1 ==> (r matches Resolution::Ambiguous(v) && v@ == hits)
        &&& hits.len() == 0 && sugg.len() > 0 ==> (r matches Resolution::Suggest(v) && scored_view(v@) == sugg)
        &&& hits.len() == 0 && sugg.len() == 0 ==> r == Resolution::NotFound
    }
}

/// The lookup can be answered: the query names an entry or an alias, or
/// the suggestion scan is safe.
pub open spec fn resolvable(all: Seq<(String, SoftwareEntry)>, query: Seq<char>) -> bool {
    key_index(all, lowercase(query)) is Some || alias_indices(all, lowercase(query)).len() > 0
        || suggest_safe(query, catalog_view(all))
}

/// Looks `query` up: an entry whose key is the lowered query, else the
/// entries with a matching alias (ignoring case), else suggestions.
pub fn resolve_query(query: &str, all: &[(String, SoftwareEntry)]) -> (r: Resolution)
    requires
        resolvable(all@, query@),
        all.len() < usize::MAX,
    ensures
        resolves_to(all@, query@, r),
{
    let ql = to_lower(query);
    let mut i: usize = 0;
    while i < all.len()
        invariant
            i <= all.len(),
            ql@ == lowercase(query@),
            forall|j: int| 0 <= j < i ==> all@[j].0@ != ql@,
        decreases all.len() - i,
    {
        if str_eq(all[i].0.as_str(), ql.as_str()) {
            proof {
                let q = ql@;
                let c = choose|c: int| 0 <= c < all@.len() && all@[c].0@ == q && forall|j: int| 0 <= j < c ==> all@[j].0@ != q;
                assert(0 <= c < all@.len() && all@[c].0@ == q && forall|j: int| 0 <= j < c ==> all@[j].0@ != q);
                if c < i {
                    assert(all@[c].0@ != q);
                } else if c > i {
                    assert(all@[i as int].0@ != q);
                }
                assert(key_index(all@, lowercase(query@)) == Some(i as int));
            }
            return Resolution::Found(i);
        }
        i += 1;
    }
    assert(key_index(all@, lowercase(query@)) is None);
    let mut hits: Vec<usize> = Vec::new();
    let mut k: usize = 0;
    while k < all.len()
        invariant
            k <= all.len(),
            all.len() < usize::MAX,
            ql@ == lowercase(query@),
            hits@ == alias_indices(all@.take(k as int), ql@),
        decreases all.len() - k,
    {
        assert(all@.take(k + 1).drop_last() =~= all@.take(k as int));
        assert(all@.take(k + 1).last() == all@[k as int]);
        if has_alias(&all[k].1, ql.as_str()) {
            hits.push(k);
        }
        k += 1;
    }
    assert(all@.take(all.len() as int) =~= all@);
    if hits.len() == 1 {
        return Resolution::Found(hits[0]);
    }
    if hits.len() > 1 {
        return Resolution::Ambiguous(hits);
    }
    let sugg = suggest_similar(query, all);
    if sugg.len() == 0 {
        Resolution::NotFound
    } else {
        Resolution::Suggest(sugg)
    }
}


/// Whether byte `i` of valid UTF-8 starts a character (or is the end).
fn boundary(q: &[u8], i: usize) -> (r: bool)
    requires
        vstd::utf8::valid_utf8(q@),
        i <= q.len(),
    ensures
        r == is_char_boundary(q@, i as int),
{
    proof {
        vstd::utf8::is_char_boundary_start_end_of_seq(q@);
        if i < q.len() {
            vstd::utf8::is_char_boundary_iff_not_is_continuation_byte(q@, i as int);
        }
    }
    if i == q.len() {
        true
    } else {
        !(0x80 <= q[i] && q[i] <= 0xbf)
    }
}

/// The window of `w` bytes at `j` starts and ends on character boundaries.
pub open spec fn window_ok(q: Seq<u8>, j: int, w: int) -> bool {
    is_char_boundary(q, j) && is_char_boundary(q, j + w)
}

/// Whether every window the scan of [`similarity_score`] looks at starts
/// and ends on character boundaries.
fn windows_safe(q: &[u8], t: &[u8]) -> (r: bool)
    requires
        vstd::utf8::valid_utf8(q@),
        q.len() >= 3,
    ensures
        r == forall|w: int, i: int|
            window_examined(q@, t@, w, i) ==> is_char_boundary(q@, i) && is_char_boundary(q@, i + w),
{
    let mut w: usize = q.len();
    while w >= 3
        invariant
            w <= q.len(),
            q.len() >= 3,
            vstd::utf8::valid_utf8(q@),
            forall|v: int| w < v ==> !width_hits(q@, t@, v),
            forall|v: int, j: int| w < v <= q.len() && 0 <= j <= q.len() - v ==> #[trigger] window_ok(q@, j, v),
        decreases w,
    {
        let mut i: usize = 0;
        while i <= q.len() - w
            invariant
                3 <= w <= q.len(),
                vstd::utf8::valid_utf8(q@),
                i <= q.len() - w + 1,
                forall|v: int| w < v ==> !width_hits(q@, t@, v),
                forall|v: int, j: int| w < v <= q.len() && 0 <= j <= q.len() - v ==> #[trigger] window_ok(q@, j, v),
                forall|j: int| 0 <= j < i ==> !window_hit(q@, t@, w as int, j),
                forall|j: int| 0 <= j < i ==> #[trigger] window_ok(q@, j, w as int),
            decreases q.len() - w + 1 - i,
        {
            if !(boundary(q, i) && boundary(q, i + w)) {
                assert(window_examined(q@, t@, w as int, i as int));
                return false;
            }
            let sub = slice_window(q, i, w);
            if bytes_contains(t, sub.as_slice()) {
                proof {
                    assert(window_hit(q@, t@, w as int, i as int));
                    assert(width_hits(q@, t@, w as int));
                    assert forall|v: int, j: int| window_examined(q@, t@, v, j) implies is_char_boundary(q@, j)
                        && is_char_boundary(q@, j + v) by {
                        if v > w {
                            assert(window_ok(q@, j, v));
                        } else if v == w && j < i {
                            assert(window_ok(q@, j, v));
                        } else if v < w {
                            assert(!width_hits(q@, t@, w as int));
                        } else if v == w && j > i {
                            assert(!window_hit(q@, t@, w as int, i as int));
                        }
                    }
                }
                return true;
            }
            i += 1;
        }
        w -= 1;
    }
    assert forall|v: int, j: int| window_examined(q@, t@, v, j) implies is_char_boundary(q@, j) && is_char_boundary(
        q@,
        j + v,
    ) by {
        assert(window_ok(q@, j, v));
    }
    true
}

/// The score of [`similarity_score`] when the bounds it needs hold, else none
/// (there the scan would slice the query off a character boundary).
pub fn similarity_checked(query: &str, target: &str) -> (r: Option<usize>)
    ensures
        (similarity_safe(query@, target@) && utf8(lowercase(query@)).len() < usize::MAX / 4 && utf8(
            lowercase(target@),
        ).len() < usize::MAX / 4) ==> (r matches Some(s) && s == similarity(query@, target@)),
        !(similarity_safe(query@, target@) && utf8(lowercase(query@)).len() < usize::MAX / 4 && utf8(
            lowercase(target@),
        ).len() < usize::MAX / 4) ==> r is None,
{
    let ql = to_lower(query);
    let tl = to_lower(target);
    let qb = ql.as_str().as_bytes();
    let tb = tl.as_str().as_bytes();
    if qb.len() >= usize::MAX / 4 || tb.len() >= usize::MAX / 4 {
        return None;
    }
    proof {
        vstd::utf8::encode_utf8_valid_utf8(ql@);
    }
    let qc = chars_of(ql.as_str());
    let tc = chars_of(tl.as_str());
    let safe = bytes_contains(tb, qb) || bytes_contains(qb, tb) || common_prefix_len(qc.as_slice(), tc.as_slice()) >= 2
        || qb.len() < 3 || tb.len() < 3 || windows_safe(qb, tb);
    if safe {
        Some(similarity_score(query, target))
    } else {
        None
    }
}

fn aliases_check(ql: &str, aliases: &Vec<String>) -> (r: bool)
    ensures
        r == aliases_safe(ql@, aliases@.map_values(|a: String| a@)),
{
    let ghost av = aliases@.map_values(|a: String| a@);
    let mut i: usize = 0;
    assert(av.skip(0) =~= av);
    while i < aliases.len()
        invariant
            i <= aliases.len(),
            av == aliases@.map_values(|a: String| a@),
            aliases_safe(ql@, av) == aliases_safe(ql@, av.skip(i as int)),
        decreases aliases.len() - i,
    {
        assert(av.skip(i as int).drop_first() =~= av.skip(i + 1));
        assert(av.skip(i as int)[0] == aliases@[i as int]@);
        let al = to_lower(aliases[i].as_str());
        if !str_eq(al.as_str(), ql) {
            match similarity_checked(ql, al.as_str()) {
                None => {
                    return false;
                },
                Some(s) => {
                    if s > 0 {
                        return true;
                    }
                },
            }
        }
        i += 1;
    }
    assert(av.skip(i as int) =~= Seq::<Seq<char>>::empty());
    true
}

fn entry_check(ql: &str, name: &str, aliases: &Vec<String>) -> (r: bool)
    ensures
        r == entry_safe(ql@, name@, aliases@.map_values(|a: String| a@)),
{
    let nl = to_lower(name);
    if str_eq(nl.as_str(), ql) {
        return true;
    }
    match similarity_checked(ql, nl.as_str()) {
        None => false,
        Some(s) => s > 0 || aliases_check(ql, aliases),
    }
}

/// Whether the suggestion scan for `query` is safe: the bounds that
/// [`suggest_similar`] needs.
pub fn suggest_checked(query: &str, all: &[(String, SoftwareEntry)]) -> (r: bool)
    ensures
        r == suggest_safe(query@, catalog_view(all@)),
{
    let ghost cat = catalog_view(all@);
    let ql = to_lower(query);
    let mut k: usize = 0;
    while k < all.len()
        invariant
            k <= all.len(),
            cat == catalog_view(all@),
            ql@ == lowercase(query@),
            forall|j: int| 0 <= j < k ==> #[trigger] entry_safe(lowercase(query@), cat[j].0, cat[j].1),
        decreases all.len() - k,
    {
        assert(cat[k as int].0 == all@[k as int].0@);
        assert(cat[k as int].1 == all@[k as int].1.aliases@.map_values(|a: String| a@));
        if !entry_check(ql.as_str(), all[k].0.as_str(), &all[k].1.aliases) {
            return false;
        }
        k += 1;
    }
    true
}

/// [`resolve_query`] where its bound holds, else none.
pub fn resolve_query_checked(query: &str, all: &[(String, SoftwareEntry)]) -> (r: Option<Resolution>)
    requires
        all.len() < usize::MAX,
    ensures
        match r {
            Some(v) => resolvable(all@, query@) && resolves_to(all@, query@, v),
            None => !resolvable(all@, query@),
        },
{
    let ql = to_lower(query);
    let mut i: usize = 0;
    while i < all.len()
        invariant
            i <= all.len(),
            all.len() < usize::MAX,
            ql@ == lowercase(query@),
            forall|j: int| 0 <= j < i ==> all@[j].0@ != ql@,
        decreases all.len() - i,
    {
        if str_eq(all[i].0.as_str(), ql.as_str()) {
            assert(key_index(all@, lowercase(query@)) is Some);
            return Some(resolve_query(query, all));
        }
        i += 1;
    }
    let mut k: usize = 0;
    while k < all.len()
        invariant
            k <= all.len(),
            all.len() < usize::MAX,
            ql@ == lowercase(query@),
            forall|j: int| 0 <= j < k ==> !alias_hit_spec(all@[j].1, ql@),
        decreases all.len() - k,
    {
        if has_alias(&all[k].1, ql.as_str()) {
            proof {
                lemma_alias_indices_nonempty(all@, ql@, k as int);
            }
            return Some(resolve_query(query, all));
        }
        k += 1;
    }
    if suggest_checked(query, all) {
        Some(resolve_query(query, all))
    } else {
        proof {
            lemma_alias_indices_empty(all@, ql@);
        }
        None
    }
}

proof fn lemma_alias_indices_nonempty(all: Seq<(String, SoftwareEntry)>, q: Seq<char>, k: int)
    requires
        0 <= k < all.len(),
        alias_hit_spec(all[k].1, q),
    ensures
        alias_indices(all, q).len() > 0,
    decreases all.len(),
{
    if k < all.len() - 1 {
        lemma_alias_indices_nonempty(all.drop_last(), q, k);
    }
}

proof fn lemma_alias_indices_empty(all: Seq<(String, SoftwareEntry)>, q: Seq<char>)
    requires
        forall|j: int| 0 <= j < all.len() ==> !alias_hit_spec(all[j].1, q),
    ensures
        alias_indices(all, q).len() == 0,
    decreases all.len(),
{
    if all.len() > 0 {
        lemma_alias_indices_empty(all.drop_last(), q);
    }
}

} // verus!
