//! A small map from names (or path patterns) to colour names, with the
//! inversion and merging the configuration files need.

use vstd::prelude::*;
use crate::text::{str_eq, chars_of, lower_chars, lowercase, push_str};
use crate::glob::{wildmatch, wildmatch_spec};

verus! {

/// Names with their colours; a name occurs once. Walking the map goes in
/// this order.
pub struct ColorMap {
    pub entries: Vec<(String, String)>,
}

pub type Pairs = Seq<(Seq<char>, Seq<char>)>;

/// Some pair is named `k`.
pub open spec fn has_key(s: Pairs, k: Seq<char>) -> bool {
    exists|i: int| 0 <= i < s.len() && s[i].0 == k
}

/// No two pairs share a name.
pub open spec fn keys_unique(s: Pairs) -> bool {
    forall|i: int, j: int| 0 <= i < j < s.len() ==> s[i].0 != s[j].0
}

/// The map the pairs stand for.
pub open spec fn map_of(s: Pairs) -> Map<Seq<char>, Seq<char>> {
    Map::new(
        |k: Seq<char>| has_key(s, k),
        |k: Seq<char>| s[choose|i: int| 0 <= i < s.len() && s[i].0 == k].1,
    )
}

pub proof fn lemma_map_of_at(s: Pairs, i: int)
    requires
        keys_unique(s),
        0 <= i < s.len(),
    ensures
        map_of(s).dom().contains(s[i].0),
        map_of(s)[s[i].0] == s[i].1,
{
    let c = choose|c: int| 0 <= c < s.len() && s[c].0 == s[i].0;
    assert(0 <= c < s.len() && s[c].0 == s[i].0);
    if c != i {
        if c < i {
            assert(s[c].0 != s[i].0);
        } else {
            assert(s[i].0 != s[c].0);
        }
    }
}

impl ColorMap {
    pub open spec fn pairs(&self) -> Pairs {
        self.entries@.map_values(|p: (String, String)| (p.0@, p.1@))
    }

    pub open spec fn wf(&self) -> bool {
        keys_unique(self.pairs())
    }

    pub open spec fn view_map(&self) -> Map<Seq<char>, Seq<char>> {
        map_of(self.pairs())
    }

    /// An empty map.
    pub fn new() -> (r: Self)
        ensures
            r.wf(),
            r.view_map() == Map::<Seq<char>, Seq<char>>::empty(),
            r.pairs().len() == 0,
    {
        let r = ColorMap { entries: Vec::new() };
        assert(r.view_map() =~= Map::<Seq<char>, Seq<char>>::empty());
        r
    }

    fn index_of(&self, k: &str) -> (r: Option<usize>)
        ensures
            match r {
                Some(i) => i < self.pairs().len() && self.pairs()[i as int].0 == k@,
                None => !has_key(self.pairs(), k@),
            },
    {
        let mut i: usize = 0;
        while i < self.entries.len()
            invariant
                i <= self.entries.len(),
                forall|j: int| 0 <= j < i ==> self.pairs()[j].0 != k@,
            decreases self.entries.len() - i,
        {
            if str_eq(self.entries[i].0.as_str(), k) {
                return Some(i);
            }
            i += 1;
        }
        None
    }

    /// Colour of `k`, if mapped.
    pub fn get(&self, k: &str) -> (r: Option<String>)
        requires
            self.wf(),
        ensures
            match r {
                Some(v) => self.view_map().dom().contains(k@) && self.view_map()[k@] == v@,
                None => !self.view_map().dom().contains(k@),
            },
    {
        match self.index_of(k) {
            Some(i) => {
                proof {
                    lemma_map_of_at(self.pairs(), i as int);
                }
                Some(self.entries[i].1.clone())
            },
            None => None,
        }
    }

    /// Whether `k` is mapped.
    pub fn contains_key(&self, k: &str) -> (r: bool)
        ensures
            r == self.view_map().dom().contains(k@),
    {
        self.index_of(k).is_some()
    }

    /// Maps `k` to `v`, replacing an earlier colour in place.
    pub fn insert(&mut self, k: &str, v: &str)
        requires
            old(self).wf(),
        ensures
            final(self).wf(),
            final(self).view_map() == old(self).view_map().insert(k@, v@),
    {
        let ghost before = self.pairs();
        match self.index_of(k) {
            Some(i) => {
                self.entries.set(i, (String::from_str(k), String::from_str(v)));
                let ghost after = self.pairs();
                assert(after =~= before.update(i as int, (k@, v@)));
                assert(keys_unique(after)) by {
                    assert forall|a: int, b: int| 0 <= a < b < after.len() implies after[a].0 != after[b].0 by {
                        assert(before[a].0 != before[b].0);
                    }
                }
                assert(map_of(after) =~= map_of(before).insert(k@, v@)) by {
                    assert forall|x: Seq<char>| #[trigger] map_of(after).dom().contains(x) == map_of(before).insert(k@, v@).dom().contains(x) by {
                        if has_key(after, x) {
                            let j = choose|j: int| 0 <= j < after.len() && after[j].0 == x;
                            if j != i {
                                assert(before[j].0 == x);
                            }
                        }
                        if has_key(before, x) {
                            let j = choose|j: int| 0 <= j < before.len() && before[j].0 == x;
                            assert(after[j].0 == x);
                        }
                    }
                    assert forall|x: Seq<char>| map_of(after).dom().contains(x) implies map_of(after)[x] == map_of(before).insert(k@, v@)[x] by {
                        let j = choose|j: int| 0 <= j < after.len() && after[j].0 == x;
                        lemma_map_of_at(after, j);
                        if j != i {
                            lemma_map_of_at(before, j);
                        }
                    }
                }
            },
            None => {
                self.entries.push((String::from_str(k), String::from_str(v)));
                let ghost after = self.pairs();
                assert(after =~= before.push((k@, v@)));
                assert(keys_unique(after)) by {
                    assert forall|a: int, b: int| 0 <= a < b < after.len() implies after[a].0 != after[b].0 by {
                        if b == before.len() {
                            assert(after[a] == before[a]);
                        } else {
                            assert(before[a].0 != before[b].0);
                        }
                    }
                }
                assert(map_of(after) =~= map_of(before).insert(k@, v@)) by {
                    assert forall|x: Seq<char>| #[trigger] map_of(after).dom().contains(x) == map_of(before).insert(k@, v@).dom().contains(x) by {
                        if has_key(after, x) {
                            let j = choose|j: int| 0 <= j < after.len() && after[j].0 == x;
                            if j < before.len() {
                                assert(before[j].0 == x);
                            }
                        }
                        if has_key(before, x) {
                            let j = choose|j: int| 0 <= j < before.len() && before[j].0 == x;
                            assert(after[j].0 == x);
                        }
                        assert(after[before.len() as int].0 == k@);
                    }
                    assert forall|x: Seq<char>| map_of(after).dom().contains(x) implies map_of(after)[x] == map_of(before).insert(k@, v@)[x] by {
                        let j = choose|j: int| 0 <= j < after.len() && after[j].0 == x;
                        lemma_map_of_at(after, j);
                        if j < before.len() {
                            lemma_map_of_at(before, j);
                        }
                    }
                }
            },
        }
    }
}

impl ColorMap {
    /// Takes `k` out of the map; says whether it was there.
    pub fn remove(&mut self, k: &str) -> (r: bool)
        requires
            old(self).wf(),
        ensures
            final(self).wf(),
            r == old(self).view_map().dom().contains(k@),
            final(self).view_map() == old(self).view_map().remove(k@),
    {
        let ghost before = self.pairs();
        match self.index_of(k) {
            Some(i) => {
                self.entries.remove(i);
                let ghost after = self.pairs();
                assert(after =~= before.remove(i as int));
                proof {
                    lemma_map_of_at(before, i as int);
                }
                assert(keys_unique(after)) by {
                    assert forall|a: int, b: int| 0 <= a < b < after.len() implies after[a].0 != after[b].0 by {
                        let a2 = if a < i { a } else { a + 1 };
                        let b2 = if b < i { b } else { b + 1 };
                        assert(after[a] == before[a2] && after[b] == before[b2]);
                    }
                }
                assert(map_of(after) =~= map_of(before).remove(k@)) by {
                    assert forall|x: Seq<char>| #[trigger] map_of(after).dom().contains(x) == map_of(before).remove(k@).dom().contains(x) by {
                        if has_key(after, x) {
                            let j = choose|j: int| 0 <= j < after.len() && after[j].0 == x;
                            let j2 = if j < i { j } else { j + 1 };
                            assert(before[j2].0 == x);
                            assert(before[j2].0 != before[i as int].0);
                        }
                        if has_key(before, x) && x != k@ {
                            let j = choose|j: int| 0 <= j < before.len() && before[j].0 == x;
                            assert(j != i);
                            let j2 = if j < i { j } else { j - 1 };
                            assert(after[j2].0 == x);
                        }
                    }
                    assert forall|x: Seq<char>| map_of(after).dom().contains(x) implies map_of(after)[x] == map_of(before).remove(k@)[x] by {
                        let j = choose|j: int| 0 <= j < after.len() && after[j].0 == x;
                        lemma_map_of_at(after, j);
                        let j2 = if j < i { j } else { j + 1 };
                        assert(before[j2] == after[j]);
                        lemma_map_of_at(before, j2);
                    }
                }
                true
            },
            None => {
                assert(map_of(before).remove(k@) =~= map_of(before));
                false
            },
        }
    }
}

/// "colour: [names]" lists as plain values.
pub open spec fn lists_view(v: Seq<(String, Vec<String>)>) -> Seq<(Seq<char>, Seq<Seq<char>>)> {
    v.map_values(|p: (String, Vec<String>)| (p.0@, p.1@.map_values(|s: String| s@)))
}

/// The colour lists inverted, pairs read in order (a name listed twice takes
/// the colour read last).
pub open spec fn invert_upto(l: Seq<(Seq<char>, Seq<Seq<char>>)>, n: int) -> Map<Seq<char>, Seq<char>>
    decreases n,
{
    if n <= 0 {
        Map::empty()
    } else {
        insert_all(invert_upto(l, n - 1), l[n - 1].1, l[n - 1].0, l[n - 1].1.len() as int)
    }
}

/// `m` with the first `n` of `items` mapped to `color`.
pub open spec fn insert_all(m: Map<Seq<char>, Seq<char>>, items: Seq<Seq<char>>, color: Seq<char>, n: int) -> Map<Seq<char>, Seq<char>>
    decreases n,
{
    if n <= 0 {
        m
    } else {
        insert_all(m, items, color, n - 1).insert(items[n - 1], color)
    }
}

/// Turns "colour: [names]" lists into a map from name to colour.
pub fn invert_map(input: &Vec<(String, Vec<String>)>) -> (r: ColorMap)
    ensures
        r.wf(),
        r.view_map() == invert_upto(lists_view(input@), input@.len() as int),
{
    let ghost l = lists_view(input@);
    let mut m = ColorMap::new();
    let mut i: usize = 0;
    while i < input.len()
        invariant
            i <= input.len(),
            l == lists_view(input@),
            m.wf(),
            m.view_map() == invert_upto(l, i as int),
        decreases input.len() - i,
    {
        let color = &input[i].0;
        let items = &input[i].1;
        let ghost base = m.view_map();
        assert(l[i as int].1 == items@.map_values(|s: String| s@));
        let mut j: usize = 0;
        while j < items.len()
            invariant
                j <= items.len(),
                m.wf(),
                m.view_map() == insert_all(base, items@.map_values(|s: String| s@), color@, j as int),
            decreases items.len() - j,
        {
            m.insert(items[j].as_str(), color.as_str());
            j += 1;
        }
        i += 1;
    }
    m
}

/// The colour pairs of `over` laid on `base`: `base` with every pair of `over` inserted.
pub open spec fn overlay(base: Map<Seq<char>, Seq<char>>, over: Pairs, n: int) -> Map<Seq<char>, Seq<char>>
    decreases n,
{
    if n <= 0 {
        base
    } else {
        overlay(base, over, n - 1).insert(over[n - 1].0, over[n - 1].1)
    }
}

proof fn lemma_overlay_union(base: Map<Seq<char>, Seq<char>>, over: Pairs, n: int)
    requires
        keys_unique(over),
        0 <= n <= over.len(),
    ensures
        overlay(base, over, n) == base.union_prefer_right(map_of(over.take(n))),
    decreases n,
{
    if n > 0 {
        lemma_overlay_union(base, over, n - 1);
        let t = over.take(n);
        let t1 = over.take(n - 1);
        assert(keys_unique(t));
        assert(keys_unique(t1));
        assert(base.union_prefer_right(map_of(t)) =~= base.union_prefer_right(map_of(t1)).insert(over[n - 1].0, over[n - 1].1)) by {
            assert forall|x: Seq<char>| #[trigger] map_of(t).dom().contains(x) == (map_of(t1).dom().contains(x) || x == over[n - 1].0) by {
                if has_key(t, x) {
                    let j = choose|j: int| 0 <= j < t.len() && t[j].0 == x;
                    if j < n - 1 {
                        assert(t1[j].0 == x);
                    }
                }
                if has_key(t1, x) {
                    let j = choose|j: int| 0 <= j < t1.len() && t1[j].0 == x;
                    assert(t[j].0 == x);
                }
                assert(t[n - 1].0 == over[n - 1].0);
            }
            assert forall|x: Seq<char>| map_of(t).dom().contains(x) implies map_of(t)[x] == (if x == over[n - 1].0 { over[n - 1].1 } else { map_of(t1)[x] }) by {
                let j = choose|j: int| 0 <= j < t.len() && t[j].0 == x;
                lemma_map_of_at(t, j);
                if j < n - 1 {
                    lemma_map_of_at(t1, j);
                    assert(t[j] == t1[j]);
                    assert(t[n - 1].0 != t[j].0);
                }
            }
        }
    } else {
        assert(map_of(over.take(0)) =~= Map::<Seq<char>, Seq<char>>::empty());
        assert(base.union_prefer_right(Map::<Seq<char>, Seq<char>>::empty()) =~= base);
    }
}

/// `defaults` with every colour of `overrides` laid over it (the
/// configuration file wins).
pub fn merge_maps(defaults: ColorMap, overrides: &ColorMap) -> (r: ColorMap)
    requires
        defaults.wf(),
        overrides.wf(),
    ensures
        r.wf(),
        r.view_map() == defaults.view_map().union_prefer_right(overrides.view_map()),
{
    let mut m = defaults;
    let ghost base = m.view_map();
    let ghost ov = overrides.pairs();
    let mut i: usize = 0;
    while i < overrides.entries.len()
        invariant
            i <= overrides.entries.len(),
            ov == overrides.pairs(),
            keys_unique(ov),
            m.wf(),
            m.view_map() == overlay(base, ov, i as int),
        decreases overrides.entries.len() - i,
    {
        m.insert(overrides.entries[i].0.as_str(), overrides.entries[i].1.as_str());
        i += 1;
    }
    proof {
        lemma_overlay_union(base, ov, ov.len() as int);
        assert(ov.take(ov.len() as int) =~= ov);
    }
    m
}

/// Colours merged with styles: a name's colour wins over its style.
pub fn colors_then_styles(colors: ColorMap, styles: &ColorMap) -> (r: ColorMap)
    requires
        colors.wf(),
        styles.wf(),
    ensures
        r.wf(),
        r.view_map() == styles.view_map().union_prefer_right(colors.view_map()),
{
    let mut m = colors;
    let ghost c0 = m.view_map();
    let mut i: usize = 0;
    while i < styles.entries.len()
        invariant
            i <= styles.entries.len(),
            keys_unique(styles.pairs()),
            m.wf(),
            m.view_map() == map_of(styles.pairs().take(i as int)).union_prefer_right(c0),
        decreases styles.entries.len() - i,
    {
        let ghost t = styles.pairs().take(i as int);
        let ghost t1 = styles.pairs().take(i + 1);
        let ghost kv = styles.pairs()[i as int];
        proof {
            assert(keys_unique(t));
            assert(keys_unique(t1));
            assert(map_of(t1) =~= map_of(t).insert(kv.0, kv.1)) by {
                assert forall|x: Seq<char>| #[trigger] map_of(t1).dom().contains(x) == (map_of(t).dom().contains(x) || x == kv.0) by {
                    if has_key(t1, x) {
                        let j = choose|j: int| 0 <= j < t1.len() && t1[j].0 == x;
                        if j < i {
                            assert(t[j].0 == x);
                        }
                    }
                    if has_key(t, x) {
                        let j = choose|j: int| 0 <= j < t.len() && t[j].0 == x;
                        assert(t1[j].0 == x);
                    }
                    assert(t1[i as int].0 == kv.0);
                }
                assert forall|x: Seq<char>| map_of(t1).dom().contains(x) implies map_of(t1)[x] == map_of(t).insert(kv.0, kv.1)[x] by {
                    let j = choose|j: int| 0 <= j < t1.len() && t1[j].0 == x;
                    lemma_map_of_at(t1, j);
                    if j < i {
                        lemma_map_of_at(t, j);
                        assert(t1[j] == t[j]);
                        assert(t1[i as int].0 != t1[j].0);
                    }
                }
            }
        }
        let k = &styles.entries[i].0;
        if !m.contains_key(k.as_str()) {
            m.insert(k.as_str(), styles.entries[i].1.as_str());
            assert(m.view_map() =~= map_of(t1).union_prefer_right(c0));
        } else {
            assert(m.view_map() =~= map_of(t1).union_prefer_right(c0));
        }
        i += 1;
    }
    proof {
        assert(styles.pairs().take(styles.pairs().len() as int) =~= styles.pairs());
    }
    m
}

/// The colour of the first pattern (in walking order) that matches `path`.
pub open spec fn matching_color_spec(path: Seq<char>, s: Pairs) -> Option<Seq<char>>
    decreases s.len(),
{
    if s.len() == 0 {
        None
    } else if wildmatch_spec(s[0].0, path) {
        Some(s[0].1)
    } else {
        matching_color_spec(path, s.drop_first())
    }
}

/// Colour of the first path pattern matching `path`.
pub fn get_matching_color(path: &str, color_map: &ColorMap) -> (r: Option<String>)
    ensures
        match r {
            Some(c) => matching_color_spec(path@, color_map.pairs()) == Some(c@),
            None => matching_color_spec(path@, color_map.pairs()) is None,
        },
{
    let ghost pv = color_map.pairs();
    let mut i: usize = 0;
    assert(pv.skip(0) =~= pv);
    while i < color_map.entries.len()
        invariant
            i <= color_map.entries.len(),
            pv == color_map.pairs(),
            matching_color_spec(path@, pv) == matching_color_spec(path@, pv.skip(i as int)),
        decreases color_map.entries.len() - i,
    {
        assert(pv.skip(i as int).drop_first() =~= pv.skip(i + 1));
        assert(pv.skip(i as int)[0] == pv[i as int]);
        if wildmatch(color_map.entries[i].0.as_str(), path) {
            return Some(color_map.entries[i].1.clone());
        }
        i += 1;
    }
    assert(pv.skip(i as int) =~= Seq::<(Seq<char>, Seq<char>)>::empty());
    None
}

/// ANSI code of a colour or style name (case ignored).
pub open spec fn ansi_code_spec(name: Seq<char>) -> Option<Seq<char>> {
    let l = lowercase(name);
    if l == "black"@ { Some("30"@) }
    else if l == "gray"@ { Some("90"@) }
    else if l == "blue"@ { Some("34"@) }
    else if l == "lightblue"@ { Some("94"@) }
    else if l == "green"@ { Some("32"@) }
    else if l == "lightgreen"@ { Some("92"@) }
    else if l == "cyan"@ { Some("36"@) }
    else if l == "lightcyan"@ { Some("96"@) }
    else if l == "red"@ { Some("31"@) }
    else if l == "lightred"@ { Some("91"@) }
    else if l == "purple"@ { Some("35"@) }
    else if l == "lightpurple"@ { Some("95"@) }
    else if l == "yellow"@ { Some("33"@) }
    else if l == "lightyellow"@ { Some("93"@) }
    else if l == "white"@ { Some("37"@) }
    else if l == "brightwhite"@ { Some("97"@) }
    else if l == "bold"@ { Some("1"@) }
    else if l == "dim"@ { Some("2"@) }
    else if l == "italic"@ { Some("3"@) }
    else if l == "underline"@ { Some("4"@) }
    else if l == "blink"@ { Some("5"@) }
    else if l == "reverse"@ { Some("7"@) }
    else if l == "hidden"@ { Some("8"@) }
    else if l == "strikethrough"@ { Some("9"@) }
    else { None }
}

/// The ANSI code of a colour or style name.
pub fn color_name_to_ansi(name: &str) -> (r: Option<&'static str>)
    ensures
        match r {
            Some(c) => ansi_code_spec(name@) == Some(c@),
            None => ansi_code_spec(name@) is None,
        },
{
    let lc = lower_chars(name);
    let l = crate::text::string_of(lc.as_slice());
    let s = l.as_str();
    if str_eq(s, "black") { Some("30") }
    else if str_eq(s, "gray") { Some("90") }
    else if str_eq(s, "blue") { Some("34") }
    else if str_eq(s, "lightblue") { Some("94") }
    else if str_eq(s, "green") { Some("32") }
    else if str_eq(s, "lightgreen") { Some("92") }
    else if str_eq(s, "cyan") { Some("36") }
    else if str_eq(s, "lightcyan") { Some("96") }
    else if str_eq(s, "red") { Some("31") }
    else if str_eq(s, "lightred") { Some("91") }
    else if str_eq(s, "purple") { Some("35") }
    else if str_eq(s, "lightpurple") { Some("95") }
    else if str_eq(s, "yellow") { Some("33") }
    else if str_eq(s, "lightyellow") { Some("93") }
    else if str_eq(s, "white") { Some("37") }
    else if str_eq(s, "brightwhite") { Some("97") }
    else if str_eq(s, "bold") { Some("1") }
    else if str_eq(s, "dim") { Some("2") }
    else if str_eq(s, "italic") { Some("3") }
    else if str_eq(s, "underline") { Some("4") }
    else if str_eq(s, "blink") { Some("5") }
    else if str_eq(s, "reverse") { Some("7") }
    else if str_eq(s, "hidden") { Some("8") }
    else if str_eq(s, "strikethrough") { Some("9") }
    else { None }
}

/// `ESC[{code}m{text}ESC[0m`.
pub open spec fn wrap_ansi(code: Seq<char>, text: Seq<char>) -> Seq<char> {
    seq!['\x1b', '['] + code + seq!['m'] + text + seq!['\x1b', '[', '0', 'm']
}

/// Text wrapped in the ANSI code of a colour name, or of the given numeric code.
pub fn paint(text: &str, color_or_style: &str) -> (r: String)
    ensures
        r@ == wrap_ansi(
            match ansi_code_spec(color_or_style@) { Some(c) => c, None => color_or_style@ },
            text@,
        ),
{
    let code: &str = match color_name_to_ansi(color_or_style) {
        Some(c) => c,
        None => color_or_style,
    };
    let mut s = String::from_str("\x1b[");
    push_str(&mut s, code);
    push_str(&mut s, "m");
    push_str(&mut s, text);
    push_str(&mut s, "\x1b[0m");
    proof {
        reveal_strlit("\x1b[");
        reveal_strlit("m");
        reveal_strlit("\x1b[0m");
    }
    assert(s@ =~= wrap_ansi(code@, text@));
    s
}

} // verus!
