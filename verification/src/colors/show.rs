//! What `e`, `env` and `ls --set` print for the environment: the variables
//! shown and their order, the name column, values broken over lines, and the
//! entries of PATH.

use vstd::prelude::*;
use vstd::utf8::encode_utf8;
use crate::text::{
    chars_of, eq_ascii_ci, eq_ignore_ascii_case, lowercase, str_lt, to_lower, to_upper, uppercase,
    chars_lt, pad_left_with, pad_right_with, pad_left_vec, pad_right_vec, push_all, push_str,
    string_of, has_char, has_ch, lemma_str_lt_irrefl, lemma_str_lt_asym, lemma_str_lt_total,
    lemma_str_lt_trans, display_width, str_width,
};
use crate::aspkg::locate::texts;
use crate::glob::{split_char, split_chars, views};
use crate::as4::fetch::nonempty_parts;
use crate::colors::map::ColorMap;
use crate::order::{stably_sorted, stable_sort_by};

verus! {

/// `name` is on the exclusion list (ASCII case ignored).
pub open spec fn excluded(name: Seq<char>, exclude: Seq<Seq<char>>) -> bool {
    exists|i: int| 0 <= i < exclude.len() && eq_ascii_ci(#[trigger] exclude[i], name)
}

/// Whether `name` is on the exclusion list.
pub fn is_excluded(name: &str, exclude: &[String]) -> (r: bool)
    ensures
        r == excluded(name@, texts(exclude@)),
{
    let mut i: usize = 0;
    while i < exclude.len()
        invariant
            i <= exclude.len(),
            forall|j: int| 0 <= j < i ==> !eq_ascii_ci(#[trigger] texts(exclude@)[j], name@),
        decreases exclude.len() - i,
    {
        if eq_ignore_ascii_case(exclude[i].as_str(), name) {
            assert(eq_ascii_ci(texts(exclude@)[i as int], name@));
            return true;
        }
        i += 1;
    }
    false
}

/// A variable the listing shows: not excluded and, when `hide_internal`, not
/// one of the hidden ones whose name starts with `=`.
pub open spec fn shown_var(name: Seq<char>, exclude: Seq<Seq<char>>, hide_internal: bool) -> bool {
    !(hide_internal && name.len() > 0 && name[0] == '=') && !excluded(name, exclude)
}

/// The variables of `v` that the listing shows, in order.
pub open spec fn shown_vars(v: Seq<(String, String)>, exclude: Seq<Seq<char>>, hide_internal: bool) -> Seq<
    (String, String),
>
    decreases v.len(),
{
    if v.len() == 0 {
        Seq::empty()
    } else {
        let r = shown_vars(v.drop_last(), exclude, hide_internal);
        if shown_var(v.last().0@, exclude, hide_internal) {
            r.push(v.last())
        } else {
            r
        }
    }
}

/// The text a variable is sorted by: its name, lower-cased when `fold`.
pub open spec fn sort_text(a: (String, String), fold: bool) -> Seq<char> {
    if fold { lowercase(a.0@) } else { a.0@ }
}

/// `a` sorts strictly before `b`: their names compared, lower-cased when
/// `fold`.
pub open spec fn var_lt(a: (String, String), b: (String, String), fold: bool) -> bool {
    str_lt(sort_text(a, fold), sort_text(b, fold))
}

/// The order of variables as a relation.
pub open spec fn var_order(fold: bool) -> spec_fn((String, String), (String, String)) -> bool {
    |a: (String, String), b: (String, String)| var_lt(a, b, fold)
}

/// `r` is `o` sorted stably by name, lower-cased when `fold`
/// (`slice::sort_by`).
pub open spec fn vars_sort_of(o: Seq<(String, String)>, r: Seq<(String, String)>, fold: bool) -> bool {
    stably_sorted(o, r, var_order(fold))
}

proof fn lemma_var_order(a: (String, String), b: (String, String), c: (String, String), fold: bool)
    ensures
        var_lt(a, b, fold) ==> !var_lt(b, a, fold),
        !var_lt(a, b, fold) && !var_lt(b, c, fold) ==> !var_lt(a, c, fold),
{
    let (x, y, z) = (sort_text(a, fold), sort_text(b, fold), sort_text(c, fold));
    lemma_str_lt_asym(x, y);
    lemma_str_lt_total(x, y);
    lemma_str_lt_total(y, z);
    lemma_str_lt_irrefl(x);
    if !str_lt(x, y) && !str_lt(y, z) && x != y && y != z {
        lemma_str_lt_trans(z, y, x);
        lemma_str_lt_asym(z, x);
    }
}

fn var_less(a: &(String, String), b: &(String, String), fold: bool) -> (r: bool)
    ensures
        r == var_lt(*a, *b, fold),
{
    if fold {
        let la = to_lower(a.0.as_str());
        let lb = to_lower(b.0.as_str());
        let ca = chars_of(la.as_str());
        let cb = chars_of(lb.as_str());
        chars_lt(ca.as_slice(), cb.as_slice())
    } else {
        let ca = chars_of(a.0.as_str());
        let cb = chars_of(b.0.as_str());
        chars_lt(ca.as_slice(), cb.as_slice())
    }
}

/// Sorts variables stably by name, lower-cased when `fold`.
pub fn sort_vars(vars: Vec<(String, String)>, fold: bool) -> (r: Vec<(String, String)>)
    ensures
        vars_sort_of(vars@, r@, fold),
{
    proof {
        let lt = var_order(fold);
        assert forall|a: (String, String), b: (String, String)| #[trigger] lt(a, b) implies !lt(b, a) by {
            lemma_var_order(a, b, a, fold);
        }
        assert forall|a: (String, String), b: (String, String), c: (String, String)| #![trigger lt(a, b), lt(b, c)]
            !lt(a, b) && !lt(b, c) implies !lt(a, c) by {
            lemma_var_order(a, b, c, fold);
        }
    }
    let less = |a: &(String, String), b: &(String, String)| -> (r: bool)
        ensures
            r == var_order(fold)(*a, *b),
        { var_less(a, b, fold) };
    stable_sort_by(vars, less, Ghost(var_order(fold)))
}

/// The variables to list, in listing order: those shown, sorted stably by
/// lower-cased name.
pub fn visible_vars(vars: Vec<(String, String)>, exclude: &[String], hide_internal: bool) -> (r: Vec<
    (String, String),
>)
    ensures
        vars_sort_of(shown_vars(vars@, texts(exclude@), hide_internal), r@, true),
{
    let ghost o = vars@;
    let ghost ex = texts(exclude@);
    let mut rest = vars;
    let mut kept: Vec<(String, String)> = Vec::new();
    let ghost mut n: int = 0;
    while rest.len() > 0
        invariant
            0 <= n <= o.len(),
            rest@ == o.skip(n),
            ex == texts(exclude@),
            kept@ == shown_vars(o.take(n), ex, hide_internal),
        decreases rest.len(),
    {
        let x = rest.remove(0);
        proof {
            assert(x == o[n]);
            assert(rest@ =~= o.skip(n + 1));
            assert(o.take(n + 1).drop_last() =~= o.take(n));
        }
        let nc = chars_of(x.0.as_str());
        let internal = hide_internal && nc.len() > 0 && nc[0] == '=';
        if !internal && !is_excluded(x.0.as_str(), exclude) {
            kept.push(x);
        }
        proof {
            n = n + 1;
        }
    }
    assert(o.take(n) =~= o);
    sort_vars(kept, true)
}

/// Length of `s` in UTF-8 bytes.
pub open spec fn byte_len(s: Seq<char>) -> nat {
    encode_utf8(s).len()
}

/// The longest name of `v`, in UTF-8 bytes (0 for none).
pub open spec fn max_name_bytes(v: Seq<(String, String)>) -> nat
    decreases v.len(),
{
    if v.len() == 0 {
        0
    } else {
        let m = max_name_bytes(v.drop_last());
        let b = byte_len(v.last().0@);
        if b > m { b } else { m }
    }
}

/// Width of the name column: the longest name in bytes.
pub fn name_width(vars: &[(String, String)]) -> (r: usize)
    requires
        forall|i: int| 0 <= i < vars.len() ==> byte_len(#[trigger] vars@[i].0@) <= usize::MAX,
    ensures
        r == max_name_bytes(vars@),
{
    let mut m: usize = 0;
    let mut i: usize = 0;
    while i < vars.len()
        invariant
            i <= vars.len(),
            forall|k: int| 0 <= k < vars.len() ==> byte_len(#[trigger] vars@[k].0@) <= usize::MAX,
            m == max_name_bytes(vars@.take(i as int)),
        decreases vars.len() - i,
    {
        assert(vars@.take(i + 1).drop_last() =~= vars@.take(i as int));
        let b = vars[i].0.as_str().len();
        assert(b == byte_len(vars@[i as int].0@));
        if b > m {
            m = b;
        }
        i += 1;
    }
    assert(vars@.take(vars.len() as int) =~= vars@);
    m
}

/// The uncoloured name column: the name padded to `width` characters
/// (on the right when left-aligned, else on the left), then ` = `.
pub open spec fn plain_prefix_spec(name: Seq<char>, width: nat, left_align: bool) -> Seq<char> {
    (if left_align {
        pad_right_with(name, width, ' ')
    } else {
        pad_left_with(name, width, ' ')
    }) + " = "@
}

pub fn plain_prefix(name: &str, width: usize, left_align: bool) -> (r: String)
    ensures
        r@ == plain_prefix_spec(name@, width as nat, left_align),
{
    let c = chars_of(name);
    let p = if left_align {
        pad_right_vec(c.as_slice(), width, ' ')
    } else {
        pad_left_vec(c.as_slice(), width, ' ')
    };
    let mut s = string_of(p.as_slice());
    push_str(&mut s, " = ");
    s
}

/// The colour a variable's name gets: its own entry, else that of its
/// upper-cased name, else that of its lower-cased name.
pub open spec fn var_color_spec(m: Map<Seq<char>, Seq<char>>, name: Seq<char>) -> Option<Seq<char>> {
    if m.dom().contains(name) {
        Some(m[name])
    } else if m.dom().contains(uppercase(name)) {
        Some(m[uppercase(name)])
    } else if m.dom().contains(lowercase(name)) {
        Some(m[lowercase(name)])
    } else {
        None
    }
}

pub fn var_color(map: &ColorMap, name: &str) -> (r: Option<String>)
    requires
        map.wf(),
    ensures
        match r {
            Some(c) => var_color_spec(map.view_map(), name@) == Some(c@),
            None => var_color_spec(map.view_map(), name@) is None,
        },
{
    match map.get(name) {
        Some(c) => Some(c),
        None => {
            let up = to_upper(name);
            match map.get(up.as_str()) {
                Some(c) => Some(c),
                None => {
                    let low = to_lower(name);
                    map.get(low.as_str())
                },
            }
        },
    }
}

/// Last position in `[from, to)` of `c` holding `x`.
pub open spec fn last_at(c: Seq<char>, from: int, to: int, x: char) -> Option<int>
    decreases to - from,
{
    if to <= from {
        None
    } else if c[to - 1] == x {
        Some(to - 1)
    } else {
        last_at(c, from, to - 1, x)
    }
}

/// Last position in `[from, to)` of `c` holding a space or a comma.
pub open spec fn last_gap(c: Seq<char>, from: int, to: int) -> Option<int>
    decreases to - from,
{
    if to <= from {
        None
    } else if c[to - 1] == ' ' || c[to - 1] == ',' {
        Some(to - 1)
    } else {
        last_gap(c, from, to - 1)
    }
}

pub proof fn lemma_last_at_range(c: Seq<char>, from: int, to: int, x: char)
    ensures
        last_at(c, from, to, x) matches Some(i) ==> from <= i < to && c[i] == x,
    decreases to - from,
{
    if to > from && c[to - 1] != x {
        lemma_last_at_range(c, from, to - 1, x);
    }
}

pub proof fn lemma_last_gap_range(c: Seq<char>, from: int, to: int)
    ensures
        last_gap(c, from, to) matches Some(i) ==> from <= i < to,
    decreases to - from,
{
    if to > from && !(c[to - 1] == ' ' || c[to - 1] == ',') {
        lemma_last_gap_range(c, from, to - 1);
    }
}

/// Where a full-width line starting at `pos` breaks (`stop` is `pos` plus
/// the width): after its last `;`; when there is none, or it is the line's
/// last character, after its last space or comma; else at `stop`.
pub open spec fn break_point(c: Seq<char>, pos: int, stop: int) -> int {
    let b = match last_at(c, pos, stop, ';') {
        Some(i) => i + 1,
        None => stop,
    };
    if b == stop {
        match last_gap(c, pos, stop) {
            Some(i) => i + 1,
            None => stop,
        }
    } else {
        b
    }
}

/// End of the line that starts at `pos`.
pub open spec fn line_end(c: Seq<char>, pos: int, avail: int) -> int {
    if pos + avail >= c.len() {
        c.len() as int
    } else {
        break_point(c, pos, pos + avail)
    }
}

/// The lines of `c` from `pos` on, each at most `avail` characters.
pub open spec fn wrap_from(c: Seq<char>, pos: int, avail: int) -> Seq<Seq<char>>
    decreases c.len() - pos,
{
    if avail <= 0 || pos < 0 || pos >= c.len() {
        Seq::empty()
    } else {
        let e = line_end(c, pos, avail);
        proof {
            lemma_last_at_range(c, pos, pos + avail, ';');
            lemma_last_gap_range(c, pos, pos + avail);
        }
        seq![c.subrange(pos, e)] + wrap_from(c, e, avail)
    }
}

proof fn lemma_line_end_range(c: Seq<char>, pos: int, avail: int)
    requires
        0 <= pos < c.len(),
        avail > 0,
    ensures
        pos < line_end(c, pos, avail) <= c.len(),
        line_end(c, pos, avail) <= pos + avail,
{
    lemma_last_at_range(c, pos, pos + avail, ';');
    lemma_last_gap_range(c, pos, pos + avail);
}

proof fn lemma_wrap_from_parts(c: Seq<char>, pos: int, avail: int)
    requires
        0 <= pos <= c.len(),
        avail > 0,
    ensures
        wrap_from(c, pos, avail).flatten() == c.subrange(pos, c.len() as int),
        forall|i: int| 0 <= i < wrap_from(c, pos, avail).len() ==> 0 < (#[trigger] wrap_from(c, pos, avail)[i]).len() <= avail,
    decreases c.len() - pos,
{
    if pos < c.len() {
        lemma_line_end_range(c, pos, avail);
        let e = line_end(c, pos, avail);
        lemma_wrap_from_parts(c, e, avail);
        let w = wrap_from(c, pos, avail);
        let rest = wrap_from(c, e, avail);
        assert(w == seq![c.subrange(pos, e)] + rest);
        assert(w.first() == c.subrange(pos, e));
        assert(w.drop_first() =~= rest);
        assert(c.subrange(pos, e) + c.subrange(e, c.len() as int) =~= c.subrange(pos, c.len() as int));
        assert forall|i: int| 0 <= i < w.len() implies 0 < (#[trigger] w[i]).len() <= avail by {
            if i > 0 {
                assert(w[i] == rest[i - 1]);
            }
        }
    } else {
        assert(c.subrange(pos, c.len() as int) =~= Seq::<char>::empty());
    }
}

/// Wrapping a value loses no text: its lines, joined, give the value back,
/// and none is empty or wider than `avail` characters once it is broken.
pub proof fn wrapping_keeps_the_value(value: Seq<char>, avail: int)
    requires
        avail > 0,
    ensures
        wrap_spec(value, avail).flatten() == value,
        display_width(value) > avail ==> forall|i: int|
            0 <= i < wrap_spec(value, avail).len() ==> 0 < (#[trigger] wrap_spec(value, avail)[i]).len() <= avail,
{
    if display_width(value) <= avail {
        seq![value].lemma_flatten_one_element();
    } else {
        lemma_wrap_from_parts(value, 0, avail);
        assert(value.subrange(0, value.len() as int) =~= value);
    }
}

/// A value as printed in `avail` columns: whole when its display width
/// fits, else broken into lines, preferably after a `;`.
pub open spec fn wrap_spec(value: Seq<char>, avail: int) -> Seq<Seq<char>> {
    if display_width(value) <= avail {
        seq![value]
    } else {
        wrap_from(value, 0, avail)
    }
}

fn break_point_exec(c: &[char], pos: usize, stop: usize) -> (r: usize)
    requires
        pos < stop <= c.len(),
    ensures
        r == break_point(c@, pos as int, stop as int),
        pos < r <= stop,
{
    proof {
        lemma_last_at_range(c@, pos as int, stop as int, ';');
        lemma_last_gap_range(c@, pos as int, stop as int);
    }
    let mut i = stop;
    while i > pos && c[i - 1] != ';'
        invariant
            pos <= i <= stop,
            stop <= c.len(),
            last_at(c@, pos as int, stop as int, ';') == last_at(c@, pos as int, i as int, ';'),
        decreases i,
    {
        i -= 1;
    }
    let b = if i > pos { i } else { stop };
    if b == stop {
        let mut k = stop;
        while k > pos && !(c[k - 1] == ' ' || c[k - 1] == ',')
            invariant
                pos <= k <= stop,
                stop <= c.len(),
                last_gap(c@, pos as int, stop as int) == last_gap(c@, pos as int, k as int),
            decreases k,
        {
            k -= 1;
        }
        if k > pos { k } else { stop }
    } else {
        b
    }
}

fn chars_range(c: &[char], a: usize, b: usize) -> (r: String)
    requires
        a <= b <= c.len(),
    ensures
        r@ == c@.subrange(a as int, b as int),
{
    let mut s = String::new();
    let mut i = a;
    while i < b
        invariant
            a <= i <= b,
            b <= c.len(),
            s@ == c@.subrange(a as int, i as int),
        decreases b - i,
    {
        crate::text::push_char(&mut s, c[i]);
        assert(c@.subrange(a as int, i + 1) =~= c@.subrange(a as int, i as int).push(c@[i as int]));
        i += 1;
    }
    s
}

/// Breaks a long value into lines of at most `avail` characters.
pub fn wrap_value(value: &str, avail: usize) -> (r: Vec<String>)
    requires
        avail > 0,
        value@.len() + avail <= usize::MAX,
    ensures
        texts(r@) == wrap_spec(value@, avail as int),
{
    if str_width(value) <= avail {
        let mut v: Vec<String> = Vec::new();
        v.push(String::from_str(value));
        assert(texts(v@) =~= seq![value@]);
        return v;
    }
    let chars = chars_of(value);
    let len = chars.len();
    let mut result: Vec<String> = Vec::new();
    let mut pos: usize = 0;
    assert(texts(result@) + wrap_from(chars@, 0, avail as int) =~= wrap_from(chars@, 0, avail as int));
    while pos < len
        invariant
            pos <= len,
            len == chars@.len(),
            chars@ == value@,
            avail > 0,
            len + avail <= usize::MAX,
            texts(result@) + wrap_from(chars@, pos as int, avail as int) == wrap_from(chars@, 0, avail as int),
        decreases len - pos,
    {
        let end = if pos + avail >= len {
            len
        } else {
            break_point_exec(chars.as_slice(), pos, pos + avail)
        };
        assert(end == line_end(chars@, pos as int, avail as int));
        let line = chars_range(chars.as_slice(), pos, end);
        proof {
            let w = wrap_from(chars@, pos as int, avail as int);
            assert(w == seq![chars@.subrange(pos as int, end as int)] + wrap_from(chars@, end as int, avail as int));
            assert(texts(result@.push(line)) =~= texts(result@).push(line@));
            assert(texts(result@) + w =~= texts(result@).push(line@) + wrap_from(chars@, end as int, avail as int));
        }
        result.push(line);
        pos = end;
    }
    assert(texts(result@) + wrap_from(chars@, pos as int, avail as int) =~= texts(result@));
    result
}

/// The lines of a value shown one `;`-separated entry per line (empty
/// entries skipped); every line but the last keeps its `;`.
pub open spec fn semicolon_lines(value: Seq<char>) -> Seq<Seq<char>> {
    let segs = nonempty_parts(split_char(value, ';'));
    Seq::new(
        segs.len(),
        |i: int|
            if i == segs.len() - 1 {
                segs[i]
            } else {
                segs[i] + seq![';']
            },
    )
}

/// The lines `env` prints for a value: one per entry with `--semicolon` when
/// it holds a `;`, else the value broken to the width left.
pub open spec fn value_lines_spec(value: Seq<char>, semicolon: bool, avail: int) -> Seq<Seq<char>> {
    if semicolon && has_char(value, ';') {
        semicolon_lines(value)
    } else {
        wrap_spec(value, avail)
    }
}

/// The non-empty parts of `v` split at `c`.
fn nonempty_split(v: &[char], c: char) -> (r: Vec<Vec<char>>)
    ensures
        views(r@) == nonempty_parts(split_char(v@, c)),
{
    let ps = split_chars(v, c);
    let ghost pv = views(ps@);
    let mut out: Vec<Vec<char>> = Vec::new();
    let mut i: usize = 0;
    while i < ps.len()
        invariant
            i <= ps.len(),
            pv == views(ps@),
            pv == split_char(v@, c),
            views(out@) == nonempty_parts(pv.take(i as int)),
        decreases ps.len() - i,
    {
        assert(pv.take(i + 1).drop_last() =~= pv.take(i as int));
        assert(pv.take(i + 1).last() == ps@[i as int]@);
        if ps[i].len() > 0 {
            let part = ps[i].clone();
            out.push(part);
            assert(views(out@) =~= nonempty_parts(pv.take(i as int)).push(ps@[i as int]@));
        }
        i += 1;
    }
    assert(pv.take(ps.len() as int) =~= pv);
    out
}

/// The lines printed for one variable's value.
pub fn value_lines(value: &str, semicolon: bool, avail: usize) -> (r: Vec<String>)
    requires
        avail > 0,
        value@.len() + avail <= usize::MAX,
    ensures
        texts(r@) == value_lines_spec(value@, semicolon, avail as int),
{
    let c = chars_of(value);
    if semicolon && has_ch(c.as_slice(), ';') {
        let segs = nonempty_split(c.as_slice(), ';');
        let ghost sv = views(segs@);
        let mut out: Vec<String> = Vec::new();
        let mut i: usize = 0;
        while i < segs.len()
            invariant
                i <= segs.len(),
                sv == views(segs@),
                sv == nonempty_parts(split_char(value@, ';')),
                texts(out@) =~= semicolon_lines(value@).take(i as int),
            decreases segs.len() - i,
        {
            let ghost before = texts(out@);
            let mut line = string_of(segs[i].as_slice());
            if i + 1 < segs.len() {
                crate::text::push_char(&mut line, ';');
            }
            assert(sv[i as int] == segs@[i as int]@);
            assert(line@ == semicolon_lines(value@)[i as int]);
            out.push(line);
            assert(texts(out@) =~= before.push(line@));
            assert(texts(out@) =~= semicolon_lines(value@).take(i + 1));
            i += 1;
        }
        assert(semicolon_lines(value@).take(segs.len() as int) =~= semicolon_lines(value@));
        out
    } else {
        wrap_value(value, avail)
    }
}

/// Columns left for values after the name column, or 60 when none are.
pub fn wrap_avail(term_w: usize, prefix_indent: usize) -> (r: usize)
    ensures
        r == (if term_w > prefix_indent { term_w - prefix_indent } else { 60 }),
{
    if term_w > prefix_indent { term_w - prefix_indent } else { 60 }
}

/// The entries of PATH that are listed: its non-empty `;`-separated parts.
pub fn path_entries(path: &str) -> (r: Vec<String>)
    ensures
        texts(r@) == nonempty_parts(split_char(path@, ';')),
{
    let c = chars_of(path);
    let parts = nonempty_split(c.as_slice(), ';');
    let mut out: Vec<String> = Vec::new();
    let mut i: usize = 0;
    while i < parts.len()
        invariant
            i <= parts.len(),
            texts(out@) =~= views(parts@).take(i as int),
        decreases parts.len() - i,
    {
        let ghost before = texts(out@);
        let line = string_of(parts[i].as_slice());
        out.push(line);
        assert(texts(out@) =~= before.push(line@));
        assert(views(parts@)[i as int] == parts@[i as int]@);
        assert(views(parts@).take(i + 1) =~= views(parts@).take(i as int).push(parts@[i as int]@));
        i += 1;
    }
    assert(views(parts@).take(parts.len() as int) =~= views(parts@));
    out
}

} // verus!
