//! Version order and table cells of `as4`.

use vstd::prelude::*;
use std::cmp::Ordering;
use crate::text::{chars_of, i64_text, parse_i64, str_eq, push_char, push_str, str_width, display_width, string_of};
use crate::glob::{split_char, split_chars, views};
use crate::aspkg::list::ordering_has_sign;

verus! {

/// The numbers of the dot-separated parts of a version that read as `i64`.
pub open spec fn dotted_nums(parts: Seq<Seq<char>>) -> Seq<int>
    decreases parts.len(),
{
    if parts.len() == 0 {
        Seq::empty()
    } else {
        let rest = dotted_nums(parts.drop_last());
        match i64_text(parts.last()) {
            Some(v) => rest.push(v),
            None => rest,
        }
    }
}

pub open spec fn num_at(v: Seq<int>, i: int) -> int {
    if 0 <= i < v.len() { v[i] } else { 0 }
}

pub open spec fn longer(a: Seq<int>, b: Seq<int>) -> int {
    if a.len() >= b.len() { a.len() as int } else { b.len() as int }
}

/// Sign of the comparison of two number lists from position `i`, zero padded.
pub open spec fn nums_order_from(a: Seq<int>, b: Seq<int>, i: int) -> int
    decreases longer(a, b) - i,
{
    if i < 0 || i >= longer(a, b) {
        0
    } else if num_at(a, i) < num_at(b, i) {
        -1
    } else if num_at(a, i) > num_at(b, i) {
        1
    } else {
        nums_order_from(a, b, i + 1)
    }
}

/// Sign of the `as4` comparison of two version strings: by their dotted
/// numbers, zero padded; on a tie `latest` comes after anything else.
pub open spec fn as4_order(a: Seq<char>, b: Seq<char>) -> int {
    let s = nums_order_from(dotted_nums(split_char(a, '.')), dotted_nums(split_char(b, '.')), 0);
    if s != 0 {
        s
    } else if a == "latest"@ && b != "latest"@ {
        1
    } else if b == "latest"@ && a != "latest"@ {
        -1
    } else {
        0
    }
}

fn nums_of(s: &str) -> (r: Vec<i64>)
    ensures
        r@.map_values(|x: i64| x as int) == dotted_nums(split_char(s@, '.')),
{
    let c = chars_of(s);
    let parts = split_chars(c.as_slice(), '.');
    let ghost pv = views(parts@);
    let mut out: Vec<i64> = Vec::new();
    let mut i: usize = 0;
    while i < parts.len()
        invariant
            i <= parts.len(),
            pv == views(parts@),
            out@.map_values(|x: i64| x as int) == dotted_nums(pv.take(i as int)),
        decreases parts.len() - i,
    {
        assert(pv.take(i + 1).drop_last() =~= pv.take(i as int));
        assert(pv.take(i + 1).last() == parts@[i as int]@);
        match parse_i64(parts[i].as_slice()) {
            Some(v) => {
                let ghost before = out@.map_values(|x: i64| x as int);
                out.push(v);
                assert(out@.map_values(|x: i64| x as int) =~= before.push(v as int));
            },
            None => {},
        }
        i += 1;
    }
    assert(pv.take(parts.len() as int) =~= pv);
    out
}

fn num_at_exec(v: &Vec<i64>, i: usize) -> (r: i64)
    ensures
        r as int == num_at(v@.map_values(|x: i64| x as int), i as int),
{
    if i < v.len() { v[i] } else { 0 }
}

/// Sign of the `as4` comparison of two version strings.
pub fn as4_version_sign(a: &str, b: &str) -> (r: i8)
    ensures
        r as int == as4_order(a@, b@),
{
    let va = nums_of(a);
    let vb = nums_of(b);
    let ghost ia = va@.map_values(|x: i64| x as int);
    let ghost ib = vb@.map_values(|x: i64| x as int);
    let n = if va.len() >= vb.len() { va.len() } else { vb.len() };
    let mut i: usize = 0;
    while i < n
        invariant
            ia == va@.map_values(|x: i64| x as int),
            ib == vb@.map_values(|x: i64| x as int),
            ia == dotted_nums(split_char(a@, '.')),
            ib == dotted_nums(split_char(b@, '.')),
            n as int == longer(ia, ib),
            i <= n,
            nums_order_from(ia, ib, 0) == nums_order_from(ia, ib, i as int),
        decreases n - i,
    {
        let x = num_at_exec(&va, i);
        let y = num_at_exec(&vb, i);
        if x != y {
            if x < y {
                return -1;
            } else {
                return 1;
            }
        }
        i += 1;
    }
    let a_latest = str_eq(a, "latest");
    let b_latest = str_eq(b, "latest");
    if a_latest && !b_latest {
        1
    } else if b_latest && !a_latest {
        -1
    } else {
        0
    }
}

/// `as4` order of two version strings: dotted numbers, then `latest` last.
pub fn cmp_versions(a: &str, b: &str) -> (r: Ordering)
    ensures
        ordering_has_sign(r, as4_order(a@, b@)),
{
    let s = as4_version_sign(a, b);
    if s < 0 {
        Ordering::Less
    } else if s > 0 {
        Ordering::Greater
    } else {
        Ordering::Equal
    }
}

proof fn lemma_nums_refl(a: Seq<int>, i: int)
    ensures
        nums_order_from(a, a, i) == 0,
    decreases longer(a, a) - i,
{
    if 0 <= i < longer(a, a) {
        lemma_nums_refl(a, i + 1);
    }
}

proof fn lemma_nums_antisym(a: Seq<int>, b: Seq<int>, i: int)
    ensures
        nums_order_from(a, b, i) == -nums_order_from(b, a, i),
    decreases longer(a, b) - i,
{
    if 0 <= i < longer(a, b) {
        lemma_nums_antisym(a, b, i + 1);
    }
}

/// A version compares equal to itself.
pub proof fn as4_order_reflexive(a: Seq<char>)
    ensures
        as4_order(a, a) == 0,
{
    lemma_nums_refl(dotted_nums(split_char(a, '.')), 0);
}

/// Swapping the versions reverses their order.
pub proof fn as4_order_antisymmetric(a: Seq<char>, b: Seq<char>)
    ensures
        as4_order(a, b) == -as4_order(b, a),
{
    lemma_nums_antisym(dotted_nums(split_char(a, '.')), dotted_nums(split_char(b, '.')), 0);
}

proof fn lemma_nums_trans(a: Seq<int>, b: Seq<int>, c: Seq<int>, i: int)
    requires
        0 <= i,
        nums_order_from(a, b, i) <= 0,
        nums_order_from(b, c, i) <= 0,
    ensures
        nums_order_from(a, c, i) <= 0,
        nums_order_from(a, b, i) < 0 || nums_order_from(b, c, i) < 0 ==> nums_order_from(a, c, i) < 0,
        nums_order_from(a, b, i) == 0 && nums_order_from(b, c, i) == 0 ==> nums_order_from(a, c, i) == 0,
    decreases longer(a, b) + longer(b, c) + longer(a, c) - i,
{
    if i < longer(a, b) || i < longer(b, c) || i < longer(a, c) {
        if num_at(a, i) == num_at(b, i) && num_at(b, i) == num_at(c, i) {
            lemma_nums_trans(a, b, c, i + 1);
        }
    }
}

/// The `as4` order of versions is transitive.
pub proof fn as4_order_transitive(a: Seq<char>, b: Seq<char>, c: Seq<char>)
    requires
        as4_order(a, b) <= 0,
        as4_order(b, c) <= 0,
    ensures
        as4_order(a, c) <= 0,
{
    let (na, nb, nc) = (dotted_nums(split_char(a, '.')), dotted_nums(split_char(b, '.')), dotted_nums(split_char(c, '.')));
    lemma_nums_trans(na, nb, nc, 0);
}

/// Display width of one character.
pub open spec fn char_width(c: char) -> nat {
    display_width(seq![c])
}

/// The longest prefix of `s` whose widths fit `room` (stopping at the first
/// character that does not fit), after `used` columns.
pub open spec fn fit_prefix(s: Seq<char>, used: nat, room: int) -> (Seq<char>, bool)
    decreases s.len(),
{
    if s.len() == 0 {
        (Seq::empty(), false)
    } else if used + char_width(s[0]) > room {
        (Seq::empty(), true)
    } else {
        let rest = fit_prefix(s.drop_first(), used + char_width(s[0]), room);
        (seq![s[0]] + rest.0, rest.1)
    }
}

/// `s` when it fits `max` columns, else its longest prefix fitting
/// `max - 1` columns followed by `…`.
pub open spec fn truncate_spec(s: Seq<char>, max: nat) -> Seq<char> {
    if display_width(s) <= max {
        s
    } else {
        let room: int = if max >= 1 { max - 1 } else { 0 };
        let p = fit_prefix(s, 0, room);
        if p.1 { p.0.push('…') } else { p.0 }
    }
}

fn char_cols(c: char) -> (r: usize)
    ensures
        r as nat == char_width(c),
{
    let mut s = String::new();
    push_char(&mut s, c);
    assert(s@ =~= seq![c]);
    str_width(s.as_str())
}

/// Cuts a text to `max` terminal columns, marking the cut with `…`.
pub fn truncate_display(s: &str, max: usize) -> (r: String)
    ensures
        r@ == truncate_spec(s@, max as nat),
{
    let w = str_width(s);
    if w <= max {
        return String::from_str(s);
    }
    let room: usize = if max >= 1 { max - 1 } else { 0 };
    let c = chars_of(s);
    let mut out = String::new();
    let mut cur: usize = 0;
    let mut i: usize = 0;
    assert(c@.skip(0) =~= c@);
    while i < c.len()
        invariant
            i <= c.len(),
            cur <= room,
            c@ == s@,
            display_width(s@) > max,
            room as int == (if max >= 1 { max - 1 } else { 0 }),
            fit_prefix(s@, 0, room as int) == (out@ + fit_prefix(c@.skip(i as int), cur as nat, room as int).0,
                fit_prefix(c@.skip(i as int), cur as nat, room as int).1),
        decreases c.len() - i,
    {
        let cw = char_cols(c[i]);
        let ghost rest = c@.skip(i as int);
        assert(rest[0] == c@[i as int]);
        if cw > room - cur {
            push_char(&mut out, '…');
            proof {
                assert(fit_prefix(rest, cur as nat, room as int) == (Seq::<char>::empty(), true));
                assert(out@.drop_last() + Seq::<char>::empty() =~= out@.drop_last());
            }
            assert(out@ =~= fit_prefix(s@, 0, room as int).0.push('…'));
            return out;
        }
        let ghost before = out@;
        push_char(&mut out, c[i]);
        proof {
            assert(rest.drop_first() =~= c@.skip(i + 1));
            let r2 = fit_prefix(c@.skip(i + 1), (cur + cw) as nat, room as int);
            assert(before + (seq![c@[i as int]] + r2.0) =~= out@ + r2.0);
        }
        cur = cur + cw;
        i += 1;
    }
    assert(c@.skip(i as int) =~= Seq::<char>::empty());
    assert(out@ + Seq::<char>::empty() =~= out@);
    out
}

/// `s` padded on the left with spaces to `w` columns.
pub open spec fn pad_left_spec(s: Seq<char>, w: nat) -> Seq<char> {
    if display_width(s) >= w { s } else { Seq::new((w - display_width(s)) as nat, |_i: int| ' ') + s }
}

/// Right-aligns a text in `w` terminal columns.
pub fn pad_left(s: &str, w: usize) -> (r: String)
    ensures
        r@ == pad_left_spec(s@, w as nat),
{
    let cw = str_width(s);
    if cw >= w {
        return String::from_str(s);
    }
    let n = w - cw;
    let mut out = String::new();
    let mut i: usize = 0;
    while i < n
        invariant
            i <= n,
            out@ == Seq::new(i as nat, |_i: int| ' '),
        decreases n - i,
    {
        push_char(&mut out, ' ');
        assert(Seq::new((i + 1) as nat, |_i: int| ' ') =~= Seq::new(i as nat, |_i: int| ' ').push(' '));
        i += 1;
    }
    push_str(&mut out, s);
    out
}

} // verus!
