//! `*`-only wildcard matching, case-insensitive.
//!
//! Two dialects exist in the tool set. [`wildmatch`] (used by the colour
//! configurations) is ordinary glob matching: a pattern without `*` must equal
//! the text, otherwise its pieces must appear in order, the first at the start
//! and the last at the end. [`wildmatch_anchored`] (used by the PATH rules and
//! the window rules) checks the first and last pieces against the whole text
//! independently of the middle pieces.

use vstd::prelude::*;
use crate::text::{
    chars_eq, ends_with, find_from, is_prefix, is_suffix, lower_chars, lowercase, occurs_at, starts_with,
};

verus! {

/// `s` split at every occurrence of `c` (`str::split`), always at least one piece.
pub open spec fn split_char(s: Seq<char>, c: char) -> Seq<Seq<char>>
    decreases s.len(),
{
    if s.len() == 0 {
        seq![Seq::<char>::empty()]
    } else {
        let pre = split_char(s.drop_last(), c);
        if s.last() == c {
            pre.push(Seq::<char>::empty())
        } else {
            pre.update(pre.len() - 1, pre.last().push(s.last()))
        }
    }
}

/// The pieces strictly between the first and the last one.
pub open spec fn middles(parts: Seq<Seq<char>>) -> Seq<Seq<char>> {
    if parts.len() >= 2 {
        parts.subrange(1, parts.len() - 1)
    } else {
        Seq::<Seq<char>>::empty()
    }
}

/// The pieces `ms` occur in `t` in order, without overlapping, all at or after
/// position `pos`; after the last of them `last` ends the text.
pub open spec fn float_from(ms: Seq<Seq<char>>, last: Seq<char>, t: Seq<char>, pos: int) -> bool
    decreases ms.len(),
{
    if ms.len() == 0 {
        pos + last.len() <= t.len() && is_suffix(last, t)
    } else {
        exists|k: int| pos <= k && occurs_at(t, ms[0], k) && float_from(ms.drop_first(), last, t, k + ms[0].len())
    }
}

/// Glob matching of the split pattern `parts` against `t`.
pub open spec fn glob(parts: Seq<Seq<char>>, t: Seq<char>) -> bool {
    if parts.len() == 1 {
        t == parts[0]
    } else {
        is_prefix(parts[0], t) && float_from(middles(parts), parts.last(), t, parts[0].len() as int)
    }
}

/// Anchored matching: first piece is a prefix, last piece is a suffix (both of
/// the whole text), and the middle pieces occur in order after the first piece.
pub open spec fn anchored(parts: Seq<Seq<char>>, t: Seq<char>) -> bool {
    (parts.len() == 1 && parts[0].len() == 0) || (is_prefix(parts[0], t) && is_suffix(parts.last(), t)
        && float_from(middles(parts), Seq::<char>::empty(), t, parts[0].len() as int))
}

/// What [`wildmatch`] decides.
pub open spec fn wildmatch_spec(pattern: Seq<char>, text: Seq<char>) -> bool {
    glob(split_char(lowercase(pattern), '*'), lowercase(text))
}

/// What [`wildmatch_anchored`] decides.
pub open spec fn anchored_spec(pattern: Seq<char>, text: Seq<char>) -> bool {
    anchored(split_char(lowercase(pattern), '*'), lowercase(text))
}

proof fn lemma_split_without(s: Seq<char>, c: char)
    requires
        !s.contains(c),
    ensures
        split_char(s, c) == seq![s],
    decreases s.len(),
{
    if s.len() > 0 {
        assert(!s.drop_last().contains(c)) by {
            if s.drop_last().contains(c) {
                let i = choose|i: int| 0 <= i < s.drop_last().len() && s.drop_last()[i] == c;
                assert(s[i] == c);
            }
        }
        lemma_split_without(s.drop_last(), c);
        assert(s.last() != c) by {
            assert(s[s.len() - 1] == s.last());
        }
        assert(s.drop_last().push(s.last()) =~= s);
        let pre = split_char(s.drop_last(), c);
        assert(pre.len() - 1 == 0);
        assert(pre.last() == s.drop_last());
        assert(split_char(s, c) == pre.update(pre.len() - 1, pre.last().push(s.last())));
        assert(seq![s.drop_last()].update(0, s.drop_last().push(s.last())) =~= seq![s]);
    } else {
        assert(s =~= Seq::<char>::empty());
    }
}

/// The pieces `ps` with the fills `fs` put between them: `ps[0] + fs[0] +
/// ps[1] + ... + ps[n - 1]`.
pub open spec fn interleave(ps: Seq<Seq<char>>, fs: Seq<Seq<char>>) -> Seq<char>
    decreases ps.len(),
{
    if ps.len() == 0 {
        Seq::empty()
    } else if ps.len() == 1 {
        ps[0]
    } else {
        ps[0] + fs[0] + interleave(ps.drop_first(), fs.drop_first())
    }
}

/// `t` is spelled by the pieces `ps` with one fill between each two.
pub open spec fn spells(ps: Seq<Seq<char>>, fs: Seq<Seq<char>>, t: Seq<char>) -> bool {
    fs.len() + 1 == ps.len() && t == interleave(ps, fs)
}

proof fn lemma_interleave_head(m0: Seq<char>, rest: Seq<Seq<char>>, fs: Seq<Seq<char>>)
    requires
        rest.len() >= 1,
    ensures
        interleave(seq![m0] + rest, fs) == m0 + interleave(seq![Seq::<char>::empty()] + rest, fs),
{
    let e = Seq::<char>::empty();
    let a = seq![m0] + rest;
    let b = seq![e] + rest;
    assert(a.drop_first() =~= rest);
    assert(b.drop_first() =~= rest);
    assert(e + fs[0] =~= fs[0]);
    assert(m0 + fs[0] + interleave(rest, fs.drop_first()) =~= m0 + (e + fs[0] + interleave(rest, fs.drop_first())));
}

/// Placing the pieces `ms` (then `last` at the end) from `pos` on is the
/// same as spelling the rest of the text with fills between them.
proof fn lemma_float_spells(ms: Seq<Seq<char>>, last: Seq<char>, t: Seq<char>, pos: int)
    requires
        0 <= pos <= t.len(),
    ensures
        float_from(ms, last, t, pos) <==> exists|fs: Seq<Seq<char>>| #[trigger] spells(
            seq![Seq::<char>::empty()] + ms + seq![last],
            fs,
            t.skip(pos),
        ),
    decreases ms.len(),
{
    let e = Seq::<char>::empty();
    let ps = seq![e] + ms + seq![last];
    let rest = t.skip(pos);
    if ms.len() == 0 {
        assert(ps =~= seq![e, last]);
        assert(ps.drop_first() =~= seq![last]);
        if float_from(ms, last, t, pos) {
            let f0 = t.subrange(pos, t.len() - last.len());
            let fs = seq![f0];
            assert(fs.drop_first() =~= Seq::<Seq<char>>::empty());
            assert(interleave(ps, fs) == e + f0 + interleave(ps.drop_first(), fs.drop_first()));
            assert(rest =~= e + f0 + last);
            assert(spells(ps, fs, rest));
        }
        if exists|fs: Seq<Seq<char>>| #[trigger] spells(ps, fs, rest) {
            let fs = choose|fs: Seq<Seq<char>>| #[trigger] spells(ps, fs, rest);
            assert(interleave(ps, fs) == e + fs[0] + interleave(ps.drop_first(), fs.drop_first()));
            assert(rest =~= fs[0] + last);
            assert(t.subrange(t.len() - last.len(), t.len() as int) =~= rest.subrange(
                rest.len() - last.len(),
                rest.len() as int,
            ));
            assert(rest.subrange(rest.len() - last.len(), rest.len() as int) =~= last);
        }
    } else {
        let m0 = ms[0];
        let ms2 = ms.drop_first();
        let ps2 = seq![e] + ms2 + seq![last];
        assert(ps.drop_first() =~= seq![m0] + (ms2 + seq![last]));
        assert(ps2 =~= seq![e] + (ms2 + seq![last]));
        if float_from(ms, last, t, pos) {
            let k = choose|k: int| pos <= k && occurs_at(t, ms[0], k) && float_from(ms.drop_first(), last, t, k + ms[0].len());
            lemma_float_spells(ms2, last, t, k + m0.len());
            let fs2 = choose|fs: Seq<Seq<char>>| #[trigger] spells(ps2, fs, t.skip(k + m0.len()));
            let f0 = t.subrange(pos, k);
            let fs = seq![f0] + fs2;
            assert(fs.drop_first() =~= fs2);
            lemma_interleave_head(m0, ms2 + seq![last], fs2);
            assert(interleave(ps, fs) == e + f0 + interleave(ps.drop_first(), fs2));
            assert(rest =~= e + f0 + (m0 + t.skip(k + m0.len())));
            assert(spells(ps, fs, rest));
        }
        if exists|fs: Seq<Seq<char>>| #[trigger] spells(ps, fs, rest) {
            let fs = choose|fs: Seq<Seq<char>>| #[trigger] spells(ps, fs, rest);
            let fs2 = fs.drop_first();
            lemma_interleave_head(m0, ms2 + seq![last], fs2);
            assert(interleave(ps, fs) == e + fs[0] + interleave(ps.drop_first(), fs2));
            let w = interleave(ps2, fs2);
            assert(rest =~= fs[0] + m0 + w);
            let k = pos + fs[0].len();
            assert(t.subrange(k, k + m0.len()) =~= rest.subrange(fs[0].len() as int, (fs[0].len() + m0.len()) as int));
            assert(rest.subrange(fs[0].len() as int, (fs[0].len() + m0.len()) as int) =~= m0);
            assert(occurs_at(t, m0, k));
            assert(rest.len() == fs[0].len() + m0.len() + w.len());
            assert(t.skip(k + m0.len()) =~= rest.skip((fs[0].len() + m0.len()) as int));
            assert(rest.skip((fs[0].len() + m0.len()) as int) =~= w);
            assert(spells(ps2, fs2, t.skip(k + m0.len())));
            lemma_float_spells(ms2, last, t, k + m0.len());
            assert(pos <= k && occurs_at(t, ms[0], k) && float_from(ms.drop_first(), last, t, k + ms[0].len()));
        }
    }
}

/// Glob matching is spelling: `t` matches the pieces `ps` (the pattern
/// split at `*`) exactly when it is the pieces with some text in place of
/// each `*`.
pub proof fn glob_is_spelling(ps: Seq<Seq<char>>, t: Seq<char>)
    requires
        ps.len() >= 1,
    ensures
        glob(ps, t) <==> exists|fs: Seq<Seq<char>>| #[trigger] spells(ps, fs, t),
{
    let e = Seq::<char>::empty();
    if ps.len() == 1 {
        if glob(ps, t) {
            let fs = Seq::<Seq<char>>::empty();
            assert(spells(ps, fs, t));
        }
    } else {
        let p0 = ps[0];
        let ms = middles(ps);
        let last = ps.last();
        assert(ps.drop_first() =~= ms + seq![last]);
        let q = seq![e] + ms + seq![last];
        assert(q =~= seq![e] + (ms + seq![last]));
        if glob(ps, t) {
            lemma_float_spells(ms, last, t, p0.len() as int);
            let fs = choose|fs: Seq<Seq<char>>| #[trigger] spells(q, fs, t.skip(p0.len() as int));
            lemma_interleave_head(p0, ms + seq![last], fs);
            assert(seq![p0] + (ms + seq![last]) =~= ps);
            assert(t =~= p0 + t.skip(p0.len() as int));
            assert(spells(ps, fs, t));
        }
        if exists|fs: Seq<Seq<char>>| #[trigger] spells(ps, fs, t) {
            let fs = choose|fs: Seq<Seq<char>>| #[trigger] spells(ps, fs, t);
            lemma_interleave_head(p0, ms + seq![last], fs);
            assert(seq![p0] + (ms + seq![last]) =~= ps);
            let w = interleave(q, fs);
            assert(t =~= p0 + w);
            assert(t.subrange(0, p0.len() as int) =~= p0);
            assert(t.skip(p0.len() as int) =~= w);
            assert(spells(q, fs, t.skip(p0.len() as int)));
            lemma_float_spells(ms, last, t, p0.len() as int);
        }
    }
}

/// `wildmatch` decides whether the lower-cased text is the lower-cased
/// pattern with each `*` replaced by some (possibly empty) text, every other
/// character standing for itself.
pub proof fn wildmatch_is_spelling(pattern: Seq<char>, text: Seq<char>)
    ensures
        wildmatch_spec(pattern, text) <==> exists|fs: Seq<Seq<char>>| #[trigger] spells(
            split_char(lowercase(pattern), '*'),
            fs,
            lowercase(text),
        ),
{
    lemma_split_nonempty(lowercase(pattern), '*');
    glob_is_spelling(split_char(lowercase(pattern), '*'), lowercase(text));
}

/// A pattern without `*` matches exactly the text equal to it (both
/// lower-cased), and the pattern `*` matches every text.
pub proof fn wildmatch_law(pattern: Seq<char>, text: Seq<char>)
    ensures
        !lowercase(pattern).contains('*') ==> (wildmatch_spec(pattern, text) <==> lowercase(text) == lowercase(pattern)),
        lowercase(pattern) == seq!['*'] ==> wildmatch_spec(pattern, text),
{
    let lp = lowercase(pattern);
    let lt = lowercase(text);
    if !lp.contains('*') {
        lemma_split_without(lp, '*');
    }
    if lp == seq!['*'] {
        let e = Seq::<char>::empty();
        assert(seq!['*'].drop_last() =~= e);
        assert(split_char(e, '*') == seq![e]);
        assert(split_char(seq!['*'], '*') =~= seq![e, e]);
        let parts = seq![e, e];
        assert(middles(parts) =~= Seq::<Seq<char>>::empty());
        assert(lt.subrange(0, 0) =~= e);
        assert(lt.subrange(lt.len() as int, lt.len() as int) =~= e);
        assert(is_prefix(e, lt));
        assert(is_suffix(e, lt));
    }
}

proof fn lemma_split_nonempty(s: Seq<char>, c: char)
    ensures
        split_char(s, c).len() >= 1,
    decreases s.len(),
{
    if s.len() > 0 {
        lemma_split_nonempty(s.drop_last(), c);
    }
}

/// Starting later never helps: a placement from `a` is also one from `b <= a`.
proof fn lemma_float_mono(ms: Seq<Seq<char>>, last: Seq<char>, t: Seq<char>, a: int, b: int)
    requires
        b <= a,
        float_from(ms, last, t, a),
    ensures
        float_from(ms, last, t, b),
    decreases ms.len(),
{
    if ms.len() > 0 {
        let k = choose|k: int| a <= k && occurs_at(t, ms[0], k) && float_from(ms.drop_first(), last, t, k + ms[0].len());
        assert(b <= k && occurs_at(t, ms[0], k) && float_from(ms.drop_first(), last, t, k + ms[0].len()));
    }
}

/// An empty leading piece can be dropped.
proof fn lemma_float_skip_empty(ms: Seq<Seq<char>>, last: Seq<char>, t: Seq<char>, pos: int)
    requires
        ms.len() > 0,
        ms[0].len() == 0,
        0 <= pos <= t.len(),
    ensures
        float_from(ms, last, t, pos) == float_from(ms.drop_first(), last, t, pos),
{
    if float_from(ms, last, t, pos) {
        let k = choose|k: int| pos <= k && occurs_at(t, ms[0], k) && float_from(ms.drop_first(), last, t, k + ms[0].len());
        lemma_float_mono(ms.drop_first(), last, t, k, pos);
    }
    if float_from(ms.drop_first(), last, t, pos) {
        assert(t.subrange(pos, pos) =~= ms[0]);
        assert(occurs_at(t, ms[0], pos));
    }
}

/// Taking the leftmost occurrence of the next piece loses no placement.
proof fn lemma_float_leftmost(ms: Seq<Seq<char>>, last: Seq<char>, t: Seq<char>, pos: int, idx: int)
    requires
        ms.len() > 0,
        pos <= idx,
        occurs_at(t, ms[0], idx),
        forall|j: int| pos <= j < idx ==> !occurs_at(t, ms[0], j),
    ensures
        float_from(ms, last, t, pos) == float_from(ms.drop_first(), last, t, idx + ms[0].len()),
{
    if float_from(ms, last, t, pos) {
        let k = choose|k: int| pos <= k && occurs_at(t, ms[0], k) && float_from(ms.drop_first(), last, t, k + ms[0].len());
        lemma_float_mono(ms.drop_first(), last, t, k + ms[0].len(), idx + ms[0].len());
    }
}

/// No occurrence at or after `pos` means no placement.
proof fn lemma_float_none(ms: Seq<Seq<char>>, last: Seq<char>, t: Seq<char>, pos: int)
    requires
        ms.len() > 0,
        forall|j: int| pos <= j ==> !occurs_at(t, ms[0], j),
    ensures
        !float_from(ms, last, t, pos),
{
}

/// The character sequences held by a vector of character vectors.
pub open spec fn views(v: Seq<Vec<char>>) -> Seq<Seq<char>> {
    v.map_values(|x: Vec<char>| x@)
}

/// `str::split(c)` on characters.
pub fn split_chars(s: &[char], c: char) -> (r: Vec<Vec<char>>)
    ensures
        views(r@) == split_char(s@, c),
        r.len() >= 1,
{
    let mut parts: Vec<Vec<char>> = Vec::new();
    let mut cur: Vec<char> = Vec::new();
    let mut i: usize = 0;
    proof {
        assert(s@.subrange(0, 0) =~= Seq::<char>::empty());
    }
    while i < s.len()
        invariant
            i <= s.len(),
            views(parts@).push(cur@) =~= split_char(s@.subrange(0, i as int), c),
        decreases s.len() - i,
    {
        let ghost pre = s@.subrange(0, i as int);
        let ghost next = s@.subrange(0, i + 1);
        let ghost old_parts = views(parts@);
        let ghost old_cur = cur@;
        assert(next.drop_last() =~= pre);
        assert(next.last() == s@[i as int]);
        if s[i] == c {
            let done = cur;
            parts.push(done);
            cur = Vec::new();
            assert(views(parts@) =~= old_parts.push(old_cur));
            assert(views(parts@).push(cur@) =~= split_char(next, c));
        } else {
            cur.push(s[i]);
            assert(views(parts@) =~= old_parts);
            assert(split_char(next, c) == split_char(pre, c).update(
                split_char(pre, c).len() - 1,
                split_char(pre, c).last().push(s@[i as int]),
            ));
            assert(views(parts@).push(cur@) =~= split_char(next, c));
        }
        i += 1;
    }
    assert(s@.subrange(0, s.len() as int) =~= s@);
    let ghost old_parts = views(parts@);
    let ghost old_cur = cur@;
    parts.push(cur);
    assert(views(parts@) =~= old_parts.push(old_cur));
    parts
}

/// Whether `p` is a suffix of `t` that starts at or after `pos`.
fn ends_with_from(t: &[char], p: &[char], pos: usize) -> (r: bool)
    ensures
        r == (pos + p@.len() <= t@.len() && is_suffix(p@, t@)),
{
    if pos > t.len() || p.len() > t.len() - pos {
        return false;
    }
    ends_with(t, p)
}

/// Wildcard match (only `*`), ignoring case: the text must be spelled by the
/// pattern with each `*` standing for any run of characters.
pub fn wildmatch(pattern: &str, text: &str) -> (r: bool)
    ensures
        r == wildmatch_spec(pattern@, text@),
{
    let pl = lower_chars(pattern);
    let tl = lower_chars(text);
    let parts = split_chars(pl.as_slice(), '*');
    let ghost ps = views(parts@);
    let n = parts.len();
    assert(ps[0] == parts@[0]@);
    assert(ps.last() == parts@[n - 1]@);
    if n == 1 {
        return chars_eq(tl.as_slice(), parts[0].as_slice());
    }
    let mut pos: usize = 0;
    let first = &parts[0];
    if first.len() > 0 {
        if !starts_with(tl.as_slice(), first.as_slice()) {
            return false;
        }
        pos = first.len();
    } else {
        assert(tl@.subrange(0, 0) =~= first@);
    }
    assert(pos == ps[0].len());
    let mut i: usize = 1;
    while i < n - 1
        invariant
            ps == views(parts@),
            ps == split_char(lowercase(pattern@), '*'),
            tl@ == lowercase(text@),
            n == parts.len(),
            n >= 2,
            1 <= i <= n - 1,
            pos <= tl@.len(),
            glob(ps, tl@) == (is_prefix(ps[0], tl@) && float_from(
                ps.subrange(i as int, n - 1),
                ps.last(),
                tl@,
                pos as int,
            )),
            is_prefix(ps[0], tl@),
        decreases n - 1 - i,
    {
        let part = &parts[i];
        let ghost ms = ps.subrange(i as int, n - 1);
        assert(ms[0] == part@);
        assert(part@ == ps[i as int]);
        assert(ms.drop_first() =~= ps.subrange(i + 1, n - 1));
        if part.len() == 0 {
            proof {
                lemma_float_skip_empty(ms, ps.last(), tl@, pos as int);
            }
        } else {
            match find_from(tl.as_slice(), part.as_slice(), pos) {
                Some(idx) => {
                    let plen = part.len();
                    let tlen = tl.len();
                    assert(idx + plen <= tlen);
                    proof {
                        lemma_float_leftmost(ms, ps.last(), tl@, pos as int, idx as int);
                    }
                    pos = idx + plen;
                },
                None => {
                    proof {
                        lemma_float_none(ms, ps.last(), tl@, pos as int);
                        assert(!float_from(ms, ps.last(), tl@, pos as int));
                    }
                    return false;
                },
            }
        }
        i += 1;
    }
    assert(ps.subrange((n - 1) as int, n - 1) =~= Seq::<Seq<char>>::empty());
    let last = &parts[n - 1];
    assert(last@ == ps.last());
    if last.len() == 0 {
        assert(tl@.subrange(tl@.len() as int, tl@.len() as int) =~= last@);
        return true;
    }
    ends_with_from(tl.as_slice(), last.as_slice(), pos)
}

/// Anchored wildcard match (only `*`), ignoring case: the first piece must
/// start the text, the last piece must end it, and the pieces in between must
/// appear in order after the first piece.
pub fn wildmatch_anchored(pattern: &str, text: &str) -> (r: bool)
    ensures
        r == anchored_spec(pattern@, text@),
{
    let pl = lower_chars(pattern);
    let tl = lower_chars(text);
    let parts = split_chars(pl.as_slice(), '*');
    let ghost ps = views(parts@);
    let n = parts.len();
    assert(ps[0] == parts@[0]@);
    assert(ps.last() == parts@[n - 1]@);
    if n == 1 && parts[0].len() == 0 {
        return true;
    }
    let first = &parts[0];
    if first.len() > 0 && !starts_with(tl.as_slice(), first.as_slice()) {
        return false;
    }
    let last = &parts[n - 1];
    if last.len() > 0 && !ends_with(tl.as_slice(), last.as_slice()) {
        return false;
    }
    proof {
        if first.len() == 0 {
            assert(tl@.subrange(0, 0) =~= first@);
        }
        if last.len() == 0 {
            assert(tl@.subrange(tl@.len() as int, tl@.len() as int) =~= last@);
        }
    }
    let mut pos: usize = first.len();
    let ghost empty = Seq::<char>::empty();
    let mut i: usize = 1;
    if n == 1 {
        assert(middles(ps) =~= Seq::<Seq<char>>::empty());
        assert(tl@.subrange(tl@.len() as int, tl@.len() as int) =~= empty);
        return true;
    }
    assert(middles(ps) == ps.subrange(1, n - 1));
    while i < n - 1
        invariant
            ps == views(parts@),
            ps == split_char(lowercase(pattern@), '*'),
            tl@ == lowercase(text@),
            n == parts.len(),
            n >= 2,
            1 <= i <= n - 1,
            pos <= tl@.len(),
            is_prefix(ps[0], tl@),
            is_suffix(ps.last(), tl@),
            anchored(ps, tl@) == float_from(ps.subrange(i as int, n - 1), empty, tl@, pos as int),
            empty == Seq::<char>::empty(),
        decreases n - 1 - i,
    {
        let part = &parts[i];
        let ghost ms = ps.subrange(i as int, n - 1);
        assert(ms[0] == part@);
        assert(part@ == ps[i as int]);
        assert(ms.drop_first() =~= ps.subrange(i + 1, n - 1));
        if part.len() == 0 {
            proof {
                lemma_float_skip_empty(ms, empty, tl@, pos as int);
            }
        } else {
            match find_from(tl.as_slice(), part.as_slice(), pos) {
                Some(idx) => {
                    let plen = part.len();
                    let tlen = tl.len();
                    assert(idx + plen <= tlen);
                    proof {
                        lemma_float_leftmost(ms, empty, tl@, pos as int, idx as int);
                    }
                    pos = idx + plen;
                },
                None => {
                    proof {
                        lemma_float_none(ms, empty, tl@, pos as int);
                        assert(!float_from(ms, empty, tl@, pos as int));
                    }
                    return false;
                },
            }
        }
        i += 1;
    }
    assert(ps.subrange((n - 1) as int, n - 1) =~= Seq::<Seq<char>>::empty());
    assert(tl@.subrange(tl@.len() as int, tl@.len() as int) =~= empty);
    true
}

} // verus!
