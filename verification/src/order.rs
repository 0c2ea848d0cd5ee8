//! Stable sorting under a strict weak order, as `slice::sort_by` does it.

use vstd::prelude::*;

verus! {

/// `lt` is a strict weak order: asymmetric, and elements that neither
/// precedes are interchangeable.
pub open spec fn weak_order<T>(lt: spec_fn(T, T) -> bool) -> bool {
    &&& forall|a: T, b: T| #[trigger] lt(a, b) ==> !lt(b, a)
    &&& forall|a: T, b: T, c: T| #![trigger lt(a, b), lt(b, c)] !lt(a, b) && !lt(b, c) ==> !lt(a, c)
}

/// No element of `r` goes strictly before one ahead of it.
pub open spec fn sorted_under<T>(r: Seq<T>, lt: spec_fn(T, T) -> bool) -> bool {
    forall|i: int, j: int| 0 <= i < j < r.len() ==> !lt(#[trigger] r[j], #[trigger] r[i])
}

/// `r` is `o` rearranged by `p` (element `i` of `r` is element `p[i]` of
/// `o`, each taken once), elements that `lt` does not tell apart kept in
/// their order.
pub open spec fn stable_perm<T>(o: Seq<T>, r: Seq<T>, p: Seq<int>, lt: spec_fn(T, T) -> bool) -> bool {
    &&& p.len() == r.len()
    &&& r.len() == o.len()
    &&& forall|i: int| 0 <= i < p.len() ==> 0 <= #[trigger] p[i] < o.len()
    &&& forall|i: int, j: int| 0 <= i < j < p.len() ==> #[trigger] p[i] != #[trigger] p[j]
    &&& forall|i: int| 0 <= i < r.len() ==> #[trigger] r[i] == o[p[i]]
    &&& forall|i: int, j: int| 0 <= i < j < r.len() && !lt(#[trigger] r[i], #[trigger] r[j]) ==> p[i] < p[j]
}

/// `r` is `o` sorted stably under `lt`.
pub open spec fn stably_sorted<T>(o: Seq<T>, r: Seq<T>, lt: spec_fn(T, T) -> bool) -> bool {
    &&& sorted_under(r, lt)
    &&& exists|p: Seq<int>| stable_perm(o, r, p, lt)
}

proof fn lemma_insert_sorted<T>(
    o: Seq<T>,
    out: Seq<T>,
    p: Seq<int>,
    x: T,
    n: int,
    j: int,
    lt: spec_fn(T, T) -> bool,
)
    requires
        weak_order(lt),
        0 <= n < o.len(),
        x == o[n],
        sorted_under(out, lt),
        stable_perm(o.take(n), out, p, lt),
        0 <= j <= out.len(),
        j > 0 ==> !lt(x, out[j - 1]),
        forall|m: int| j <= m < out.len() ==> lt(x, #[trigger] out[m]),
    ensures
        sorted_under(out.insert(j, x), lt),
        stable_perm(o.take(n + 1), out.insert(j, x), p.insert(j, n), lt),
{
    let r = out.insert(j, x);
    let q = p.insert(j, n);
    assert forall|a: int, b: int| 0 <= a < b < r.len() implies !lt(#[trigger] r[b], #[trigger] r[a]) by {
        if b == j {
            if a < j - 1 {
                assert(!lt(out[j - 1], out[a]));
                assert(!lt(x, out[j - 1]) && !lt(out[j - 1], out[a]));
            }
        } else if a == j {
            assert(lt(x, out[b - 1]));
        } else {
            let a2 = if a < j { a } else { a - 1 };
            let b2 = if b < j { b } else { b - 1 };
            assert(r[a] == out[a2] && r[b] == out[b2]);
        }
    }
    assert forall|i: int| 0 <= i < q.len() implies 0 <= #[trigger] q[i] < n + 1 by {
        if i != j {
            let i2 = if i < j { i } else { i - 1 };
            assert(q[i] == p[i2]);
        }
    }
    assert forall|a: int, b: int| 0 <= a < b < q.len() implies #[trigger] q[a] != #[trigger] q[b] by {
        let a2 = if a < j { a } else { a - 1 };
        let b2 = if b < j { b } else { b - 1 };
        if a != j && b != j {
            assert(q[a] == p[a2] && q[b] == p[b2]);
        } else if a == j {
            assert(q[b] == p[b2] && 0 <= p[b2] < n);
        } else {
            assert(q[a] == p[a2] && 0 <= p[a2] < n);
        }
    }
    assert forall|i: int| 0 <= i < r.len() implies #[trigger] r[i] == o.take(n + 1)[q[i]] by {
        if i != j {
            let i2 = if i < j { i } else { i - 1 };
            assert(r[i] == out[i2] && q[i] == p[i2] && 0 <= p[i2] < n);
            assert(out[i2] == o.take(n)[p[i2]]);
        }
    }
    assert forall|a: int, b: int| 0 <= a < b < r.len() && !lt(#[trigger] r[a], #[trigger] r[b]) implies q[a] < q[b] by {
        let a2 = if a < j { a } else { a - 1 };
        let b2 = if b < j { b } else { b - 1 };
        if a == j {
            assert(lt(x, out[b2]));
        } else if b == j {
            assert(q[a] == p[a2] && 0 <= p[a2] < n);
        } else {
            assert(r[a] == out[a2] && r[b] == out[b2]);
            assert(q[a] == p[a2] && q[b] == p[b2]);
        }
    }
}

/// Sorts `v` stably; `less` answers `lt`.
pub(crate) fn stable_sort_by<T, F: Fn(&T, &T) -> bool>(v: Vec<T>, less: F, Ghost(lt): Ghost<spec_fn(T, T) -> bool>) -> (r: Vec<T>)
    requires
        weak_order(lt),
        forall|a: &T, b: &T| #[trigger] less.requires((a, b)),
        forall|a: &T, b: &T, x: bool| less.ensures((a, b), x) ==> x == lt(*a, *b),
    ensures
        stably_sorted(v@, r@, lt),
{
    let ghost o = v@;
    assert(o.len() == v.len());
    let mut rest = v;
    let mut out: Vec<T> = Vec::new();
    let ghost mut p: Seq<int> = Seq::empty();
    let mut n: usize = 0;
    while rest.len() > 0
        invariant
            n + rest.len() == o.len(),
            o.len() <= usize::MAX,
            rest@ == o.skip(n as int),
            weak_order(lt),
            forall|a: &T, b: &T| #[trigger] less.requires((a, b)),
            forall|a: &T, b: &T, x: bool| less.ensures((a, b), x) ==> x == lt(*a, *b),
            sorted_under(out@, lt),
            stable_perm(o.take(n as int), out@, p, lt),
        decreases rest.len(),
    {
        let x = rest.remove(0);
        assert(x == o[n as int]);
        assert(rest@ =~= o.skip(n + 1));
        let mut j = out.len();
        while j > 0 && less(&x, &out[j - 1])
            invariant
                j <= out.len(),
                forall|a: &T, b: &T| #[trigger] less.requires((a, b)),
                forall|a: &T, b: &T, x: bool| less.ensures((a, b), x) ==> x == lt(*a, *b),
                forall|m: int| j <= m < out.len() ==> lt(x, #[trigger] out@[m]),
            decreases j,
        {
            j -= 1;
        }
        proof {
            lemma_insert_sorted(o, out@, p, x, n as int, j as int, lt);
            p = p.insert(j as int, n as int);
        }
        out.insert(j, x);
        n += 1;
    }
    assert(o.take(n as int) =~= o);
    out
}

} // verus!
