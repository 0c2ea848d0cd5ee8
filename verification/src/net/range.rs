//! Planning a ranged download: how many parts, and the byte range of each.

use vstd::prelude::*;
use crate::text::{dec, u64_to_string, push_str};

verus! {

/// Files below this size (10 MiB) are fetched in one stream.
pub const RANGE_MIN_SIZE: u64 = 10485760;

/// A file of `total` bytes is fetched in parts.
pub fn uses_ranges(total: u64) -> (r: bool)
    ensures
        r == (total >= 10485760),
{
    total >= RANGE_MIN_SIZE
}

/// Number of parts: the threads asked for, at most one per MiB, at least one.
pub open spec fn part_count(total: u64, threads: u64) -> int {
    let per_mib = total / 1048576;
    let m = if threads < per_mib { threads as int } else { per_mib as int };
    if m < 1 { 1 } else { m }
}

/// Part `i` of `n` of a `total`-byte file: parts of `total / n` bytes, the
/// last one running to the end.
pub open spec fn part_range(total: u64, n: int, i: int) -> (int, int) {
    let c = total as int / n;
    (i * c, if i == n - 1 { total - 1 } else { i * c + c - 1 })
}

/// The byte ranges (first and last byte, inclusive) a `total`-byte file is
/// fetched in with `threads` threads.
pub fn range_plan(total: u64, threads: u64) -> (r: Vec<(u64, u64)>)
    requires
        total > 0,
    ensures
        r.len() == part_count(total, threads),
        forall|i: int| 0 <= i < r.len() ==> (#[trigger] r@[i]).0 as int == part_range(total, r.len() as int, i).0
            && r@[i].1 as int == part_range(total, r.len() as int, i).1,
        r@[0].0 == 0,
        r@[r.len() - 1].1 == total - 1,
        forall|i: int| 0 <= i < r.len() ==> (#[trigger] r@[i]).0 <= r@[i].1,
        forall|i: int| 0 <= i < r.len() - 1 ==> (#[trigger] r@[i]).1 + 1 == r@[i + 1].0,
{
    let per_mib = total / 1048576;
    let m = if threads < per_mib { threads } else { per_mib };
    let n: u64 = if m < 1 { 1 } else { m };
    let c = total / n;
    assert(n * c <= total && c >= 1) by (nonlinear_arith)
        requires
            n >= 1,
            c == total / n,
            total > 0,
            n == 1 || n <= total / 1048576,
    {
        if n > 1 {
            assert(n * 1048576 <= total);
            assert(c >= 1048576);
        }
    }
    let mut r: Vec<(u64, u64)> = Vec::new();
    let mut i: u64 = 0;
    while i < n
        invariant
            i <= n,
            n >= 1,
            c >= 1,
            n * c <= total,
            c == total as int / n as int,
            n as int == part_count(total, threads),
            r.len() == i,
            forall|k: int| 0 <= k < i ==> (#[trigger] r@[k]).0 as int == part_range(total, n as int, k).0
                && r@[k].1 as int == part_range(total, n as int, k).1,
        decreases n - i,
    {
        assert(i * c + c <= n * c) by (nonlinear_arith)
            requires
                i < n,
        ;
        let start = i * c;
        let end = if i == n - 1 { total - 1 } else { start + c - 1 };
        r.push((start, end));
        i += 1;
    }
    proof {
        assert(r@[0].0 == 0) by (nonlinear_arith)
            requires
                r@[0].0 as int == 0 * c,
        ;
        assert forall|k: int| 0 <= k < r.len() implies (#[trigger] r@[k]).0 <= r@[k].1 by {
            assert(k * c + c <= n * c) by (nonlinear_arith)
                requires
                    0 <= k < n,
            ;
        }
        assert forall|k: int| 0 <= k < r.len() - 1 implies (#[trigger] r@[k]).1 + 1 == r@[k + 1].0 by {
            assert((k + 1) * c == k * c + c) by (nonlinear_arith);
            assert(r@[k + 1].0 == part_range(total, n as int, k + 1).0);
        }
    }
    r
}

/// The `Range` header value of a part: `bytes=start-end`.
pub fn range_header(start: u64, end: u64) -> (r: String)
    ensures
        r@ == "bytes="@ + dec(start as nat) + "-"@ + dec(end as nat),
{
    let mut s = String::from_str("bytes=");
    push_str(&mut s, u64_to_string(start).as_str());
    push_str(&mut s, "-");
    push_str(&mut s, u64_to_string(end).as_str());
    s
}

} // verus!
