//! How many missing ranges a validation reports: one per maximal gap of
//! missing chunks, up to the maximum.
use crate::storage::{covered, in_range, is_missing_ranges, lemma_ranges_ascend, MAX_MISSING_RANGES};
use vstd::prelude::*;

verus! {

/// `x` begins a maximal gap: it is missing, and what comes just before it
/// is not.
pub open spec fn gap_start(present: Seq<u32>, x: int) -> bool {
    !present.contains(x as u32) && (x == 0 || present.contains((x - 1) as u32))
}

/// The number of maximal gaps that begin below `k`.
pub open spec fn gaps_below(present: Seq<u32>, k: int) -> nat
    decreases k,
{
    if k <= 0 {
        0
    } else {
        gaps_below(present, k - 1) + if gap_start(present, k - 1) {
            1nat
        } else {
            0nat
        }
    }
}

/// The number of ranges that begin below `k`.
pub open spec fn starts_below(ranges: Seq<(u32, u32)>, k: int) -> nat
    decreases ranges.len(),
{
    if ranges.len() == 0 {
        0
    } else {
        starts_below(ranges.drop_last(), k) + if ranges.last().0 < k {
            1nat
        } else {
            0nat
        }
    }
}

pub open spec fn is_start(ranges: Seq<(u32, u32)>, x: int) -> bool {
    exists|j: int| 0 <= j < ranges.len() && #[trigger] ranges[j].0 == x
}

pub open spec fn starts_ascend(ranges: Seq<(u32, u32)>) -> bool {
    forall|j: int, k: int| 0 <= j < k < ranges.len() ==> #[trigger] ranges[j].0 < #[trigger] ranges[k].0
}

proof fn lemma_starts_step(ranges: Seq<(u32, u32)>, k: int)
    requires
        starts_ascend(ranges),
    ensures
        starts_below(ranges, k + 1) == starts_below(ranges, k) + if is_start(ranges, k) {
            1nat
        } else {
            0nat
        },
    decreases ranges.len(),
{
    if ranges.len() > 0 {
        let init = ranges.drop_last();
        assert(starts_ascend(init)) by {
            assert forall|j: int, m: int| 0 <= j < m < init.len() implies #[trigger] init[j].0 < #[trigger] init[m].0 by {
                assert(ranges[j].0 < ranges[m].0);
            }
        }
        lemma_starts_step(init, k);
        let last = ranges.last();
        assert(last == ranges[ranges.len() - 1]);
        if is_start(init, k) {
            let j = choose|j: int| 0 <= j < init.len() && #[trigger] init[j].0 == k;
            assert(ranges[j] == init[j]);
            assert(ranges[j].0 < ranges[ranges.len() - 1].0);
            assert(is_start(ranges, k));
        }
        if is_start(ranges, k) && last.0 != k {
            let j = choose|j: int| 0 <= j < ranges.len() && #[trigger] ranges[j].0 == k;
            assert(j < init.len());
            assert(init[j].0 == k);
        }
        if last.0 == k {
            assert(ranges[ranges.len() - 1].0 == k);
        }
    }
}

proof fn lemma_starts_all_below(ranges: Seq<(u32, u32)>, k: int)
    requires
        forall|j: int| 0 <= j < ranges.len() ==> #[trigger] ranges[j].0 < k,
    ensures
        starts_below(ranges, k) == ranges.len(),
    decreases ranges.len(),
{
    if ranges.len() > 0 {
        let init = ranges.drop_last();
        assert forall|j: int| 0 <= j < init.len() implies #[trigger] init[j].0 < k by {
            assert(ranges[j].0 < k);
        }
        lemma_starts_all_below(init, k);
        assert(ranges[ranges.len() - 1].0 < k);
    }
}

proof fn lemma_starts_none(ranges: Seq<(u32, u32)>)
    ensures
        starts_below(ranges, 0) == 0,
    decreases ranges.len(),
{
    if ranges.len() > 0 {
        lemma_starts_none(ranges.drop_last());
    }
}

/// A missing index lies in a gap that begins at or below it.
proof fn lemma_gap_start_below(present: Seq<u32>, x: int) -> (s: int)
    requires
        0 <= x <= u32::MAX,
        !present.contains(x as u32),
    ensures
        0 <= s <= x,
        gap_start(present, s),
        forall|y: int| s <= y <= x ==> !#[trigger] present.contains(y as u32),
    decreases x,
{
    if x == 0 || present.contains((x - 1) as u32) {
        x
    } else {
        lemma_gap_start_below(present, x - 1)
    }
}

proof fn lemma_count_up_to(present: Seq<u32>, n: u32, ranges: Seq<(u32, u32)>, k: int)
    requires
        is_missing_ranges(present, n, ranges),
        starts_ascend(ranges),
        0 <= k <= n,
    ensures
        starts_below(ranges, k) <= gaps_below(present, k),
        ranges.len() < MAX_MISSING_RANGES ==> starts_below(ranges, k) == gaps_below(present, k),
        (exists|s: int| 0 <= s < k && gap_start(present, s) && !is_start(ranges, s)) ==> starts_below(
            ranges,
            k,
        ) + 1 <= gaps_below(present, k),
    decreases k,
{
    if k == 0 {
        lemma_starts_none(ranges);
    } else {
        let m = k - 1;
        lemma_count_up_to(present, n, ranges, m);
        lemma_starts_step(ranges, m);
        if is_start(ranges, m) {
            let j = choose|j: int| 0 <= j < ranges.len() && #[trigger] ranges[j].0 == m;
            assert(ranges[j].0 < ranges[j].1);
            assert(in_range(ranges[j], m));
            assert(gap_start(present, m));
        }
        if ranges.len() < MAX_MISSING_RANGES && gap_start(present, m) {
            assert(covered(ranges, m));
            let j = choose|j: int| 0 <= j < ranges.len() && #[trigger] in_range(ranges[j], m);
            if ranges[j].0 < m {
                assert(in_range(ranges[j], m - 1));
            }
            assert(ranges[j].0 == m);
            assert(is_start(ranges, m));
        }
        if exists|s: int| 0 <= s < k && gap_start(present, s) && !is_start(ranges, s) {
            let s = choose|s: int| 0 <= s < k && gap_start(present, s) && !is_start(ranges, s);
            if s < m {
                assert(exists|t: int| 0 <= t < m && gap_start(present, t) && !is_start(ranges, t));
            }
        }
    }
}

/// With `G` maximal gaps of missing chunks in `[0, n)`, a validation reports
/// exactly `min(G, MAX_MISSING_RANGES)` ranges; when `G` is at most the
/// maximum, an index below `n` lies in a reported range exactly when it is
/// not present.
pub proof fn lemma_missing_ranges_count(present: Seq<u32>, n: u32, ranges: Seq<(u32, u32)>)
    requires
        is_missing_ranges(present, n, ranges),
    ensures
        ranges.len() == if gaps_below(present, n as int) < MAX_MISSING_RANGES {
            gaps_below(present, n as int)
        } else {
            MAX_MISSING_RANGES as nat
        },
        gaps_below(present, n as int) <= MAX_MISSING_RANGES ==> forall|x: int|
            0 <= x < n ==> (#[trigger] covered(ranges, x) <==> !present.contains(x as u32)),
{
    assert(starts_ascend(ranges)) by {
        assert forall|j: int, k: int| 0 <= j < k < ranges.len() implies #[trigger] ranges[j].0 < #[trigger] ranges[k].0 by {
            lemma_ranges_ascend(present, n, ranges, j, k);
            assert(ranges[j].0 < ranges[j].1);
        }
    }
    assert forall|j: int| 0 <= j < ranges.len() implies #[trigger] ranges[j].0 < n by {
        assert(ranges[j].0 < ranges[j].1);
    }
    lemma_starts_all_below(ranges, n as int);
    lemma_count_up_to(present, n, ranges, n as int);
    let g = gaps_below(present, n as int);
    if g <= MAX_MISSING_RANGES {
        assert forall|x: int| 0 <= x < n implies (#[trigger] covered(ranges, x) <==> !present.contains(
            x as u32,
        )) by {
            if covered(ranges, x) {
                let j = choose|j: int| 0 <= j < ranges.len() && #[trigger] in_range(ranges[j], x);
                assert(!present.contains(x as u32));
            }
            if !present.contains(x as u32) && !covered(ranges, x) {
                let s = lemma_gap_start_below(present, x);
                if is_start(ranges, s) {
                    let j = choose|j: int| 0 <= j < ranges.len() && #[trigger] ranges[j].0 == s;
                    let hi = ranges[j].1 as int;
                    if hi <= x {
                        assert(ranges[j].0 < ranges[j].1);
                        assert(!present.contains(hi as u32));
                        assert(hi == n || present.contains(hi as u32));
                    }
                    assert(in_range(ranges[j], x));
                } else {
                    assert(exists|t: int| 0 <= t < n && gap_start(present, t) && !is_start(ranges, t));
                }
            }
        }
    }
}

} // verus!
