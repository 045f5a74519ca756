use vstd::prelude::*;

use crate::sorting::{ints_i64, kth_smallest, sort_i64, lemma_sort_len};

verus! {

/// How many of the first `k` values are below `limit`.
pub open spec fn covered_prefix(vals: Seq<int>, limit: int, k: int) -> int
    decreases k,
{
    if k <= 0 || k > vals.len() {
        0
    } else {
        covered_prefix(vals, limit, k - 1) + if limit > vals[k - 1] { 1int } else { 0int }
    }
}

/// The progress points reported while the first `k` values are counted: after
/// every `interval`-th value, how many have been counted and how many of them are below `limit`.
pub open spec fn periodic_points(vals: Seq<int>, limit: int, interval: int, k: int) -> Seq<(int, int)>
    decreases k,
{
    if k <= 0 || k > vals.len() {
        Seq::empty()
    } else {
        periodic_points(vals, limit, interval, k - 1) + if k % interval == 0 {
            seq![(k, covered_prefix(vals, limit, k))]
        } else {
            Seq::empty()
        }
    }
}

/// Every point reported when counting how many values are below `limit`:
/// the periodic ones, then one for the whole when the count is not a multiple of `interval`.
pub open spec fn coverage_points(vals: Seq<int>, limit: int, interval: int) -> Seq<(int, int)> {
    let n = vals.len() as int;
    periodic_points(vals, limit, interval, n) + if n % interval != 0 {
        seq![(n, covered_prefix(vals, limit, n))]
    } else {
        Seq::empty()
    }
}

/// A list of points, as integers.
pub open spec fn points_view(p: Seq<(i32, i32)>) -> Seq<(int, int)> {
    p.map_values(|x: (i32, i32)| (x.0 as int, x.1 as int))
}

/// Each point of the coverage report, with how many values were counted and
/// how many of them are below the limit.
pub fn coverage_report(vals: &Vec<i64>, limit: i64, report_interval: i32) -> (r: Vec<(i32, i32)>)
    requires
        report_interval != 0,
        vals@.len() < i32::MAX,
    ensures
        points_view(r@) == coverage_points(ints_i64(vals@), limit as int, report_interval as int),
{
    let ghost v = ints_i64(vals@);
    let mut points: Vec<(i32, i32)> = Vec::new();
    let mut visited: i32 = 0;
    let mut covered: i32 = 0;
    let mut k: usize = 0;
    assert(points_view(points@) =~= Seq::empty());
    while k < vals.len()
        invariant
            k <= vals@.len() < i32::MAX,
            report_interval != 0,
            v == ints_i64(vals@),
            visited as int == k,
            covered as int == covered_prefix(v, limit as int, k as int),
            0 <= covered <= visited,
            points_view(points@) == periodic_points(v, limit as int, report_interval as int, k as int),
        decreases vals.len() - k,
    {
        visited = visited + 1;
        if limit > vals[k] {
            covered = covered + 1;
        }
        k = k + 1;
        if visited % report_interval == 0 {
            let ghost before = points@;
            points.push((visited, covered));
            assert(points_view(points@) =~= points_view(before).push((visited as int, covered as int)));
        }
        assert(points_view(points@) =~= periodic_points(v, limit as int, report_interval as int, k as int));
    }
    if visited % report_interval != 0 {
        let ghost before = points@;
        points.push((visited, covered));
        assert(points_view(points@) =~= points_view(before).push((visited as int, covered as int)));
    }
    assert(points_view(points@) =~= coverage_points(v, limit as int, report_interval as int));
    points
}

/// How many values the desired limit is read from: `top`, but at least one.
pub open spec fn top_values(top: int) -> int {
    if top < 1 {
        1
    } else {
        top
    }
}

/// The value the desired limit is read from: once `top_values(top)` values
/// have been gathered, the one at position `target` of them in ascending
/// order; `None` if there are fewer values.
pub open spec fn desired_limit(vals: Seq<int>, top: int, target: int) -> Option<int> {
    let m = top_values(top);
    if vals.len() < m {
        None
    } else {
        Some(kth_smallest(vals.take(m), target))
    }
}

/// The outcome of looking for a desired limit.
#[derive(Debug, PartialEq, Eq)]
pub enum DesiredLimit<T> {
    /// Fewer values than asked for were gathered.
    NotReached,
    /// The limit.
    Limit(T),
    /// Enough values were gathered but the target position lies beyond them.
    OutOfRange,
}

/// The outcome `r` is the desired limit over `vals` (see `desired_limit`).
pub open spec fn is_desired_outcome<T>(r: DesiredLimit<T>, x_int: spec_fn(T) -> int, vals: Seq<int>, top: int, target: int) -> bool {
    match r {
        DesiredLimit::NotReached => vals.len() < top_values(top),
        DesiredLimit::OutOfRange => vals.len() >= top_values(top) && target >= top_values(top),
        DesiredLimit::Limit(x) => vals.len() >= top_values(top) && 0 <= target < top_values(top) && desired_limit(
            vals,
            top,
            target,
        ) == Some(x_int(x)),
    }
}

/// The desired limit over `vals` (see `desired_limit`).
pub fn desired_limit_i64(vals: &Vec<i64>, top_count: usize, target_count: usize) -> (r: DesiredLimit<i64>)
    ensures
        is_desired_outcome(r, |x: i64| x as int, ints_i64(vals@), top_count as int, target_count as int),
{
    let m: usize = if top_count < 1 {
        1
    } else {
        top_count
    };
    if vals.len() < m {
        return DesiredLimit::NotReached;
    }
    if target_count >= m {
        return DesiredLimit::OutOfRange;
    }
    let mut head: Vec<i64> = Vec::new();
    let mut k: usize = 0;
    while k < m
        invariant
            k <= m <= vals@.len(),
            head@ == vals@.take(k as int),
        decreases m - k,
    {
        head.push(vals[k]);
        k = k + 1;
        assert(head@ =~= vals@.take(k as int));
    }
    let sorted = sort_i64(&head);
    proof {
        lemma_sort_len(ints_i64(head@));
        assert(ints_i64(head@) =~= ints_i64(vals@).take(m as int));
    }
    DesiredLimit::Limit(sorted[target_count])
}

} // verus!
