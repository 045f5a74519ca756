use vstd::prelude::*;

use crate::coverage::{covered_prefix, desired_limit, top_values};
use crate::image_size::seq_max;
use crate::label_cardinality::{
    count_at_most, lc_column, lc_columns_from, lc_flush, lc_init, lc_run, lc_run_from, lc_step, CardinalityModel,
    CARDINALITY_LIMIT,
};
use crate::label_min_examples::{
    cap_examples, count_first_at_least, count_second_at_least, me_init, me_run, me_run_from, me_step, MinExamplesModel,
};
use crate::label_stats::all_counts;
use crate::models::{ColumnStats, StatsRow, starts_config};
use crate::sorting::{kth_smallest, lemma_sort_contains, lemma_sort_len, lemma_sort_monotone};

verus! {

/// The desired limit never decreases as the share of configs to cover grows:
/// for two targets below the number of configs looked at, the smaller target
/// gives a limit no larger than the bigger one.
pub proof fn lemma_desired_limit_monotone(vals: Seq<int>, top: int, t1: int, t2: int)
    requires
        0 <= t1 <= t2 < top_values(top),
        vals.len() >= top_values(top),
    ensures
        desired_limit(vals, top, t1) is Some,
        desired_limit(vals, top, t2) is Some,
        desired_limit(vals, top, t1)->0 <= desired_limit(vals, top, t2)->0,
{
    let m = top_values(top);
    lemma_sort_len(vals.take(m));
    lemma_sort_monotone(vals.take(m), t1, t2);
}

/// The desired limit is one of the values looked at: it is the value of
/// one of the first configs.
pub proof fn lemma_desired_limit_is_a_value(vals: Seq<int>, top: int, t: int)
    requires
        0 <= t < top_values(top),
        vals.len() >= top_values(top),
    ensures
        desired_limit(vals, top, t) is Some,
        vals.take(top_values(top)).contains(desired_limit(vals, top, t)->0),
{
    lemma_sort_contains(vals.take(top_values(top)), t);
}

/// The minimum class count of a config is never above its median class count.
pub proof fn lemma_min_le_median(c: Seq<int>)
    requires
        c.len() > 0,
    ensures
        kth_smallest(c, 0) <= kth_smallest(c, c.len() as int / 2),
{
    lemma_sort_len(c);
    lemma_sort_monotone(c, 0, c.len() as int / 2);
}

/// Every (minimum, median) pair has its minimum at most its median.
pub open spec fn pairs_ordered(p: Seq<(int, int)>) -> bool {
    forall|i: int| 0 <= i < p.len() ==> (#[trigger] p[i]).0 <= p[i].1
}

proof fn lemma_me_step_ordered(rows: Seq<StatsRow>, target: int, s: MinExamplesModel, i: int)
    requires
        pairs_ordered(s.flushed),
    ensures
        pairs_ordered(me_step(rows, target, s, i).flushed),
{
    if s.freqs.len() > 0 {
        let c = all_counts(s.freqs);
        if c.len() > 0 {
            lemma_min_le_median(c);
            let p = s.flushed.push(
                (cap_examples(kth_smallest(c, 0)), cap_examples(kth_smallest(c, c.len() as int / 2))),
            );
            assert forall|k: int| 0 <= k < p.len() implies (#[trigger] p[k]).0 <= p[k].1 by {
                if k < s.flushed.len() {
                    assert(p[k] == s.flushed[k]);
                }
            }
        }
    }
}

proof fn lemma_me_run_ordered(rows: Seq<StatsRow>, target: int, s: MinExamplesModel, i: int)
    requires
        pairs_ordered(s.flushed),
    ensures
        pairs_ordered(me_run_from(rows, target, s, i).flushed),
    decreases rows.len() - i,
{
    if !(i < 0 || i >= rows.len() || s.stopped || s.failed) {
        lemma_me_step_ordered(rows, target, s, i);
        lemma_me_run_ordered(rows, target, me_step(rows, target, s, i), i + 1);
    }
}

proof fn lemma_count_first_le_second(p: Seq<(int, int)>, v: int)
    requires
        pairs_ordered(p),
    ensures
        count_first_at_least(p, v) <= count_second_at_least(p, v),
    decreases p.len(),
{
    if p.len() > 0 {
        assert(pairs_ordered(p.drop_last())) by {
            assert forall|i: int| 0 <= i < p.drop_last().len() implies (#[trigger] p.drop_last()[i]).0
                <= p.drop_last()[i].1 by {
                assert(p.drop_last()[i] == p[i]);
            }
        }
        lemma_count_first_le_second(p.drop_last(), v);
        assert(p[p.len() - 1].0 <= p[p.len() - 1].1);
    }
}

/// For every limit, no more configs reach it with their minimum class count
/// than with their median class count.
pub proof fn lemma_min_coverage_le_median_coverage(rows: Seq<StatsRow>, target: int, v: int)
    ensures
        count_first_at_least(me_run(rows, target).flushed, v) <= count_second_at_least(
            me_run(rows, target).flushed,
            v,
        ),
{
    lemma_me_run_ordered(rows, target, me_init(), 0);
    lemma_count_first_le_second(me_run(rows, target).flushed, v);
}

/// Counting how many values are below a limit gives no more with a smaller
/// limit than with a larger one, and never more than the values counted.
pub proof fn lemma_coverage_monotone(vals: Seq<int>, l1: int, l2: int, k: int)
    requires
        l1 <= l2,
        0 <= k <= vals.len(),
    ensures
        covered_prefix(vals, l1, k) <= covered_prefix(vals, l2, k),
        0 <= covered_prefix(vals, l1, k) <= k,
    decreases k,
{
    if k > 0 {
        lemma_coverage_monotone(vals, l1, l2, k - 1);
    }
}

/// How many values are at most `v` never decreases as `v` grows, and never exceeds how many values there are.
pub proof fn lemma_count_at_most_monotone(s: Seq<int>, v1: int, v2: int)
    requires
        v1 <= v2,
    ensures
        count_at_most(s, v1) <= count_at_most(s, v2),
        0 <= count_at_most(s, v1) <= s.len(),
    decreases s.len(),
{
    if s.len() > 0 {
        lemma_count_at_most_monotone(s.drop_last(), v1, v2);
    }
}

/// When every value is at most `v`, all of them are counted.
pub proof fn lemma_count_at_most_all(s: Seq<int>, v: int)
    requires
        forall|i: int| 0 <= i < s.len() ==> s[i] <= v,
    ensures
        count_at_most(s, v) == s.len(),
    decreases s.len(),
{
    if s.len() > 0 {
        assert forall|i: int| 0 <= i < s.drop_last().len() implies s.drop_last()[i] <= v by {
            assert(s.drop_last()[i] == s[i]);
        }
        lemma_count_at_most_all(s.drop_last(), v);
        assert(s[s.len() - 1] <= v);
    }
}

/// Every value is at most the largest one.
pub proof fn lemma_seq_max_bounds(s: Seq<int>)
    requires
        s.len() > 0,
    ensures
        forall|i: int| 0 <= i < s.len() ==> s[i] <= seq_max(s),
    decreases s.len(),
{
    if s.len() > 1 {
        lemma_seq_max_bounds(s.drop_last());
        assert forall|i: int| 0 <= i < s.len() implies s[i] <= seq_max(s) by {
            if i < s.len() - 1 {
                assert(s.drop_last()[i] == s[i]);
            }
        }
    }
}

/// The image-size table ends at the share of all counted configs: every
/// config with images lies in the largest bucket used or a lower one.
pub proof fn lemma_image_table_complete(buckets: Seq<int>)
    requires
        buckets.len() > 0,
    ensures
        count_at_most(buckets, seq_max(buckets)) == buckets.len(),
{
    lemma_seq_max_bounds(buckets);
    lemma_count_at_most_all(buckets, seq_max(buckets));
}

/// Every counted cardinality is between 1 and `CARDINALITY_LIMIT`.
pub open spec fn cardinalities_in_range(s: Seq<int>) -> bool {
    forall|i: int| 0 <= i < s.len() ==> 1 <= #[trigger] s[i] <= CARDINALITY_LIMIT
}

proof fn lemma_lc_columns_nonneg(card: int, errs: Seq<(int, Seq<char>)>, i: int, cols: Seq<ColumnStats>, j: int)
    requires
        card >= 0,
    ensures
        lc_columns_from(card, errs, i, cols, j).0 >= 0,
    decreases cols.len() - j,
{
    if 0 <= j < cols.len() {
        let r = lc_column(card, errs, i, cols[j]);
        lemma_lc_columns_nonneg(r.0, r.1, i, cols, j + 1);
    }
}

proof fn lemma_lc_run_in_range(rows: Seq<StatsRow>, target: int, s: CardinalityModel, i: int)
    requires
        cardinalities_in_range(s.flushed),
        s.cardinality >= 0,
    ensures
        cardinalities_in_range(lc_run_from(rows, target, s, i).flushed),
    decreases rows.len() - i,
{
    if !(i < 0 || i >= rows.len() || s.stopped || s.found) {
        let s1 = lc_step(rows, target, s, i);
        if s.cardinality != 0 && s.cardinality <= CARDINALITY_LIMIT {
            let p = s.flushed.push(s.cardinality);
            assert forall|k: int| 0 <= k < p.len() implies 1 <= #[trigger] p[k] <= CARDINALITY_LIMIT by {
                if k < s.flushed.len() {
                    assert(p[k] == s.flushed[k]);
                }
            }
        }
        assert(cardinalities_in_range(s1.flushed));
        let s2 = if starts_config(rows, i) { lc_flush(s, target, i) } else { s };
        if !(s2.stopped || s2.found) {
            lemma_lc_columns_nonneg(s2.cardinality, s2.errors, i, rows[i].1.statistics@, 0);
        }
        lemma_lc_run_in_range(rows, target, s1, i + 1);
    }
}

/// When the cardinality analysis does not stop at a config with too many
/// classes, every config with labels is covered once the cardinality reaches
/// `CARDINALITY_LIMIT`, and none at cardinality 0.
pub proof fn lemma_cardinality_coverage_complete(rows: Seq<StatsRow>, target: int, c: int)
    requires
        c >= CARDINALITY_LIMIT,
    ensures
        count_at_most(lc_run(rows, target).flushed, c) == lc_run(rows, target).flushed.len(),
        count_at_most(lc_run(rows, target).flushed, 0) == 0,
{
    let f = lc_run(rows, target).flushed;
    lemma_lc_run_in_range(rows, target, lc_init(), 0);
    lemma_count_at_most_all(f, c);
    lemma_count_at_most_none(f);
}

proof fn lemma_count_at_most_none(s: Seq<int>)
    requires
        cardinalities_in_range(s),
    ensures
        count_at_most(s, 0) == 0,
    decreases s.len(),
{
    if s.len() > 0 {
        assert(cardinalities_in_range(s.drop_last())) by {
            assert forall|i: int| 0 <= i < s.drop_last().len() implies 1 <= #[trigger] s.drop_last()[i]
                <= CARDINALITY_LIMIT by {
                assert(s.drop_last()[i] == s[i]);
            }
        }
        lemma_count_at_most_none(s.drop_last());
        assert(1 <= s[s.len() - 1]);
    }
}

} // verus!
