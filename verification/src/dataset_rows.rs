use vstd::prelude::*;

use crate::coverage::{coverage_points, coverage_report, desired_limit, desired_limit_i64, is_desired_outcome, points_view, top_values, DesiredLimit};
use crate::models::{DatasetInfo, DatasetInfoResponse, SplitInfo};
use crate::sorting::ints_i64;

verus! {

/// The number of examples of each split of the config.
pub open spec fn split_examples(c: DatasetInfo) -> Seq<int> {
    split_nums(c.splits@)
}

/// The number of examples of each split of a list of splits.
pub open spec fn split_nums(s: Seq<(String, SplitInfo)>) -> Seq<int> {
    s.map_values(|p: (String, SplitInfo)| p.1.num_examples as int)
}

/// The sum of the values.
pub open spec fn seq_sum(s: Seq<int>) -> int
    decreases s.len(),
{
    if s.len() == 0 {
        0
    } else {
        seq_sum(s.drop_last()) + s.last()
    }
}

/// Every running sum of the values, first to last, fits in an `i64`.
pub open spec fn sums_fit(s: Seq<int>) -> bool {
    forall|k: int| 0 <= k <= s.len() ==> i64::MIN <= #[trigger] seq_sum(s.take(k)) <= i64::MAX
}

/// The configs of the responses, response by response.
pub open spec fn all_configs(infos: Seq<DatasetInfoResponse>) -> Seq<DatasetInfo>
    decreases infos.len(),
{
    if infos.len() == 0 {
        Seq::empty()
    } else {
        all_configs(infos.drop_last()) + infos.last().dataset_info@.map_values(|p: (String, DatasetInfo)| p.1)
    }
}

/// The number of examples of every split of every config of the response, config by config.
pub open spec fn dataset_examples(r: DatasetInfoResponse) -> Seq<int> {
    flatten_examples(r.dataset_info@.map_values(|p: (String, DatasetInfo)| p.1))
}

/// The number of examples of every split of the configs, config by config.
pub open spec fn flatten_examples(cs: Seq<DatasetInfo>) -> Seq<int>
    decreases cs.len(),
{
    if cs.len() == 0 {
        Seq::empty()
    } else {
        flatten_examples(cs.drop_last()) + split_examples(cs.last())
    }
}

/// The number of rows of each config: the sum over its splits.
pub open spec fn config_row_values(cs: Seq<DatasetInfo>) -> Seq<int> {
    cs.map_values(|c: DatasetInfo| seq_sum(split_examples(c)))
}

/// The number of rows of each dataset: the sum over all splits of all its configs.
pub open spec fn dataset_row_values(infos: Seq<DatasetInfoResponse>) -> Seq<int> {
    infos.map_values(|r: DatasetInfoResponse| seq_sum(dataset_examples(r)))
}

/// `x` fits in an `i64`.
pub open spec fn in_i64(x: int) -> bool {
    i64::MIN <= x <= i64::MAX
}

/// Adds the examples of the splits `s` to `acc`, one after another; `None`
/// when a running sum leaves the `i64` range.
fn add_all(acc: i64, s: &Vec<(String, SplitInfo)>) -> (r: Option<i64>)
    ensures
        match r {
            Some(t) => t == acc + seq_sum(split_nums(s@)) && forall|k: int|
                0 <= k <= s@.len() ==> #[trigger] in_i64(acc + seq_sum(split_nums(s@).take(k))),
            None => exists|k: int| 0 <= k <= s@.len() && !#[trigger] in_i64(acc + seq_sum(split_nums(s@).take(k))),
        },
{
    let ghost v = split_nums(s@);
    let mut total = acc;
    let mut k: usize = 0;
    assert(v.take(0) =~= Seq::<int>::empty());
    while k < s.len()
        invariant
            k <= s@.len(),
            v == split_nums(s@),
            total == acc + seq_sum(v.take(k as int)),
            forall|q: int| 0 <= q <= k ==> #[trigger] in_i64(acc + seq_sum(v.take(q))),
        decreases s.len() - k,
    {
        assert(v.take(k + 1).drop_last() =~= v.take(k as int));
        match total.checked_add(s[k].1.num_examples) {
            Some(t) => {
                total = t;
            },
            None => {
                assert(!in_i64(acc + seq_sum(v.take(k + 1))));
                return None;
            },
        }
        k = k + 1;
    }
    assert(v.take(k as int) =~= v);
    Some(total)
}

/// The number of rows of the config: the sum of the examples of its splits;
/// `None` when a running sum leaves the `i64` range.
pub fn config_rows(c: &DatasetInfo) -> (r: Option<i64>)
    ensures
        match r {
            Some(t) => sums_fit(split_examples(*c)) && t == seq_sum(split_examples(*c)),
            None => !sums_fit(split_examples(*c)),
        },
{
    let r = add_all(0, &c.splits);
    proof {
        let v = split_examples(*c);
        match r {
            Some(t) => {
                assert forall|k: int| 0 <= k <= v.len() implies i64::MIN <= #[trigger] seq_sum(v.take(k)) <= i64::MAX by {
                    assert(in_i64(0 + seq_sum(v.take(k))));
                }
            },
            None => {
                let k = choose|k: int| 0 <= k <= v.len() && !#[trigger] in_i64(0 + seq_sum(v.take(k)));
                assert(!(i64::MIN <= seq_sum(v.take(k)) <= i64::MAX));
            },
        }
    }
    r
}

proof fn lemma_seq_sum_add(a: Seq<int>, b: Seq<int>)
    ensures
        seq_sum(a + b) == seq_sum(a) + seq_sum(b),
    decreases b.len(),
{
    if b.len() > 0 {
        assert((a + b).drop_last() =~= a + b.drop_last());
        lemma_seq_sum_add(a, b.drop_last());
    } else {
        assert(a + b =~= a);
    }
}

/// The number of rows of the dataset: the sum of the examples of every split
/// of every config; `None` when a running sum leaves the `i64` range.
pub fn dataset_rows(r: &DatasetInfoResponse) -> (n: Option<i64>)
    ensures
        match n {
            Some(t) => sums_fit(dataset_examples(*r)) && t == seq_sum(dataset_examples(*r)),
            None => !sums_fit(dataset_examples(*r)),
        },
{
    let ghost cs = r.dataset_info@.map_values(|p: (String, DatasetInfo)| p.1);
    let ghost whole = flatten_examples(cs);
    let mut total: i64 = 0;
    let mut k: usize = 0;
    assert(cs.take(0) =~= Seq::<DatasetInfo>::empty());
    while k < r.dataset_info.len()
        invariant
            k <= r.dataset_info@.len(),
            cs == r.dataset_info@.map_values(|p: (String, DatasetInfo)| p.1),
            whole == flatten_examples(cs),
            total == seq_sum(flatten_examples(cs.take(k as int))),
            flatten_examples(cs.take(k as int)) == whole.take(flatten_examples(cs.take(k as int)).len() as int),
            forall|q: int|
                0 <= q <= flatten_examples(cs.take(k as int)).len() ==> i64::MIN <= #[trigger] seq_sum(whole.take(q))
                    <= i64::MAX,
        decreases r.dataset_info.len() - k,
    {
        let c = &r.dataset_info[k].1;
        let ghost pre = flatten_examples(cs.take(k as int));
        let ghost se = split_examples(*c);
        proof {
            assert(cs.take(k + 1).drop_last() =~= cs.take(k as int));
            assert(cs.take(k + 1).last() == *c);
            assert(cs =~= cs.take(k + 1) + cs.skip(k + 1));
            lemma_flatten_concat(cs.take(k + 1), cs.skip(k + 1));
            assert(flatten_examples(cs.take(k + 1)) == pre + se);
            assert(split_nums(c.splits@) == se);
            assert forall|q: int| 0 <= q <= se.len() implies pre + se.take(q) =~= whole.take(pre.len() + q) by {
            }
        }
        match add_all(total, &c.splits) {
            Some(t) => {
                proof {
                    lemma_seq_sum_add(pre, se);
                    assert forall|q: int|
                        0 <= q <= pre.len() + se.len() implies i64::MIN <= #[trigger] seq_sum(whole.take(q))
                        <= i64::MAX by {
                        if q > pre.len() {
                            let j = q - pre.len();
                            assert(in_i64(total + seq_sum(se.take(j))));
                            lemma_seq_sum_add(pre, se.take(j));
                            assert(whole.take(q) =~= pre + se.take(j));
                        }
                    }
                    assert(pre + se =~= whole.take((pre.len() + se.len()) as int));
                }
                total = t;
            },
            None => {
                proof {
                    let j = choose|j: int| 0 <= j <= se.len() && !#[trigger] in_i64(total + seq_sum(se.take(j)));
                    lemma_seq_sum_add(pre, se.take(j));
                    assert(whole.take(pre.len() + j) =~= pre + se.take(j));
                    assert(!(i64::MIN <= seq_sum(whole.take(pre.len() + j)) <= i64::MAX));
                }
                return None;
            },
        }
        k = k + 1;
    }
    assert(cs.take(k as int) =~= cs);
    proof {
        assert(whole.take(whole.len() as int) =~= whole);
    }
    Some(total)
}

/// The values of two lists of configs together are those of the first, then those of the second.
proof fn lemma_flatten_concat(a: Seq<DatasetInfo>, b: Seq<DatasetInfo>)
    ensures
        flatten_examples(a + b) == flatten_examples(a) + flatten_examples(b),
    decreases b.len(),
{
    if b.len() == 0 {
        assert(a + b =~= a);
        assert(flatten_examples(a) + flatten_examples(b) =~= flatten_examples(a));
    } else {
        assert((a + b).drop_last() =~= a + b.drop_last());
        lemma_flatten_concat(a, b.drop_last());
        assert(flatten_examples(a + b) =~= flatten_examples(a) + flatten_examples(b));
    }
}

/// The first `m` configs (all of them when there are fewer) have row sums that fit.
pub open spec fn first_configs_fit(infos: Seq<DatasetInfoResponse>, m: int) -> bool {
    forall|k: int| 0 <= k < all_configs(infos).len() && k < m ==> sums_fit(split_examples(#[trigger] all_configs(infos)[k]))
}

/// The number of rows of each of the first `m` configs (all of them when
/// there are fewer); `None` when one of their running sums leaves the `i64` range.
pub fn config_row_sums(infos: &Vec<DatasetInfoResponse>, m: usize) -> (r: Option<Vec<i64>>)
    ensures
        match r {
            Some(v) => first_configs_fit(infos@, m as int) && ints_i64(v@) == config_row_values(all_configs(infos@)).take(
                if all_configs(infos@).len() < m { all_configs(infos@).len() as int } else { m as int },
            ),
            None => !first_configs_fit(infos@, m as int),
        },
{
    let ghost all = all_configs(infos@);
    let mut out: Vec<i64> = Vec::new();
    let mut d: usize = 0;
    assert(infos@.take(0) =~= Seq::<DatasetInfoResponse>::empty());
    assert(ints_i64(out@) =~= Seq::empty());
    while d < infos.len() && out.len() < m
        invariant
            d <= infos@.len(),
            all == all_configs(infos@),
            out@.len() <= m,
            out@.len() == all_configs(infos@.take(d as int)).len() || out@.len() == m,
            out@.len() <= all_configs(infos@.take(d as int)).len(),
            ints_i64(out@) == config_row_values(all).take(out@.len() as int),
            forall|k: int| 0 <= k < out@.len() ==> sums_fit(split_examples(#[trigger] all[k])),
            all_configs(infos@.take(d as int)).len() <= all.len(),
            forall|k: int| 0 <= k < all_configs(infos@.take(d as int)).len() ==> #[trigger] all[k] == all_configs(infos@.take(d as int))[k],
        decreases infos.len() - d,
    {
        let resp = &infos[d];
        let ghost base = all_configs(infos@.take(d as int));
        let ghost next = all_configs(infos@.take(d + 1));
        proof {
            assert(infos@.take(d + 1).drop_last() =~= infos@.take(d as int));
            lemma_all_configs_prefix(infos@, d + 1);
        }
        let mut j: usize = 0;
        while j < resp.dataset_info.len() && out.len() < m
            invariant
                j <= resp.dataset_info@.len(),
                *resp == infos@[d as int],
                next == base + resp.dataset_info@.map_values(|p: (String, DatasetInfo)| p.1),
                out@.len() <= m,
                out@.len() == base.len() + j || out@.len() == m,
                out@.len() <= base.len() + j,
                next.len() <= all.len(),
                forall|k: int| 0 <= k < next.len() ==> #[trigger] all[k] == next[k],
                ints_i64(out@) == config_row_values(all).take(out@.len() as int),
                forall|k: int| 0 <= k < out@.len() ==> sums_fit(split_examples(#[trigger] all[k])),
                all == all_configs(infos@),
            decreases resp.dataset_info.len() - j,
        {
            let c = &resp.dataset_info[j].1;
            proof {
                assert(out@.len() == base.len() + j);
                assert(next[base.len() + j] == *c);
                assert(all[base.len() + j] == *c);
            }
            let n = match config_rows(c) {
                Some(n) => n,
                None => {
                    assert(!sums_fit(split_examples(all[base.len() + j])));
                    return None;
                },
            };
            let ghost before = out@;
            out.push(n);
            proof {
                assert(ints_i64(out@) =~= config_row_values(all).take(out@.len() as int));
            }
            j = j + 1;
        }
        d = d + 1;
    }
    proof {
        if out@.len() < m {
            assert(infos@.take(d as int) =~= infos@);
        }
    }
    Some(out)
}

/// The configs of the first `k` responses are the first configs of all of them.
pub(crate) proof fn lemma_all_configs_prefix(infos: Seq<DatasetInfoResponse>, k: int)
    requires
        0 <= k <= infos.len(),
    ensures
        all_configs(infos.take(k)).len() <= all_configs(infos).len(),
        forall|q: int| 0 <= q < all_configs(infos.take(k)).len() ==> #[trigger] all_configs(infos)[q] == all_configs(infos.take(k))[q],
    decreases infos.len() - k,
{
    if k < infos.len() {
        lemma_all_configs_prefix(infos, k + 1);
        assert(infos.take(k + 1).drop_last() =~= infos.take(k));
    } else {
        assert(infos.take(k) =~= infos);
    }
}

/// How many datasets the row limit covers: the coverage points over the
/// number of rows of each dataset (see `coverage_points`); `None` when a
/// dataset's running row sum leaves the `i64` range.
pub fn dataset_row_limit_coverage_by_dataset(
    infos: &Vec<DatasetInfoResponse>,
    limit: i64,
    report_interval: i32,
) -> (r: Option<Vec<(i32, i32)>>)
    requires
        report_interval != 0,
        infos@.len() < i32::MAX,
    ensures
        match r {
            Some(p) => (forall|k: int| 0 <= k < infos@.len() ==> sums_fit(dataset_examples(#[trigger] infos@[k])))
                && points_view(p@) == coverage_points(
                dataset_row_values(infos@),
                limit as int,
                report_interval as int,
            ),
            None => exists|k: int| 0 <= k < infos@.len() && !sums_fit(dataset_examples(#[trigger] infos@[k])),
        },
{
    let mut vals: Vec<i64> = Vec::new();
    let mut k: usize = 0;
    while k < infos.len()
        invariant
            k <= infos@.len(),
            forall|q: int| 0 <= q < k ==> sums_fit(dataset_examples(#[trigger] infos@[q])),
            ints_i64(vals@) == dataset_row_values(infos@).take(k as int),
        decreases infos.len() - k,
    {
        let n = match dataset_rows(&infos[k]) {
            Some(n) => n,
            None => {
                return None;
            },
        };
        assert(dataset_row_values(infos@)[k as int] == n as int);
        let ghost before = vals@;
        vals.push(n);
        assert(ints_i64(vals@) =~= ints_i64(before).push(n as int));
        assert(dataset_row_values(infos@).take(k + 1) =~= dataset_row_values(infos@).take(k as int).push(n as int));
        k = k + 1;
        assert(ints_i64(vals@) =~= dataset_row_values(infos@).take(k as int));
    }
    assert(dataset_row_values(infos@).take(k as int) =~= dataset_row_values(infos@));
    Some(coverage_report(&vals, limit, report_interval))
}

/// How many configs the row limit covers: the coverage points over the
/// number of rows of each config (see `coverage_points`); `None` when a
/// config's running row sum leaves the `i64` range.
pub fn dataset_row_limit_coverage_by_config(
    infos: &Vec<DatasetInfoResponse>,
    limit: i64,
    report_interval: i32,
) -> (r: Option<Vec<(i32, i32)>>)
    requires
        report_interval != 0,
        all_configs(infos@).len() < i32::MAX,
    ensures
        match r {
            Some(p) => first_configs_fit(infos@, usize::MAX as int) && points_view(p@) == coverage_points(
                config_row_values(all_configs(infos@)),
                limit as int,
                report_interval as int,
            ),
            None => !first_configs_fit(infos@, usize::MAX as int),
        },
{
    let vals = match config_row_sums(infos, usize::MAX) {
        Some(v) => v,
        None => {
            return None;
        },
    };
    proof {
        let all = config_row_values(all_configs(infos@));
        assert(all.take(all.len() as int) =~= all);
    }
    Some(coverage_report(&vals, limit, report_interval))
}

/// The row limit that covers the configs at positions below `target_count`
/// among the first `top_count` configs (see `desired_limit`); `Err` when the
/// running row sum of one of those configs leaves the `i64` range.
pub fn desired_row_limit_by_config(
    infos: &Vec<DatasetInfoResponse>,
    top_count: usize,
    target_count: usize,
) -> (r: Result<DesiredLimit<i64>, ()>)
    ensures
        match r {
            Err(_) => !first_configs_fit(infos@, top_values(top_count as int)),
            Ok(d) => first_configs_fit(infos@, top_values(top_count as int)) && is_desired_outcome(
                d,
                |x: i64| x as int,
                config_row_values(all_configs(infos@)),
                top_count as int,
                target_count as int,
            ),
        },
{
    let m: usize = if top_count < 1 {
        1
    } else {
        top_count
    };
    let vals = match config_row_sums(infos, m) {
        Some(v) => v,
        None => {
            return Err(());
        },
    };
    let ghost all = config_row_values(all_configs(infos@));
    assert(all.len() == all_configs(infos@).len());
    assert(vals@.len() == ints_i64(vals@).len());
    let r = desired_limit_i64(&vals, top_count, target_count);
    proof {
        if all.len() >= m {
            assert(all.take(m as int).take(m as int) =~= all.take(m as int));
        }
    }
    Ok(r)
}

} // verus!
