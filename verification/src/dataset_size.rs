use vstd::prelude::*;

use crate::coverage::{coverage_points, coverage_report, desired_limit, desired_limit_i64, is_desired_outcome, points_view, DesiredLimit};
use crate::dataset_rows::{all_configs, lemma_all_configs_prefix};
use crate::models::{DatasetInfo, DatasetInfoResponse};
use crate::sorting::ints_i64;

verus! {

/// Bytes in a gigabyte.
pub const BYTES_PER_GB: i64 = 1_000_000_000;

/// `a / d`, rounded toward zero as integer division does.
pub open spec fn div_toward_zero(a: int, d: int) -> int {
    if a >= 0 {
        a / d
    } else {
        -((-a) / d)
    }
}

/// The size of each config in whole gigabytes (rounded toward zero).
pub open spec fn config_size_values(cs: Seq<DatasetInfo>) -> Seq<int> {
    cs.map_values(|c: DatasetInfo| div_toward_zero(c.dataset_size as int, BYTES_PER_GB as int))
}

/// The size in bytes of each config.
pub open spec fn config_byte_values(cs: Seq<DatasetInfo>) -> Seq<int> {
    cs.map_values(|c: DatasetInfo| c.dataset_size as int)
}

/// The size in bytes (when `in_gb` is false) or in whole gigabytes of each of
/// the first `m` configs (all of them when there are fewer).
fn config_sizes(infos: &Vec<DatasetInfoResponse>, m: usize, in_gb: bool) -> (r: Vec<i64>)
    ensures
        ints_i64(r@) == (if in_gb {
            config_size_values(all_configs(infos@))
        } else {
            config_byte_values(all_configs(infos@))
        }).take(if all_configs(infos@).len() < m { all_configs(infos@).len() as int } else { m as int }),
{
    let ghost all = all_configs(infos@);
    let ghost vals = if in_gb {
        config_size_values(all)
    } else {
        config_byte_values(all)
    };
    let mut out: Vec<i64> = Vec::new();
    let mut d: usize = 0;
    assert(infos@.take(0) =~= Seq::<DatasetInfoResponse>::empty());
    assert(ints_i64(out@) =~= Seq::empty());
    while d < infos.len() && out.len() < m
        invariant
            d <= infos@.len(),
            all == all_configs(infos@),
            vals == (if in_gb { config_size_values(all) } else { config_byte_values(all) }),
            out@.len() <= m,
            out@.len() == all_configs(infos@.take(d as int)).len() || out@.len() == m,
            out@.len() <= all_configs(infos@.take(d as int)).len(),
            ints_i64(out@) == vals.take(out@.len() as int),
            all_configs(infos@.take(d as int)).len() <= all.len(),
            forall|k: int|
                0 <= k < all_configs(infos@.take(d as int)).len() ==> #[trigger] all[k] == all_configs(
                    infos@.take(d as int),
                )[k],
        decreases infos.len() - d,
    {
        let resp = &infos[d];
        let ghost base = all_configs(infos@.take(d as int));
        let ghost next = all_configs(infos@.take(d + 1));
        proof {
            assert(infos@.take(d + 1).drop_last() =~= infos@.take(d as int));
            lemma_all_configs_prefix(infos@, d + 1);
        }
        let mut j: usize = 0;
        while j < resp.dataset_info.len() && out.len() < m
            invariant
                j <= resp.dataset_info@.len(),
                *resp == infos@[d as int],
                vals == (if in_gb { config_size_values(all) } else { config_byte_values(all) }),
                next == base + resp.dataset_info@.map_values(|p: (String, DatasetInfo)| p.1),
                out@.len() <= m,
                out@.len() == base.len() + j || out@.len() == m,
                out@.len() <= base.len() + j,
                next.len() <= all.len(),
                forall|k: int| 0 <= k < next.len() ==> #[trigger] all[k] == next[k],
                ints_i64(out@) == vals.take(out@.len() as int),
            decreases resp.dataset_info.len() - j,
        {
            let c = &resp.dataset_info[j].1;
            proof {
                assert(out@.len() == base.len() + j);
                assert(next[base.len() + j] == *c);
                assert(all[base.len() + j] == *c);
            }
            let n = if in_gb {
                c.dataset_size / BYTES_PER_GB
            } else {
                c.dataset_size
            };
            out.push(n);
            proof {
                assert(ints_i64(out@) =~= vals.take(out@.len() as int));
            }
            j = j + 1;
        }
        d = d + 1;
    }
    proof {
        if out@.len() < m {
            assert(infos@.take(d as int) =~= infos@);
        }
    }
    out
}

/// How many configs the size limit (in gigabytes) covers: the coverage points
/// over the size of each config in whole gigabytes (see `coverage_points`).
pub fn size_limit_coverage_by_config(
    infos: &Vec<DatasetInfoResponse>,
    limit: i64,
    report_interval: i32,
) -> (r: Vec<(i32, i32)>)
    requires
        report_interval != 0,
        all_configs(infos@).len() < i32::MAX,
    ensures
        points_view(r@) == coverage_points(
            config_size_values(all_configs(infos@)),
            limit as int,
            report_interval as int,
        ),
{
    let vals = config_sizes(infos, usize::MAX, true);
    proof {
        let all = config_size_values(all_configs(infos@));
        assert(all.take(all.len() as int) =~= all);
    }
    coverage_report(&vals, limit, report_interval)
}

/// The size in bytes of the config at position `target_count` by size among
/// the first `top_count` configs (see `desired_limit`); the limit in gigabytes
/// is this divided by `BYTES_PER_GB`.
pub fn desired_size_limit_by_config(
    infos: &Vec<DatasetInfoResponse>,
    top_count: usize,
    target_count: usize,
) -> (r: DesiredLimit<i64>)
    ensures
        is_desired_outcome(
            r,
            |x: i64| x as int,
            config_byte_values(all_configs(infos@)),
            top_count as int,
            target_count as int,
        ),
{
    let m: usize = if top_count < 1 {
        1
    } else {
        top_count
    };
    let vals = config_sizes(infos, m, false);
    let ghost all = config_byte_values(all_configs(infos@));
    assert(all.len() == all_configs(infos@).len());
    assert(vals@.len() == ints_i64(vals@).len());
    let r = desired_limit_i64(&vals, top_count, target_count);
    proof {
        if all.len() >= m {
            assert(all.take(m as int).take(m as int) =~= all.take(m as int));
        }
    }
    r
}

} // verus!
