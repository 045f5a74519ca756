use vstd::prelude::*;

use crate::dataset_rows::all_configs;
use crate::models::{DatasetCount, DatasetInfo, DatasetInfoResponse};

verus! {

/// The number of splits of every config of the responses.
pub open spec fn total_splits(infos: Seq<DatasetInfoResponse>) -> int
    decreases infos.len(),
{
    if infos.len() == 0 {
        0
    } else {
        total_splits(infos.drop_last()) + configs_splits(infos.last().dataset_info@)
    }
}

/// The number of splits of the configs.
pub open spec fn configs_splits(cs: Seq<(String, DatasetInfo)>) -> int
    decreases cs.len(),
{
    if cs.len() == 0 {
        0
    } else {
        configs_splits(cs.drop_last()) + cs.last().1.splits@.len()
    }
}

proof fn lemma_prefix_le(infos: Seq<DatasetInfoResponse>, k: int)
    requires
        0 <= k <= infos.len(),
    ensures
        total_splits(infos.take(k)) <= total_splits(infos),
        all_configs(infos.take(k)).len() <= all_configs(infos).len(),
    decreases infos.len() - k,
{
    if k < infos.len() {
        lemma_prefix_le(infos, k + 1);
        assert(infos.take(k + 1).drop_last() =~= infos.take(k));
        lemma_configs_nonneg(infos[k].dataset_info@);
    } else {
        assert(infos.take(k) =~= infos);
    }
}

/// Counts the datasets with info, their configs and their splits.
pub fn calculate_datasets_count(infos: &Vec<DatasetInfoResponse>) -> (r: DatasetCount)
    requires
        infos@.len() <= i64::MAX,
        all_configs(infos@).len() <= i64::MAX,
        total_splits(infos@) <= i64::MAX,
    ensures
        r.datasets == infos@.len(),
        r.configs == all_configs(infos@).len(),
        r.splits == total_splits(infos@),
{
    let mut dataset_count: i64 = 0;
    let mut config_count: i64 = 0;
    let mut split_count: i64 = 0;
    let mut d: usize = 0;
    assert(infos@.take(0) =~= Seq::<DatasetInfoResponse>::empty());
    while d < infos.len()
        invariant
            d <= infos@.len() <= i64::MAX,
            all_configs(infos@).len() <= i64::MAX,
            total_splits(infos@) <= i64::MAX,
            dataset_count == d,
            config_count == all_configs(infos@.take(d as int)).len(),
            split_count == total_splits(infos@.take(d as int)),
        decreases infos.len() - d,
    {
        let cs = &infos[d].dataset_info;
        proof {
            assert(infos@.take(d + 1).drop_last() =~= infos@.take(d as int));
            lemma_prefix_le(infos@, d + 1);
            lemma_total_nonneg(infos@.take(d as int));
        }
        let ghost c0 = config_count;
        let ghost s0 = split_count;
        let mut c: usize = 0;
        assert(cs@.take(0) =~= Seq::<(String, DatasetInfo)>::empty());
        while c < cs.len()
            invariant
                c <= cs@.len(),
                *cs == infos@[d as int].dataset_info,
                c0 + cs@.len() == all_configs(infos@.take(d + 1)).len() <= i64::MAX,
                s0 + configs_splits(cs@) == total_splits(infos@.take(d + 1)) <= i64::MAX,
                config_count == c0 + c,
                split_count == s0 + configs_splits(cs@.take(c as int)),
                0 <= s0,
            decreases cs.len() - c,
        {
            proof {
                assert(cs@.take(c + 1).drop_last() =~= cs@.take(c as int));
                lemma_configs_prefix(cs@, c + 1);
                assert(cs@.take(c + 1).last() == cs@[c as int]);
                assert(configs_splits(cs@.take(c + 1)) == configs_splits(cs@.take(c as int)) + cs@[c as int].1.splits@.len());
                lemma_configs_prefix(cs@, c as int);
            }
            config_count = config_count + 1;
            split_count = split_count + cs[c].1.splits.len() as i64;
            c = c + 1;
        }
        assert(cs@.take(c as int) =~= cs@);
        dataset_count = dataset_count + 1;
        d = d + 1;
    }
    assert(infos@.take(d as int) =~= infos@);
    DatasetCount { datasets: dataset_count, configs: config_count, splits: split_count }
}

proof fn lemma_configs_prefix(cs: Seq<(String, DatasetInfo)>, k: int)
    requires
        0 <= k <= cs.len(),
    ensures
        configs_splits(cs.take(k)) <= configs_splits(cs),
        0 <= configs_splits(cs.take(k)),
    decreases cs.len() - k,
{
    if k < cs.len() {
        lemma_configs_prefix(cs, k + 1);
        assert(cs.take(k + 1).drop_last() =~= cs.take(k));
    } else {
        assert(cs.take(k) =~= cs);
    }
    lemma_configs_nonneg(cs.take(k));
}

proof fn lemma_total_nonneg(infos: Seq<DatasetInfoResponse>)
    ensures
        0 <= total_splits(infos),
    decreases infos.len(),
{
    if infos.len() > 0 {
        lemma_total_nonneg(infos.drop_last());
        lemma_configs_nonneg(infos.last().dataset_info@);
    }
}

proof fn lemma_configs_nonneg(cs: Seq<(String, DatasetInfo)>)
    ensures
        0 <= configs_splits(cs),
    decreases cs.len(),
{
    if cs.len() > 0 {
        lemma_configs_nonneg(cs.drop_last());
    }
}

} // verus!
