use vstd::prelude::*;

use crate::label_min_examples::errors_view;
use crate::label_stats::{is_label_column, is_label_column_exec};
use crate::models::{ColumnStats, DatasetStatsId, StatsRow, starts_config, is_new_config, copy_id};

verus! {

/// A config whose label column has more classes than this ends the analysis.
pub const CARDINALITY_LIMIT: usize = 50;

/// The state of the label-cardinality analysis after some rows.
pub struct CardinalityModel {
    /// The largest class count of a label column in the current config (0 if none).
    pub cardinality: int,
    /// The row that began the current config, or -1 before the first.
    pub last: int,
    /// The cardinality of each finished config that has label columns.
    pub flushed: Seq<int>,
    /// How many configs have begun.
    pub visited: int,
    /// The configs to look at have all been seen.
    pub stopped: bool,
    /// A finished config had more than `CARDINALITY_LIMIT` classes.
    pub found: bool,
    /// Row and text of each label column whose statistics could not be read.
    pub errors: Seq<(int, Seq<char>)>,
}

/// The state before any row.
pub open spec fn lc_init() -> CardinalityModel {
    CardinalityModel {
        cardinality: 0,
        last: -1,
        flushed: Seq::empty(),
        visited: 0,
        stopped: false,
        found: false,
        errors: Seq::empty(),
    }
}

/// Row `i` begins a new config: the current one is finished and counted.
pub open spec fn lc_flush(s: CardinalityModel, target: int, i: int) -> CardinalityModel {
    if s.cardinality != 0 && s.cardinality > CARDINALITY_LIMIT {
        CardinalityModel { found: true, ..s }
    } else {
        let s1 = if s.cardinality != 0 {
            CardinalityModel { flushed: s.flushed.push(s.cardinality), ..s }
        } else {
            s
        };
        if s1.visited + 1 > target {
            CardinalityModel { visited: s1.visited + 1, stopped: true, ..s1 }
        } else {
            CardinalityModel { visited: s1.visited + 1, last: i, cardinality: 0, ..s1 }
        }
    }
}

/// The cardinality and errors after column `c` of row `i`.
pub open spec fn lc_column(card: int, errs: Seq<(int, Seq<char>)>, i: int, c: ColumnStats) -> (int, Seq<(int, Seq<char>)>) {
    if is_label_column(c) {
        match c.string_label {
            Err(e) => (card, errs.push((i, e@))),
            Ok(st) => {
                let n = (st.n_unique as usize) as int;
                (if n > card { n } else { card }, errs)
            },
        }
    } else {
        (card, errs)
    }
}

/// The cardinality and errors after the columns of row `i` from position `j` on.
pub open spec fn lc_columns_from(
    card: int,
    errs: Seq<(int, Seq<char>)>,
    i: int,
    cols: Seq<ColumnStats>,
    j: int,
) -> (int, Seq<(int, Seq<char>)>)
    decreases cols.len() - j,
{
    if j < 0 || j >= cols.len() {
        (card, errs)
    } else {
        let r = lc_column(card, errs, i, cols[j]);
        lc_columns_from(r.0, r.1, i, cols, j + 1)
    }
}

/// The state after row `i`.
pub open spec fn lc_step(rows: Seq<StatsRow>, target: int, s: CardinalityModel, i: int) -> CardinalityModel {
    let s1 = if starts_config(rows, i) {
        lc_flush(s, target, i)
    } else {
        s
    };
    if s1.stopped || s1.found {
        s1
    } else {
        let r = lc_columns_from(s1.cardinality, s1.errors, i, rows[i].1.statistics@, 0);
        CardinalityModel { cardinality: r.0, errors: r.1, ..s1 }
    }
}

/// The state once the rows from `i` on have been read, starting from `s`.
pub open spec fn lc_run_from(rows: Seq<StatsRow>, target: int, s: CardinalityModel, i: int) -> CardinalityModel
    decreases rows.len() - i,
{
    if i < 0 || i >= rows.len() || s.stopped || s.found {
        s
    } else {
        lc_run_from(rows, target, lc_step(rows, target, s, i), i + 1)
    }
}

/// The state once all rows have been read.
pub open spec fn lc_run(rows: Seq<StatsRow>, target: int) -> CardinalityModel {
    lc_run_from(rows, target, lc_init(), 0)
}

/// How many of the values are at most `v`.
pub open spec fn count_at_most(s: Seq<int>, v: int) -> int
    decreases s.len(),
{
    if s.len() == 0 {
        0
    } else {
        count_at_most(s.drop_last(), v) + if s.last() <= v { 1int } else { 0int }
    }
}

/// A list of `usize`, as integers.
pub open spec fn usize_view(s: Seq<usize>) -> Seq<int> {
    s.map_values(|x: usize| x as int)
}

/// What the label-cardinality analysis reports.
pub enum CardinalityOutcome {
    /// A config had more than `CARDINALITY_LIMIT` classes: its id.
    FoundTarget(DatasetStatsId),
    /// Every finished config had at most `CARDINALITY_LIMIT` classes.
    Distribution(CardinalityReport),
}

/// The cardinality distribution over the finished configs that have label columns.
pub struct CardinalityReport {
    /// How many configs were begun.
    pub configs_visited: usize,
    /// How many finished configs had label columns.
    pub configs_has_labels: usize,
    /// For each cardinality from 0 up to the largest asked for: how many configs have at most that many classes.
    pub covered: Vec<usize>,
}

/// How many values are at most `v`.
pub fn count_at_most_exec(p: &Vec<usize>, v: usize) -> (r: usize)
    ensures
        r as int == count_at_most(usize_view(p@), v as int),
{
    let mut a: usize = 0;
    let mut k: usize = 0;
    while k < p.len()
        invariant
            k <= p.len(),
            a <= k,
            a as int == count_at_most(usize_view(p@.take(k as int)), v as int),
        decreases p.len() - k,
    {
        assert(usize_view(p@.take(k + 1)).drop_last() =~= usize_view(p@.take(k as int)));
        if p[k] <= v {
            a = a + 1;
        }
        k = k + 1;
    }
    assert(p@.take(k as int) =~= p@);
    a
}

/// The label-cardinality analysis over the split statistics `rows`, read in
/// order and grouped by config, looking at configs until more than
/// `target_count` have begun; `covered` runs from 0 to `max_cardinality`.
/// Parse errors of label columns are returned with the row they come from.
pub fn label_cardinality_distribution(
    rows: &Vec<StatsRow>,
    target_count: usize,
    max_cardinality: usize,
) -> (r: (CardinalityOutcome, Vec<(usize, String)>))
    requires
        max_cardinality < usize::MAX,
    ensures
        ({
            let m = lc_run(rows@, target_count as int);
            &&& errors_view(r.1@) == m.errors
            &&& match r.0 {
                CardinalityOutcome::FoundTarget(id) => {
                    &&& m.found
                    &&& m.last >= 0 ==> id == rows@[m.last].0
                    &&& m.last < 0 ==> id.dataset@.len() == 0 && id.config@.len() == 0 && id.split@.len() == 0
                },
                CardinalityOutcome::Distribution(rep) => {
                    &&& !m.found
                    &&& rep.configs_visited as int == m.visited
                    &&& rep.configs_has_labels as int == m.flushed.len()
                    &&& rep.covered@.len() == max_cardinality + 1
                    &&& forall|c: int|
                        0 <= c <= max_cardinality ==> #[trigger] rep.covered@[c] as int == count_at_most(m.flushed, c)
                },
            }
        }),
{
    let ghost final_model = lc_run(rows@, target_count as int);
    let mut cardinality: usize = 0;
    let mut last: usize = 0;
    let mut has_last = false;
    let mut flushed: Vec<usize> = Vec::new();
    let mut visited: usize = 0;
    let mut stopped = false;
    let mut found = false;
    let mut errors: Vec<(usize, String)> = Vec::new();
    let mut i: usize = 0;
    proof {
        assert(usize_view(flushed@) =~= Seq::empty());
        assert(errors_view(errors@) =~= Seq::empty());
    }
    while i < rows.len() && !stopped && !found
        invariant
            i <= rows.len(),
            visited <= i,
            has_last ==> last < i,
            final_model == lc_run(rows@, target_count as int),
            lc_run_from(
                rows@,
                target_count as int,
                CardinalityModel {
                    cardinality: cardinality as int,
                    last: if has_last { last as int } else { -1 },
                    flushed: usize_view(flushed@),
                    visited: visited as int,
                    stopped: stopped,
                    found: found,
                    errors: errors_view(errors@),
                },
                i as int,
            ) == final_model,
        decreases rows.len() - i,
    {
        let ghost s0 = CardinalityModel {
            cardinality: cardinality as int,
            last: if has_last { last as int } else { -1 },
            flushed: usize_view(flushed@),
            visited: visited as int,
            stopped: stopped,
            found: found,
            errors: errors_view(errors@),
        };
        let ghost s_end = lc_step(rows@, target_count as int, s0, i as int);
        if is_new_config(rows, i) {
            if cardinality != 0 && cardinality > CARDINALITY_LIMIT {
                found = true;
            } else {
                if cardinality != 0 {
                    let ghost before = flushed@;
                    flushed.push(cardinality);
                    assert(usize_view(flushed@) =~= usize_view(before).push(cardinality as int));
                }
                visited = visited + 1;
                if visited > target_count {
                    stopped = true;
                } else {
                    last = i;
                    has_last = true;
                    cardinality = 0;
                }
            }
        }
        if !stopped && !found {
            let cols = &rows[i].1.statistics;
            let ghost target = lc_columns_from(cardinality as int, errors_view(errors@), i as int, cols@, 0);
            let mut j: usize = 0;
            while j < cols.len()
                invariant
                    j <= cols.len(),
                    lc_columns_from(cardinality as int, errors_view(errors@), i as int, cols@, j as int) == target,
                decreases cols.len() - j,
            {
                let c = &cols[j];
                if is_label_column_exec(c) {
                    match &c.string_label {
                        Err(e) => {
                            let ghost before = errors@;
                            errors.push((i, e.clone()));
                            assert(errors_view(errors@) =~= errors_view(before).push((i as int, e@)));
                        },
                        Ok(st) => {
                            let n = st.n_unique as usize;
                            if n > cardinality {
                                cardinality = n;
                            }
                        },
                    }
                }
                j = j + 1;
            }
        }
        proof {
            let s1 = CardinalityModel {
                cardinality: cardinality as int,
                last: if has_last { last as int } else { -1 },
                flushed: usize_view(flushed@),
                visited: visited as int,
                stopped: stopped,
                found: found,
                errors: errors_view(errors@),
            };
            assert(s1 == s_end);
        }
        i = i + 1;
    }
    if found {
        let id = if has_last {
            copy_id(&rows[last].0)
        } else {
            DatasetStatsId::default()
        };
        return (CardinalityOutcome::FoundTarget(id), errors);
    }
    let mut covered: Vec<usize> = Vec::new();
    let mut c: usize = 0;
    while c <= max_cardinality
        invariant
            c <= max_cardinality + 1,
            max_cardinality < usize::MAX,
            covered@.len() == c,
            usize_view(flushed@) == final_model.flushed,
            forall|k: int| 0 <= k < c ==> #[trigger] covered@[k] as int == count_at_most(final_model.flushed, k),
        decreases max_cardinality + 1 - c,
    {
        let n = count_at_most_exec(&flushed, c);
        covered.push(n);
        c = c + 1;
    }
    (
        CardinalityOutcome::Distribution(
            CardinalityReport { configs_visited: visited, configs_has_labels: flushed.len(), covered },
        ),
        errors,
    )
}

} // verus!
