use vstd::prelude::*;

use crate::label_stats::{LabelFrequencies, EXAMPLES_UPPER_LIMIT, freqs_view, class_freqs_view, all_counts, add_label_column, is_label_column, fits_freqs, dom_freqs, nonneg_freqs, lemma_dom_freqs_refl, lemma_dom_freqs_trans, lemma_class_freqs_nonneg, lemma_add_label_column_dom, add_label_column_checked, is_label_column_exec, get_label_stats, lemma_exec_freqs_fit, lemma_not_fits_freqs_dom};
use crate::models::{ColumnStats, DatasetStatsId, StatsRow, starts_config, is_new_config, copy_id};
use crate::sorting::kth_smallest;

verus! {

/// The state of the minimum-examples analysis after some rows.
pub struct MinExamplesModel {
    /// Class counts of the label columns of the current config.
    pub freqs: Seq<(Seq<char>, Seq<(Seq<char>, int)>)>,
    /// The capped (minimum, median) class count of each finished config that has label columns.
    pub flushed: Seq<(int, int)>,
    /// How many configs have begun.
    pub visited: int,
    /// The configs to look at have all been seen.
    pub stopped: bool,
    /// A finished config had label columns but no class counts.
    pub failed: bool,
    /// Row and text of each label column whose statistics could not be read.
    pub errors: Seq<(int, Seq<char>)>,
}

/// `x`, capped at `EXAMPLES_UPPER_LIMIT`.
pub open spec fn cap_examples(x: int) -> int {
    if x < EXAMPLES_UPPER_LIMIT {
        x
    } else {
        EXAMPLES_UPPER_LIMIT as int
    }
}

/// The state before any row.
pub open spec fn me_init() -> MinExamplesModel {
    MinExamplesModel {
        freqs: Seq::empty(),
        flushed: Seq::empty(),
        visited: 0,
        stopped: false,
        failed: false,
        errors: Seq::empty(),
    }
}

/// A new config begins: the current one is finished and counted, and the
/// analysis stops once more than `target` configs have begun.
pub open spec fn me_flush(s: MinExamplesModel, target: int) -> MinExamplesModel {
    let s1 = if s.freqs.len() > 0 {
        let c = all_counts(s.freqs);
        if c.len() == 0 {
            MinExamplesModel { failed: true, ..s }
        } else {
            MinExamplesModel {
                flushed: s.flushed.push(
                    (cap_examples(kth_smallest(c, 0)), cap_examples(kth_smallest(c, c.len() as int / 2))),
                ),
                ..s
            }
        }
    } else {
        s
    };
    if s1.failed {
        s1
    } else if s1.visited + 1 > target {
        MinExamplesModel { visited: s1.visited + 1, stopped: true, ..s1 }
    } else {
        MinExamplesModel { visited: s1.visited + 1, freqs: Seq::empty(), ..s1 }
    }
}

/// The label frequencies and errors after column `c` of row `i`.
pub open spec fn me_column(
    f: Seq<(Seq<char>, Seq<(Seq<char>, int)>)>,
    errs: Seq<(int, Seq<char>)>,
    i: int,
    c: ColumnStats,
) -> (Seq<(Seq<char>, Seq<(Seq<char>, int)>)>, Seq<(int, Seq<char>)>) {
    if is_label_column(c) {
        match c.string_label {
            Err(e) => (f, errs.push((i, e@))),
            Ok(st) => if st.n_unique > 0 {
                (add_label_column(f, c.column_name@, class_freqs_view(st.frequencies@)), errs)
            } else {
                (f, errs)
            },
        }
    } else {
        (f, errs)
    }
}

/// The label frequencies and errors after the columns of row `i` from position `j` on.
pub open spec fn me_columns_from(
    f: Seq<(Seq<char>, Seq<(Seq<char>, int)>)>,
    errs: Seq<(int, Seq<char>)>,
    i: int,
    cols: Seq<ColumnStats>,
    j: int,
) -> (Seq<(Seq<char>, Seq<(Seq<char>, int)>)>, Seq<(int, Seq<char>)>)
    decreases cols.len() - j,
{
    if j < 0 || j >= cols.len() {
        (f, errs)
    } else {
        let r = me_column(f, errs, i, cols[j]);
        me_columns_from(r.0, r.1, i, cols, j + 1)
    }
}

/// The state after row `i`.
pub open spec fn me_step(rows: Seq<StatsRow>, target: int, s: MinExamplesModel, i: int) -> MinExamplesModel {
    let s1 = if starts_config(rows, i) {
        me_flush(s, target)
    } else {
        s
    };
    if s1.stopped || s1.failed {
        s1
    } else {
        let r = me_columns_from(s1.freqs, s1.errors, i, rows[i].1.statistics@, 0);
        MinExamplesModel { freqs: r.0, errors: r.1, ..s1 }
    }
}

/// The state once the rows from `i` on have been read, starting from `s`.
pub open spec fn me_run_from(rows: Seq<StatsRow>, target: int, s: MinExamplesModel, i: int) -> MinExamplesModel
    decreases rows.len() - i,
{
    if i < 0 || i >= rows.len() || s.stopped || s.failed {
        s
    } else {
        me_run_from(rows, target, me_step(rows, target, s, i), i + 1)
    }
}

/// The state once all rows have been read.
pub open spec fn me_run(rows: Seq<StatsRow>, target: int) -> MinExamplesModel {
    me_run_from(rows, target, me_init(), 0)
}

/// Every class count reached while reading the rows from `i` on fits in a `usize`.
pub open spec fn me_fits_from(rows: Seq<StatsRow>, target: int, s: MinExamplesModel, i: int) -> bool
    decreases rows.len() - i,
{
    if i < 0 || i >= rows.len() || s.stopped || s.failed {
        true
    } else {
        fits_freqs(me_step(rows, target, s, i).freqs) && me_fits_from(
            rows,
            target,
            me_step(rows, target, s, i),
            i + 1,
        )
    }
}

/// Every class count reached while reading the rows fits in a `usize`.
pub open spec fn me_fits(rows: Seq<StatsRow>, target: int) -> bool {
    me_fits_from(rows, target, me_init(), 0)
}

/// How many of the pairs have a first value of at least `v`.
pub open spec fn count_first_at_least(s: Seq<(int, int)>, v: int) -> int
    decreases s.len(),
{
    if s.len() == 0 {
        0
    } else {
        count_first_at_least(s.drop_last(), v) + if s.last().0 >= v { 1int } else { 0int }
    }
}

/// How many of the pairs have a second value of at least `v`.
pub open spec fn count_second_at_least(s: Seq<(int, int)>, v: int) -> int
    decreases s.len(),
{
    if s.len() == 0 {
        0
    } else {
        count_second_at_least(s.drop_last(), v) + if s.last().1 >= v { 1int } else { 0int }
    }
}

/// A list of (minimum, median) pairs, as integers.
pub open spec fn pairs_view(p: Seq<(usize, usize)>) -> Seq<(int, int)> {
    p.map_values(|x: (usize, usize)| (x.0 as int, x.1 as int))
}

/// A list of (row, error text) pairs, as integers and texts.
pub open spec fn errors_view(e: Seq<(usize, String)>) -> Seq<(int, Seq<char>)> {
    e.map_values(|x: (usize, String)| (x.0 as int, x.1@))
}

/// What the minimum-examples analysis reports.
pub struct MinExamplesReport {
    /// How many configs were begun.
    pub configs_visited: usize,
    /// How many finished configs had label columns.
    pub configs_has_labels: usize,
    /// For each limit from `EXAMPLES_UPPER_LIMIT` down to 0: the limit, how many
    /// configs have a capped minimum class count of at least it, and how many a
    /// capped median class count of at least it.
    pub coverage: Vec<(usize, usize, usize)>,
    /// Row and text of each label column whose statistics could not be read.
    pub errors: Vec<(usize, String)>,
}

proof fn lemma_all_counts_nonempty(f: Seq<(Seq<char>, Seq<(Seq<char>, int)>)>)
    ensures
        all_counts(f).len() > 0 <==> exists|i: int| #![trigger f[i]] 0 <= i < f.len() && f[i].1.len() > 0,
    decreases f.len(),
{
    if f.len() > 0 {
        lemma_all_counts_nonempty(f.drop_last());
        if exists|i: int| #![trigger f[i]] 0 <= i < f.len() && f[i].1.len() > 0 {
            let i = choose|i: int| #![trigger f[i]] 0 <= i < f.len() && f[i].1.len() > 0;
            if i < f.len() - 1 {
                assert(f.drop_last()[i] == f[i]);
            }
        }
        if exists|i: int| 0 <= i < f.drop_last().len() && #[trigger] f.drop_last()[i].1.len() > 0 {
            let i = choose|i: int| 0 <= i < f.drop_last().len() && #[trigger] f.drop_last()[i].1.len() > 0;
            assert(f[i] == f.drop_last()[i]);
        }
    }
}

/// Whether some label column has a class count.
fn has_counts(freqs: &LabelFrequencies) -> (r: bool)
    ensures
        r == (all_counts(freqs_view(freqs@)).len() > 0),
{
    proof {
        lemma_all_counts_nonempty(freqs_view(freqs@));
    }
    let mut i: usize = 0;
    while i < freqs.len()
        invariant
            i <= freqs.len(),
            forall|k: int| 0 <= k < i ==> (#[trigger] freqs_view(freqs@)[k]).1.len() == 0,
        decreases freqs.len() - i,
    {
        if freqs[i].1.len() > 0 {
            assert(freqs_view(freqs@)[i as int].1.len() > 0);
            proof {
                lemma_all_counts_nonempty(freqs_view(freqs@));
            }
            return true;
        }
        i = i + 1;
    }
    false
}

proof fn lemma_me_columns_dom(
    f: Seq<(Seq<char>, Seq<(Seq<char>, int)>)>,
    errs: Seq<(int, Seq<char>)>,
    i: int,
    cols: Seq<ColumnStats>,
    j: int,
)
    requires
        0 <= j,
        nonneg_freqs(f),
    ensures
        dom_freqs(f, me_columns_from(f, errs, i, cols, j).0),
        nonneg_freqs(me_columns_from(f, errs, i, cols, j).0),
    decreases cols.len() - j,
{
    if j < cols.len() {
        let r = me_column(f, errs, i, cols[j]);
        let c = cols[j];
        if is_label_column(c) {
            match c.string_label {
                Err(e) => {
                    lemma_dom_freqs_refl(f);
                },
                Ok(st) => {
                    if st.n_unique > 0 {
                        lemma_class_freqs_nonneg(st.frequencies@);
                        lemma_add_label_column_dom(f, c.column_name@, class_freqs_view(st.frequencies@));
                    } else {
                        lemma_dom_freqs_refl(f);
                    }
                },
            }
        } else {
            lemma_dom_freqs_refl(f);
        }
        lemma_me_columns_dom(r.0, r.1, i, cols, j + 1);
        lemma_dom_freqs_trans(f, r.0, me_columns_from(f, errs, i, cols, j).0);
    } else {
        lemma_dom_freqs_refl(f);
    }
}

/// Reads the columns of row `i` into the label frequencies and the errors;
/// `false`, with both left in any state, when a class count would not fit in a `usize`.
fn me_process_columns(
    freqs: &mut LabelFrequencies,
    errors: &mut Vec<(usize, String)>,
    i: usize,
    cols: &Vec<ColumnStats>,
) -> (ok: bool)
    ensures
        ok ==> (freqs_view(final(freqs)@), errors_view(final(errors)@)) == me_columns_from(
            freqs_view(old(freqs)@),
            errors_view(old(errors)@),
            i as int,
            cols@,
            0,
        ),
        !ok ==> !fits_freqs(
            me_columns_from(freqs_view(old(freqs)@), errors_view(old(errors)@), i as int, cols@, 0).0,
        ),
{
    let ghost target = me_columns_from(freqs_view(freqs@), errors_view(errors@), i as int, cols@, 0);
    let mut j: usize = 0;
    while j < cols.len()
        invariant
            j <= cols.len(),
            target == me_columns_from(freqs_view(old(freqs)@), errors_view(old(errors)@), i as int, cols@, 0),
            me_columns_from(freqs_view(freqs@), errors_view(errors@), i as int, cols@, j as int) == target,
        decreases cols.len() - j,
    {
        let c = &cols[j];
        if is_label_column_exec(c) {
            match &c.string_label {
                Err(e) => {
                    let ghost before = errors@;
                    errors.push((i, e.clone()));
                    assert(errors_view(errors@) =~= errors_view(before).push((i as int, e@)));
                },
                Ok(st) => {
                    if st.n_unique > 0 {
                        let ghost f_exec = freqs@;
                        let ghost f = freqs_view(freqs@);
                        let ghost errs = errors_view(errors@);
                        let ok = add_label_column_checked(freqs, &c.column_name, &st.frequencies);
                        if !ok {
                            proof {
                                let fl = class_freqs_view(st.frequencies@);
                                let g = add_label_column(f, c.column_name@, fl);
                                lemma_exec_freqs_fit(f_exec);
                                lemma_class_freqs_nonneg(st.frequencies@);
                                lemma_add_label_column_dom(f, c.column_name@, fl);
                                lemma_me_columns_dom(g, errs, i as int, cols@, j + 1);
                                assert(me_columns_from(g, errs, i as int, cols@, j + 1) == target);
                                lemma_not_fits_freqs_dom(g, target.0);
                            }
                            return false;
                        }
                    }
                },
            }
        }
        j = j + 1;
    }
    true
}

/// The capped minimum and median class count of the current config.
fn capped_label_stats(freqs: &LabelFrequencies, id: &DatasetStatsId) -> (r: (usize, usize))
    requires
        all_counts(freqs_view(freqs@)).len() > 0,
    ensures
        r.0 as int == cap_examples(kth_smallest(all_counts(freqs_view(freqs@)), 0)),
        r.1 as int == cap_examples(
            kth_smallest(all_counts(freqs_view(freqs@)), all_counts(freqs_view(freqs@)).len() as int / 2),
        ),
{
    let (min_examples, median_examples) = get_label_stats(freqs, copy_id(id));
    let a = if min_examples < EXAMPLES_UPPER_LIMIT {
        min_examples
    } else {
        EXAMPLES_UPPER_LIMIT
    };
    let b = if median_examples < EXAMPLES_UPPER_LIMIT {
        median_examples
    } else {
        EXAMPLES_UPPER_LIMIT
    };
    (a, b)
}

/// How many pairs have a first value of at least `v`, and how many a second value of at least `v`.
fn count_at_least(p: &Vec<(usize, usize)>, v: usize) -> (r: (usize, usize))
    ensures
        r.0 as int == count_first_at_least(pairs_view(p@), v as int),
        r.1 as int == count_second_at_least(pairs_view(p@), v as int),
{
    let mut a: usize = 0;
    let mut b: usize = 0;
    let mut k: usize = 0;
    while k < p.len()
        invariant
            k <= p.len(),
            a <= k,
            b <= k,
            a as int == count_first_at_least(pairs_view(p@.take(k as int)), v as int),
            b as int == count_second_at_least(pairs_view(p@.take(k as int)), v as int),
        decreases p.len() - k,
    {
        assert(pairs_view(p@.take(k + 1)).drop_last() =~= pairs_view(p@.take(k as int)));
        if p[k].0 >= v {
            a = a + 1;
        }
        if p[k].1 >= v {
            b = b + 1;
        }
        k = k + 1;
    }
    assert(p@.take(k as int) =~= p@);
    (a, b)
}

/// Why the minimum-examples analysis stopped without a report.
#[derive(Debug)]
pub enum MinExamplesError {
    /// A finished config had label columns but no class counts at all.
    NoClassCounts,
    /// A class count grew beyond what a `usize` holds.
    CountOverflow,
}

/// The minimum-examples analysis over the split statistics `rows`, read in
/// order and grouped by config, looking at configs until more than
/// `target_count` have begun.
pub fn label_min_examples_distribution(rows: &Vec<StatsRow>, target_count: usize) -> (r: Result<
    MinExamplesReport,
    MinExamplesError,
>)
    ensures
        ({
            let m = me_run(rows@, target_count as int);
            match r {
                Err(MinExamplesError::CountOverflow) => !me_fits(rows@, target_count as int),
                Err(MinExamplesError::NoClassCounts) => me_fits(rows@, target_count as int) && m.failed,
                Ok(rep) => {
                    &&& me_fits(rows@, target_count as int)
                    &&& !m.failed
                    &&& rep.configs_visited as int == m.visited
                    &&& rep.configs_has_labels as int == m.flushed.len()
                    &&& errors_view(rep.errors@) == m.errors
                    &&& rep.coverage@.len() == EXAMPLES_UPPER_LIMIT + 1
                    &&& forall|j: int|
                        0 <= j <= EXAMPLES_UPPER_LIMIT ==> {
                            let lim = EXAMPLES_UPPER_LIMIT - j;
                            &&& (#[trigger] rep.coverage@[j]).0 as int == lim
                            &&& rep.coverage@[j].1 as int == count_first_at_least(m.flushed, lim)
                            &&& rep.coverage@[j].2 as int == count_second_at_least(m.flushed, lim)
                        }
                },
            }
        }),
{
    let ghost final_model = me_run(rows@, target_count as int);
    let mut freqs: LabelFrequencies = Vec::new();
    let mut flushed: Vec<(usize, usize)> = Vec::new();
    let mut visited: usize = 0;
    let mut stopped = false;
    let mut failed = false;
    let mut errors: Vec<(usize, String)> = Vec::new();
    let mut last_id = DatasetStatsId::default();
    let mut i: usize = 0;
    proof {
        assert(freqs_view(freqs@) =~= Seq::empty());
        assert(pairs_view(flushed@) =~= Seq::empty());
        assert(errors_view(errors@) =~= Seq::empty());
    }
    while i < rows.len() && !stopped && !failed
        invariant
            i <= rows.len(),
            visited <= i,
            final_model == me_run(rows@, target_count as int),
            ({
                let s = MinExamplesModel {
                    freqs: freqs_view(freqs@),
                    flushed: pairs_view(flushed@),
                    visited: visited as int,
                    stopped: stopped,
                    failed: failed,
                    errors: errors_view(errors@),
                };
                &&& me_run_from(rows@, target_count as int, s, i as int) == final_model
                &&& me_fits(rows@, target_count as int) == me_fits_from(rows@, target_count as int, s, i as int)
            }),
        decreases rows.len() - i,
    {
        let ghost s0 = MinExamplesModel {
            freqs: freqs_view(freqs@),
            flushed: pairs_view(flushed@),
            visited: visited as int,
            stopped: stopped,
            failed: failed,
            errors: errors_view(errors@),
        };
        let ghost s_end = me_step(rows@, target_count as int, s0, i as int);
        if is_new_config(rows, i) {
            if freqs.len() > 0 {
                if has_counts(&freqs) {
                    let pair = capped_label_stats(&freqs, &last_id);
                    let ghost before = flushed@;
                    flushed.push(pair);
                    assert(pairs_view(flushed@) =~= pairs_view(before).push((pair.0 as int, pair.1 as int)));
                } else {
                    failed = true;
                }
            }
            if !failed {
                visited = visited + 1;
                if visited > target_count {
                    stopped = true;
                } else {
                    last_id = copy_id(&rows[i].0);
                    freqs = Vec::new();
                    assert(freqs_view(freqs@) =~= Seq::empty());
                }
            }
        }
        if !stopped && !failed {
            let ok = me_process_columns(&mut freqs, &mut errors, i, &rows[i].1.statistics);
            if !ok {
                proof {
                    assert(!fits_freqs(s_end.freqs));
                }
                return Err(MinExamplesError::CountOverflow);
            }
        }
        proof {
            let s1 = MinExamplesModel {
                freqs: freqs_view(freqs@),
                flushed: pairs_view(flushed@),
                visited: visited as int,
                stopped: stopped,
                failed: failed,
                errors: errors_view(errors@),
            };
            assert(s1 == s_end);
            lemma_exec_freqs_fit(freqs@);
        }
        i = i + 1;
    }
    if failed {
        return Err(MinExamplesError::NoClassCounts);
    }
    let mut coverage: Vec<(usize, usize, usize)> = Vec::new();
    let mut j: usize = 0;
    while j <= EXAMPLES_UPPER_LIMIT
        invariant
            j <= EXAMPLES_UPPER_LIMIT + 1,
            coverage@.len() == j,
            pairs_view(flushed@) == final_model.flushed,
            forall|k: int|
                0 <= k < j ==> {
                    let lim = EXAMPLES_UPPER_LIMIT - k;
                    &&& (#[trigger] coverage@[k]).0 as int == lim
                    &&& coverage@[k].1 as int == count_first_at_least(final_model.flushed, lim)
                    &&& coverage@[k].2 as int == count_second_at_least(final_model.flushed, lim)
                },
        decreases EXAMPLES_UPPER_LIMIT + 1 - j,
    {
        let lim = EXAMPLES_UPPER_LIMIT - j;
        let (a, b) = count_at_least(&flushed, lim);
        coverage.push((lim, a, b));
        j = j + 1;
    }
    Ok(MinExamplesReport { configs_visited: visited, configs_has_labels: flushed.len(), coverage, errors })
}

} // verus!
