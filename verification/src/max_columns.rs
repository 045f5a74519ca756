use vstd::prelude::*;
use vstd::string::StringExecFns;

use crate::coverage::{desired_limit, is_desired_outcome, points_view, top_values, DesiredLimit};
use crate::label_cardinality::usize_view;
use crate::models::{ColumnStats, StatsRow, starts_config, is_new_config};
use crate::sorting::{ints_usize, sort_usize, lemma_sort_len};
use crate::text::views;

verus! {

/// `names` with `n` added at the end unless it is there already.
pub open spec fn insert_name(names: Seq<Seq<char>>, n: Seq<char>) -> Seq<Seq<char>> {
    if names.contains(n) {
        names
    } else {
        names.push(n)
    }
}

/// `names` with the name of every column from position `j` on added.
pub open spec fn insert_columns_from(names: Seq<Seq<char>>, cols: Seq<ColumnStats>, j: int) -> Seq<Seq<char>>
    decreases cols.len() - j,
{
    if j < 0 || j >= cols.len() {
        names
    } else {
        insert_columns_from(insert_name(names, cols[j].column_name@), cols, j + 1)
    }
}

/// The key under which a config is remembered: dataset, `_`, config.
pub open spec fn config_key(r: StatsRow) -> Seq<char> {
    r.0.dataset@ + "_"@ + r.0.config@
}

/// The state of the column-count coverage analysis after some rows.
pub struct ColumnsCoverageModel {
    /// The distinct column names of the current config.
    pub names: Seq<Seq<char>>,
    /// How many configs have begun.
    pub visited: int,
    /// How many finished configs have fewer columns than the limit.
    pub covered: int,
    /// The progress points reported so far.
    pub points: Seq<(int, int)>,
    /// The keys of the configs begun so far.
    pub seen: Seq<Seq<char>>,
    /// A config began again after another one.
    pub duplicate: bool,
}

/// The state before any row.
pub open spec fn cc_init() -> ColumnsCoverageModel {
    ColumnsCoverageModel {
        names: Seq::empty(),
        visited: 0,
        covered: 0,
        points: Seq::empty(),
        seen: Seq::empty(),
        duplicate: false,
    }
}

/// Row `i` begins a new config: the current one is finished and counted.
pub open spec fn cc_flush(s: ColumnsCoverageModel, r: StatsRow, limit: int, interval: int) -> ColumnsCoverageModel {
    let s1 = if s.visited > 0 {
        let c = s.covered + if limit > s.names.len() { 1int } else { 0int };
        ColumnsCoverageModel {
            covered: c,
            points: if s.visited % interval == 0 { s.points.push((s.visited, c)) } else { s.points },
            ..s
        }
    } else {
        s
    };
    let s2 = ColumnsCoverageModel { names: Seq::empty(), visited: s1.visited + 1, ..s1 };
    if s2.seen.contains(config_key(r)) {
        ColumnsCoverageModel { duplicate: true, ..s2 }
    } else {
        ColumnsCoverageModel { seen: s2.seen.push(config_key(r)), ..s2 }
    }
}

/// The state after row `i`.
pub open spec fn cc_step(rows: Seq<StatsRow>, limit: int, interval: int, s: ColumnsCoverageModel, i: int) -> ColumnsCoverageModel {
    let s1 = if starts_config(rows, i) {
        cc_flush(s, rows[i], limit, interval)
    } else {
        s
    };
    if s1.duplicate {
        s1
    } else {
        ColumnsCoverageModel { names: insert_columns_from(s1.names, rows[i].1.statistics@, 0), ..s1 }
    }
}

/// The state once the rows from `i` on have been read, starting from `s`.
pub open spec fn cc_run_from(
    rows: Seq<StatsRow>,
    limit: int,
    interval: int,
    s: ColumnsCoverageModel,
    i: int,
) -> ColumnsCoverageModel
    decreases rows.len() - i,
{
    if i < 0 || i >= rows.len() || s.duplicate {
        s
    } else {
        cc_run_from(rows, limit, interval, cc_step(rows, limit, interval, s, i), i + 1)
    }
}

/// The state once all rows have been read.
pub open spec fn cc_run(rows: Seq<StatsRow>, limit: int, interval: int) -> ColumnsCoverageModel {
    cc_run_from(rows, limit, interval, cc_init(), 0)
}

/// Every point reported: those made while reading, then one more when the
/// number of configs plus one is not a multiple of `interval`.
pub open spec fn cc_points(m: ColumnsCoverageModel, interval: int) -> Seq<(int, int)> {
    let v = m.visited + 1;
    m.points + if v % interval != 0 {
        seq![(v, m.covered)]
    } else {
        Seq::empty()
    }
}

/// Reading the first `m` rows takes the same step at a row before `m` as reading them all.
proof fn lemma_cc_step_prefix(rows: Seq<StatsRow>, limit: int, interval: int, s: ColumnsCoverageModel, i: int, m: int)
    requires
        0 <= i < m <= rows.len(),
    ensures
        cc_step(rows.take(m), limit, interval, s, i) == cc_step(rows, limit, interval, s, i),
{
    assert(rows.take(m)[i] == rows[i]);
    if i > 0 {
        assert(rows.take(m)[i - 1] == rows[i - 1]);
    }
    assert(starts_config(rows.take(m), i) == starts_config(rows, i));
}

/// Reading one more row: the state after the first `n + 1` rows is the state
/// after the first `n`, taken one step further unless a duplicate stopped it.
proof fn lemma_cc_run_snoc(rows: Seq<StatsRow>, limit: int, interval: int, s: ColumnsCoverageModel, k: int, n: int)
    requires
        0 <= k <= n < rows.len(),
    ensures
        cc_run_from(rows.take(n + 1), limit, interval, s, k) == ({
            let t = cc_run_from(rows.take(n), limit, interval, s, k);
            if t.duplicate {
                t
            } else {
                cc_step(rows, limit, interval, t, n)
            }
        }),
    decreases n - k,
{
    let a = rows.take(n + 1);
    let b = rows.take(n);
    assert(a.len() == n + 1 && b.len() == n);
    if !s.duplicate {
        lemma_cc_step_prefix(rows, limit, interval, s, k, n + 1);
        let s1 = cc_step(rows, limit, interval, s, k);
        assert(cc_run_from(a, limit, interval, s, k) == cc_run_from(a, limit, interval, s1, k + 1));
        if k < n {
            lemma_cc_step_prefix(rows, limit, interval, s, k, n);
            assert(cc_run_from(b, limit, interval, s, k) == cc_run_from(b, limit, interval, s1, k + 1));
            lemma_cc_run_snoc(rows, limit, interval, s1, k + 1, n);
        } else {
            assert(cc_run_from(b, limit, interval, s, k) == s);
            assert(cc_run_from(a, limit, interval, s1, k + 1) == s1);
        }
    } else {
        assert(cc_run_from(a, limit, interval, s, k) == s);
        assert(cc_run_from(b, limit, interval, s, k) == s);
    }
}

/// Whether `v` holds the text `s`.
fn contains_string(v: &Vec<String>, s: &String) -> (r: bool)
    ensures
        r == views(v@).contains(s@),
{
    let mut k: usize = 0;
    while k < v.len()
        invariant
            k <= v@.len(),
            forall|q: int| 0 <= q < k ==> v@[q]@ != s@,
        decreases v.len() - k,
    {
        if v[k] == *s {
            assert(views(v@)[k as int] == s@);
            return true;
        }
        k = k + 1;
    }
    assert forall|q: int| 0 <= q < views(v@).len() implies views(v@)[q] != s@ by {
        assert(views(v@)[q] == v@[q]@);
    }
    false
}

/// Adds the name of every column of `cols` to `names`.
pub fn insert_column_names(names: &mut Vec<String>, cols: &Vec<ColumnStats>)
    ensures
        views(final(names)@) == insert_columns_from(views(old(names)@), cols@, 0),
{
    let ghost target = insert_columns_from(views(names@), cols@, 0);
    let mut j: usize = 0;
    while j < cols.len()
        invariant
            j <= cols@.len(),
            insert_columns_from(views(names@), cols@, j as int) == target,
        decreases cols.len() - j,
    {
        let n = &cols[j].column_name;
        if !contains_string(names, n) {
            let ghost before = names@;
            names.push(n.clone());
            assert(views(names@) =~= views(before).push(n@));
        }
        j = j + 1;
    }
}

/// The key under which the config of the row is remembered.
fn config_key_exec(r: &StatsRow) -> (k: String)
    ensures
        k@ == config_key(*r),
{
    let mut k = r.0.dataset.clone();
    k.append("_");
    k.append(r.0.config.as_str());
    k
}

/// How many configs have fewer distinct column names than `limit`: the
/// split statistics `rows` are read in order and grouped by config, and a
/// progress point is reported as `cc_points` says. `Err` holds the first row
/// where a config began that had begun before: reading the rows before it
/// finds no such config, and reading it does.
pub fn columns_limit_coverage_by_config(rows: &Vec<StatsRow>, limit: usize, report_interval: i32) -> (r: Result<
    Vec<(i32, i32)>,
    usize,
>)
    requires
        report_interval != 0,
        rows@.len() < i32::MAX - 1,
    ensures
        ({
            let m = cc_run(rows@, limit as int, report_interval as int);
            match r {
                Ok(points) => !m.duplicate && points_view(points@) == cc_points(m, report_interval as int),
                Err(i) => {
                    let before = cc_run(rows@.take(i as int), limit as int, report_interval as int);
                    &&& m.duplicate
                    &&& i < rows@.len()
                    &&& m.seen.contains(config_key(rows@[i as int]))
                    &&& !before.duplicate
                    &&& cc_step(rows@, limit as int, report_interval as int, before, i as int).duplicate
                },
            }
        }),
{
    let ghost final_model = cc_run(rows@, limit as int, report_interval as int);
    let mut names: Vec<String> = Vec::new();
    let mut visited: i32 = 0;
    let mut covered: i32 = 0;
    let mut points: Vec<(i32, i32)> = Vec::new();
    let mut seen: Vec<String> = Vec::new();
    let mut duplicate = false;
    let mut dup_row: usize = 0;
    let mut i: usize = 0;
    proof {
        assert(views(names@) =~= Seq::empty());
        assert(views(seen@) =~= Seq::empty());
        assert(points_view(points@) =~= Seq::empty());
        assert(rows@.take(0).len() == 0);
    }
    while i < rows.len() && !duplicate
        invariant
            i <= rows@.len() < i32::MAX - 1,
            report_interval != 0,
            0 <= covered <= visited <= i,
            duplicate ==> dup_row < rows@.len() && views(seen@).contains(config_key(rows@[dup_row as int])),
            duplicate ==> !cc_run(rows@.take(dup_row as int), limit as int, report_interval as int).duplicate
                && cc_step(
                rows@,
                limit as int,
                report_interval as int,
                cc_run(rows@.take(dup_row as int), limit as int, report_interval as int),
                dup_row as int,
            ).duplicate,
            !duplicate ==> cc_run(rows@.take(i as int), limit as int, report_interval as int) == (ColumnsCoverageModel {
                names: views(names@),
                visited: visited as int,
                covered: covered as int,
                points: points_view(points@),
                seen: views(seen@),
                duplicate: duplicate,
            }),
            final_model == cc_run(rows@, limit as int, report_interval as int),
            cc_run_from(
                rows@,
                limit as int,
                report_interval as int,
                ColumnsCoverageModel {
                    names: views(names@),
                    visited: visited as int,
                    covered: covered as int,
                    points: points_view(points@),
                    seen: views(seen@),
                    duplicate: duplicate,
                },
                i as int,
            ) == final_model,
        decreases rows.len() - i,
    {
        let ghost s0 = ColumnsCoverageModel {
            names: views(names@),
            visited: visited as int,
            covered: covered as int,
            points: points_view(points@),
            seen: views(seen@),
            duplicate: duplicate,
        };
        let ghost s_end = cc_step(rows@, limit as int, report_interval as int, s0, i as int);
        if is_new_config(rows, i) {
            if visited > 0 {
                if limit > names.len() {
                    covered = covered + 1;
                }
                if visited % report_interval == 0 {
                    let ghost before = points@;
                    points.push((visited, covered));
                    assert(points_view(points@) =~= points_view(before).push((visited as int, covered as int)));
                }
            }
            names = Vec::new();
            assert(views(names@) =~= Seq::empty());
            visited = visited + 1;
            let key = config_key_exec(&rows[i]);
            if contains_string(&seen, &key) {
                duplicate = true;
                dup_row = i;
            } else {
                let ghost before = seen@;
                seen.push(key);
                assert(views(seen@) =~= views(before).push(config_key(rows@[i as int])));
            }
        }
        if !duplicate {
            insert_column_names(&mut names, &rows[i].1.statistics);
        }
        proof {
            let s1 = ColumnsCoverageModel {
                names: views(names@),
                visited: visited as int,
                covered: covered as int,
                points: points_view(points@),
                seen: views(seen@),
                duplicate: duplicate,
            };
            assert(s1 == s_end);
            lemma_cc_run_snoc(rows@, limit as int, report_interval as int, cc_init(), 0, i as int);
        }
        i = i + 1;
    }
    if duplicate {
        return Err(dup_row);
    }
    let v = visited + 1;
    if v % report_interval != 0 {
        let ghost before = points@;
        points.push((v, covered));
        assert(points_view(points@) =~= points_view(before).push((v as int, covered as int)));
    }
    Ok(points)
}

/// The state of the column-count limit analysis after some rows.
pub struct ColumnsLimitModel {
    /// The distinct column names of the current config.
    pub names: Seq<Seq<char>>,
    /// The number of distinct column names gathered at each config start.
    pub counts: Seq<int>,
}

/// The state after row `i`.
pub open spec fn cl_step(rows: Seq<StatsRow>, s: ColumnsLimitModel, i: int) -> ColumnsLimitModel {
    let s1 = if starts_config(rows, i) {
        ColumnsLimitModel { names: Seq::empty(), counts: s.counts.push(s.names.len() as int) }
    } else {
        s
    };
    ColumnsLimitModel { names: insert_columns_from(s1.names, rows[i].1.statistics@, 0), ..s1 }
}

/// The state once the rows from `i` on have been read, starting from `s`,
/// stopping once `m` counts have been gathered.
pub open spec fn cl_run_from(rows: Seq<StatsRow>, m: int, s: ColumnsLimitModel, i: int) -> ColumnsLimitModel
    decreases rows.len() - i,
{
    if i < 0 || i >= rows.len() || s.counts.len() >= m {
        s
    } else {
        cl_run_from(rows, m, cl_step(rows, s, i), i + 1)
    }
}

/// The number of distinct column names of each config, gathered at each config
/// start (the first one counts the rows before any config begins), up to `m` of them.
pub open spec fn column_counts(rows: Seq<StatsRow>, m: int) -> Seq<int> {
    cl_run_from(rows, m, ColumnsLimitModel { names: Seq::empty(), counts: Seq::empty() }, 0).counts
}

/// The column-count limit that covers the configs at positions below
/// `target_count` among the first `top_count` configs (see `desired_limit`):
/// `NotReached` when fewer configs begin, `OutOfRange` when `target_count`
/// is not a position among them.
pub fn desired_columns_limit_by_config(rows: &Vec<StatsRow>, top_count: usize, target_count: usize) -> (r: DesiredLimit<usize>)
    ensures
        is_desired_outcome(
            r,
            |x: usize| x as int,
            column_counts(rows@, top_values(top_count as int)),
            top_count as int,
            target_count as int,
        ),
{
    let m: usize = if top_count < 1 {
        1
    } else {
        top_count
    };
    let ghost final_counts = column_counts(rows@, m as int);
    let mut names: Vec<String> = Vec::new();
    let mut counts: Vec<usize> = Vec::new();
    let mut i: usize = 0;
    proof {
        assert(views(names@) =~= Seq::empty());
        assert(usize_view(counts@) =~= Seq::empty());
    }
    while i < rows.len() && counts.len() < m
        invariant
            i <= rows@.len(),
            counts@.len() <= m,
            final_counts == column_counts(rows@, m as int),
            cl_run_from(
                rows@,
                m as int,
                ColumnsLimitModel { names: views(names@), counts: usize_view(counts@) },
                i as int,
            ).counts == final_counts,
        decreases rows.len() - i,
    {
        let ghost s0 = ColumnsLimitModel { names: views(names@), counts: usize_view(counts@) };
        if is_new_config(rows, i) {
            let ghost before = counts@;
            counts.push(names.len());
            assert(usize_view(counts@) =~= usize_view(before).push(s0.names.len() as int));
            names = Vec::new();
            assert(views(names@) =~= Seq::empty());
        }
        insert_column_names(&mut names, &rows[i].1.statistics);
        proof {
            let s1 = ColumnsLimitModel { names: views(names@), counts: usize_view(counts@) };
            assert(s1 == cl_step(rows@, s0, i as int));
        }
        i = i + 1;
    }
    if counts.len() < m {
        return DesiredLimit::NotReached;
    }
    if target_count >= m {
        return DesiredLimit::OutOfRange;
    }
    let sorted = sort_usize(&counts);
    proof {
        lemma_sort_len(ints_usize(counts@));
        assert(ints_usize(counts@) == usize_view(counts@));
        assert(usize_view(counts@).take(m as int) =~= usize_view(counts@));
    }
    DesiredLimit::Limit(sorted[target_count])
}

} // verus!
