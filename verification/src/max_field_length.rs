use vstd::prelude::*;

use crate::coverage::{desired_limit, is_desired_outcome, points_view, top_values, DesiredLimit};
use crate::label_cardinality::usize_view;
use crate::models::{ColumnStats, StatsRow, starts_config, is_new_config};
use crate::sorting::{ints_usize, sort_usize, lemma_sort_len};
use crate::text::str_eq;

verus! {

/// The column holds free text.
pub open spec fn is_text_column(c: ColumnStats) -> bool {
    c.column_type@ == "string_text"@
}

/// The longest text length after the columns from position `j` on, or `None`
/// when a text column's statistics cannot be read.
pub open spec fn text_length_from(len: int, cols: Seq<ColumnStats>, j: int) -> Option<int>
    decreases cols.len() - j,
{
    if j < 0 || j >= cols.len() {
        Some(len)
    } else if is_text_column(cols[j]) {
        match cols[j].string_text {
            Err(_) => None,
            Ok(st) => {
                let n = (st.max as usize) as int;
                text_length_from(if n > len { n } else { len }, cols, j + 1)
            },
        }
    } else {
        text_length_from(len, cols, j + 1)
    }
}

/// The longest text length after the columns of a row, starting from `len`;
/// `None` when a text column's statistics cannot be read.
pub fn text_length_of_columns(len: usize, cols: &Vec<ColumnStats>) -> (r: Option<usize>)
    ensures
        match r {
            None => text_length_from(len as int, cols@, 0) is None,
            Some(x) => text_length_from(len as int, cols@, 0) == Some(x as int),
        },
{
    let ghost target = text_length_from(len as int, cols@, 0);
    let mut cur = len;
    let mut j: usize = 0;
    while j < cols.len()
        invariant
            j <= cols@.len(),
            target == text_length_from(len as int, cols@, 0),
            text_length_from(cur as int, cols@, j as int) == target,
        decreases cols.len() - j,
    {
        let c = &cols[j];
        if str_eq(c.column_type.as_str(), "string_text") {
            match &c.string_text {
                Err(_) => {
                    assert(is_text_column(cols@[j as int]));
                    assert(cols@[j as int].string_text is Err);
                    assert(text_length_from(cur as int, cols@, j as int) is None);
                    return None;
                },
                Ok(st) => {
                    let n = st.max as usize;
                    if n > cur {
                        cur = n;
                    }
                },
            }
        }
        j = j + 1;
    }
    Some(cur)
}

/// The state of the text-length coverage analysis after some rows.
pub struct LengthCoverageModel {
    /// The longest text of the current config.
    pub length: int,
    /// How many configs have begun.
    pub visited: int,
    /// How many finished configs have texts shorter than the limit.
    pub covered: int,
    /// The progress points reported so far.
    pub points: Seq<(int, int)>,
    /// A text column's statistics could not be read.
    pub failed: bool,
}

/// The state after row `i`.
pub open spec fn lcv_step(rows: Seq<StatsRow>, limit: int, interval: int, s: LengthCoverageModel, i: int) -> LengthCoverageModel {
    let s1 = if starts_config(rows, i) {
        let s2 = if s.visited > 0 {
            let c = s.covered + if limit > s.length { 1int } else { 0int };
            LengthCoverageModel {
                covered: c,
                points: if s.visited % interval == 0 { s.points.push((s.visited, c)) } else { s.points },
                ..s
            }
        } else {
            s
        };
        LengthCoverageModel { length: 0, visited: s2.visited + 1, ..s2 }
    } else {
        s
    };
    match text_length_from(s1.length, rows[i].1.statistics@, 0) {
        None => LengthCoverageModel { failed: true, ..s1 },
        Some(l) => LengthCoverageModel { length: l, ..s1 },
    }
}

/// The state once the rows from `i` on have been read, starting from `s`.
pub open spec fn lcv_run_from(
    rows: Seq<StatsRow>,
    limit: int,
    interval: int,
    s: LengthCoverageModel,
    i: int,
) -> LengthCoverageModel
    decreases rows.len() - i,
{
    if i < 0 || i >= rows.len() || s.failed {
        s
    } else {
        lcv_run_from(rows, limit, interval, lcv_step(rows, limit, interval, s, i), i + 1)
    }
}

/// The state once all rows have been read.
pub open spec fn lcv_run(rows: Seq<StatsRow>, limit: int, interval: int) -> LengthCoverageModel {
    lcv_run_from(
        rows,
        limit,
        interval,
        LengthCoverageModel { length: 0, visited: 0, covered: 0, points: Seq::empty(), failed: false },
        0,
    )
}

/// Every point reported: those made while reading, then one more when the
/// number of configs plus one is not a multiple of `interval`.
pub open spec fn lcv_points(m: LengthCoverageModel, interval: int) -> Seq<(int, int)> {
    let v = m.visited + 1;
    m.points + if v % interval != 0 {
        seq![(v, m.covered)]
    } else {
        Seq::empty()
    }
}

/// How many configs have texts shorter than `limit`: the split statistics
/// `rows` are read in order and grouped by config, and a progress point is
/// reported as `lcv_points` says. `None` when a text column's statistics
/// cannot be read.
pub fn text_length_limit_coverage_by_config(rows: &Vec<StatsRow>, limit: usize, report_interval: i32) -> (r: Option<
    Vec<(i32, i32)>,
>)
    requires
        report_interval != 0,
        rows@.len() < i32::MAX - 1,
    ensures
        ({
            let m = lcv_run(rows@, limit as int, report_interval as int);
            match r {
                None => m.failed,
                Some(points) => !m.failed && points_view(points@) == lcv_points(m, report_interval as int),
            }
        }),
{
    let ghost final_model = lcv_run(rows@, limit as int, report_interval as int);
    let mut length: usize = 0;
    let mut visited: i32 = 0;
    let mut covered: i32 = 0;
    let mut points: Vec<(i32, i32)> = Vec::new();
    let mut failed = false;
    let mut i: usize = 0;
    assert(points_view(points@) =~= Seq::empty());
    while i < rows.len() && !failed
        invariant
            i <= rows@.len() < i32::MAX - 1,
            report_interval != 0,
            0 <= covered <= visited <= i,
            final_model == lcv_run(rows@, limit as int, report_interval as int),
            lcv_run_from(
                rows@,
                limit as int,
                report_interval as int,
                LengthCoverageModel {
                    length: length as int,
                    visited: visited as int,
                    covered: covered as int,
                    points: points_view(points@),
                    failed: failed,
                },
                i as int,
            ) == final_model,
        decreases rows.len() - i,
    {
        let ghost s0 = LengthCoverageModel {
            length: length as int,
            visited: visited as int,
            covered: covered as int,
            points: points_view(points@),
            failed: failed,
        };
        if is_new_config(rows, i) {
            if visited > 0 {
                if limit > length {
                    covered = covered + 1;
                }
                if visited % report_interval == 0 {
                    let ghost before = points@;
                    points.push((visited, covered));
                    assert(points_view(points@) =~= points_view(before).push((visited as int, covered as int)));
                }
            }
            length = 0;
            visited = visited + 1;
        }
        match text_length_of_columns(length, &rows[i].1.statistics) {
            None => {
                failed = true;
            },
            Some(l) => {
                length = l;
            },
        }
        proof {
            let s1 = LengthCoverageModel {
                length: length as int,
                visited: visited as int,
                covered: covered as int,
                points: points_view(points@),
                failed: failed,
            };
            assert(s1 == lcv_step(rows@, limit as int, report_interval as int, s0, i as int));
        }
        i = i + 1;
    }
    if failed {
        return None;
    }
    let v = visited + 1;
    if v % report_interval != 0 {
        let ghost before = points@;
        points.push((v, covered));
        assert(points_view(points@) =~= points_view(before).push((v as int, covered as int)));
    }
    Some(points)
}

/// The state of the text-length limit analysis after some rows.
pub struct LengthLimitModel {
    /// The longest text of the current config.
    pub length: int,
    /// The longest text length gathered at each config start.
    pub lengths: Seq<int>,
    /// A text column's statistics could not be read.
    pub failed: bool,
}

/// The state after row `i`.
pub open spec fn ll_step(rows: Seq<StatsRow>, m: int, s: LengthLimitModel, i: int) -> LengthLimitModel {
    let s1 = if starts_config(rows, i) {
        LengthLimitModel { length: 0, lengths: s.lengths.push(s.length), ..s }
    } else {
        s
    };
    if s1.lengths.len() >= m {
        s1
    } else {
        match text_length_from(s1.length, rows[i].1.statistics@, 0) {
            None => LengthLimitModel { failed: true, ..s1 },
            Some(l) => LengthLimitModel { length: l, ..s1 },
        }
    }
}

/// The state once the rows from `i` on have been read, starting from `s`,
/// stopping once `m` lengths have been gathered.
pub open spec fn ll_run_from(rows: Seq<StatsRow>, m: int, s: LengthLimitModel, i: int) -> LengthLimitModel
    decreases rows.len() - i,
{
    if i < 0 || i >= rows.len() || s.lengths.len() >= m || s.failed {
        s
    } else {
        ll_run_from(rows, m, ll_step(rows, m, s, i), i + 1)
    }
}

/// The state once the rows have been read, stopping once `m` lengths have been gathered.
pub open spec fn ll_run(rows: Seq<StatsRow>, m: int) -> LengthLimitModel {
    ll_run_from(rows, m, LengthLimitModel { length: 0, lengths: Seq::empty(), failed: false }, 0)
}

/// The text-length limit that covers the configs at positions below
/// `target_count` among the first `top_count` configs (see `desired_limit`):
/// `Err(())` when a text column's statistics cannot be read before enough
/// configs have begun, else as `is_desired_outcome` says.
pub fn desired_text_length_limit_by_config(rows: &Vec<StatsRow>, top_count: usize, target_count: usize) -> (r: Result<
    DesiredLimit<usize>,
    (),
>)
    ensures
        ({
            let m = ll_run(rows@, top_values(top_count as int));
            match r {
                Err(_) => m.failed,
                Ok(d) => !m.failed && is_desired_outcome(
                    d,
                    |x: usize| x as int,
                    m.lengths,
                    top_count as int,
                    target_count as int,
                ),
            }
        }),
{
    let m: usize = if top_count < 1 {
        1
    } else {
        top_count
    };
    let ghost final_model = ll_run(rows@, m as int);
    let mut length: usize = 0;
    let mut lengths: Vec<usize> = Vec::new();
    let mut failed = false;
    let mut i: usize = 0;
    assert(usize_view(lengths@) =~= Seq::empty());
    while i < rows.len() && lengths.len() < m && !failed
        invariant
            i <= rows@.len(),
            lengths@.len() <= m,
            final_model == ll_run(rows@, m as int),
            ll_run_from(
                rows@,
                m as int,
                LengthLimitModel { length: length as int, lengths: usize_view(lengths@), failed: failed },
                i as int,
            ) == final_model,
        decreases rows.len() - i,
    {
        let ghost s0 = LengthLimitModel { length: length as int, lengths: usize_view(lengths@), failed: failed };
        if is_new_config(rows, i) {
            let ghost before = lengths@;
            lengths.push(length);
            assert(usize_view(lengths@) =~= usize_view(before).push(length as int));
            length = 0;
        }
        if lengths.len() < m {
            match text_length_of_columns(length, &rows[i].1.statistics) {
                None => {
                    failed = true;
                },
                Some(l) => {
                    length = l;
                },
            }
        }
        proof {
            let s1 = LengthLimitModel { length: length as int, lengths: usize_view(lengths@), failed: failed };
            assert(s1 == ll_step(rows@, m as int, s0, i as int));
        }
        i = i + 1;
    }
    if failed {
        return Err(());
    }
    if lengths.len() < m {
        return Ok(DesiredLimit::NotReached);
    }
    if target_count >= m {
        return Ok(DesiredLimit::OutOfRange);
    }
    let sorted = sort_usize(&lengths);
    proof {
        lemma_sort_len(ints_usize(lengths@));
        assert(ints_usize(lengths@) == usize_view(lengths@));
        assert(usize_view(lengths@).take(m as int) =~= usize_view(lengths@));
    }
    Ok(DesiredLimit::Limit(sorted[target_count]))
}

} // verus!
