use vstd::prelude::*;

use crate::label_stats::{is_label_column, is_label_column_exec};
use crate::max_columns::insert_name;
use crate::models::{ColumnStats, StatsRow, starts_config, is_new_config};
use crate::text::{join_chars, join_strs, views};

verus! {

/// The label and other column names after the columns of a row from position `j` on.
pub open spec fn split_columns_from(
    labels: Seq<Seq<char>>,
    others: Seq<Seq<char>>,
    cols: Seq<ColumnStats>,
    j: int,
) -> (Seq<Seq<char>>, Seq<Seq<char>>)
    decreases cols.len() - j,
{
    if j < 0 || j >= cols.len() {
        (labels, others)
    } else if is_label_column(cols[j]) {
        split_columns_from(insert_name(labels, cols[j].column_name@), others, cols, j + 1)
    } else {
        split_columns_from(labels, insert_name(others, cols[j].column_name@), cols, j + 1)
    }
}

/// The state of the tabular-inputs analysis after some rows.
pub struct TabularModel {
    /// The distinct label column names of the current config.
    pub labels: Seq<Seq<char>>,
    /// The distinct other column names of the current config.
    pub others: Seq<Seq<char>>,
    /// The row that began the current config, or -1 before the first.
    pub last: int,
    /// How many configs have begun.
    pub visited: int,
    /// The configs to look at have all been seen.
    pub stopped: bool,
    /// For each finished config with label columns: the row that began it, its label and its other column names.
    pub lines: Seq<(int, Seq<Seq<char>>, Seq<Seq<char>>)>,
}

/// The state after row `i`.
pub open spec fn tab_step(rows: Seq<StatsRow>, target: int, s: TabularModel, i: int) -> TabularModel {
    let s1 = if starts_config(rows, i) {
        let s2 = if s.labels.len() > 0 {
            TabularModel { lines: s.lines.push((s.last, s.labels, s.others)), ..s }
        } else {
            s
        };
        if s2.visited + 1 > target {
            TabularModel { visited: s2.visited + 1, stopped: true, ..s2 }
        } else {
            TabularModel { visited: s2.visited + 1, last: i, labels: Seq::empty(), others: Seq::empty(), ..s2 }
        }
    } else {
        s
    };
    if s1.stopped {
        s1
    } else {
        let r = split_columns_from(s1.labels, s1.others, rows[i].1.statistics@, 0);
        TabularModel { labels: r.0, others: r.1, ..s1 }
    }
}

/// The state once the rows from `i` on have been read, starting from `s`.
pub open spec fn tab_run_from(rows: Seq<StatsRow>, target: int, s: TabularModel, i: int) -> TabularModel
    decreases rows.len() - i,
{
    if i < 0 || i >= rows.len() || s.stopped {
        s
    } else {
        tab_run_from(rows, target, tab_step(rows, target, s, i), i + 1)
    }
}

/// The state once all rows have been read.
pub open spec fn tab_run(rows: Seq<StatsRow>, target: int) -> TabularModel {
    tab_run_from(
        rows,
        target,
        TabularModel {
            labels: Seq::empty(),
            others: Seq::empty(),
            last: -1,
            visited: 0,
            stopped: false,
            lines: Seq::empty(),
        },
        0,
    )
}

/// One reported config of the tabular-inputs analysis.
pub struct TabularLine {
    pub dataset: String,
    pub config: String,
    pub label_count: usize,
    pub non_label_count: usize,
    /// The label column names, joined with `; `.
    pub label_names: String,
    /// The other column names, joined with `; `.
    pub non_label_names: String,
}

/// The line matches the finished config `l` of `rows`.
pub open spec fn line_matches(rows: Seq<StatsRow>, l: (int, Seq<Seq<char>>, Seq<Seq<char>>), t: TabularLine) -> bool {
    &&& (if l.0 >= 0 { t.dataset@ == rows[l.0].0.dataset@ } else { t.dataset@.len() == 0 })
    &&& (if l.0 >= 0 { t.config@ == rows[l.0].0.config@ } else { t.config@.len() == 0 })
    &&& t.label_count == l.1.len()
    &&& t.non_label_count == l.2.len()
    &&& t.label_names@ == join_chars(l.1, "; "@)
    &&& t.non_label_names@ == join_chars(l.2, "; "@)
}

/// Adds the column names of a row to the label names or the other names.
fn split_columns(labels: &mut Vec<String>, others: &mut Vec<String>, cols: &Vec<ColumnStats>)
    ensures
        (views(final(labels)@), views(final(others)@)) == split_columns_from(
            views(old(labels)@),
            views(old(others)@),
            cols@,
            0,
        ),
{
    let ghost target = split_columns_from(views(labels@), views(others@), cols@, 0);
    let mut j: usize = 0;
    while j < cols.len()
        invariant
            j <= cols@.len(),
            split_columns_from(views(labels@), views(others@), cols@, j as int) == target,
        decreases cols.len() - j,
    {
        let c = &cols[j];
        if is_label_column_exec(c) {
            add_name(labels, &c.column_name);
        } else {
            add_name(others, &c.column_name);
        }
        j = j + 1;
    }
}

/// Adds `n` at the end of `names` unless it is there already.
fn add_name(names: &mut Vec<String>, n: &String)
    ensures
        views(final(names)@) == insert_name(views(old(names)@), n@),
{
    let mut k: usize = 0;
    while k < names.len()
        invariant
            k <= names@.len(),
            forall|q: int| 0 <= q < k ==> names@[q]@ != n@,
        decreases names.len() - k,
    {
        if names[k] == *n {
            assert(views(names@)[k as int] == n@);
            return;
        }
        k = k + 1;
    }
    assert forall|q: int| 0 <= q < views(names@).len() implies views(names@)[q] != n@ by {
        assert(views(names@)[q] == names@[q]@);
    }
    let ghost before = names@;
    names.push(n.clone());
    assert(views(names@) =~= views(before).push(n@));
}

/// The tabular-inputs analysis over the split statistics `rows`, read in
/// order and grouped by config, looking at configs until more than
/// `target_count` have begun: a line for each finished config with label columns.
pub fn tabular_inputs_details(rows: &Vec<StatsRow>, target_count: usize) -> (r: Vec<TabularLine>)
    ensures
        ({
            let m = tab_run(rows@, target_count as int);
            &&& r@.len() == m.lines.len()
            &&& forall|k: int| 0 <= k < r@.len() ==> line_matches(rows@, m.lines[k], #[trigger] r@[k])
        }),
{
    let ghost final_model = tab_run(rows@, target_count as int);
    let mut labels: Vec<String> = Vec::new();
    let mut others: Vec<String> = Vec::new();
    let mut last: usize = 0;
    let mut has_last = false;
    let mut visited: usize = 0;
    let mut stopped = false;
    let mut lines: Vec<TabularLine> = Vec::new();
    let ghost mut line_model: Seq<(int, Seq<Seq<char>>, Seq<Seq<char>>)> = Seq::empty();
    let mut i: usize = 0;
    proof {
        assert(views(labels@) =~= Seq::empty());
        assert(views(others@) =~= Seq::empty());
    }
    while i < rows.len() && !stopped
        invariant
            i <= rows@.len(),
            visited <= i,
            has_last ==> last < i,
            final_model == tab_run(rows@, target_count as int),
            lines@.len() == line_model.len(),
            forall|k: int| 0 <= k < lines@.len() ==> line_matches(rows@, line_model[k], #[trigger] lines@[k]),
            tab_run_from(
                rows@,
                target_count as int,
                TabularModel {
                    labels: views(labels@),
                    others: views(others@),
                    last: if has_last { last as int } else { -1 },
                    visited: visited as int,
                    stopped: stopped,
                    lines: line_model,
                },
                i as int,
            ) == final_model,
        decreases rows.len() - i,
    {
        let ghost s0 = TabularModel {
            labels: views(labels@),
            others: views(others@),
            last: if has_last { last as int } else { -1 },
            visited: visited as int,
            stopped: stopped,
            lines: line_model,
        };
        if is_new_config(rows, i) {
            if labels.len() > 0 {
                let (dataset, config) = if has_last {
                    (rows[last].0.dataset.clone(), rows[last].0.config.clone())
                } else {
                    (String::new(), String::new())
                };
                let line = TabularLine {
                    dataset,
                    config,
                    label_count: labels.len(),
                    non_label_count: others.len(),
                    label_names: join_strs(&labels, "; "),
                    non_label_names: join_strs(&others, "; "),
                };
                proof {
                    line_model = line_model.push((s0.last, s0.labels, s0.others));
                }
                lines.push(line);
            }
            visited = visited + 1;
            if visited > target_count {
                stopped = true;
            } else {
                last = i;
                has_last = true;
                labels = Vec::new();
                others = Vec::new();
                assert(views(labels@) =~= Seq::empty());
                assert(views(others@) =~= Seq::empty());
            }
        }
        if !stopped {
            split_columns(&mut labels, &mut others, &rows[i].1.statistics);
        }
        proof {
            let s1 = TabularModel {
                labels: views(labels@),
                others: views(others@),
                last: if has_last { last as int } else { -1 },
                visited: visited as int,
                stopped: stopped,
                lines: line_model,
            };
            assert(s1 == tab_step(rows@, target_count as int, s0, i as int));
        }
        i = i + 1;
    }
    lines
}

} // verus!
