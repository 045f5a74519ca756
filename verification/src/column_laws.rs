use vstd::prelude::*;

use crate::image_size::{is_columns_from, is_flush, is_image_column, is_step, ImageSizeModel};
use crate::label_cardinality::{lc_column, lc_columns_from, lc_run, lc_run_from, lc_step, CardinalityModel};
use crate::label_min_examples::{me_column, me_columns_from, me_fits, me_fits_from, me_run, me_run_from, me_step, MinExamplesModel};
use crate::label_stats::is_label_column;
use crate::max_columns::{cc_run_from, cc_step, cl_run_from, cl_step, insert_columns_from, insert_name, ColumnsCoverageModel, ColumnsLimitModel};
use crate::max_field_length::{is_text_column, lcv_step, ll_step, text_length_from, LengthCoverageModel, LengthLimitModel};
use crate::models::{ColumnStats, StatsRow, starts_config};
use crate::tabular_inputs::{split_columns_from, tab_step, TabularModel};

verus! {

/// The class count of a column, when it is a label column whose statistics could be read.
pub open spec fn readable_label_cardinality(c: ColumnStats) -> Option<int> {
    if is_label_column(c) {
        match c.string_label {
            Ok(st) => Some((st.n_unique as usize) as int),
            Err(_) => None,
        }
    } else {
        None
    }
}

/// The largest width of a column, when it is an image column whose statistics
/// could be read and give a largest width.
pub open spec fn readable_image_width(c: ColumnStats) -> Option<int> {
    if is_image_column(c) {
        match c.image {
            Ok(st) => match st.max {
                Some(m) => Some((m as usize) as int),
                None => None,
            },
            Err(_) => None,
        }
    } else {
        None
    }
}

/// The longest text of a column, when it is a text column whose statistics could be read.
pub open spec fn readable_text_length(c: ColumnStats) -> Option<int> {
    if is_text_column(c) {
        match c.string_text {
            Ok(st) => Some((st.max as usize) as int),
            Err(_) => None,
        }
    } else {
        None
    }
}

/// The cardinality after the label columns of a row, from position `j` on, is
/// the largest of the starting cardinality and the class count of every
/// readable label column: at least each of them, and equal to one of them.
pub proof fn lemma_row_cardinality_is_max(
    card: int,
    errs: Seq<(int, Seq<char>)>,
    i: int,
    cols: Seq<ColumnStats>,
    j: int,
)
    requires
        0 <= j,
    ensures
        ({
            let r = lc_columns_from(card, errs, i, cols, j).0;
            &&& r >= card
            &&& forall|k: int|
                j <= k < cols.len() ==> (#[trigger] readable_label_cardinality(cols[k]) matches Some(n) ==> r >= n)
            &&& r == card || exists|k: int|
                j <= k < cols.len() && #[trigger] readable_label_cardinality(cols[k]) == Some(r)
        }),
    decreases cols.len() - j,
{
    if j < cols.len() {
        let c = cols[j];
        let n = (c.string_label->Ok_0.n_unique as usize) as int;
        let c1 = if is_label_column(c) && c.string_label is Ok && n > card { n } else { card };
        let e1 = if is_label_column(c) && c.string_label is Err {
            errs.push((i, c.string_label->Err_0@))
        } else {
            errs
        };
        lemma_row_cardinality_is_max(c1, e1, i, cols, j + 1);
        let r = lc_columns_from(card, errs, i, cols, j).0;
        assert(lc_columns_from(card, errs, i, cols, j).0 == lc_columns_from(c1, e1, i, cols, j + 1).0);
        assert(readable_label_cardinality(cols[j]) matches Some(m) ==> r >= m);
        if r != card && r != c1 {
            let k = choose|k: int| j + 1 <= k < cols.len() && #[trigger] readable_label_cardinality(cols[k]) == Some(r);
            assert(readable_label_cardinality(cols[k]) == Some(r));
        }
        if r == c1 && c1 != card {
            assert(readable_label_cardinality(cols[j]) == Some(r));
        }
    }
}

/// Reading a row of the label-cardinality analysis: the cardinality of the
/// config afterwards is at least the class count of every readable label
/// column of the row, is at least the one before when the row continues the
/// config, and is one of those values (or 0 when a config began with no label
/// column); a config that is finished is recorded with its cardinality.
pub proof fn lemma_cardinality_step(rows: Seq<StatsRow>, target: int, s: CardinalityModel, i: int)
    requires
        0 <= i < rows.len(),
        !s.stopped,
        !s.found,
    ensures
        ({
            let s2 = lc_step(rows, target, s, i);
            let cols = rows[i].1.statistics@;
            let start = if starts_config(rows, i) { 0 } else { s.cardinality };
            &&& !s2.stopped && !s2.found ==> {
                &&& s2.cardinality >= start
                &&& forall|k: int|
                    0 <= k < cols.len() ==> (#[trigger] readable_label_cardinality(cols[k]) matches Some(n)
                        ==> s2.cardinality >= n)
                &&& s2.cardinality == start || exists|k: int|
                    0 <= k < cols.len() && #[trigger] readable_label_cardinality(cols[k]) == Some(s2.cardinality)
            }
            &&& starts_config(rows, i) && s.cardinality != 0 && !s2.found ==> s2.flushed == s.flushed.push(
                s.cardinality,
            )
        }),
{
    let s1 = if starts_config(rows, i) {
        crate::label_cardinality::lc_flush(s, target, i)
    } else {
        s
    };
    lemma_row_cardinality_is_max(s1.cardinality, s1.errors, i, rows[i].1.statistics@, 0);
}

/// The width after the image columns of a row, from position `j` on, is the
/// largest of the starting width and the largest width of every readable
/// image column: at least each of them, and equal to one of them.
pub proof fn lemma_row_width_is_max(w: int, errs: Seq<(int, Seq<char>)>, i: int, cols: Seq<ColumnStats>, j: int)
    requires
        0 <= j,
    ensures
        ({
            let r = is_columns_from(w, errs, i, cols, j).0;
            &&& r >= w
            &&& forall|k: int|
                j <= k < cols.len() ==> (#[trigger] readable_image_width(cols[k]) matches Some(n) ==> r >= n)
            &&& r == w || exists|k: int| j <= k < cols.len() && #[trigger] readable_image_width(cols[k]) == Some(r)
        }),
    decreases cols.len() - j,
{
    if j < cols.len() {
        let c = cols[j];
        let n = match readable_image_width(c) {
            Some(x) => x,
            None => w,
        };
        let w1 = if n > w { n } else { w };
        let e1 = if is_image_column(c) && c.image is Err { errs.push((i, c.image->Err_0@)) } else { errs };
        lemma_row_width_is_max(w1, e1, i, cols, j + 1);
        let r = is_columns_from(w, errs, i, cols, j).0;
        assert(is_columns_from(w, errs, i, cols, j).0 == is_columns_from(w1, e1, i, cols, j + 1).0);
        if r != w && r != w1 {
            let k = choose|k: int| j + 1 <= k < cols.len() && #[trigger] readable_image_width(cols[k]) == Some(r);
            assert(readable_image_width(cols[k]) == Some(r));
        }
        if r == w1 && w1 != w {
            assert(readable_image_width(cols[j]) == Some(r));
        }
    }
}

/// Reading a row of the image-size analysis: the width of the config
/// afterwards is at least the largest width of every readable image column of
/// the row, is at least the one before when the row continues the config, and
/// is one of those values (or 0 when a config began with no image).
pub proof fn lemma_image_width_step(rows: Seq<StatsRow>, target: int, bucket_size: int, s: ImageSizeModel, i: int)
    requires
        0 <= i < rows.len(),
        !s.stopped,
    ensures
        ({
            let s2 = is_step(rows, target, bucket_size, s, i);
            let cols = rows[i].1.statistics@;
            let start = if starts_config(rows, i) { 0 } else { s.width };
            !s2.stopped ==> {
                &&& s2.width >= start
                &&& forall|k: int|
                    0 <= k < cols.len() ==> (#[trigger] readable_image_width(cols[k]) matches Some(n) ==> s2.width
                        >= n)
                &&& s2.width == start || exists|k: int|
                    0 <= k < cols.len() && #[trigger] readable_image_width(cols[k]) == Some(s2.width)
            }
        }),
{
    let s1 = if starts_config(rows, i) { is_flush(s, target, bucket_size) } else { s };
    lemma_row_width_is_max(s1.width, s1.errors, i, rows[i].1.statistics@, 0);
}

/// A finished config with images goes in the bucket of its width, so every
/// width `n` up to the config's width falls in that bucket or a lower one.
pub proof fn lemma_image_bucket_of_config(s: ImageSizeModel, target: int, bucket_size: int, n: int)
    requires
        s.width != 0,
        0 <= n <= s.width,
        bucket_size > 0,
    ensures
        is_flush(s, target, bucket_size).buckets == s.buckets.push(s.width / bucket_size),
        n / bucket_size <= is_flush(s, target, bucket_size).buckets.last(),
{
    vstd::arithmetic::div_mod::lemma_div_is_ordered(n, s.width, bucket_size);
}

/// The text length after the text columns of a row, from position `j` on, is
/// the largest of the starting length and the longest text of every text
/// column; there is none exactly when a text column cannot be read.
pub proof fn lemma_row_text_length_is_max(len: int, cols: Seq<ColumnStats>, j: int)
    requires
        0 <= j,
    ensures
        text_length_from(len, cols, j) is None <==> exists|k: int|
            j <= k < cols.len() && is_text_column(#[trigger] cols[k]) && cols[k].string_text is Err,
        text_length_from(len, cols, j) matches Some(r) ==> {
            &&& r >= len
            &&& forall|k: int|
                j <= k < cols.len() ==> (#[trigger] readable_text_length(cols[k]) matches Some(n) ==> r >= n)
            &&& r == len || exists|k: int| j <= k < cols.len() && #[trigger] readable_text_length(cols[k]) == Some(r)
        },
    decreases cols.len() - j,
{
    if j < cols.len() {
        let c = cols[j];
        if is_text_column(c) && c.string_text is Err {
            assert(text_length_from(len, cols, j) is None);
            assert(is_text_column(cols[j]) && cols[j].string_text is Err);
        } else {
            let n = match readable_text_length(c) {
                Some(x) => x,
                None => len,
            };
            let l1 = if n > len { n } else { len };
            lemma_row_text_length_is_max(l1, cols, j + 1);
            assert(text_length_from(len, cols, j) == text_length_from(l1, cols, j + 1));
            if text_length_from(len, cols, j) is None {
                let k = choose|k: int| j + 1 <= k < cols.len() && is_text_column(#[trigger] cols[k]) && cols[k].string_text is Err;
                assert(is_text_column(cols[k]) && cols[k].string_text is Err);
            } else {
                assert forall|k: int| j <= k < cols.len() && is_text_column(#[trigger] cols[k]) implies !(
                cols[k].string_text is Err) by {
                    if k > j && cols[k].string_text is Err {
                        assert(is_text_column(cols[k]) && cols[k].string_text is Err);
                    }
                }
                let r = text_length_from(len, cols, j)->0;
                if r != len && r != l1 {
                    let k = choose|k: int| j + 1 <= k < cols.len() && #[trigger] readable_text_length(cols[k]) == Some(r);
                    assert(readable_text_length(cols[k]) == Some(r));
                }
                if r == l1 && l1 != len {
                    assert(readable_text_length(cols[j]) == Some(r));
                }
            }
        }
    }
}

/// The column names of `cols` from position `j` on.
pub open spec fn names_from(cols: Seq<ColumnStats>, j: int, x: Seq<char>) -> bool {
    exists|k: int| j <= k < cols.len() && (#[trigger] cols[k]).column_name@ == x
}

/// Adding the column names of a row to a config's names keeps them free of
/// repeats, keeps the names already there in front, and holds exactly the old
/// names and the row's column names: its length is the number of distinct names.
pub proof fn lemma_column_names_distinct(names: Seq<Seq<char>>, cols: Seq<ColumnStats>, j: int)
    requires
        0 <= j,
        names.no_duplicates(),
    ensures
        ({
            let r = insert_columns_from(names, cols, j);
            &&& r.no_duplicates()
            &&& r.len() >= names.len()
            &&& r.take(names.len() as int) == names
            &&& forall|x: Seq<char>| #[trigger] r.contains(x) <==> (names.contains(x) || names_from(cols, j, x))
        }),
    decreases cols.len() - j,
{
    if j < cols.len() {
        let n = cols[j].column_name@;
        let n1 = insert_name(names, n);
        assert(n1.no_duplicates()) by {
            if !names.contains(n) {
                assert forall|a: int, b: int| 0 <= a < n1.len() && 0 <= b < n1.len() && a != b implies n1[a]
                    != n1[b] by {
                    if a == names.len() as int {
                        assert(names.contains(n1[b]));
                    } else if b == names.len() as int {
                        assert(names.contains(n1[a]));
                    }
                }
            }
        }
        lemma_column_names_distinct(n1, cols, j + 1);
        let r = insert_columns_from(names, cols, j);
        assert(r == insert_columns_from(n1, cols, j + 1));
        assert(n1.take(names.len() as int) =~= names);
        assert(r.take(names.len() as int) =~= r.take(n1.len() as int).take(names.len() as int));
        assert forall|x: Seq<char>| #[trigger] r.contains(x) <==> (names.contains(x) || names_from(cols, j, x)) by {
            if n1.contains(x) && !names.contains(x) {
                assert(x == n);
                assert(cols[j].column_name@ == x);
            }
            if names.contains(x) {
                let q = choose|q: int| 0 <= q < names.len() && names[q] == x;
                assert(n1[q] == x);
            }
            if x == n {
                if names.contains(n) {
                } else {
                    assert(n1[names.len() as int] == x);
                }
            }
            if names_from(cols, j, x) && x != n {
                let k = choose|k: int| j <= k < cols.len() && (#[trigger] cols[k]).column_name@ == x;
                assert(names_from(cols, j + 1, x));
            }
            if names_from(cols, j + 1, x) {
                let k = choose|k: int| j + 1 <= k < cols.len() && (#[trigger] cols[k]).column_name@ == x;
                assert(names_from(cols, j, x));
            }
        }
    } else {
        assert(names.take(names.len() as int) =~= names);
    }
}

/// Reading a row of the column-count coverage analysis keeps the config's
/// names free of repeats, and they are then exactly the names seen before in
/// the config (none when the row begins a config) and the row's column names.
pub proof fn lemma_coverage_names_step(rows: Seq<StatsRow>, limit: int, interval: int, s: ColumnsCoverageModel, i: int)
    requires
        0 <= i < rows.len(),
        s.names.no_duplicates(),
    ensures
        ({
            let s2 = cc_step(rows, limit, interval, s, i);
            &&& s2.names.no_duplicates()
            &&& !s2.duplicate ==> forall|x: Seq<char>|
                #[trigger] s2.names.contains(x) <==> ((!starts_config(rows, i) && s.names.contains(x)) || names_from(
                    rows[i].1.statistics@,
                    0,
                    x,
                ))
        }),
{
    let s1 = if starts_config(rows, i) {
        crate::max_columns::cc_flush(s, rows[i], limit, interval)
    } else {
        s
    };
    assert(s1.names.no_duplicates());
    if starts_config(rows, i) {
        assert forall|x: Seq<char>| !s1.names.contains(x) by {}
    }
    lemma_column_names_distinct(s1.names, rows[i].1.statistics@, 0);
}

/// Throughout the column-count coverage analysis the names kept for a config
/// have no repeats, so the count compared with the limit is the number of
/// distinct column names.
pub proof fn lemma_coverage_names_distinct(rows: Seq<StatsRow>, limit: int, interval: int, s: ColumnsCoverageModel, i: int)
    requires
        s.names.no_duplicates(),
    ensures
        cc_run_from(rows, limit, interval, s, i).names.no_duplicates(),
    decreases rows.len() - i,
{
    if !(i < 0 || i >= rows.len() || s.duplicate) {
        lemma_coverage_names_step(rows, limit, interval, s, i);
        lemma_coverage_names_distinct(rows, limit, interval, cc_step(rows, limit, interval, s, i), i + 1);
    }
}

/// Reading a row of the column-count limit analysis keeps the config's names
/// free of repeats, and they are then exactly the names seen before in the
/// config (none when the row begins a config) and the row's column names; a
/// config that ends is counted with its number of distinct names.
pub proof fn lemma_limit_names_step(rows: Seq<StatsRow>, s: ColumnsLimitModel, i: int)
    requires
        0 <= i < rows.len(),
        s.names.no_duplicates(),
    ensures
        ({
            let s2 = cl_step(rows, s, i);
            &&& s2.names.no_duplicates()
            &&& forall|x: Seq<char>|
                #[trigger] s2.names.contains(x) <==> ((!starts_config(rows, i) && s.names.contains(x)) || names_from(
                    rows[i].1.statistics@,
                    0,
                    x,
                ))
            &&& s2.counts == if starts_config(rows, i) { s.counts.push(s.names.len() as int) } else { s.counts }
        }),
{
    let s1 = if starts_config(rows, i) {
        ColumnsLimitModel { names: Seq::empty(), counts: s.counts.push(s.names.len() as int) }
    } else {
        s
    };
    if starts_config(rows, i) {
        assert forall|x: Seq<char>| !s1.names.contains(x) by {}
    }
    lemma_column_names_distinct(s1.names, rows[i].1.statistics@, 0);
}

/// Throughout the column-count limit analysis the names kept for a config
/// have no repeats, so each count gathered is a number of distinct column names.
pub proof fn lemma_limit_names_distinct(rows: Seq<StatsRow>, m: int, s: ColumnsLimitModel, i: int)
    requires
        s.names.no_duplicates(),
    ensures
        cl_run_from(rows, m, s, i).names.no_duplicates(),
    decreases rows.len() - i,
{
    if !(i < 0 || i >= rows.len() || s.counts.len() >= m) {
        lemma_limit_names_step(rows, s, i);
        lemma_limit_names_distinct(rows, m, cl_step(rows, s, i), i + 1);
    }
}

/// Reading a row of the text-length coverage analysis: it fails exactly when
/// a text column of the row cannot be read; otherwise the config's length is
/// at least the one before (0 when the row begins a config) and at least the
/// longest text of every text column of the row, and is one of those values.
pub proof fn lemma_text_coverage_step(rows: Seq<StatsRow>, limit: int, interval: int, s: LengthCoverageModel, i: int)
    requires
        0 <= i < rows.len(),
        !s.failed,
    ensures
        ({
            let s2 = lcv_step(rows, limit, interval, s, i);
            let cols = rows[i].1.statistics@;
            let start = if starts_config(rows, i) { 0 } else { s.length };
            &&& s2.failed <==> exists|k: int|
                0 <= k < cols.len() && is_text_column(#[trigger] cols[k]) && cols[k].string_text is Err
            &&& !s2.failed ==> {
                &&& s2.length >= start
                &&& forall|k: int|
                    0 <= k < cols.len() ==> (#[trigger] readable_text_length(cols[k]) matches Some(n) ==> s2.length
                        >= n)
                &&& s2.length == start || exists|k: int|
                    0 <= k < cols.len() && #[trigger] readable_text_length(cols[k]) == Some(s2.length)
            }
        }),
{
    let start = if starts_config(rows, i) { 0 } else { s.length };
    lemma_row_text_length_is_max(start, rows[i].1.statistics@, 0);
}

/// Reading a row of the text-length limit analysis while lengths are still
/// gathered: it fails exactly when a text column of the row cannot be read;
/// otherwise the config's length is at least the one before (0 when the row
/// begins a config) and at least the longest text of every text column of
/// the row, and is one of those values. A config that ends is gathered with its length.
pub proof fn lemma_text_limit_step(rows: Seq<StatsRow>, m: int, s: LengthLimitModel, i: int)
    requires
        0 <= i < rows.len(),
        !s.failed,
    ensures
        ({
            let s2 = ll_step(rows, m, s, i);
            let cols = rows[i].1.statistics@;
            let start = if starts_config(rows, i) { 0 } else { s.length };
            &&& s2.lengths == if starts_config(rows, i) { s.lengths.push(s.length) } else { s.lengths }
            &&& s2.lengths.len() < m ==> {
                &&& s2.failed <==> exists|k: int|
                    0 <= k < cols.len() && is_text_column(#[trigger] cols[k]) && cols[k].string_text is Err
                &&& !s2.failed ==> {
                    &&& s2.length >= start
                    &&& forall|k: int|
                        0 <= k < cols.len() ==> (#[trigger] readable_text_length(cols[k]) matches Some(n)
                            ==> s2.length >= n)
                    &&& s2.length == start || exists|k: int|
                        0 <= k < cols.len() && #[trigger] readable_text_length(cols[k]) == Some(s2.length)
                }
            }
        }),
{
    let start = if starts_config(rows, i) { 0 } else { s.length };
    lemma_row_text_length_is_max(start, rows[i].1.statistics@, 0);
}

/// The label columns of a list of columns, in order.
pub open spec fn label_columns(cols: Seq<ColumnStats>) -> Seq<ColumnStats>
    decreases cols.len(),
{
    if cols.len() == 0 {
        Seq::empty()
    } else {
        (if is_label_column(cols[0]) {
            seq![cols[0]]
        } else {
            Seq::empty()
        }) + label_columns(cols.drop_first())
    }
}

/// The two row lists name the same splits in the same order and have the
/// same label columns in each row; they may differ in their other columns.
pub open spec fn same_label_columns(rows: Seq<StatsRow>, rows2: Seq<StatsRow>) -> bool {
    &&& rows.len() == rows2.len()
    &&& forall|i: int|
        0 <= i < rows.len() ==> (#[trigger] rows[i]).0 == rows2[i].0 && label_columns(rows[i].1.statistics@)
            == label_columns(rows2[i].1.statistics@)
}

proof fn lemma_me_columns_shift(
    f: Seq<(Seq<char>, Seq<(Seq<char>, int)>)>,
    errs: Seq<(int, Seq<char>)>,
    i: int,
    cols: Seq<ColumnStats>,
    j: int,
)
    requires
        0 <= j <= cols.len(),
    ensures
        me_columns_from(f, errs, i, cols, j) == me_columns_from(f, errs, i, cols.skip(j), 0),
    decreases cols.len() - j,
{
    let t = cols.skip(j);
    if j < cols.len() {
        let r = me_column(f, errs, i, cols[j]);
        assert(t[0] == cols[j]);
        lemma_me_columns_shift(r.0, r.1, i, cols, j + 1);
        lemma_me_columns_shift(r.0, r.1, i, t, 1);
        assert(t.skip(1) =~= cols.skip(j + 1));
    } else {
        assert(t.len() == 0);
    }
}

proof fn lemma_me_columns_label_only(
    f: Seq<(Seq<char>, Seq<(Seq<char>, int)>)>,
    errs: Seq<(int, Seq<char>)>,
    i: int,
    cols: Seq<ColumnStats>,
)
    ensures
        me_columns_from(f, errs, i, cols, 0) == me_columns_from(f, errs, i, label_columns(cols), 0),
    decreases cols.len(),
{
    if cols.len() > 0 {
        let c = cols[0];
        let rest = cols.drop_first();
        let r = me_column(f, errs, i, c);
        lemma_me_columns_shift(r.0, r.1, i, cols, 1);
        assert(cols.skip(1) =~= rest);
        lemma_me_columns_label_only(r.0, r.1, i, rest);
        let l = label_columns(cols);
        if is_label_column(c) {
            assert(l =~= seq![c] + label_columns(rest));
            assert(l[0] == c);
            lemma_me_columns_shift(r.0, r.1, i, l, 1);
            assert(l.skip(1) =~= label_columns(rest));
        } else {
            assert(l =~= label_columns(rest));
            assert(r == (f, errs));
        }
    }
}

proof fn lemma_me_step_label_only(
    rows: Seq<StatsRow>,
    rows2: Seq<StatsRow>,
    target: int,
    s: MinExamplesModel,
    i: int,
)
    requires
        same_label_columns(rows, rows2),
        0 <= i < rows.len(),
    ensures
        me_step(rows, target, s, i) == me_step(rows2, target, s, i),
{
    assert(rows[i].0 == rows2[i].0);
    if i > 0 {
        assert(rows[i - 1].0 == rows2[i - 1].0);
    }
    assert(starts_config(rows, i) == starts_config(rows2, i));
    let s1 = if starts_config(rows, i) {
        crate::label_min_examples::me_flush(s, target)
    } else {
        s
    };
    lemma_me_columns_label_only(s1.freqs, s1.errors, i, rows[i].1.statistics@);
    lemma_me_columns_label_only(s1.freqs, s1.errors, i, rows2[i].1.statistics@);
}

proof fn lemma_me_run_label_only(
    rows: Seq<StatsRow>,
    rows2: Seq<StatsRow>,
    target: int,
    s: MinExamplesModel,
    i: int,
)
    requires
        same_label_columns(rows, rows2),
    ensures
        me_run_from(rows, target, s, i) == me_run_from(rows2, target, s, i),
        me_fits_from(rows, target, s, i) == me_fits_from(rows2, target, s, i),
    decreases rows.len() - i,
{
    if !(i < 0 || i >= rows.len() || s.stopped || s.failed) {
        lemma_me_step_label_only(rows, rows2, target, s, i);
        lemma_me_run_label_only(rows, rows2, target, me_step(rows, target, s, i), i + 1);
    }
}

/// The minimum-examples analysis reads label columns only: two lists of rows
/// that name the same splits and have the same label columns in each row
/// give the same analysis (the same configs with labels, the same minimum and
/// median pairs, the same errors, and the same overflow outcome), whatever
/// other columns they hold.
pub proof fn lemma_min_examples_reads_label_columns_only(rows: Seq<StatsRow>, rows2: Seq<StatsRow>, target: int)
    requires
        same_label_columns(rows, rows2),
    ensures
        me_run(rows, target) == me_run(rows2, target),
        me_fits(rows, target) == me_fits(rows2, target),
{
    lemma_me_run_label_only(rows, rows2, target, crate::label_min_examples::me_init(), 0);
}

proof fn lemma_lc_columns_shift(card: int, errs: Seq<(int, Seq<char>)>, i: int, cols: Seq<ColumnStats>, j: int)
    requires
        0 <= j <= cols.len(),
    ensures
        lc_columns_from(card, errs, i, cols, j) == lc_columns_from(card, errs, i, cols.skip(j), 0),
    decreases cols.len() - j,
{
    let t = cols.skip(j);
    if j < cols.len() {
        let r = lc_column(card, errs, i, cols[j]);
        assert(t[0] == cols[j]);
        lemma_lc_columns_shift(r.0, r.1, i, cols, j + 1);
        lemma_lc_columns_shift(r.0, r.1, i, t, 1);
        assert(t.skip(1) =~= cols.skip(j + 1));
    } else {
        assert(t.len() == 0);
    }
}

proof fn lemma_lc_columns_label_only(card: int, errs: Seq<(int, Seq<char>)>, i: int, cols: Seq<ColumnStats>)
    ensures
        lc_columns_from(card, errs, i, cols, 0) == lc_columns_from(card, errs, i, label_columns(cols), 0),
    decreases cols.len(),
{
    if cols.len() > 0 {
        let c = cols[0];
        let rest = cols.drop_first();
        let r = lc_column(card, errs, i, c);
        lemma_lc_columns_shift(r.0, r.1, i, cols, 1);
        assert(cols.skip(1) =~= rest);
        lemma_lc_columns_label_only(r.0, r.1, i, rest);
        let l = label_columns(cols);
        if is_label_column(c) {
            assert(l =~= seq![c] + label_columns(rest));
            assert(l[0] == c);
            lemma_lc_columns_shift(r.0, r.1, i, l, 1);
            assert(l.skip(1) =~= label_columns(rest));
        } else {
            assert(l =~= label_columns(rest));
            assert(r == (card, errs));
        }
    }
}

proof fn lemma_lc_run_label_only(rows: Seq<StatsRow>, rows2: Seq<StatsRow>, target: int, s: CardinalityModel, i: int)
    requires
        same_label_columns(rows, rows2),
    ensures
        lc_run_from(rows, target, s, i) == lc_run_from(rows2, target, s, i),
    decreases rows.len() - i,
{
    if !(i < 0 || i >= rows.len() || s.stopped || s.found) {
        assert(rows[i].0 == rows2[i].0);
        if i > 0 {
            assert(rows[i - 1].0 == rows2[i - 1].0);
        }
        assert(starts_config(rows, i) == starts_config(rows2, i));
        let s1 = if starts_config(rows, i) {
            crate::label_cardinality::lc_flush(s, target, i)
        } else {
            s
        };
        lemma_lc_columns_label_only(s1.cardinality, s1.errors, i, rows[i].1.statistics@);
        lemma_lc_columns_label_only(s1.cardinality, s1.errors, i, rows2[i].1.statistics@);
        assert(lc_step(rows, target, s, i) == lc_step(rows2, target, s, i));
        lemma_lc_run_label_only(rows, rows2, target, lc_step(rows, target, s, i), i + 1);
    }
}

/// The label-cardinality analysis reads label columns only: two lists of
/// rows that name the same splits and have the same label columns in each
/// row give the same analysis, whatever other columns they hold.
pub proof fn lemma_cardinality_reads_label_columns_only(rows: Seq<StatsRow>, rows2: Seq<StatsRow>, target: int)
    requires
        same_label_columns(rows, rows2),
    ensures
        lc_run(rows, target) == lc_run(rows2, target),
{
    lemma_lc_run_label_only(rows, rows2, target, crate::label_cardinality::lc_init(), 0);
}

/// Adding a name keeps a list of names free of repeats, and adds just that name.
pub proof fn lemma_insert_name(names: Seq<Seq<char>>, n: Seq<char>)
    requires
        names.no_duplicates(),
    ensures
        insert_name(names, n).no_duplicates(),
        forall|x: Seq<char>| #[trigger] insert_name(names, n).contains(x) <==> (names.contains(x) || x == n),
{
    let n1 = insert_name(names, n);
    if !names.contains(n) {
        assert forall|a: int, b: int| 0 <= a < n1.len() && 0 <= b < n1.len() && a != b implies n1[a] != n1[b] by {
            if a == names.len() as int {
                assert(names.contains(n1[b]));
            } else if b == names.len() as int {
                assert(names.contains(n1[a]));
            }
        }
        assert forall|x: Seq<char>| #[trigger] n1.contains(x) <==> (names.contains(x) || x == n) by {
            if names.contains(x) {
                let q = choose|q: int| 0 <= q < names.len() && names[q] == x;
                assert(n1[q] == x);
            }
            if x == n {
                assert(n1[names.len() as int] == x);
            }
        }
    }
}

/// The label column names of `cols` from position `j` on.
pub open spec fn label_names_from(cols: Seq<ColumnStats>, j: int, x: Seq<char>) -> bool {
    exists|k: int| j <= k < cols.len() && is_label_column(#[trigger] cols[k]) && cols[k].column_name@ == x
}

/// The other (non-label) column names of `cols` from position `j` on.
pub open spec fn other_names_from(cols: Seq<ColumnStats>, j: int, x: Seq<char>) -> bool {
    exists|k: int| j <= k < cols.len() && !is_label_column(#[trigger] cols[k]) && cols[k].column_name@ == x
}

/// Sorting the columns of a row into label and other columns keeps both
/// lists free of repeats; the labels are then exactly the old labels and the
/// names of the row's label columns, and the others exactly the old others
/// and the names of the row's other columns.
pub proof fn lemma_split_columns(labels: Seq<Seq<char>>, others: Seq<Seq<char>>, cols: Seq<ColumnStats>, j: int)
    requires
        0 <= j,
        labels.no_duplicates(),
        others.no_duplicates(),
    ensures
        ({
            let r = split_columns_from(labels, others, cols, j);
            &&& r.0.no_duplicates()
            &&& r.1.no_duplicates()
            &&& forall|x: Seq<char>| #[trigger] r.0.contains(x) <==> (labels.contains(x) || label_names_from(cols, j, x))
            &&& forall|x: Seq<char>| #[trigger] r.1.contains(x) <==> (others.contains(x) || other_names_from(cols, j, x))
        }),
    decreases cols.len() - j,
{
    if j < cols.len() {
        let c = cols[j];
        let n = c.column_name@;
        let l1 = if is_label_column(c) { insert_name(labels, n) } else { labels };
        let o1 = if is_label_column(c) { others } else { insert_name(others, n) };
        lemma_insert_name(labels, n);
        lemma_insert_name(others, n);
        lemma_split_columns(l1, o1, cols, j + 1);
        let r = split_columns_from(labels, others, cols, j);
        assert(r == split_columns_from(l1, o1, cols, j + 1));
        assert forall|x: Seq<char>| #[trigger] r.0.contains(x) <==> (labels.contains(x) || label_names_from(cols, j, x)) by {
            if label_names_from(cols, j + 1, x) {
                let k = choose|k: int| j + 1 <= k < cols.len() && is_label_column(#[trigger] cols[k]) && cols[k].column_name@ == x;
                assert(label_names_from(cols, j, x));
            }
            if label_names_from(cols, j, x) && !label_names_from(cols, j + 1, x) {
                let k = choose|k: int| j <= k < cols.len() && is_label_column(#[trigger] cols[k]) && cols[k].column_name@ == x;
                assert(k == j);
            }
            if is_label_column(c) && x == n {
                assert(label_names_from(cols, j, x)) by {
                    assert(is_label_column(cols[j]) && cols[j].column_name@ == x);
                }
            }
        }
        assert forall|x: Seq<char>| #[trigger] r.1.contains(x) <==> (others.contains(x) || other_names_from(cols, j, x)) by {
            if other_names_from(cols, j + 1, x) {
                let k = choose|k: int| j + 1 <= k < cols.len() && !is_label_column(#[trigger] cols[k]) && cols[k].column_name@ == x;
                assert(other_names_from(cols, j, x));
            }
            if other_names_from(cols, j, x) && !other_names_from(cols, j + 1, x) {
                let k = choose|k: int| j <= k < cols.len() && !is_label_column(#[trigger] cols[k]) && cols[k].column_name@ == x;
                assert(k == j);
            }
            if !is_label_column(c) && x == n {
                assert(other_names_from(cols, j, x)) by {
                    assert(!is_label_column(cols[j]) && cols[j].column_name@ == x);
                }
            }
        }
    }
}

/// Reading a row of the tabular-inputs analysis: the config's label and
/// other column names stay free of repeats, and are then exactly those seen
/// before in the config (none when the row begins a config) together with
/// the names of the row's label columns and of its other columns.
pub proof fn lemma_tabular_step(rows: Seq<StatsRow>, target: int, s: TabularModel, i: int)
    requires
        0 <= i < rows.len(),
        !s.stopped,
        s.labels.no_duplicates(),
        s.others.no_duplicates(),
    ensures
        ({
            let s2 = tab_step(rows, target, s, i);
            let cols = rows[i].1.statistics@;
            let fresh = starts_config(rows, i);
            !s2.stopped ==> {
                &&& s2.labels.no_duplicates()
                &&& s2.others.no_duplicates()
                &&& forall|x: Seq<char>|
                    #[trigger] s2.labels.contains(x) <==> ((!fresh && s.labels.contains(x)) || label_names_from(cols, 0, x))
                &&& forall|x: Seq<char>|
                    #[trigger] s2.others.contains(x) <==> ((!fresh && s.others.contains(x)) || other_names_from(cols, 0, x))
            }
        }),
{
    let e = Seq::<Seq<char>>::empty();
    let l0 = if starts_config(rows, i) { e } else { s.labels };
    let o0 = if starts_config(rows, i) { e } else { s.others };
    assert forall|x: Seq<char>| !e.contains(x) by {}
    lemma_split_columns(l0, o0, rows[i].1.statistics@, 0);
}

} // verus!
