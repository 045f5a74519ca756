use vstd::prelude::*;

use crate::label_cardinality::{count_at_most, count_at_most_exec, usize_view};
use crate::label_min_examples::errors_view;
use crate::models::{ColumnStats, StatsRow, starts_config, is_new_config};
use crate::text::str_eq;

verus! {

/// The state of the image-size analysis after some rows.
pub struct ImageSizeModel {
    /// The largest image width of the current config (0 if none).
    pub width: int,
    /// The bucket of each finished config that has images.
    pub buckets: Seq<int>,
    /// More than the configs to look at have been counted.
    pub stopped: bool,
    /// Row and text of each image column whose statistics could not be read.
    pub errors: Seq<(int, Seq<char>)>,
}

/// The column holds images.
pub open spec fn is_image_column(c: ColumnStats) -> bool {
    c.column_type@ == "image"@
}

/// The state before any row.
pub open spec fn is_init() -> ImageSizeModel {
    ImageSizeModel { width: 0, buckets: Seq::empty(), stopped: false, errors: Seq::empty() }
}

/// A new config begins: the current one, if it has images, is put in its bucket.
pub open spec fn is_flush(s: ImageSizeModel, target: int, bucket_size: int) -> ImageSizeModel {
    if s.width != 0 {
        let b = s.buckets.push(s.width / bucket_size);
        if b.len() > target {
            ImageSizeModel { buckets: b, stopped: true, ..s }
        } else {
            ImageSizeModel { buckets: b, width: 0, ..s }
        }
    } else {
        ImageSizeModel { width: 0, ..s }
    }
}

/// The width and errors after column `c` of row `i`.
pub open spec fn is_column(w: int, errs: Seq<(int, Seq<char>)>, i: int, c: ColumnStats) -> (int, Seq<(int, Seq<char>)>) {
    if is_image_column(c) {
        match c.image {
            Err(e) => (w, errs.push((i, e@))),
            Ok(st) => match st.max {
                Some(m) => {
                    let n = (m as usize) as int;
                    (if n > w { n } else { w }, errs)
                },
                None => (w, errs),
            },
        }
    } else {
        (w, errs)
    }
}

/// The width and errors after the columns of row `i` from position `j` on.
pub open spec fn is_columns_from(
    w: int,
    errs: Seq<(int, Seq<char>)>,
    i: int,
    cols: Seq<ColumnStats>,
    j: int,
) -> (int, Seq<(int, Seq<char>)>)
    decreases cols.len() - j,
{
    if j < 0 || j >= cols.len() {
        (w, errs)
    } else {
        let r = is_column(w, errs, i, cols[j]);
        is_columns_from(r.0, r.1, i, cols, j + 1)
    }
}

/// The state after row `i`.
pub open spec fn is_step(rows: Seq<StatsRow>, target: int, bucket_size: int, s: ImageSizeModel, i: int) -> ImageSizeModel {
    let s1 = if starts_config(rows, i) {
        is_flush(s, target, bucket_size)
    } else {
        s
    };
    if s1.stopped {
        s1
    } else {
        let r = is_columns_from(s1.width, s1.errors, i, rows[i].1.statistics@, 0);
        ImageSizeModel { width: r.0, errors: r.1, ..s1 }
    }
}

/// The state once the rows from `i` on have been read, starting from `s`.
pub open spec fn is_run_from(
    rows: Seq<StatsRow>,
    target: int,
    bucket_size: int,
    s: ImageSizeModel,
    i: int,
) -> ImageSizeModel
    decreases rows.len() - i,
{
    if i < 0 || i >= rows.len() || s.stopped {
        s
    } else {
        is_run_from(rows, target, bucket_size, is_step(rows, target, bucket_size, s, i), i + 1)
    }
}

/// The state once all rows have been read.
pub open spec fn is_run(rows: Seq<StatsRow>, target: int, bucket_size: int) -> ImageSizeModel {
    is_run_from(rows, target, bucket_size, is_init(), 0)
}

/// The largest value of a non-empty sequence.
pub open spec fn seq_max(s: Seq<int>) -> int
    decreases s.len(),
{
    if s.len() <= 1 {
        s[0]
    } else if s.last() > seq_max(s.drop_last()) {
        s.last()
    } else {
        seq_max(s.drop_last())
    }
}

/// What the image-size analysis reports.
pub struct ImageSizeReport {
    /// How many configs with images were counted.
    pub total_image_configs: usize,
    /// For each bucket from 0 to the largest one used: the width where the
    /// bucket begins, and how many configs fall in that bucket or a lower one.
    pub covered: Vec<(usize, usize)>,
    /// Row and text of each image column whose statistics could not be read.
    pub errors: Vec<(usize, String)>,
}

/// The largest value of a non-empty list.
fn max_of(p: &Vec<usize>) -> (r: usize)
    requires
        p@.len() > 0,
    ensures
        r as int == seq_max(usize_view(p@)),
        forall|k: int| 0 <= k < p@.len() ==> p@[k] <= r,
        exists|k: int| 0 <= k < p@.len() && p@[k] == r,
{
    let mut m = p[0];
    let mut k: usize = 1;
    assert(usize_view(p@.take(1)) =~= seq![p@[0] as int]);
    while k < p.len()
        invariant
            1 <= k <= p.len(),
            m as int == seq_max(usize_view(p@.take(k as int))),
            forall|q: int| 0 <= q < k ==> p@[q] <= m,
            exists|q: int| 0 <= q < k && p@[q] == m,
        decreases p.len() - k,
    {
        assert(usize_view(p@.take(k + 1)).drop_last() =~= usize_view(p@.take(k as int)));
        if p[k] > m {
            m = p[k];
        }
        k = k + 1;
    }
    assert(p@.take(k as int) =~= p@);
    m
}

/// The image-size analysis over the split statistics `rows`, read in order and
/// grouped by config: each config with images goes in bucket
/// `largest width / bucket_size`, until more than `target_count` are counted.
/// `Err` when no config with images was counted, with the row and text of
/// each image column whose statistics could not be read.
pub fn image_size_distribution(rows: &Vec<StatsRow>, target_count: usize, bucket_size: usize) -> (r: Result<
    ImageSizeReport,
    Vec<(usize, String)>,
>)
    requires
        bucket_size > 0,
    ensures
        ({
            let m = is_run(rows@, target_count as int, bucket_size as int);
            match r {
                Err(errs) => m.buckets.len() == 0 && errors_view(errs@) == m.errors,
                Ok(rep) => {
                    &&& m.buckets.len() > 0
                    &&& rep.total_image_configs as int == m.buckets.len()
                    &&& errors_view(rep.errors@) == m.errors
                    &&& rep.covered@.len() == seq_max(m.buckets) + 1
                    &&& forall|k: int|
                        0 <= k <= seq_max(m.buckets) ==> {
                            &&& (#[trigger] rep.covered@[k]).0 as int == k * bucket_size
                            &&& rep.covered@[k].1 as int == count_at_most(m.buckets, k)
                        }
                },
            }
        }),
{
    let ghost final_model = is_run(rows@, target_count as int, bucket_size as int);
    let mut width: usize = 0;
    let mut buckets: Vec<usize> = Vec::new();
    let mut stopped = false;
    let mut errors: Vec<(usize, String)> = Vec::new();
    let mut i: usize = 0;
    proof {
        assert(usize_view(buckets@) =~= Seq::empty());
        assert(errors_view(errors@) =~= Seq::empty());
    }
    while i < rows.len() && !stopped
        invariant
            i <= rows.len(),
            buckets@.len() <= i,
            bucket_size > 0,
            forall|k: int| 0 <= k < buckets@.len() ==> buckets@[k] * bucket_size <= usize::MAX,
            final_model == is_run(rows@, target_count as int, bucket_size as int),
            is_run_from(
                rows@,
                target_count as int,
                bucket_size as int,
                ImageSizeModel {
                    width: width as int,
                    buckets: usize_view(buckets@),
                    stopped: stopped,
                    errors: errors_view(errors@),
                },
                i as int,
            ) == final_model,
        decreases rows.len() - i,
    {
        let ghost s0 = ImageSizeModel {
            width: width as int,
            buckets: usize_view(buckets@),
            stopped: stopped,
            errors: errors_view(errors@),
        };
        let ghost s_end = is_step(rows@, target_count as int, bucket_size as int, s0, i as int);
        if is_new_config(rows, i) {
            if width != 0 {
                let ghost before = buckets@;
                let b = width / bucket_size;
                proof {
                    assert(b * bucket_size <= width) by (nonlinear_arith)
                        requires
                            b == width / bucket_size,
                            bucket_size > 0,
                    ;
                }
                buckets.push(b);
                assert(usize_view(buckets@) =~= usize_view(before).push(b as int));
                if buckets.len() > target_count {
                    stopped = true;
                } else {
                    width = 0;
                }
            } else {
                width = 0;
            }
        }
        if !stopped {
            let cols = &rows[i].1.statistics;
            let ghost target = is_columns_from(width as int, errors_view(errors@), i as int, cols@, 0);
            let mut j: usize = 0;
            while j < cols.len()
                invariant
                    j <= cols.len(),
                    is_columns_from(width as int, errors_view(errors@), i as int, cols@, j as int) == target,
                decreases cols.len() - j,
            {
                let c = &cols[j];
                if str_eq(c.column_type.as_str(), "image") {
                    match &c.image {
                        Err(e) => {
                            let ghost before = errors@;
                            errors.push((i, e.clone()));
                            assert(errors_view(errors@) =~= errors_view(before).push((i as int, e@)));
                        },
                        Ok(st) => {
                            match st.max {
                                Some(m) => {
                                    let n = m as usize;
                                    if n > width {
                                        width = n;
                                    }
                                },
                                None => {},
                            }
                        },
                    }
                }
                j = j + 1;
            }
        }
        proof {
            let s1 = ImageSizeModel {
                width: width as int,
                buckets: usize_view(buckets@),
                stopped: stopped,
                errors: errors_view(errors@),
            };
            assert(s1 == s_end);
        }
        i = i + 1;
    }
    if buckets.len() == 0 {
        return Err(errors);
    }
    let max_bucket = max_of(&buckets);
    let mut covered: Vec<(usize, usize)> = Vec::new();
    let mut c: usize = 0;
    while c < max_bucket
        invariant
            c <= max_bucket,
            buckets@.len() > 0,
            max_bucket as int == seq_max(final_model.buckets),
            max_bucket * bucket_size <= usize::MAX,
            covered@.len() == c,
            usize_view(buckets@) == final_model.buckets,
            forall|k: int|
                0 <= k < c ==> {
                    &&& (#[trigger] covered@[k]).0 as int == k * bucket_size
                    &&& covered@[k].1 as int == count_at_most(final_model.buckets, k)
                },
        decreases max_bucket - c,
    {
        proof {
            assert(c * bucket_size <= max_bucket * bucket_size) by (nonlinear_arith)
                requires
                    c <= max_bucket,
            ;
        }
        let n = count_at_most_exec(&buckets, c);
        covered.push((c * bucket_size, n));
        c = c + 1;
    }
    let n = count_at_most_exec(&buckets, max_bucket);
    covered.push((max_bucket * bucket_size, n));
    Ok(ImageSizeReport { total_image_configs: buckets.len(), covered, errors })
}

} // verus!
