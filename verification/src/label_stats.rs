use vstd::prelude::*;

use crate::models::{ColumnStats, DatasetStatsId};
use crate::sorting::{ints_usize, kth_smallest, sort_usize, lemma_sort_len};
use crate::text::{contains_seq, lowercase, to_lowercase, contains_str, str_eq};

verus! {

/// How often each class occurs, keyed by class name, in order of first appearance.
pub type ClassCounts = Vec<(String, usize)>;

/// The class counts of each label column, keyed by column name, in order of first appearance.
pub type LabelFrequencies = Vec<(String, ClassCounts)>;

/// Above this many examples a class counts as plentiful; minima and medians are capped here.
pub const EXAMPLES_UPPER_LIMIT: usize = 100;

/// A keyed list of counts, as names and integers.
pub open spec fn counts_view(c: Seq<(String, usize)>) -> Seq<(Seq<char>, int)> {
    c.map_values(|p: (String, usize)| (p.0@, p.1 as int))
}

/// Label frequencies, as names and integers.
pub open spec fn freqs_view(f: Seq<(String, ClassCounts)>) -> Seq<(Seq<char>, Seq<(Seq<char>, int)>)> {
    f.map_values(|e: (String, ClassCounts)| (e.0@, counts_view(e.1@)))
}

/// The frequencies of a label column's statistics, each read as a `usize` (as `i64 as usize` does).
pub open spec fn class_freqs_view(f: Seq<(String, i64)>) -> Seq<(Seq<char>, int)> {
    f.map_values(|p: (String, i64)| (p.0@, (p.1 as usize) as int))
}

/// The count of every class of every column, column by column.
pub open spec fn all_counts(f: Seq<(Seq<char>, Seq<(Seq<char>, int)>)>) -> Seq<int>
    decreases f.len(),
{
    if f.len() == 0 {
        Seq::<int>::empty()
    } else {
        all_counts(f.drop_last()) + f.last().1.map_values(|p: (Seq<char>, int)| p.1)
    }
}

/// The position of the first entry with key `k` at or after `i`, or -1.
pub open spec fn key_index_from<V>(l: Seq<(Seq<char>, V)>, k: Seq<char>, i: int) -> int
    decreases l.len() - i,
{
    if i < 0 || i >= l.len() {
        -1
    } else if l[i].0 == k {
        i
    } else {
        key_index_from(l, k, i + 1)
    }
}

/// The position of the first entry with key `k`, or -1.
pub open spec fn key_index<V>(l: Seq<(Seq<char>, V)>, k: Seq<char>) -> int {
    key_index_from(l, k, 0)
}

/// `l` with `d` added to the count of `k` (a new entry at the end if `k` has none).
pub open spec fn bump(l: Seq<(Seq<char>, int)>, k: Seq<char>, d: int) -> Seq<(Seq<char>, int)> {
    let i = key_index(l, k);
    if i >= 0 {
        l.update(i, (k, l[i].1 + d))
    } else {
        l.push((k, d))
    }
}

/// `l` with the frequencies of `fl` from position `m` on added, one after another.
pub open spec fn add_all_from(
    l: Seq<(Seq<char>, int)>,
    fl: Seq<(Seq<char>, int)>,
    m: int,
) -> Seq<(Seq<char>, int)>
    decreases fl.len() - m,
{
    if m < 0 || m >= fl.len() {
        l
    } else {
        add_all_from(bump(l, fl[m].0, fl[m].1), fl, m + 1)
    }
}

/// `f` with an entry for column `k` (a new empty one at the end if it has none).
pub open spec fn ensure_column(
    f: Seq<(Seq<char>, Seq<(Seq<char>, int)>)>,
    k: Seq<char>,
) -> Seq<(Seq<char>, Seq<(Seq<char>, int)>)> {
    if key_index(f, k) >= 0 {
        f
    } else {
        f.push((k, Seq::<(Seq<char>, int)>::empty()))
    }
}

/// `f` with the class frequencies `fl` of column `name` added.
pub open spec fn add_label_column(
    f: Seq<(Seq<char>, Seq<(Seq<char>, int)>)>,
    name: Seq<char>,
    fl: Seq<(Seq<char>, int)>,
) -> Seq<(Seq<char>, Seq<(Seq<char>, int)>)> {
    let f1 = ensure_column(f, name);
    let i = key_index(f1, name);
    f1.update(i, (name, add_all_from(f1[i].1, fl, 0)))
}

/// The column holds class labels: its type is `string_label` and its
/// lowercased name contains `label`.
pub open spec fn is_label_column(c: ColumnStats) -> bool {
    c.column_type@ == "string_label"@ && contains_seq(lowercase(c.column_name@), "label"@)
}

/// Every count of the keyed list is at least zero and fits in a `usize`.
pub open spec fn fits_counts(l: Seq<(Seq<char>, int)>) -> bool {
    forall|i: int| 0 <= i < l.len() ==> 0 <= #[trigger] l[i].1 <= usize::MAX
}

/// Every count of the label frequencies is at least zero and fits in a `usize`.
pub open spec fn fits_freqs(f: Seq<(Seq<char>, Seq<(Seq<char>, int)>)>) -> bool {
    forall|i: int| 0 <= i < f.len() ==> fits_counts(#[trigger] f[i].1)
}

/// `b` has every entry of `a` at the same position, with a count at least as large.
pub open spec fn dom_counts(a: Seq<(Seq<char>, int)>, b: Seq<(Seq<char>, int)>) -> bool {
    a.len() <= b.len() && forall|i: int|
        #![trigger a[i]]
        0 <= i < a.len() ==> a[i].0 == b[i].0 && a[i].1 <= b[i].1
}

/// `b` has every column of `a` at the same position, with counts that dominate.
pub open spec fn dom_freqs(
    a: Seq<(Seq<char>, Seq<(Seq<char>, int)>)>,
    b: Seq<(Seq<char>, Seq<(Seq<char>, int)>)>,
) -> bool {
    a.len() <= b.len() && forall|i: int|
        #![trigger a[i]]
        0 <= i < a.len() ==> a[i].0 == b[i].0 && dom_counts(a[i].1, b[i].1)
}

/// Every count of the list is at least zero.
pub open spec fn nonneg_counts(l: Seq<(Seq<char>, int)>) -> bool {
    forall|i: int| 0 <= i < l.len() ==> 0 <= #[trigger] l[i].1
}

proof fn lemma_key_index_from<V>(l: Seq<(Seq<char>, V)>, k: Seq<char>, i: int)
    requires
        0 <= i,
    ensures
        key_index_from(l, k, i) == -1 || (i <= key_index_from(l, k, i) < l.len() && l[key_index_from(l, k, i)].0 == k),
        key_index_from(l, k, i) == -1 ==> forall|j: int| i <= j < l.len() ==> l[j].0 != k,
    decreases l.len() - i,
{
    if i < l.len() && l[i].0 != k {
        lemma_key_index_from(l, k, i + 1);
    }
}

/// Facts about `key_index`: it finds an entry with the key, or there is none.
pub proof fn lemma_key_index<V>(l: Seq<(Seq<char>, V)>, k: Seq<char>)
    ensures
        key_index(l, k) == -1 || (0 <= key_index(l, k) < l.len() && l[key_index(l, k)].0 == k),
        key_index(l, k) == -1 ==> forall|j: int| 0 <= j < l.len() ==> l[j].0 != k,
{
    lemma_key_index_from(l, k, 0);
}

/// Domination of keyed counts is transitive.
pub proof fn lemma_dom_counts_trans(a: Seq<(Seq<char>, int)>, b: Seq<(Seq<char>, int)>, c: Seq<(Seq<char>, int)>)
    requires
        dom_counts(a, b),
        dom_counts(b, c),
    ensures
        dom_counts(a, c),
{
    assert forall|i: int| 0 <= i < a.len() implies #[trigger] a[i].0 == c[i].0 && a[i].1 <= c[i].1 by {
        assert(a[i].0 == b[i].0 && b[i].0 == c[i].0);
    }
}

/// Keyed counts dominate themselves.
pub proof fn lemma_dom_counts_refl(a: Seq<(Seq<char>, int)>)
    ensures
        dom_counts(a, a),
{
}

/// Domination of label frequencies is transitive.
pub proof fn lemma_dom_freqs_trans(
    a: Seq<(Seq<char>, Seq<(Seq<char>, int)>)>,
    b: Seq<(Seq<char>, Seq<(Seq<char>, int)>)>,
    c: Seq<(Seq<char>, Seq<(Seq<char>, int)>)>,
)
    requires
        dom_freqs(a, b),
        dom_freqs(b, c),
    ensures
        dom_freqs(a, c),
{
    assert forall|i: int| 0 <= i < a.len() implies #[trigger] a[i].0 == c[i].0 && dom_counts(a[i].1, c[i].1) by {
        assert(a[i].0 == b[i].0 && b[i].0 == c[i].0);
        lemma_dom_counts_trans(a[i].1, b[i].1, c[i].1);
    }
}

/// Label frequencies dominate themselves.
pub proof fn lemma_dom_freqs_refl(a: Seq<(Seq<char>, Seq<(Seq<char>, int)>)>)
    ensures
        dom_freqs(a, a),
{
    assert forall|i: int| 0 <= i < a.len() implies #[trigger] a[i].0 == a[i].0 && dom_counts(a[i].1, a[i].1) by {
        lemma_dom_counts_refl(a[i].1);
    }
}

/// Adding a non-negative amount to one count keeps every entry and lowers no count.
pub proof fn lemma_bump_dom(l: Seq<(Seq<char>, int)>, k: Seq<char>, d: int)
    requires
        d >= 0,
    ensures
        dom_counts(l, bump(l, k, d)),
        nonneg_counts(l) ==> nonneg_counts(bump(l, k, d)),
{
    lemma_key_index(l, k);
    let b = bump(l, k, d);
    assert forall|i: int| 0 <= i < l.len() implies #[trigger] l[i].0 == b[i].0 && l[i].1 <= b[i].1 by {
    }
    if nonneg_counts(l) {
        assert forall|i: int| 0 <= i < b.len() implies 0 <= #[trigger] b[i].1 by {
            if i < l.len() {
                assert(0 <= l[i].1);
            }
        }
    }
}

/// Adding class frequencies that are all non-negative keeps every entry and lowers no count.
pub proof fn lemma_add_all_dom(l: Seq<(Seq<char>, int)>, fl: Seq<(Seq<char>, int)>, m: int)
    requires
        0 <= m,
        nonneg_counts(fl),
    ensures
        dom_counts(l, add_all_from(l, fl, m)),
        nonneg_counts(l) ==> nonneg_counts(add_all_from(l, fl, m)),
    decreases fl.len() - m,
{
    if m < fl.len() {
        assert(0 <= fl[m].1);
        lemma_bump_dom(l, fl[m].0, fl[m].1);
        lemma_add_all_dom(bump(l, fl[m].0, fl[m].1), fl, m + 1);
        lemma_dom_counts_trans(l, bump(l, fl[m].0, fl[m].1), add_all_from(l, fl, m));
    }
}

/// Frequencies read as `usize` are never negative.
pub proof fn lemma_class_freqs_nonneg(f: Seq<(String, i64)>)
    ensures
        nonneg_counts(class_freqs_view(f)),
{
    assert forall|i: int| 0 <= i < class_freqs_view(f).len() implies 0 <= #[trigger] class_freqs_view(
        f,
    )[i].1 by {
        let x = f[i].1 as usize;
        assert(0 <= x);
    }
}

/// Adding the frequencies of a label column only adds entries and raises counts.
pub proof fn lemma_add_label_column_dom(
    f: Seq<(Seq<char>, Seq<(Seq<char>, int)>)>,
    name: Seq<char>,
    fl: Seq<(Seq<char>, int)>,
)
    requires
        nonneg_counts(fl),
    ensures
        dom_freqs(f, add_label_column(f, name, fl)),
        (forall|i: int| 0 <= i < f.len() ==> nonneg_counts(#[trigger] f[i].1)) ==> (forall|i: int|
            0 <= i < add_label_column(f, name, fl).len() ==> nonneg_counts(
                #[trigger] add_label_column(f, name, fl)[i].1,
            )),
{
    let f1 = ensure_column(f, name);
    lemma_key_index(f, name);
    lemma_key_index(f1, name);
    let i = key_index(f1, name);
    lemma_add_all_dom(f1[i].1, fl, 0);
    let g = add_label_column(f, name, fl);
    if key_index(f, name) >= 0 {
        assert(f1 == f);
    } else {
        assert(f1 == f.push((name, Seq::<(Seq<char>, int)>::empty())));
        assert(f1[f.len() as int].0 == name);
        assert(i == f.len());
    }
    assert forall|j: int| 0 <= j < f.len() implies #[trigger] f[j].0 == g[j].0 && dom_counts(f[j].1, g[j].1) by {
        assert(f1[j] == f[j]);
        if j == i {
            assert(g[j].1 == add_all_from(f1[i].1, fl, 0));
        } else {
            assert(g[j] == f1[j]);
            lemma_dom_counts_refl(f[j].1);
        }
    }
    if forall|i: int| 0 <= i < f.len() ==> nonneg_counts(#[trigger] f[i].1) {
        if key_index(f, name) >= 0 {
            assert(nonneg_counts(f[i].1));
        } else {
            assert(f1[i].1 =~= Seq::<(Seq<char>, int)>::empty());
        }
        assert forall|j: int| 0 <= j < g.len() implies nonneg_counts(#[trigger] g[j].1) by {
            if j != i {
                assert(g[j] == f1[j]);
                assert(f1[j] == f[j]);
                assert(nonneg_counts(f[j].1));
            }
        }
    }
}

/// All class counts of every column of the label frequencies are at least zero.
pub open spec fn nonneg_freqs(f: Seq<(Seq<char>, Seq<(Seq<char>, int)>)>) -> bool {
    forall|i: int| 0 <= i < f.len() ==> nonneg_counts(#[trigger] f[i].1)
}

/// Adds `delta` to the count of class `key`, or appends the class with count `delta`.
pub fn bump_class(list: &mut ClassCounts, key: &String, delta: usize)
    requires
        fits_counts(bump(counts_view(old(list)@), key@, delta as int)),
    ensures
        counts_view(final(list)@) == bump(counts_view(old(list)@), key@, delta as int),
{
    let ghost l = counts_view(list@);
    proof {
        lemma_key_index(l, key@);
    }
    let mut i: usize = 0;
    while i < list.len()
        invariant
            i <= list.len(),
            l == counts_view(list@),
            l == counts_view(old(list)@),
            key_index(l, key@) == key_index_from(l, key@, i as int),
            fits_counts(bump(l, key@, delta as int)),
        decreases list.len() - i,
    {
        if list[i].0 == *key {
            let v = list[i].1;
            proof {
                assert(l[i as int].0 == key@);
                assert(key_index_from(l, key@, i as int) == i);
                assert(key_index(l, key@) == i);
                assert(bump(l, key@, delta as int)[i as int].1 == v + delta);
            }
            let k = list[i].0.clone();
            list.set(i, (k, v + delta));
            assert(counts_view(list@) =~= bump(l, key@, delta as int));
            return;
        }
        i = i + 1;
    }
    list.push((key.clone(), delta));
    assert(counts_view(list@) =~= bump(l, key@, delta as int));
}

/// Returns the position of column `name`, appending an empty entry for it if it has none.
fn ensure_column_entry(freqs: &mut LabelFrequencies, name: &String) -> (idx: usize)
    ensures
        freqs_view(final(freqs)@) == ensure_column(freqs_view(old(freqs)@), name@),
        idx as int == key_index(freqs_view(final(freqs)@), name@),
        idx < final(freqs)@.len(),
{
    let ghost f = freqs_view(freqs@);
    proof {
        lemma_key_index(f, name@);
    }
    let mut i: usize = 0;
    while i < freqs.len()
        invariant
            i <= freqs.len(),
            f == freqs_view(freqs@),
            key_index(f, name@) == key_index_from(f, name@, i as int),
        decreases freqs.len() - i,
    {
        if freqs[i].0 == *name {
            return i;
        }
        i = i + 1;
    }
    let empty: ClassCounts = Vec::new();
    assert(counts_view(empty@) =~= Seq::<(Seq<char>, int)>::empty());
    freqs.push((name.clone(), empty));
    proof {
        assert(freqs_view(freqs@) =~= f.push((name@, Seq::<(Seq<char>, int)>::empty())));
        lemma_key_index(freqs_view(freqs@), name@);
        assert(key_index_from(freqs_view(freqs@), name@, i as int) == i);
        assert forall|j: int| 0 <= j < i implies freqs_view(freqs@)[j].0 != name@ by {
            assert(freqs_view(freqs@)[j] == f[j]);
        }
        lemma_key_index_prefix(freqs_view(freqs@), name@, i as int);
    }
    i
}

proof fn lemma_key_index_prefix<V>(l: Seq<(Seq<char>, V)>, k: Seq<char>, i: int)
    requires
        0 <= i <= l.len(),
        forall|j: int| 0 <= j < i ==> l[j].0 != k,
    ensures
        key_index(l, k) == key_index_from(l, k, i),
    decreases i,
{
    if i > 0 {
        lemma_key_index_prefix_step(l, k, i - 1);
        lemma_key_index_prefix(l, k, i - 1);
    }
}

proof fn lemma_key_index_prefix_step<V>(l: Seq<(Seq<char>, V)>, k: Seq<char>, j: int)
    requires
        0 <= j < l.len(),
        l[j].0 != k,
    ensures
        key_index_from(l, k, j) == key_index_from(l, k, j + 1),
{
}

/// The counts of an exec list are at least zero.
pub proof fn lemma_exec_counts_nonneg(c: Seq<(String, usize)>)
    ensures
        nonneg_counts(counts_view(c)),
        fits_counts(counts_view(c)),
{
    assert forall|i: int| 0 <= i < counts_view(c).len() implies 0 <= #[trigger] counts_view(c)[i].1 by {
        assert(counts_view(c)[i].1 == c[i].1 as int);
    }
    assert forall|i: int| 0 <= i < counts_view(c).len() implies 0 <= #[trigger] counts_view(c)[i].1 <= usize::MAX by {
        assert(counts_view(c)[i].1 == c[i].1 as int);
    }
}

/// The counts of exec label frequencies are at least zero and fit in a `usize`.
pub proof fn lemma_exec_freqs_fit(f: Seq<(String, ClassCounts)>)
    ensures
        nonneg_freqs(freqs_view(f)),
        fits_freqs(freqs_view(f)),
{
    assert forall|i: int| 0 <= i < freqs_view(f).len() implies fits_counts(#[trigger] freqs_view(f)[i].1) by {
        lemma_exec_counts_nonneg(f[i].1@);
    }
    assert forall|i: int| 0 <= i < freqs_view(f).len() implies nonneg_counts(#[trigger] freqs_view(f)[i].1) by {
        lemma_exec_counts_nonneg(f[i].1@);
    }
}

/// A count too large for a `usize` stays too large in counts that dominate it.
pub proof fn lemma_not_fits_counts_dom(a: Seq<(Seq<char>, int)>, b: Seq<(Seq<char>, int)>)
    requires
        dom_counts(a, b),
        !fits_counts(a),
        nonneg_counts(a),
    ensures
        !fits_counts(b),
{
    let i = choose|i: int| 0 <= i < a.len() && !(0 <= #[trigger] a[i].1 <= usize::MAX);
    assert(0 <= a[i].1);
    assert(a[i].1 <= b[i].1);
    assert(!(0 <= b[i].1 <= usize::MAX));
}

/// Label frequencies too large for a `usize` stay too large in frequencies that dominate them.
pub proof fn lemma_not_fits_freqs_dom(
    a: Seq<(Seq<char>, Seq<(Seq<char>, int)>)>,
    b: Seq<(Seq<char>, Seq<(Seq<char>, int)>)>,
)
    requires
        dom_freqs(a, b),
        !fits_freqs(a),
        nonneg_freqs(a),
    ensures
        !fits_freqs(b),
{
    let i = choose|i: int| 0 <= i < a.len() && !fits_counts(#[trigger] a[i].1);
    assert(dom_counts(a[i].1, b[i].1));
    assert(nonneg_counts(a[i].1));
    lemma_not_fits_counts_dom(a[i].1, b[i].1);
}

/// Adds `delta` to the count of class `key` as `bump_class` does; `false`,
/// with the list left in any state, when the new count would not fit in a `usize`.
pub fn bump_class_checked(list: &mut ClassCounts, key: &String, delta: usize) -> (ok: bool)
    ensures
        ok ==> counts_view(final(list)@) == bump(counts_view(old(list)@), key@, delta as int),
        !ok ==> !fits_counts(bump(counts_view(old(list)@), key@, delta as int)),
{
    let ghost l = counts_view(list@);
    proof {
        lemma_key_index(l, key@);
    }
    let mut i: usize = 0;
    while i < list.len()
        invariant
            i <= list.len(),
            l == counts_view(list@),
            l == counts_view(old(list)@),
            key_index(l, key@) == key_index_from(l, key@, i as int),
        decreases list.len() - i,
    {
        if list[i].0 == *key {
            let v = list[i].1;
            proof {
                assert(l[i as int].0 == key@);
                assert(key_index_from(l, key@, i as int) == i);
                assert(bump(l, key@, delta as int)[i as int].1 == v + delta);
            }
            if v > usize::MAX - delta {
                return false;
            }
            let k = list[i].0.clone();
            list.set(i, (k, v + delta));
            assert(counts_view(list@) =~= bump(l, key@, delta as int));
            return true;
        }
        i = i + 1;
    }
    list.push((key.clone(), delta));
    assert(counts_view(list@) =~= bump(l, key@, delta as int));
    true
}

/// Adds the class frequencies `fl` of label column `name` into `freqs`;
/// `false`, with `freqs` left in any state, when a count would not fit in a `usize`.
pub fn add_label_column_checked(freqs: &mut LabelFrequencies, name: &String, fl: &Vec<(String, i64)>) -> (ok: bool)
    ensures
        ok ==> freqs_view(final(freqs)@) == add_label_column(freqs_view(old(freqs)@), name@, class_freqs_view(fl@)),
        !ok ==> !fits_freqs(add_label_column(freqs_view(old(freqs)@), name@, class_freqs_view(fl@))),
{
    let ghost f0 = freqs_view(freqs@);
    let ghost flv = class_freqs_view(fl@);
    let idx = ensure_column_entry(freqs, name);
    let ghost f1 = freqs_view(freqs@);
    let ghost target = add_all_from(f1[idx as int].1, flv, 0);
    proof {
        lemma_class_freqs_nonneg(fl@);
        assert(add_label_column(f0, name@, flv)[idx as int].1 == target);
        lemma_key_index(f1, name@);
    }
    let (col_name, mut inner) = freqs.remove(idx);
    let mut m: usize = 0;
    while m < fl.len()
        invariant
            m <= fl.len(),
            flv == class_freqs_view(fl@),
            nonneg_counts(flv),
            target == add_all_from(f1[idx as int].1, flv, 0),
            f0 == freqs_view(old(freqs)@),
            add_label_column(f0, name@, flv)[idx as int].1 == target,
            0 <= idx < add_label_column(f0, name@, flv).len(),
            add_all_from(counts_view(inner@), flv, m as int) == target,
        decreases fl.len() - m,
    {
        let delta = fl[m].1 as usize;
        let ghost before = inner@;
        let ghost cur = counts_view(inner@);
        let ghost nxt = bump(cur, fl@[m as int].0@, delta as int);
        proof {
            assert(flv[m as int] == (fl@[m as int].0@, delta as int));
            assert(add_all_from(cur, flv, m as int) == add_all_from(nxt, flv, m + 1));
        }
        let ok = bump_class_checked(&mut inner, &fl[m].0, delta);
        if !ok {
            proof {
                lemma_exec_counts_nonneg(before);
                lemma_bump_dom(cur, fl@[m as int].0@, delta as int);
                lemma_add_all_dom(nxt, flv, m + 1);
                lemma_not_fits_counts_dom(nxt, target);
                let g = add_label_column(f0, name@, flv);
                assert(!fits_counts(g[idx as int].1));
            }
            return false;
        }
        m = m + 1;
    }
    proof {
        assert(counts_view(inner@) == target);
        assert(col_name@ == name@);
    }
    freqs.insert(idx, (col_name, inner));
    proof {
        assert(freqs_view(freqs@) =~= f1.update(idx as int, (name@, target)));
    }
    true
}

/// Whether the column holds class labels.
pub fn is_label_column_exec(c: &ColumnStats) -> (r: bool)
    ensures
        r == is_label_column(*c),
{
    if !str_eq(c.column_type.as_str(), "string_label") {
        return false;
    }
    let lower = to_lowercase(c.column_name.as_str());
    contains_str(lower.as_str(), "label")
}

/// The minimum and the median of the class counts across all label columns
/// (the median being the count at position `len / 2` once sorted).
pub fn get_label_stats(label_frequencies: &LabelFrequencies, _dataset_stats_id: DatasetStatsId) -> (r: (usize, usize))
    requires
        all_counts(freqs_view(label_frequencies@)).len() > 0,
    ensures
        r.0 == kth_smallest(all_counts(freqs_view(label_frequencies@)), 0),
        r.1 == kth_smallest(
            all_counts(freqs_view(label_frequencies@)),
            all_counts(freqs_view(label_frequencies@)).len() as int / 2,
        ),
{
    let ghost fv = freqs_view(label_frequencies@);
    let mut counts: Vec<usize> = Vec::new();
    let mut i: usize = 0;
    while i < label_frequencies.len()
        invariant
            i <= label_frequencies.len(),
            fv == freqs_view(label_frequencies@),
            ints_usize(counts@) == all_counts(fv.take(i as int)),
        decreases label_frequencies.len() - i,
    {
        let class_counts = &label_frequencies[i].1;
        let ghost before = counts@;
        let mut j: usize = 0;
        while j < class_counts.len()
            invariant
                j <= class_counts.len(),
                *class_counts == label_frequencies@[i as int].1,
                ints_usize(counts@) == ints_usize(before) + counts_view(class_counts@).take(j as int).map_values(
                    |p: (Seq<char>, int)| p.1,
                ),
            decreases class_counts.len() - j,
        {
            let ghost prev = counts@;
            let x = class_counts[j].1;
            counts.push(x);
            proof {
                let cv = counts_view(class_counts@);
                assert(ints_usize(counts@) =~= ints_usize(prev).push(x as int));
                assert(cv.take(j + 1).map_values(|p: (Seq<char>, int)| p.1) =~= cv.take(
                    j as int,
                ).map_values(|p: (Seq<char>, int)| p.1).push(x as int));
            }
            j = j + 1;
        }
        assert(fv.take(i + 1).drop_last() =~= fv.take(i as int));
        assert(counts_view(class_counts@).take(j as int) =~= counts_view(class_counts@));
        i = i + 1;
    }
    assert(fv.take(i as int) =~= fv);
    let sorted = sort_usize(&counts);
    proof {
        lemma_sort_len(ints_usize(counts@));
    }
    let n = sorted.len();
    (sorted[0], sorted[n / 2])
}

} // verus!
