use vstd::prelude::*;

use crate::label_min_examples::{cap_examples, me_flush, MinExamplesModel};
use crate::label_stats::{add_all_from, add_label_column, all_counts, bump, ensure_column, key_index, lemma_key_index};
use crate::label_cardinality::count_at_most;
use crate::laws::lemma_count_at_most_all;
use crate::sorting::{ascending, kth_smallest, lemma_sort_contains, lemma_sort_len, lemma_sort_monotone};

verus! {

broadcast use vstd::seq_lib::group_to_multiset_ensures;

/// No two entries of the keyed list have the same key.
pub open spec fn distinct_keys(l: Seq<(Seq<char>, int)>) -> bool {
    forall|a: int, b: int| 0 <= a < b < l.len() ==> (#[trigger] l[a]).0 != (#[trigger] l[b]).0
}

/// The count kept for key `k` (0 when there is no entry for it).
pub open spec fn count_of(l: Seq<(Seq<char>, int)>, k: Seq<char>) -> int {
    let i = key_index(l, k);
    if i >= 0 {
        l[i].1
    } else {
        0
    }
}

/// The list has an entry for key `k`.
pub open spec fn has_key(l: Seq<(Seq<char>, int)>, k: Seq<char>) -> bool {
    exists|p: int| 0 <= p < l.len() && (#[trigger] l[p]).0 == k
}

proof fn lemma_count_of_at(l: Seq<(Seq<char>, int)>, k: Seq<char>, p: int)
    requires
        distinct_keys(l),
        0 <= p < l.len(),
        l[p].0 == k,
    ensures
        count_of(l, k) == l[p].1,
{
    lemma_key_index(l, k);
    let i = key_index(l, k);
    if i != p {
        if i < p {
            assert(l[i].0 != l[p].0);
        } else {
            assert(l[p].0 != l[i].0);
        }
    }
}

proof fn lemma_count_of_absent(l: Seq<(Seq<char>, int)>, k: Seq<char>)
    requires
        !has_key(l, k),
    ensures
        count_of(l, k) == 0,
{
    lemma_key_index(l, k);
    if key_index(l, k) >= 0 {
        assert(l[key_index(l, k)].0 == k);
    }
}

/// Adding `d` to the count of key `k` adds `d` to that count and leaves every
/// other count and key as it was, and no key comes to appear twice.
pub proof fn lemma_bump_adds(l: Seq<(Seq<char>, int)>, k: Seq<char>, d: int)
    requires
        distinct_keys(l),
    ensures
        distinct_keys(bump(l, k, d)),
        count_of(bump(l, k, d), k) == count_of(l, k) + d,
        has_key(bump(l, k, d), k),
        forall|k2: Seq<char>|
            k2 != k ==> count_of(bump(l, k, d), k2) == count_of(l, k2) && (has_key(bump(l, k, d), k2) <==> has_key(
                l,
                k2,
            )),
{
    lemma_key_index(l, k);
    let i = key_index(l, k);
    let b = bump(l, k, d);
    if i >= 0 {
        assert(b.len() == l.len());
        assert forall|a: int, c: int| 0 <= a < c < b.len() implies (#[trigger] b[a]).0 != (#[trigger] b[c]).0 by {
            assert(b[a].0 == l[a].0 && b[c].0 == l[c].0);
            assert(l[a].0 != l[c].0);
        }
        lemma_count_of_at(l, k, i);
        lemma_count_of_at(b, k, i);
        assert(b[i].0 == k);
        assert forall|k2: Seq<char>| k2 != k implies count_of(b, k2) == count_of(l, k2) && (has_key(b, k2) <==> has_key(
            l,
            k2,
        )) by {
            if has_key(l, k2) {
                let p = choose|p: int| 0 <= p < l.len() && (#[trigger] l[p]).0 == k2;
                assert(p != i);
                assert(b[p] == l[p]);
                lemma_count_of_at(l, k2, p);
                lemma_count_of_at(b, k2, p);
            } else {
                assert(!has_key(b, k2)) by {
                    if has_key(b, k2) {
                        let p = choose|p: int| 0 <= p < b.len() && (#[trigger] b[p]).0 == k2;
                        assert(l[p].0 == k2);
                    }
                }
                lemma_count_of_absent(l, k2);
                lemma_count_of_absent(b, k2);
            }
        }
    } else {
        assert(!has_key(l, k));
        assert forall|a: int, c: int| 0 <= a < c < b.len() implies (#[trigger] b[a]).0 != (#[trigger] b[c]).0 by {
            if c == l.len() {
                assert(b[a] == l[a]);
            } else {
                assert(b[a] == l[a] && b[c] == l[c]);
            }
        }
        lemma_count_of_absent(l, k);
        lemma_count_of_at(b, k, l.len() as int);
        assert(b[l.len() as int].0 == k);
        assert forall|k2: Seq<char>| k2 != k implies count_of(b, k2) == count_of(l, k2) && (has_key(b, k2) <==> has_key(
            l,
            k2,
        )) by {
            if has_key(l, k2) {
                let p = choose|p: int| 0 <= p < l.len() && (#[trigger] l[p]).0 == k2;
                assert(b[p] == l[p]);
                lemma_count_of_at(l, k2, p);
                lemma_count_of_at(b, k2, p);
            } else {
                assert(!has_key(b, k2)) by {
                    if has_key(b, k2) {
                        let p = choose|p: int| 0 <= p < b.len() && (#[trigger] b[p]).0 == k2;
                        if p < l.len() {
                            assert(l[p].0 == k2);
                        }
                    }
                }
                lemma_count_of_absent(l, k2);
                lemma_count_of_absent(b, k2);
            }
        }
    }
}

/// The sum of the frequencies given for key `k` at positions from `m` on.
pub open spec fn sum_for_key(fl: Seq<(Seq<char>, int)>, k: Seq<char>, m: int) -> int
    decreases fl.len() - m,
{
    if m < 0 || m >= fl.len() {
        0
    } else {
        (if fl[m].0 == k {
            fl[m].1
        } else {
            0
        }) + sum_for_key(fl, k, m + 1)
    }
}

/// Adding the frequencies of a split to a column's class counts adds, to the
/// count of every class, the sum of the frequencies given for it, and no class
/// comes to appear twice.
pub proof fn lemma_add_all_sums(l: Seq<(Seq<char>, int)>, fl: Seq<(Seq<char>, int)>, m: int)
    requires
        distinct_keys(l),
        0 <= m,
    ensures
        distinct_keys(add_all_from(l, fl, m)),
        forall|k: Seq<char>| #[trigger] count_of(add_all_from(l, fl, m), k) == count_of(l, k) + sum_for_key(fl, k, m),
    decreases fl.len() - m,
{
    if m < fl.len() {
        let b = bump(l, fl[m].0, fl[m].1);
        lemma_bump_adds(l, fl[m].0, fl[m].1);
        lemma_add_all_sums(b, fl, m + 1);
        assert forall|k: Seq<char>| #[trigger] count_of(add_all_from(l, fl, m), k) == count_of(l, k) + sum_for_key(
            fl,
            k,
            m,
        ) by {
            assert(add_all_from(l, fl, m) == add_all_from(b, fl, m + 1));
            assert(count_of(add_all_from(b, fl, m + 1), k) == count_of(b, k) + sum_for_key(fl, k, m + 1));
        }
    }
}

proof fn lemma_sort_has(s: Seq<int>, q: int)
    requires
        0 <= q < s.len(),
    ensures
        exists|t: int| 0 <= t < s.len() && s.sort()[t] == s[q],
{
    s.lemma_sort_ensures();
    lemma_sort_len(s);
    assert(s.contains(s[q]));
    assert(s.to_multiset().count(s[q]) > 0);
    assert(s.sort().to_multiset().count(s[q]) > 0);
    assert(s.sort().contains(s[q]));
}

/// A finished config with class counts is recorded with its capped minimum
/// class count, which is one of its counts and at most every one of them,
/// and its capped median class count, which is one of its counts, with at
/// most half of the counts (rounded down) below it and more than that many at
/// most it, and which is at least the minimum.
pub proof fn lemma_min_examples_flush(s: MinExamplesModel, target: int)
    requires
        s.freqs.len() > 0,
        all_counts(s.freqs).len() > 0,
    ensures
        ({
            let c = all_counts(s.freqs);
            let f = me_flush(s, target).flushed;
            &&& f.len() == s.flushed.len() + 1
            &&& f.drop_last() == s.flushed
            &&& exists|p: int|
                0 <= p < c.len() && f.last().0 == cap_examples(#[trigger] c[p]) && forall|q: int|
                    0 <= q < c.len() ==> c[p] <= #[trigger] c[q]
            &&& exists|p: int|
                0 <= p < c.len() && f.last().1 == cap_examples(#[trigger] c[p]) && count_below(c, c[p]) <= c.len()
                    / 2 && count_at_most(c, c[p]) > c.len() / 2
            &&& f.last().0 <= f.last().1
        }),
{
    let c = all_counts(s.freqs);
    let n = c.len() as int;
    lemma_sort_len(c);
    let lo = c.sort()[0];
    let md = c.sort()[n / 2];
    lemma_sort_contains(c, 0);
    lemma_sort_contains(c, n / 2);
    lemma_sort_monotone(c, 0, n / 2);
    let p0 = choose|p: int| 0 <= p < c.len() && c[p] == lo;
    let p1 = choose|p: int| 0 <= p < c.len() && c[p] == md;
    assert forall|q: int| 0 <= q < c.len() implies c[p0] <= #[trigger] c[q] by {
        lemma_sort_has(c, q);
        let t = choose|t: int| 0 <= t < c.len() && c.sort()[t] == c[q];
        lemma_sort_monotone(c, 0, t);
    }
    let f = me_flush(s, target).flushed;
    assert(f == s.flushed.push((cap_examples(lo), cap_examples(md))));
    assert(f.drop_last() =~= s.flushed);
    assert(f.last().0 == cap_examples(c[p0]));
    assert(f.last().1 == cap_examples(c[p1]));
    lemma_kth_smallest_position(c, n / 2);
}

/// No two columns of the label frequencies have the same name, and no
/// column has the same class twice.
pub open spec fn distinct_columns(f: Seq<(Seq<char>, Seq<(Seq<char>, int)>)>) -> bool {
    &&& forall|a: int, b: int| 0 <= a < b < f.len() ==> (#[trigger] f[a]).0 != (#[trigger] f[b]).0
    &&& forall|a: int| 0 <= a < f.len() ==> distinct_keys(#[trigger] f[a].1)
}

/// The class counts kept for column `name` (none when there is no entry for it).
pub open spec fn column_counts_of(f: Seq<(Seq<char>, Seq<(Seq<char>, int)>)>, name: Seq<char>) -> Seq<(Seq<char>, int)> {
    let i = key_index(f, name);
    if i >= 0 {
        f[i].1
    } else {
        Seq::empty()
    }
}

proof fn lemma_column_at(f: Seq<(Seq<char>, Seq<(Seq<char>, int)>)>, name: Seq<char>, p: int)
    requires
        distinct_columns(f),
        0 <= p < f.len(),
        f[p].0 == name,
    ensures
        key_index(f, name) == p,
{
    lemma_key_index(f, name);
    let i = key_index(f, name);
    if i != p {
        if i < p {
            assert(f[i].0 != f[p].0);
        } else {
            assert(f[p].0 != f[i].0);
        }
    }
}

/// Adding a split's class frequencies to a label column adds, to each class
/// count of that column, the sum of the frequencies given for the class, and
/// leaves every other column as it was; columns and classes stay distinct.
pub proof fn lemma_add_label_column_sums(
    f: Seq<(Seq<char>, Seq<(Seq<char>, int)>)>,
    name: Seq<char>,
    fl: Seq<(Seq<char>, int)>,
)
    requires
        distinct_columns(f),
    ensures
        ({
            let g = add_label_column(f, name, fl);
            &&& distinct_columns(g)
            &&& forall|k: Seq<char>|
                #[trigger] count_of(column_counts_of(g, name), k) == count_of(column_counts_of(f, name), k)
                    + sum_for_key(fl, k, 0)
            &&& forall|n2: Seq<char>| n2 != name ==> #[trigger] column_counts_of(g, n2) == column_counts_of(f, n2)
        }),
{
    lemma_key_index(f, name);
    let f1 = ensure_column(f, name);
    let i0 = key_index(f, name);
    if i0 < 0 {
        assert forall|a: int, b: int| 0 <= a < b < f1.len() implies (#[trigger] f1[a]).0 != (#[trigger] f1[b]).0 by {
            if b == f.len() {
                assert(f1[a] == f[a]);
            } else {
                assert(f1[a] == f[a] && f1[b] == f[b]);
            }
        }
        assert forall|a: int| 0 <= a < f1.len() implies distinct_keys(#[trigger] f1[a].1) by {
            if a < f.len() {
                assert(f1[a] == f[a]);
            }
        }
        lemma_column_at(f1, name, f.len() as int);
    } else {
        lemma_column_at(f1, name, i0);
    }
    let i = key_index(f1, name);
    let old_counts = f1[i].1;
    assert(column_counts_of(f, name) == old_counts) by {
        if i0 < 0 {
            assert(old_counts =~= Seq::<(Seq<char>, int)>::empty());
        }
    }
    lemma_add_all_sums(old_counts, fl, 0);
    let g = add_label_column(f, name, fl);
    assert(g == f1.update(i, (name, add_all_from(old_counts, fl, 0))));
    assert forall|a: int, b: int| 0 <= a < b < g.len() implies (#[trigger] g[a]).0 != (#[trigger] g[b]).0 by {
        assert(g[a].0 == f1[a].0 && g[b].0 == f1[b].0);
    }
    assert forall|a: int| 0 <= a < g.len() implies distinct_keys(#[trigger] g[a].1) by {
        if a != i {
            assert(g[a] == f1[a]);
        }
    }
    lemma_column_at(g, name, i);
    assert forall|n2: Seq<char>| n2 != name implies #[trigger] column_counts_of(g, n2) == column_counts_of(f, n2) by {
        lemma_key_index(f, n2);
        lemma_key_index(g, n2);
        let j = key_index(f, n2);
        if j >= 0 {
            assert(f1[j] == f[j]);
            assert(j != i);
            assert(g[j] == f[j]);
            lemma_column_at(g, n2, j);
        } else {
            if key_index(g, n2) >= 0 {
                let q = key_index(g, n2);
                assert(q != i);
                assert(g[q] == f1[q]);
                if q < f.len() {
                    assert(f1[q] == f[q]);
                }
            }
        }
    }
}

/// How many of the values are below `v`.
pub open spec fn count_below(s: Seq<int>, v: int) -> int
    decreases s.len(),
{
    if s.len() == 0 {
        0
    } else {
        count_below(s.drop_last(), v) + if s.last() < v { 1int } else { 0int }
    }
}

proof fn lemma_count_below_le_len(s: Seq<int>, v: int)
    ensures
        0 <= count_below(s, v) <= s.len(),
    decreases s.len(),
{
    if s.len() > 0 {
        lemma_count_below_le_len(s.drop_last(), v);
    }
}

proof fn lemma_counts_remove(t: Seq<int>, p: int, v: int)
    requires
        0 <= p < t.len(),
    ensures
        count_below(t, v) == count_below(t.remove(p), v) + if t[p] < v { 1int } else { 0int },
        count_at_most(t, v) == count_at_most(t.remove(p), v) + if t[p] <= v { 1int } else { 0int },
    decreases t.len(),
{
    if p == t.len() - 1 {
        assert(t.remove(p) =~= t.drop_last());
    } else {
        lemma_counts_remove(t.drop_last(), p, v);
        assert(t.drop_last().remove(p) =~= t.remove(p).drop_last());
        assert(t.remove(p).last() == t.last());
    }
}

proof fn lemma_counts_permutation(s: Seq<int>, t: Seq<int>, v: int)
    requires
        s.to_multiset() == t.to_multiset(),
    ensures
        count_below(s, v) == count_below(t, v),
        count_at_most(s, v) == count_at_most(t, v),
    decreases s.len(),
{
    broadcast use vstd::multiset::group_multiset_axioms;

    if s.len() == 0 {
        assert(t.len() == 0) by {
            vstd::seq_lib::to_multiset_len(s);
            vstd::seq_lib::to_multiset_len(t);
        }
    } else {
        let x = s.last();
        let s0 = s.drop_last();
        assert(s0.push(x) =~= s);
        vstd::seq_lib::to_multiset_build(s0, x);
        assert(t.to_multiset().count(x) > 0);
        vstd::seq_lib::to_multiset_contains(t, x);
        let p = choose|p: int| 0 <= p < t.len() && t[p] == x;
        vstd::seq_lib::to_multiset_remove(t, p);
        assert(t.remove(p).to_multiset() =~= s0.to_multiset());
        lemma_counts_permutation(s0, t.remove(p), v);
        lemma_counts_remove(t, p, v);
    }
}

proof fn lemma_sorted_position(t: Seq<int>, k: int)
    requires
        ascending(t),
        0 <= k < t.len(),
    ensures
        count_below(t, t[k]) <= k,
        count_at_most(t, t[k]) >= k + 1,
    decreases t.len(),
{
    let v = t[k];
    let t0 = t.drop_last();
    assert(ascending(t0)) by {
        assert forall|a: int, b: int| 0 <= a < b < t0.len() implies (|x: int, y: int| x <= y)(t0[a], t0[b]) by {
            assert((|x: int, y: int| x <= y)(t[a], t[b]));
        }
    }
    if k == t.len() - 1 {
        lemma_count_below_le_len(t0, v);
        assert forall|i: int| 0 <= i < t0.len() implies t0[i] <= v by {
            assert((|x: int, y: int| x <= y)(t[i], t[k]));
        }
        lemma_count_at_most_all(t0, v);
    } else {
        assert((|x: int, y: int| x <= y)(t[k], t[t.len() - 1]));
        assert(t0[k] == v);
        lemma_sorted_position(t0, k);
    }
}

/// The `k`-th smallest value has at most `k` values below it and more than
/// `k` values at most it.
pub proof fn lemma_kth_smallest_position(c: Seq<int>, k: int)
    requires
        0 <= k < c.len(),
    ensures
        count_below(c, kth_smallest(c, k)) <= k,
        count_at_most(c, kth_smallest(c, k)) >= k + 1,
{
    c.lemma_sort_ensures();
    lemma_sort_len(c);
    let t = c.sort();
    lemma_sorted_position(t, k);
    lemma_counts_permutation(c, t, t[k]);
}

} // verus!
