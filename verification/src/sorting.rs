use vstd::prelude::*;
use vstd::relations::sorted_by;
use vstd::seq_lib::lemma_multiset_commutative;
use vstd::seq_lib::lemma_sorted_unique;

verus! {

broadcast use vstd::seq_lib::group_to_multiset_ensures;

/// The values of a sequence of `usize`, as integers.
pub open spec fn ints_usize(s: Seq<usize>) -> Seq<int> {
    s.map_values(|x: usize| x as int)
}

/// The values of a sequence of `i64`, as integers.
pub open spec fn ints_i64(s: Seq<i64>) -> Seq<int> {
    s.map_values(|x: i64| x as int)
}

/// `s` is in ascending order.
pub open spec fn ascending(s: Seq<int>) -> bool {
    sorted_by(s, |x: int, y: int| x <= y)
}

/// The `k`-th smallest value of `s` (counting from 0): the value at
/// position `k` once `s` is sorted in ascending order.
pub open spec fn kth_smallest(s: Seq<int>, k: int) -> int {
    s.sort()[k]
}

/// A sorted sequence with the same values as `s` is `s.sort()`.
pub proof fn lemma_sorted_is_sort(t: Seq<int>, s: Seq<int>)
    requires
        ascending(t),
        t.to_multiset() == s.to_multiset(),
    ensures
        t == s.sort(),
{
    s.lemma_sort_ensures();
    lemma_sorted_unique(t, s.sort(), |x: int, y: int| x <= y);
}

/// Sorting keeps the length.
pub proof fn lemma_sort_len(s: Seq<int>)
    ensures
        s.sort().len() == s.len(),
{
    s.lemma_sort_ensures();
    s.to_multiset_ensures();
    s.sort().to_multiset_ensures();
}

/// The smaller of two positions of the sorted sequence holds the smaller value.
pub proof fn lemma_sort_monotone(s: Seq<int>, i: int, j: int)
    requires
        0 <= i <= j < s.len(),
    ensures
        s.sort()[i] <= s.sort()[j],
{
    s.lemma_sort_ensures();
    lemma_sort_len(s);
    if i < j {
        assert((|x: int, y: int| x <= y)(s.sort()[i], s.sort()[j]));
    }
}

/// Every value at a position of the sorted sequence is one of the values of `s`.
pub proof fn lemma_sort_contains(s: Seq<int>, i: int)
    requires
        0 <= i < s.len(),
    ensures
        s.contains(s.sort()[i]),
{
    s.lemma_sort_ensures();
    lemma_sort_len(s);
    let t = s.sort();
    assert(t.to_multiset().count(t[i]) > 0);
    assert(s.to_multiset().count(t[i]) > 0);
}

/// Inserting `x` at any position adds `x` to the multiset of values.
proof fn lemma_insert_multiset(a: Seq<int>, p: int, x: int)
    requires
        0 <= p <= a.len(),
    ensures
        a.insert(p, x).to_multiset() == a.to_multiset().insert(x),
{
    let l = a.take(p);
    let r = a.skip(p);
    assert(a.insert(p, x) =~= l.push(x) + r);
    assert(a =~= l + r);
    lemma_multiset_commutative(l.push(x), r);
    lemma_multiset_commutative(l, r);
    assert(l.push(x).to_multiset() == l.to_multiset().insert(x));
    assert(a.to_multiset().insert(x) =~= l.to_multiset().insert(x).add(r.to_multiset()));
}

/// `v` sorted in ascending order.
pub fn sort_usize(v: &Vec<usize>) -> (r: Vec<usize>)
    ensures
        ints_usize(r@) == ints_usize(v@).sort(),
        r@.len() == v@.len(),
{
    let mut out: Vec<usize> = Vec::new();
    let mut i: usize = 0;
    while i < v.len()
        invariant
            i <= v.len(),
            out@.len() == i,
            ascending(ints_usize(out@)),
            ints_usize(out@).to_multiset() == ints_usize(v@.take(i as int)).to_multiset(),
        decreases v.len() - i,
    {
        let x = v[i];
        let mut p: usize = 0;
        while p < out.len() && out[p] <= x
            invariant
                p <= out.len(),
                forall|k: int| 0 <= k < p ==> out@[k] <= x,
            decreases out.len() - p,
        {
            p = p + 1;
        }
        let ghost before = out@;
        out.insert(p, x);
        proof {
            assert(ints_usize(out@) =~= ints_usize(before).insert(p as int, x as int));
            lemma_insert_multiset(ints_usize(before), p as int, x as int);
            assert(ints_usize(v@.take(i + 1)) =~= ints_usize(v@.take(i as int)).push(x as int));
            assert forall|a: int, b: int| 0 <= a < b < out@.len() implies (|x: int, y: int|
                x <= y)(ints_usize(out@)[a], ints_usize(out@)[b]) by {
                assert((|x: int, y: int| x <= y)(ints_usize(before)[0], ints_usize(before)[0]));
                if a < p && b < p {
                    assert((|x: int, y: int| x <= y)(ints_usize(before)[a], ints_usize(before)[b]));
                } else if a < p && b > p {
                    assert((|x: int, y: int| x <= y)(
                        ints_usize(before)[a],
                        ints_usize(before)[b - 1],
                    ));
                } else if a > p && b > p {
                    assert((|x: int, y: int| x <= y)(
                        ints_usize(before)[a - 1],
                        ints_usize(before)[b - 1],
                    ));
                } else if a == p && b > p {
                    assert((|x: int, y: int| x <= y)(ints_usize(before)[p as int], ints_usize(before)[b - 1]));
                }
            }
        }
        i = i + 1;
    }
    proof {
        assert(v@.take(v@.len() as int) =~= v@);
        lemma_sorted_is_sort(ints_usize(out@), ints_usize(v@));
    }
    out
}

/// `v` sorted in ascending order.
pub fn sort_i64(v: &Vec<i64>) -> (r: Vec<i64>)
    ensures
        ints_i64(r@) == ints_i64(v@).sort(),
        r@.len() == v@.len(),
{
    let mut out: Vec<i64> = Vec::new();
    let mut i: usize = 0;
    while i < v.len()
        invariant
            i <= v.len(),
            out@.len() == i,
            ascending(ints_i64(out@)),
            ints_i64(out@).to_multiset() == ints_i64(v@.take(i as int)).to_multiset(),
        decreases v.len() - i,
    {
        let x = v[i];
        let mut p: usize = 0;
        while p < out.len() && out[p] <= x
            invariant
                p <= out.len(),
                forall|k: int| 0 <= k < p ==> out@[k] <= x,
            decreases out.len() - p,
        {
            p = p + 1;
        }
        let ghost before = out@;
        out.insert(p, x);
        proof {
            assert(ints_i64(out@) =~= ints_i64(before).insert(p as int, x as int));
            lemma_insert_multiset(ints_i64(before), p as int, x as int);
            assert(ints_i64(v@.take(i + 1)) =~= ints_i64(v@.take(i as int)).push(x as int));
            assert forall|a: int, b: int| 0 <= a < b < out@.len() implies (|x: int, y: int|
                x <= y)(ints_i64(out@)[a], ints_i64(out@)[b]) by {
                if a < p && b < p {
                    assert((|x: int, y: int| x <= y)(ints_i64(before)[a], ints_i64(before)[b]));
                } else if a < p && b > p {
                    assert((|x: int, y: int| x <= y)(ints_i64(before)[a], ints_i64(before)[b - 1]));
                } else if a > p && b > p {
                    assert((|x: int, y: int| x <= y)(
                        ints_i64(before)[a - 1],
                        ints_i64(before)[b - 1],
                    ));
                } else if a == p && b > p {
                    assert((|x: int, y: int| x <= y)(ints_i64(before)[p as int], ints_i64(before)[b - 1]));
                }
            }
        }
        i = i + 1;
    }
    proof {
        assert(v@.take(v@.len() as int) =~= v@);
        lemma_sorted_is_sort(ints_i64(out@), ints_i64(v@));
    }
    out
}

} // verus!
