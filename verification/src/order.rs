//! Sorting by insertion, with respect to any order.

use vstd::prelude::*;

verus! {

/// `v` with `x` put behind the last element that may stand before it.
pub open spec fn insert_sorted<T>(v: Seq<T>, x: T, le: spec_fn(T, T) -> bool) -> Seq<T>
    decreases v.len(),
{
    if v.len() == 0 || le(v.last(), x) {
        v.push(x)
    } else {
        insert_sorted(v.drop_last(), x, le).push(v.last())
    }
}

/// The elements of `v` in order; elements that are equal in the order keep
/// the order that they have in `v`.
pub open spec fn sorted<T>(v: Seq<T>, le: spec_fn(T, T) -> bool) -> Seq<T>
    decreases v.len(),
{
    if v.len() == 0 {
        Seq::empty()
    } else {
        insert_sorted(sorted(v.drop_last(), le), v.last(), le)
    }
}

/// No element stands before one that it may not stand before.
pub open spec fn in_order<T>(v: Seq<T>, le: spec_fn(T, T) -> bool) -> bool {
    forall|i: int, j: int| #![trigger v[i], v[j]] 0 <= i < j < v.len() ==> le(v[i], v[j])
}

/// Every two elements can be compared, and the order is transitive.
pub open spec fn is_preorder<T>(le: spec_fn(T, T) -> bool) -> bool {
    &&& forall|a: T, b: T| #![trigger le(a, b)] le(a, b) || le(b, a)
    &&& forall|a: T, b: T, c: T| #![trigger le(a, b), le(b, c)] le(a, b) && le(b, c) ==> le(a, c)
}

/// Insertion adds the one element.
pub proof fn insert_adds<T>(v: Seq<T>, x: T, le: spec_fn(T, T) -> bool)
    ensures
        insert_sorted(v, x, le).to_multiset() == v.to_multiset().insert(x),
        insert_sorted(v, x, le).len() == v.len() + 1,
    decreases v.len(),
{
    broadcast use vstd::seq_lib::group_to_multiset_ensures;

    if v.len() > 0 && !le(v.last(), x) {
        insert_adds(v.drop_last(), x, le);
        assert(v =~= v.drop_last().push(v.last()));
        assert(v.to_multiset().insert(x) =~= v.drop_last().to_multiset().insert(x).insert(
            v.last(),
        ));
    }
}

/// Sorting keeps every element as often as it occurs.
pub proof fn sorted_is_permutation<T>(v: Seq<T>, le: spec_fn(T, T) -> bool)
    ensures
        sorted(v, le).to_multiset() == v.to_multiset(),
        sorted(v, le).len() == v.len(),
    decreases v.len(),
{
    broadcast use vstd::seq_lib::group_to_multiset_ensures;

    if v.len() > 0 {
        sorted_is_permutation(v.drop_last(), le);
        insert_adds(sorted(v.drop_last(), le), v.last(), le);
        assert(v =~= v.drop_last().push(v.last()));
    }
}

/// Insertion into an ordered sequence keeps it ordered.
pub proof fn insert_keeps_order<T>(v: Seq<T>, x: T, le: spec_fn(T, T) -> bool)
    requires
        is_preorder(le),
        in_order(v, le),
    ensures
        in_order(insert_sorted(v, x, le), le),
        forall|k: int|
            0 <= k < insert_sorted(v, x, le).len() ==> (#[trigger] insert_sorted(v, x, le)[k] == x
                || v.contains(insert_sorted(v, x, le)[k])),
    decreases v.len(),
{
    let r = insert_sorted(v, x, le);
    if v.len() == 0 || le(v.last(), x) {
        assert forall|i: int, j: int| #![trigger r[i], r[j]] 0 <= i < j < r.len() implies le(
            r[i],
            r[j],
        ) by {
            if j == v.len() && i < v.len() - 1 {
                assert(le(v[i], v.last()));
            }
        }
        assert forall|k: int| 0 <= k < r.len() implies (#[trigger] r[k] == x || v.contains(r[k])) by {
            if k < v.len() {
                assert(v[k] == r[k]);
            }
        }
    } else {
        let head = v.drop_last();
        insert_keeps_order(head, x, le);
        let h = insert_sorted(head, x, le);
        assert(le(x, v.last()));
        assert forall|k: int| 0 <= k < h.len() implies le(#[trigger] h[k], v.last()) by {
            if h[k] != x {
                let m = choose|m: int| 0 <= m < head.len() && head[m] == h[k];
                assert(v[m] == h[k]);
                assert(le(v[m], v[v.len() - 1]));
            }
        }
        assert forall|k: int| 0 <= k < r.len() implies (#[trigger] r[k] == x || v.contains(r[k])) by {
            if k < h.len() {
                assert(h[k] == r[k]);
                if h[k] != x {
                    let m = choose|m: int| 0 <= m < head.len() && head[m] == h[k];
                    assert(v[m] == r[k]);
                }
            } else {
                assert(v[v.len() - 1] == r[k]);
            }
        }
    }
}

/// Sorting puts the elements in order.
pub proof fn sorted_is_in_order<T>(v: Seq<T>, le: spec_fn(T, T) -> bool)
    requires
        is_preorder(le),
    ensures
        in_order(sorted(v, le), le),
        forall|i: int, j: int|
            #![trigger sorted(v, le)[i], sorted(v, le)[j]]
            0 <= i < j < v.len() ==> le(sorted(v, le)[i], sorted(v, le)[j]),
    decreases v.len(),
{
    sorted_is_permutation(v, le);
    if v.len() > 0 {
        sorted_is_in_order(v.drop_last(), le);
        insert_keeps_order(sorted(v.drop_last(), le), v.last(), le);
    }
}

/// Where [`insert_sorted`] puts the element.
pub(crate) proof fn insert_sorted_at<T>(v: Seq<T>, x: T, le: spec_fn(T, T) -> bool, at: int)
    requires
        0 <= at <= v.len(),
        at > 0 ==> le(v[at - 1], x),
        forall|j: int| at <= j < v.len() ==> !le(#[trigger] v[j], x),
    ensures
        insert_sorted(v, x, le) == v.insert(at, x),
    decreases v.len(),
{
    if at == v.len() {
        assert(v.insert(at, x) =~= v.push(x));
    } else {
        assert(!le(v[v.len() - 1], x));
        insert_sorted_at(v.drop_last(), x, le, at);
        assert(v.insert(at, x) =~= v.drop_last().insert(at, x).push(v.last()));
    }
}

/// Inserting leaves the elements that satisfy `p` as they were, with the new
/// one behind them if it satisfies `p`.
proof fn insert_is_stable<T>(v: Seq<T>, x: T, le: spec_fn(T, T) -> bool, p: spec_fn(T) -> bool)
    requires
        forall|a: T, b: T| #![trigger le(a, b)] p(a) && p(b) ==> le(a, b),
    ensures
        insert_sorted(v, x, le).filter(p) == v.push(x).filter(p),
    decreases v.len(),
{
    reveal_with_fuel(Seq::filter, 3);
    if v.len() > 0 && !le(v.last(), x) {
        let head = v.drop_last();
        let r = insert_sorted(v, x, le);
        insert_is_stable(head, x, le, p);
        assert(r.drop_last() =~= insert_sorted(head, x, le));
        assert(head.push(x).drop_last() =~= head);
        assert(v.push(x).drop_last() =~= v);
        assert(!(p(v.last()) && p(x)));
    }
}

/// Elements that are equal in the order keep the order that they had.
pub proof fn sorted_is_stable<T>(v: Seq<T>, le: spec_fn(T, T) -> bool, p: spec_fn(T) -> bool)
    requires
        forall|a: T, b: T| #![trigger le(a, b)] p(a) && p(b) ==> le(a, b),
    ensures
        sorted(v, le).filter(p) == v.filter(p),
    decreases v.len(),
{
    reveal_with_fuel(Seq::filter, 2);
    if v.len() > 0 {
        let head = v.drop_last();
        sorted_is_stable(head, le, p);
        insert_is_stable(sorted(head, le), v.last(), le, p);
        assert(sorted(head, le).push(v.last()).drop_last() =~= sorted(head, le));
    }
}


} // verus!
