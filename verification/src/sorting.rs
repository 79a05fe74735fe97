//! Sorting by keys. The sort works on positions: it finds the order in which the keys'
//! positions must be read for the keys to ascend, and the lines are then laid out in
//! that order. Equal keys may come out in any order among themselves.
use vstd::prelude::*;
use vstd::multiset::{lemma_multiset_empty_len, Multiset};
use vstd::seq_lib::{
    lemma_multiset_commutative,
    to_multiset_build,
    to_multiset_contains,
    to_multiset_len,
    to_multiset_remove,
};
use crate::keys::{
    all_comparable,
    ascending,
    key_less,
    key_lt,
    key_values,
    lemma_key_lt_asymmetric,
    lemma_key_not_before_transitive,
    Key,
};

verus! {

/// The positions 0, 1, .., `n - 1` in their own order.
pub open spec fn identity_order(n: nat) -> Seq<usize> {
    Seq::new(n, |i: int| i as usize)
}

/// Whether `order` names each of the positions 0, 1, .., `n - 1` exactly once.
pub open spec fn is_arrangement(order: Seq<usize>, n: nat) -> bool {
    order.to_multiset() == identity_order(n).to_multiset()
}

/// The items read in the order given: the item at place `i` of the result is the item
/// at position `order[i]`.
pub open spec fn arranged<T>(items: Seq<T>, order: Seq<usize>) -> Seq<T> {
    Seq::new(order.len(), |i: int| items[order[i] as int])
}

/// Whether every position named lies below `n`.
pub open spec fn within(order: Seq<usize>, n: nat) -> bool {
    forall|i: int| 0 <= i < order.len() ==> (#[trigger] order[i]) < n
}

/// Two sequences that hold the same items, each as often as the other, still do so
/// after one function has been applied to every item of both.
pub proof fn lemma_map_same_items<A, B>(a: Seq<A>, b: Seq<A>, f: spec_fn(A) -> B)
    requires
        a.to_multiset() == b.to_multiset(),
    ensures
        a.map_values(f).to_multiset() == b.map_values(f).to_multiset(),
    decreases a.len(),
{
    to_multiset_len(a);
    to_multiset_len(b);
    if a.len() == 0 {
        assert(a.map_values(f) =~= b.map_values(f));
    } else {
        let x = a.last();
        let front = a.drop_last();
        assert(a =~= front.push(x));
        to_multiset_build(front, x);
        to_multiset_contains(a, x);
        to_multiset_contains(b, x);
        assert(a.contains(x));
        let at = choose|at: int| 0 <= at < b.len() && b[at] == x;
        let rest = b.remove(at);
        to_multiset_remove(b, at);
        assert(front.to_multiset() =~= a.to_multiset().remove(x));
        lemma_map_same_items(front, rest, f);
        assert(a.map_values(f) =~= front.map_values(f).push(f(x)));
        to_multiset_build(front.map_values(f), f(x));
        assert(b.map_values(f).remove(at) =~= rest.map_values(f));
        to_multiset_remove(b.map_values(f), at);
        to_multiset_contains(b.map_values(f), f(x));
        assert(b.map_values(f)[at] == f(x));
        assert(b.map_values(f).contains(f(x)));
        assert(b.map_values(f).to_multiset() =~= rest.map_values(f).to_multiset().insert(f(x)));
    }
}

/// An arrangement of `n` positions has `n` entries, each below `n`.
pub proof fn lemma_arrangement_within(order: Seq<usize>, n: nat)
    requires
        is_arrangement(order, n),
        n <= usize::MAX,
    ensures
        order.len() == n,
        within(order, n),
{
    to_multiset_len(order);
    to_multiset_len(identity_order(n));
    assert forall|i: int| 0 <= i < order.len() implies (#[trigger] order[i]) < n by {
        let x = order[i];
        to_multiset_contains(order, x);
        to_multiset_contains(identity_order(n), x);
        assert(order.contains(x));
        let at = choose|at: int| 0 <= at < n && identity_order(n)[at] == x;
        assert(x == at);
    }
}

/// Items read in an arrangement of their positions are the same items, each as often as
/// before.
pub proof fn lemma_arranged_same_items<T>(items: Seq<T>, order: Seq<usize>)
    requires
        is_arrangement(order, items.len()),
        items.len() <= usize::MAX,
    ensures
        arranged(items, order).len() == items.len(),
        arranged(items, order).to_multiset() == items.to_multiset(),
{
    let n = items.len();
    let pick = |p: usize| items[p as int];
    lemma_arrangement_within(order, n);
    lemma_map_same_items(order, identity_order(n), pick);
    assert(order.map_values(pick) =~= arranged(items, order));
    assert(identity_order(n).map_values(pick) =~= items);
}

/// A sequence of length 0 holds no item.
proof fn lemma_no_items<T>(s: Seq<T>)
    requires
        s.len() == 0,
    ensures
        s.to_multiset() =~= Multiset::<T>::empty(),
{
    to_multiset_len(s);
    lemma_multiset_empty_len(s.to_multiset());
}

/// Merges two runs of positions, each ascending by key, into one.
fn merge(keys: &Vec<Key>, left: &Vec<usize>, right: &Vec<usize>) -> (merged: Vec<usize>)
    requires
        all_comparable(key_values(keys@)),
        within(left@, keys@.len()),
        within(right@, keys@.len()),
        ascending(arranged(key_values(keys@), left@)),
        ascending(arranged(key_values(keys@), right@)),
    ensures
        merged@.to_multiset() == left@.to_multiset().add(right@.to_multiset()),
        within(merged@, keys@.len()),
        ascending(arranged(key_values(keys@), merged@)),
{
    let ghost values = key_values(keys@);
    let mut merged: Vec<usize> = Vec::new();
    let mut i: usize = 0;
    let mut j: usize = 0;
    proof {
        lemma_no_items(merged@);
        lemma_no_items(left@.take(0));
        lemma_no_items(right@.take(0));
        assert(merged@.to_multiset() =~= left@.take(0).to_multiset().add(
            right@.take(0).to_multiset(),
        ));
    }
    while i < left.len() || j < right.len()
        invariant
            values == key_values(keys@),
            all_comparable(values),
            within(left@, keys@.len()),
            within(right@, keys@.len()),
            ascending(arranged(values, left@)),
            ascending(arranged(values, right@)),
            i <= left.len(),
            j <= right.len(),
            merged@.to_multiset() == left@.take(i as int).to_multiset().add(
                right@.take(j as int).to_multiset(),
            ),
            within(merged@, keys@.len()),
            ascending(arranged(values, merged@)),
            i < left.len() ==> forall|k: int|
                0 <= k < merged.len() ==> !key_lt(
                    values[left@[i as int] as int],
                    values[#[trigger] merged@[k] as int],
                ),
            j < right.len() ==> forall|k: int|
                0 <= k < merged.len() ==> !key_lt(
                    values[right@[j as int] as int],
                    values[#[trigger] merged@[k] as int],
                ),
        decreases left.len() - i + right.len() - j,
    {
        let ghost before = merged@;
        let take_right = if i >= left.len() {
            true
        } else if j >= right.len() {
            false
        } else {
            key_less(&keys[right[j]], &keys[left[i]])
        };
        if take_right {
            let p = right[j];
            merged.push(p);
            proof {
                let a = arranged(values, merged@);
                assert forall|x: int, y: int| 0 <= x < y < a.len() implies !key_lt(
                    a[y],
                    a[x],
                ) by {
                    if y < before.len() {
                        assert(a[y] == arranged(values, before)[y]);
                        assert(a[x] == arranged(values, before)[x]);
                    } else {
                        assert(before[x] == merged@[x]);
                    }
                }
                assert(right@.take(j + 1) =~= right@.take(j as int).push(p));
                to_multiset_build(right@.take(j as int), p);
                to_multiset_build(before, p);
                assert(merged@.to_multiset() =~= left@.take(i as int).to_multiset().add(
                    right@.take(j + 1).to_multiset(),
                ));
                if j + 1 < right.len() {
                    let q = right@[j + 1];
                    assert(arranged(values, right@)[j as int] == values[p as int]);
                    assert(arranged(values, right@)[j + 1] == values[q as int]);
                    assert forall|k: int| 0 <= k < merged.len() implies !key_lt(
                        values[q as int],
                        values[#[trigger] merged@[k] as int],
                    ) by {
                        if k < before.len() {
                            assert(before[k] == merged@[k]);
                            lemma_key_not_before_transitive(
                                values[before[k] as int],
                                values[p as int],
                                values[q as int],
                            );
                        }
                    }
                }
                if i < left.len() {
                    let l = left@[i as int];
                    lemma_key_lt_asymmetric(values[p as int], values[l as int]);
                    assert forall|k: int| 0 <= k < merged.len() implies !key_lt(
                        values[l as int],
                        values[#[trigger] merged@[k] as int],
                    ) by {
                        if k < before.len() {
                            assert(before[k] == merged@[k]);
                        }
                    }
                }
            }
            j += 1;
        } else {
            let p = left[i];
            merged.push(p);
            proof {
                let a = arranged(values, merged@);
                assert forall|x: int, y: int| 0 <= x < y < a.len() implies !key_lt(
                    a[y],
                    a[x],
                ) by {
                    if y < before.len() {
                        assert(a[y] == arranged(values, before)[y]);
                        assert(a[x] == arranged(values, before)[x]);
                    } else {
                        assert(before[x] == merged@[x]);
                    }
                }
                assert(left@.take(i + 1) =~= left@.take(i as int).push(p));
                to_multiset_build(left@.take(i as int), p);
                to_multiset_build(before, p);
                assert(merged@.to_multiset() =~= left@.take(i + 1).to_multiset().add(
                    right@.take(j as int).to_multiset(),
                ));
                if i + 1 < left.len() {
                    let q = left@[i + 1];
                    assert(arranged(values, left@)[i as int] == values[p as int]);
                    assert(arranged(values, left@)[i + 1] == values[q as int]);
                    assert forall|k: int| 0 <= k < merged.len() implies !key_lt(
                        values[q as int],
                        values[#[trigger] merged@[k] as int],
                    ) by {
                        if k < before.len() {
                            assert(before[k] == merged@[k]);
                            lemma_key_not_before_transitive(
                                values[before[k] as int],
                                values[p as int],
                                values[q as int],
                            );
                        }
                    }
                }
                if j < right.len() {
                    let r = right@[j as int];
                    assert forall|k: int| 0 <= k < merged.len() implies !key_lt(
                        values[r as int],
                        values[#[trigger] merged@[k] as int],
                    ) by {
                        if k < before.len() {
                            assert(before[k] == merged@[k]);
                        }
                    }
                }
            }
            i += 1;
        }
    }
    proof {
        assert(left@.take(i as int) =~= left@);
        assert(right@.take(j as int) =~= right@);
    }
    merged
}

/// Sorts a run of positions by their keys.
fn sort_positions(keys: &Vec<Key>, positions: Vec<usize>) -> (sorted: Vec<usize>)
    requires
        all_comparable(key_values(keys@)),
        within(positions@, keys@.len()),
    ensures
        sorted@.to_multiset() == positions@.to_multiset(),
        within(sorted@, keys@.len()),
        ascending(arranged(key_values(keys@), sorted@)),
    decreases positions@.len(),
{
    let n = positions.len();
    if n <= 1 {
        return positions;
    }
    let mut left = positions;
    let right = left.split_off(n / 2);
    proof {
        assert(positions@ =~= left@ + right@);
        lemma_multiset_commutative(left@, right@);
    }
    let left_sorted = sort_positions(keys, left);
    let right_sorted = sort_positions(keys, right);
    merge(keys, &left_sorted, &right_sorted)
}

/// The order in which the keys ascend: an arrangement of the keys' positions such that
/// the keys, read in it, stand in non-decreasing order.
pub fn sorted_order(keys: &Vec<Key>) -> (order: Vec<usize>)
    requires
        all_comparable(key_values(keys@)),
    ensures
        is_arrangement(order@, keys@.len()),
        order@.len() == keys@.len(),
        within(order@, keys@.len()),
        ascending(arranged(key_values(keys@), order@)),
{
    let n = keys.len();
    let mut positions: Vec<usize> = Vec::new();
    let mut i: usize = 0;
    while i < n
        invariant
            n == keys.len(),
            i <= n,
            positions@ == identity_order(i as nat),
        decreases n - i,
    {
        positions.push(i);
        assert(positions@ =~= identity_order((i + 1) as nat));
        i += 1;
    }
    let order = sort_positions(keys, positions);
    proof {
        to_multiset_len(order@);
        to_multiset_len(positions@);
    }
    order
}

} // verus!
