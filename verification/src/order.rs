//! Stable ordering by a key of two numbers.

use vstd::prelude::*;

verus! {

/// A key: ordered by the first number, then by the second.
pub open spec fn key_less(a: (int, int), b: (int, int)) -> bool {
    a.0 < b.0 || (a.0 == b.0 && a.1 < b.1)
}

/// What a list of keys holds.
pub open spec fn keys_view(v: Seq<(i128, i128)>) -> Seq<(int, int)> {
    v.map_values(|k: (i128, i128)| (k.0 as int, k.1 as int))
}

/// `order` with the item `x` behind those whose keys are not greater.
pub open spec fn with_item(keys: Seq<(int, int)>, order: Seq<int>, x: int) -> Seq<int>
    decreases order.len(),
{
    if order.len() == 0 || !key_less(keys[x], keys[order.last()]) {
        order.push(x)
    } else {
        with_item(keys, order.drop_last(), x).push(order.last())
    }
}

/// The first `n` items by ascending key; items with equal keys keep their
/// order.
pub open spec fn order_of(keys: Seq<(int, int)>, n: int) -> Seq<int>
    decreases n,
{
    if n <= 0 {
        Seq::empty()
    } else {
        with_item(keys, order_of(keys, n - 1), n - 1)
    }
}

/// The items by ascending key; items with equal keys keep their order.
pub open spec fn stable_order(keys: Seq<(int, int)>) -> Seq<int> {
    order_of(keys, keys.len() as int)
}

/// The items of `s` in the given order.
pub open spec fn arranged<A>(s: Seq<A>, order: Seq<int>) -> Seq<A> {
    Seq::new(order.len(), |i: int| s[order[i]])
}

/// Whether the item `a` comes before the item `b`: its key is less, or the keys
/// are equal and it came first.
pub open spec fn comes_before(keys: Seq<(int, int)>, a: int, b: int) -> bool {
    key_less(keys[a], keys[b]) || (keys[a] == keys[b] && a < b)
}

/// Whether `order` holds each of the first `n` items once, each before those
/// that come after it.
pub open spec fn is_stable_order(keys: Seq<(int, int)>, order: Seq<int>, n: int) -> bool {
    &&& order.len() == n
    &&& forall|i: int| 0 <= i < order.len() ==> 0 <= #[trigger] order[i] < n
    &&& forall|i: int, j: int|
        0 <= i < j < order.len() ==> comes_before(keys, #[trigger] order[i], #[trigger] order[j])
    &&& forall|x: int| 0 <= x < n ==> #[trigger] order.contains(x)
}

proof fn lemma_with_item(keys: Seq<(int, int)>, order: Seq<int>, x: int)
    requires
        0 <= x < keys.len(),
        forall|i: int| 0 <= i < order.len() ==> 0 <= #[trigger] order[i] < x,
        forall|i: int, j: int|
            0 <= i < j < order.len() ==> comes_before(keys, #[trigger] order[i], #[trigger] order[j]),
    ensures
        with_item(keys, order, x).len() == order.len() + 1,
        forall|i: int, j: int|
            0 <= i < j < with_item(keys, order, x).len() ==> comes_before(
                keys,
                #[trigger] with_item(keys, order, x)[i],
                #[trigger] with_item(keys, order, x)[j],
            ),
        forall|y: int| #[trigger]
            with_item(keys, order, x).contains(y) <==> y == x || order.contains(y),
    decreases order.len(),
{
    let r = with_item(keys, order, x);
    if order.len() == 0 || !key_less(keys[x], keys[order.last()]) {
        assert forall|i: int, j: int| 0 <= i < j < r.len() implies comes_before(
            keys,
            #[trigger] r[i],
            #[trigger] r[j],
        ) by {
            if j == order.len() {
                assert(r[i] == order[i]);
                if i < order.len() - 1 {
                    assert(comes_before(keys, order[i], order[order.len() - 1]));
                }
            } else {
                assert(comes_before(keys, order[i], order[j]));
            }
        }
        assert forall|y: int| #[trigger] r.contains(y) <==> y == x || order.contains(y) by {
            assert(r[order.len() as int] == x);
            if order.contains(y) {
                let k = choose|k: int| 0 <= k < order.len() && order[k] == y;
                assert(r[k] == y);
            }
        }
    } else {
        let front = order.drop_last();
        let inner = with_item(keys, front, x);
        let last = order.last();
        lemma_with_item(keys, front, x);
        assert forall|i: int, j: int| 0 <= i < j < r.len() implies comes_before(
            keys,
            #[trigger] r[i],
            #[trigger] r[j],
        ) by {
            assert(r[i] == inner[i]);
            if j == r.len() - 1 {
                assert(inner.contains(r[i]));
                if r[i] != x {
                    let k = choose|k: int| 0 <= k < front.len() && front[k] == r[i];
                    assert(comes_before(keys, order[k], order[order.len() - 1]));
                }
            } else {
                assert(r[j] == inner[j]);
            }
        }
        assert forall|y: int| #[trigger] r.contains(y) <==> y == x || order.contains(y) by {
            if r.contains(y) {
                let k = choose|k: int| 0 <= k < r.len() && r[k] == y;
                if k < inner.len() {
                    assert(inner[k] == y);
                    assert(inner.contains(y));
                    if y != x {
                        let m = choose|m: int| 0 <= m < front.len() && front[m] == y;
                        assert(order[m] == y);
                    }
                } else {
                    assert(order[order.len() - 1] == y);
                }
            }
            if y == x || order.contains(y) {
                if y != x {
                    let m = choose|m: int| 0 <= m < order.len() && order[m] == y;
                    if m < front.len() {
                        assert(front[m] == y);
                        assert(inner.contains(y));
                    } else {
                        assert(r[r.len() - 1] == y);
                    }
                }
                if inner.contains(y) {
                    let k = choose|k: int| 0 <= k < inner.len() && inner[k] == y;
                    assert(r[k] == y);
                }
            }
        }
    }
}

proof fn lemma_order_of(keys: Seq<(int, int)>, n: int)
    requires
        0 <= n <= keys.len(),
    ensures
        is_stable_order(keys, order_of(keys, n), n),
    decreases n,
{
    if n > 0 {
        let before = order_of(keys, n - 1);
        let r = order_of(keys, n);
        lemma_order_of(keys, n - 1);
        lemma_with_item(keys, before, n - 1);
        assert forall|i: int| 0 <= i < r.len() implies 0 <= #[trigger] r[i] < n by {
            assert(r.contains(r[i]));
        }
    }
}

/// The order holds each item once, by ascending key, and items with equal keys
/// in the order in which they came.
pub proof fn order_is_stable(keys: Seq<(int, int)>)
    ensures
        is_stable_order(keys, stable_order(keys), keys.len() as int),
{
    lemma_order_of(keys, keys.len() as int);
}

proof fn lemma_with_item_arranged<A>(s: Seq<A>, keys: Seq<(int, int)>, order: Seq<int>, x: int)
    ensures
        arranged(s, with_item(keys, order, x)).to_multiset() == arranged(
            s,
            order,
        ).to_multiset().insert(s[x]),
    decreases order.len(),
{
    broadcast use vstd::seq_lib::group_to_multiset_ensures;

    if order.len() == 0 || !key_less(keys[x], keys[order.last()]) {
        assert(arranged(s, order.push(x)) =~= arranged(s, order).push(s[x]));
    } else {
        let front = order.drop_last();
        let inner = with_item(keys, front, x);
        let last = order.last();
        lemma_with_item_arranged(s, keys, front, x);
        assert(arranged(s, inner.push(last)) =~= arranged(s, inner).push(s[last]));
        assert(arranged(s, order) =~= arranged(s, front).push(s[last]));
        assert(arranged(s, inner.push(last)).to_multiset() =~= arranged(
            s,
            order,
        ).to_multiset().insert(s[x]));
    }
}

proof fn lemma_order_arranged<A>(s: Seq<A>, keys: Seq<(int, int)>, n: int)
    requires
        0 <= n <= s.len(),
    ensures
        arranged(s, order_of(keys, n)).to_multiset() == s.subrange(0, n).to_multiset(),
    decreases n,
{
    broadcast use vstd::seq_lib::group_to_multiset_ensures;

    if n > 0 {
        lemma_order_arranged(s, keys, n - 1);
        lemma_with_item_arranged(s, keys, order_of(keys, n - 1), n - 1);
        assert(s.subrange(0, n) =~= s.subrange(0, n - 1).push(s[n - 1]));
    } else {
        assert(arranged(s, order_of(keys, n)) =~= s.subrange(0, n));
    }
}

/// Ordering only reorders: each item stays as often as it was there.
pub proof fn ordering_only_reorders<A>(s: Seq<A>, keys: Seq<(int, int)>)
    requires
        s.len() == keys.len(),
    ensures
        arranged(s, stable_order(keys)).to_multiset() == s.to_multiset(),
{
    lemma_order_arranged(s, keys, s.len() as int);
    assert(s.subrange(0, s.len() as int) =~= s);
}

/// What the indices are as numbers.
pub open spec fn indices_view(v: Seq<usize>) -> Seq<int> {
    v.map_values(|i: usize| i as int)
}

proof fn lemma_item_at(keys: Seq<(int, int)>, order: Seq<int>, x: int, p: int)
    requires
        0 <= p <= order.len(),
        p == 0 || !key_less(keys[x], keys[order[p - 1]]),
        forall|k: int| p <= k < order.len() ==> key_less(keys[x], keys[#[trigger] order[k]]),
    ensures
        with_item(keys, order, x) == order.insert(p, x),
    decreases order.len(),
{
    if p < order.len() {
        assert(order[order.len() - 1] == order.last());
        lemma_item_at(keys, order.drop_last(), x, p);
        assert(order.drop_last().insert(p, x).push(order.last()) =~= order.insert(p, x));
    } else {
        assert(order.insert(p, x) =~= order.push(x));
    }
}

/// The indices of the items by ascending key; items with equal keys keep their
/// order.
pub fn sorted_indices(keys: &Vec<(i128, i128)>) -> (r: Vec<usize>)
    ensures
        indices_view(r@) == stable_order(keys_view(keys@)),
        r.len() == keys.len(),
        forall|i: int| 0 <= i < r.len() ==> #[trigger] r@[i] < keys.len(),
{
    let ghost ks = keys_view(keys@);
    let mut out: Vec<usize> = Vec::new();
    let mut n: usize = 0;
    assert(indices_view(out@) =~= Seq::empty());
    while n < keys.len()
        invariant
            n <= keys.len(),
            ks == keys_view(keys@),
            out.len() == n,
            indices_view(out@) == order_of(ks, n as int),
            forall|i: int| 0 <= i < out.len() ==> #[trigger] out@[i] < n,
        decreases keys.len() - n,
    {
        let key = keys[n];
        let mut p: usize = out.len();
        let ghost before = indices_view(out@);
        assert(forall|i: int| 0 <= i < out.len() ==> before[i] == #[trigger] out@[i]);
        while p > 0 && (key.0 < keys[out[p - 1]].0 || (key.0 == keys[out[p - 1]].0 && key.1
            < keys[out[p - 1]].1))
            invariant
                p <= out.len(),
                n < keys.len(),
                ks == keys_view(keys@),
                key == keys@[n as int],
                before == indices_view(out@),
                forall|i: int| 0 <= i < out.len() ==> #[trigger] out@[i] < n,
                forall|k: int|
                    p <= k < before.len() ==> key_less(ks[n as int], ks[#[trigger] before[k]]),
            decreases p,
        {
            assert(before[p - 1] == out@[p - 1]);
            p -= 1;
        }
        proof {
            if p > 0 {
                assert(before[p - 1] == out@[p - 1]);
            }
            lemma_item_at(ks, before, n as int, p as int);
        }
        out.insert(p, n);
        assert(indices_view(out@) =~= before.insert(p as int, n as int));
        n += 1;
    }
    out
}

} // verus!
