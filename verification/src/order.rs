//! Stable ordering of texts.
use vstd::prelude::*;

use crate::text;

verus! {

/// An order of indices with one more index put in: behind every index whose text does
/// not come after its own.
pub open spec fn placed(order: Seq<int>, texts: Seq<Seq<char>>, i: int) -> Seq<int>
    decreases order.len(),
{
    if order.len() == 0 {
        seq![i]
    } else if text::comes_before(texts[i], texts[order.last()]) {
        placed(order.drop_last(), texts, i).push(order.last())
    } else {
        order.push(i)
    }
}

/// The indices of the first `n` texts in the order of the texts. Equal texts keep their
/// order.
pub open spec fn stable_order(texts: Seq<Seq<char>>, n: int) -> Seq<int>
    decreases n,
{
    if n <= 0 {
        Seq::empty()
    } else {
        placed(stable_order(texts, n - 1), texts, n - 1)
    }
}

/// Whether index `a` stands before index `b` in a stable order.
pub open spec fn precedes(texts: Seq<Seq<char>>, a: int, b: int) -> bool {
    text::comes_before(texts[a], texts[b]) || (texts[a] == texts[b] && a < b)
}

/// Whether every index of an order precedes those behind it.
pub open spec fn is_ordered(order: Seq<int>, texts: Seq<Seq<char>>) -> bool {
    forall|a: int, b: int|
        0 <= a < b < order.len() ==> precedes(texts, #[trigger] order[a], #[trigger] order[b])
}

/// Putting an index in keeps all others and adds it.
proof fn placed_holds_the_same(order: Seq<int>, texts: Seq<Seq<char>>, i: int)
    ensures
        placed(order, texts, i).to_multiset() == order.to_multiset().insert(i),
        placed(order, texts, i).len() == order.len() + 1,
    decreases order.len(),
{
    broadcast use vstd::seq_lib::group_to_multiset_ensures;

    if order.len() == 0 {
        assert(seq![i] =~= order.push(i));
    } else if text::comes_before(texts[i], texts[order.last()]) {
        placed_holds_the_same(order.drop_last(), texts, i);
        assert(order =~= order.drop_last().push(order.last()));
        assert(placed(order, texts, i).to_multiset() =~= order.to_multiset().insert(i));
    }
}

/// The indices of an order with one more put in are those of the order and the new one.
proof fn placed_indices(order: Seq<int>, texts: Seq<Seq<char>>, i: int, k: int)
    requires
        0 <= k < placed(order, texts, i).len(),
    ensures
        placed(order, texts, i)[k] == i || order.contains(placed(order, texts, i)[k]),
    decreases order.len(),
{
    let now = placed(order, texts, i);
    if order.len() > 0 {
        if text::comes_before(texts[i], texts[order.last()]) {
            let rest = placed(order.drop_last(), texts, i);
            if k < rest.len() {
                placed_indices(order.drop_last(), texts, i, k);
                if order.drop_last().contains(rest[k]) {
                    let j = choose|j: int|
                        0 <= j < order.drop_last().len() && order.drop_last()[j] == rest[k];
                    assert(order[j] == now[k]);
                }
            } else {
                assert(order[order.len() - 1] == now[k]);
            }
        } else if k < order.len() {
            assert(order[k] == now[k]);
        }
    }
}

proof fn placing_keeps_order(order: Seq<int>, texts: Seq<Seq<char>>, i: int)
    requires
        is_ordered(order, texts),
        forall|k: int| 0 <= k < order.len() ==> (#[trigger] order[k]) < i,
    ensures
        is_ordered(placed(order, texts, i), texts),
    decreases order.len(),
{
    let now = placed(order, texts, i);
    if order.len() > 0 {
        let last = order.last();
        if text::comes_before(texts[i], texts[last]) {
            let rest = order.drop_last();
            assert forall|a: int, b: int| 0 <= a < b < rest.len() implies precedes(
                texts,
                #[trigger] rest[a],
                #[trigger] rest[b],
            ) by {
                assert(precedes(texts, order[a], order[b]));
            }
            placing_keeps_order(rest, texts, i);
            let before = placed(rest, texts, i);
            assert forall|a: int, b: int| 0 <= a < b < now.len() implies precedes(
                texts,
                #[trigger] now[a],
                #[trigger] now[b],
            ) by {
                if b < before.len() {
                    assert(precedes(texts, before[a], before[b]));
                } else {
                    placed_indices(rest, texts, i, a);
                    if before[a] != i {
                        let j = choose|j: int| 0 <= j < rest.len() && rest[j] == before[a];
                        assert(precedes(texts, order[j], order[order.len() - 1]));
                    }
                }
            }
        } else {
            text::order_is_total(texts[i], texts[last]);
            assert forall|a: int, b: int| 0 <= a < b < now.len() implies precedes(
                texts,
                #[trigger] now[a],
                #[trigger] now[b],
            ) by {
                if b < order.len() {
                    assert(precedes(texts, order[a], order[b]));
                } else {
                    if a < order.len() - 1 {
                        assert(precedes(texts, order[a], order[order.len() - 1]));
                        if text::comes_before(texts[order[a]], texts[last])
                            && text::comes_before(texts[last], texts[i]) {
                            text::order_is_transitive(texts[order[a]], texts[last], texts[i]);
                        }
                    }
                }
            }
        }
    }
}

/// A stable order holds every index once, in the order of the texts, and equal texts in
/// the order of their indices.
pub proof fn stable_order_is_exact(texts: Seq<Seq<char>>, n: int)
    requires
        0 <= n <= texts.len(),
    ensures
        stable_order(texts, n).len() == n,
        is_ordered(stable_order(texts, n), texts),
        forall|k: int| 0 <= k < n ==> 0 <= #[trigger] stable_order(texts, n)[k] < n,
        forall|i: int| 0 <= i < n ==> #[trigger] stable_order(texts, n).contains(i),
    decreases n,
{
    if n > 0 {
        stable_order_is_exact(texts, n - 1);
        let before = stable_order(texts, n - 1);
        let now = stable_order(texts, n);
        placed_holds_the_same(before, texts, n - 1);
        placing_keeps_order(before, texts, n - 1);
        assert forall|k: int| 0 <= k < n implies 0 <= #[trigger] now[k] < n by {
            placed_indices(before, texts, n - 1, k);
            if before.contains(now[k]) {
                let j = choose|j: int| 0 <= j < before.len() && before[j] == now[k];
                assert(0 <= before[j] < n - 1);
            }
        }
        assert forall|i: int| 0 <= i < n implies #[trigger] now.contains(i) by {
            broadcast use vstd::seq_lib::group_to_multiset_ensures;

            if i < n - 1 {
                assert(before.contains(i));
                assert(before.to_multiset().count(i) > 0);
            }
            assert(now.to_multiset().count(i) > 0);
        }
    }
}

/// Sorts texts: the indices of the texts in their order, equal ones as they stood.
pub fn sort_stably(texts: &Vec<String>) -> (r: Vec<usize>)
    ensures
        r@.len() == texts@.len(),
        r@.map_values(|i: usize| i as int) == stable_order(
            text::texts(texts@),
            texts@.len() as int,
        ),
        forall|k: int| 0 <= k < r@.len() ==> (#[trigger] r@[k]) < texts@.len(),
{
    let ghost t = text::texts(texts@);
    let mut out: Vec<usize> = Vec::new();
    let mut i: usize = 0;
    assert(out@.map_values(|i: usize| i as int) =~= stable_order(t, 0));
    while i < texts.len()
        invariant
            i <= texts.len(),
            t == text::texts(texts@),
            out@.len() == i,
            out@.map_values(|i: usize| i as int) == stable_order(t, i as int),
            forall|k: int| 0 <= k < out@.len() ==> (#[trigger] out@[k]) < i,
        decreases texts.len() - i,
    {
        let mut at: usize = out.len();
        let ghost order = out@.map_values(|i: usize| i as int);
        assert(order.take(at as int) =~= order);
        assert(order.skip(at as int) =~= Seq::<int>::empty());
        assert(placed(order, t, i as int) =~= placed(order.take(at as int), t, i as int)
            + order.skip(at as int));
        while at > 0 && text::is_before(texts[i].as_str(), texts[out[at - 1]].as_str())
            invariant
                at <= out@.len(),
                i < texts@.len(),
                t == text::texts(texts@),
                order == out@.map_values(|i: usize| i as int),
                forall|k: int| 0 <= k < out@.len() ==> (#[trigger] out@[k]) < i,
                placed(order, t, i as int) == placed(order.take(at as int), t, i as int)
                    + order.skip(at as int),
            decreases at,
        {
            proof {
                let head = order.take(at as int);
                assert(head.last() == order[at - 1]);
                assert(head.drop_last() =~= order.take(at - 1));
                assert(order.skip(at - 1) =~= seq![order[at - 1]] + order.skip(at as int));
                assert(placed(head, t, i as int) + order.skip(at as int) =~= placed(
                    order.take(at - 1),
                    t,
                    i as int,
                ) + order.skip(at - 1));
            }
            at -= 1;
        }
        proof {
            let head = order.take(at as int);
            if at > 0 {
                assert(head.last() == out@[at - 1]);
            }
            assert(placed(head, t, i as int) =~= head.push(i as int));
        }
        out.insert(at, i);
        assert(out@.map_values(|i: usize| i as int) =~= order.take(at as int).push(i as int)
            + order.skip(at as int));
        i += 1;
    }
    out
}

} // verus!
