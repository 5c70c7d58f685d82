//! Putting things in the order of their keys. Things with equal keys keep
//! the order they came in.

use vstd::prelude::*;

verus! {

/// The order `order` with the place `x` put in behind every place whose key is
/// at most the key of `x`.
pub open spec fn placed(order: Seq<int>, keys: Seq<int>, x: int) -> Seq<int>
    decreases order.len(),
{
    if order.len() == 0 {
        seq![x]
    } else if keys[order.last()] <= keys[x] {
        order.push(x)
    } else {
        placed(order.drop_last(), keys, x).push(order.last())
    }
}

/// The first `n` places of `keys` in the order of their keys.
pub open spec fn order_upto(keys: Seq<int>, n: nat) -> Seq<int>
    decreases n,
{
    if n == 0 {
        Seq::empty()
    } else {
        placed(order_upto(keys, (n - 1) as nat), keys, n - 1)
    }
}

/// The places of `keys` in the order of their keys.
pub open spec fn order_of(keys: Seq<int>) -> Seq<int> {
    order_upto(keys, keys.len())
}

/// The places of `order` are places of `keys`, and their keys do not fall.
pub open spec fn is_ordered(order: Seq<int>, keys: Seq<int>) -> bool {
    &&& forall|i: int| 0 <= i < order.len() ==> 0 <= #[trigger] order[i] < keys.len()
    &&& forall|i: int, j: int|
        0 <= i <= j < order.len() ==> keys[#[trigger] order[i]] <= keys[#[trigger] order[j]]
}

/// Two places of `keys` hold the same key.
pub open spec fn has_repeats(keys: Seq<int>) -> bool {
    exists|i: int, j: int| 0 <= i < j < keys.len() && #[trigger] keys[i] == #[trigger] keys[j]
}

/// The keys of `keys` in the order `order`.
pub open spec fn keys_along(order: Seq<int>, keys: Seq<int>) -> Seq<int> {
    Seq::new(order.len(), |i: int| keys[order[i]])
}

/// Each key of `keys` is smaller than the next.
pub open spec fn strictly_rising(keys: Seq<int>) -> bool {
    forall|i: int, j: int| 0 <= i < j < keys.len() ==> #[trigger] keys[i] < #[trigger] keys[j]
}

/// Putting a place in behind the places `order[..at]`, where every later
/// place has a larger key and the place before has none larger.
pub proof fn lemma_placed_at(order: Seq<int>, keys: Seq<int>, x: int, at: int)
    requires
        0 <= at <= order.len(),
        forall|i: int| at <= i < order.len() ==> keys[#[trigger] order[i]] > keys[x],
        at > 0 ==> keys[order[at - 1]] <= keys[x],
    ensures
        placed(order, keys, x) == order.insert(at, x),
    decreases order.len(),
{
    if order.len() == 0 {
        assert(order.insert(at, x) =~= seq![x]);
    } else if at == order.len() {
        assert(order.insert(at, x) =~= order.push(x));
    } else {
        assert(keys[order[order.len() - 1]] > keys[x]);
        lemma_placed_at(order.drop_last(), keys, x, at);
        assert(order.drop_last().insert(at, x).push(order.last()) =~= order.insert(at, x));
    }
}

/// Putting a place in keeps an order ordered, adds that place and keeps the
/// others as often as they were there.
pub proof fn lemma_placed(order: Seq<int>, keys: Seq<int>, x: int)
    requires
        is_ordered(order, keys),
        0 <= x < keys.len(),
    ensures
        is_ordered(placed(order, keys, x), keys),
        placed(order, keys, x).len() == order.len() + 1,
        placed(order, keys, x).to_multiset() == order.to_multiset().insert(x),
    decreases order.len(),
{
    broadcast use vstd::seq_lib::group_to_multiset_ensures;

    let out = placed(order, keys, x);
    if order.len() == 0 {
        assert(out =~= Seq::<int>::empty().push(x));
        assert(order =~= Seq::<int>::empty());
    } else if keys[order.last()] <= keys[x] {
        assert forall|i: int, j: int| 0 <= i <= j < out.len() implies keys[#[trigger] out[i]]
            <= keys[#[trigger] out[j]] by {
            if j == order.len() {
                if i < order.len() {
                    assert(keys[order[i]] <= keys[order[order.len() - 1]]);
                }
            } else {
                assert(keys[order[i]] <= keys[order[j]]);
            }
        }
    } else {
        let rest = order.drop_last();
        assert forall|i: int, j: int| 0 <= i <= j < rest.len() implies keys[#[trigger] rest[i]]
            <= keys[#[trigger] rest[j]] by {
            assert(keys[order[i]] <= keys[order[j]]);
        }
        assert forall|i: int| 0 <= i < rest.len() implies 0 <= #[trigger] rest[i]
            < keys.len() by {
            assert(rest[i] == order[i]);
        }
        lemma_placed(rest, keys, x);
        let inner = placed(rest, keys, x);
        assert(out == inner.push(order.last()));
        assert(order =~= rest.push(order.last()));
        assert(inner.to_multiset().insert(order.last()) =~= rest.to_multiset().insert(
            order.last(),
        ).insert(x));
        assert forall|i: int| 0 <= i < inner.len() implies keys[#[trigger] inner[i]]
            <= keys[order.last()] by {
            assert(inner.to_multiset().count(inner[i]) > 0);
            if inner[i] != x {
                assert(rest.to_multiset().count(inner[i]) > 0);
                assert(rest.contains(inner[i]));
                let k = choose|k: int| 0 <= k < rest.len() && rest[k] == inner[i];
                assert(keys[order[k]] <= keys[order[order.len() - 1]]);
            }
        }
        assert forall|i: int, j: int| 0 <= i <= j < out.len() implies keys[#[trigger] out[i]]
            <= keys[#[trigger] out[j]] by {
            if j < inner.len() {
                assert(keys[inner[i]] <= keys[inner[j]]);
            } else if i < inner.len() {
                assert(keys[inner[i]] <= keys[order.last()]);
            }
        }
        assert forall|i: int| 0 <= i < out.len() implies 0 <= #[trigger] out[i]
            < keys.len() by {
            if i < inner.len() {
                assert(out[i] == inner[i]);
            } else {
                assert(out[i] == order[order.len() - 1]);
            }
        }
    }
}

/// The order of the first `n` places is ordered and holds each of those
/// places once.
pub proof fn lemma_order_upto(keys: Seq<int>, n: nat)
    requires
        n <= keys.len(),
    ensures
        is_ordered(order_upto(keys, n), keys),
        order_upto(keys, n).len() == n,
        forall|x: int|
            order_upto(keys, n).to_multiset().count(x) == if 0 <= x < n {
                1nat
            } else {
                0nat
            },
    decreases n,
{
    broadcast use vstd::seq_lib::group_to_multiset_ensures;

    if n == 0 {
        assert(order_upto(keys, n) =~= Seq::<int>::empty());
    } else {
        lemma_order_upto(keys, (n - 1) as nat);
        lemma_placed(order_upto(keys, (n - 1) as nat), keys, n - 1);
    }
}

/// The places in the order of their keys: the keys do not fall, and each
/// place stands there once.
pub proof fn lemma_order_of(keys: Seq<int>)
    ensures
        is_ordered(order_of(keys), keys),
        order_of(keys).len() == keys.len(),
        order_of(keys).no_duplicates(),
        forall|x: int| 0 <= x < keys.len() ==> order_of(keys).contains(x),
{
    broadcast use vstd::seq_lib::group_to_multiset_ensures;

    let order = order_of(keys);
    lemma_order_upto(keys, keys.len());
    assert forall|x: int| 0 <= x < keys.len() implies order.contains(x) by {
        assert(order.to_multiset().count(x) > 0);
    }
    assert forall|i: int, j: int| 0 <= i < order.len() && 0 <= j < order.len() && i != j implies order[i]
        != order[j] by {
        if order[i] == order[j] {
            let x = order[i];
            assert(order.to_multiset().count(x) == 1);
            vstd::seq_lib::lemma_multiset_commutative(order.take(i + 1), order.skip(i + 1));
            assert(order.take(i + 1) + order.skip(i + 1) =~= order);
            if i < j {
                assert(order.take(i + 1)[i] == x);
                assert(order.take(i + 1).contains(x));
                assert(order.skip(i + 1)[j - i - 1] == x);
                assert(order.skip(i + 1).contains(x));
                assert(order.take(i + 1).to_multiset().count(x) > 0);
                assert(order.skip(i + 1).to_multiset().count(x) > 0);
            } else {
                vstd::seq_lib::lemma_multiset_commutative(order.take(j + 1), order.skip(j + 1));
                assert(order.take(j + 1) + order.skip(j + 1) =~= order);
                assert(order.take(j + 1)[j] == x);
                assert(order.take(j + 1).contains(x));
                assert(order.skip(j + 1)[i - j - 1] == x);
                assert(order.skip(j + 1).contains(x));
                assert(order.take(j + 1).to_multiset().count(x) > 0);
                assert(order.skip(j + 1).to_multiset().count(x) > 0);
            }
        }
    }
}

/// Two places hold the same key exactly when two neighbours in the order of
/// the keys do.
pub proof fn lemma_repeats_are_neighbours(keys: Seq<int>)
    ensures
        has_repeats(keys) <==> exists|i: int|
            0 <= i < order_of(keys).len() - 1 && keys[#[trigger] order_of(keys)[i]]
                == keys[order_of(keys)[i + 1]],
{
    let order = order_of(keys);
    lemma_order_of(keys);
    if has_repeats(keys) {
        let (a, b) = choose|a: int, b: int|
            0 <= a < b < keys.len() && #[trigger] keys[a] == #[trigger] keys[b];
        assert(order.contains(a));
        assert(order.contains(b));
        let i = choose|i: int| 0 <= i < order.len() && order[i] == a;
        let j = choose|j: int| 0 <= j < order.len() && order[j] == b;
        let lo = if i < j {
            i
        } else {
            j
        };
        let hi = if i < j {
            j
        } else {
            i
        };
        assert(keys[order[lo]] == keys[order[hi]]);
        assert(keys[order[lo]] <= keys[order[lo + 1]]);
        assert(keys[order[lo + 1]] <= keys[order[hi]]);
        assert(keys[order[lo]] == keys[order[lo + 1]]);
    }
    if exists|i: int|
        0 <= i < order.len() - 1 && keys[#[trigger] order[i]] == keys[order[i + 1]] {
        let i = choose|i: int|
            0 <= i < order.len() - 1 && keys[#[trigger] order[i]] == keys[order[i + 1]];
        let a = order[i];
        let b = order[i + 1];
        assert(a != b);
        if a < b {
            assert(keys[a] == keys[b]);
        } else {
            assert(keys[b] == keys[a]);
        }
    }
}

/// Without repeats, the keys in their order rise strictly.
pub proof fn lemma_order_rises(keys: Seq<int>)
    requires
        !has_repeats(keys),
    ensures
        strictly_rising(keys_along(order_of(keys), keys)),
{
    let order = order_of(keys);
    lemma_order_of(keys);
    assert forall|i: int, j: int| 0 <= i < j < order.len() implies #[trigger] keys_along(
        order,
        keys,
    )[i] < #[trigger] keys_along(order, keys)[j] by {
        let a = order[i];
        let b = order[j];
        assert(keys[a] <= keys[b]);
        assert(a != b);
        if keys[a] == keys[b] {
            if a < b {
                assert(keys[a] == keys[b]);
            } else {
                assert(keys[b] == keys[a]);
            }
        }
    }
}

/// The places of `keys` in the order of their keys.
pub fn sort_order(keys: &Vec<i128>) -> (order: Vec<usize>)
    ensures
        order@.len() == keys@.len(),
        order@.map_values(|x: usize| x as int) == order_of(keys@.map_values(|k: i128| k as int)),
        forall|i: int| 0 <= i < order@.len() ==> (#[trigger] order@[i]) < keys@.len(),
{
    let ghost int_keys = keys@.map_values(|k: i128| k as int);
    let mut order: Vec<usize> = Vec::new();
    let mut x: usize = 0;
    while x < keys.len()
        invariant
            x <= keys@.len(),
            int_keys == keys@.map_values(|k: i128| k as int),
            order@.len() == x,
            order@.map_values(|x: usize| x as int) == order_upto(int_keys, x as nat),
            forall|i: int| 0 <= i < order@.len() ==> (#[trigger] order@[i]) < keys@.len(),
        decreases keys@.len() - x,
    {
        let key = keys[x];
        let mut at: usize = order.len();
        while at > 0 && keys[order[at - 1]] > key
            invariant
                at <= order@.len(),
                x < keys@.len(),
                key == keys@[x as int],
                forall|i: int| 0 <= i < order@.len() ==> (#[trigger] order@[i]) < keys@.len(),
                forall|i: int| at <= i < order@.len() ==> keys@[(#[trigger] order@[i]) as int] > key,
            decreases at,
        {
            at = at - 1;
        }
        let ghost before = order@.map_values(|x: usize| x as int);
        proof {
            assert forall|i: int| at <= i < before.len() implies int_keys[#[trigger] before[i]]
                > int_keys[x as int] by {
                assert(keys@[order@[i] as int] > key);
            }
            lemma_placed_at(before, int_keys, x as int, at as int);
        }
        order.insert(at, x);
        assert(order@.map_values(|x: usize| x as int) =~= before.insert(at as int, x as int));
        x = x + 1;
    }
    order
}

} // verus!
