//! Stable sorting.

use vstd::prelude::*;

verus! {

/// Whether the item at `a` comes before the item at `b`: by key, and by position where the keys
/// are equal.
pub open spec fn precedes(keys: Seq<u128>, a: int, b: int) -> bool {
    keys[a] < keys[b] || (keys[a] == keys[b] && a < b)
}

/// Whether `order` lists the positions of all keys, smallest key first, equal keys in the order in
/// which they stand.
pub open spec fn is_stable_order(keys: Seq<u128>, order: Seq<usize>) -> bool {
    &&& order.len() == keys.len()
    &&& forall|i: int| 0 <= i < order.len() ==> (#[trigger] order[i]) < keys.len()
    &&& forall|i: int, j: int|
        0 <= i < j < order.len() ==> precedes(keys, #[trigger] order[i] as int, #[trigger] order[j] as int)
}

/// Such an order leaves no position out.
pub proof fn lemma_stable_order_is_total(keys: Seq<u128>, order: Seq<usize>, k: int)
    requires
        is_stable_order(keys, order),
        0 <= k < keys.len(),
    ensures
        exists|i: int| 0 <= i < order.len() && #[trigger] order[i] == k,
{
    let positions = order.map_values(|p: usize| p as int);
    assert(positions.no_duplicates());
    positions.unique_seq_to_set();
    let all = vstd::set_lib::set_int_range(0, keys.len() as int);
    vstd::set_lib::lemma_int_range(0, keys.len() as int);
    assert(positions.to_set().subset_of(all));
    vstd::set_lib::lemma_subset_equality(positions.to_set(), all);
    assert(all.contains(k));
    assert(positions.to_set().contains(k));
    let i = choose|i: int| 0 <= i < positions.len() && positions[i] == k;
    assert(order[i] == k);
}

/// There is only one such order.
pub proof fn lemma_stable_order_unique(keys: Seq<u128>, a: Seq<usize>, b: Seq<usize>)
    requires
        is_stable_order(keys, a),
        is_stable_order(keys, b),
    ensures
        a == b,
{
    assert forall|n: int| 0 <= n <= a.len() implies #[trigger] a.take(n) == b.take(n) by {
        lemma_stable_order_prefix(keys, a, b, n);
    }
    assert(a.take(a.len() as int) == a);
    assert(b.take(a.len() as int) == b);
}

proof fn lemma_stable_order_prefix(keys: Seq<u128>, a: Seq<usize>, b: Seq<usize>, n: int)
    requires
        is_stable_order(keys, a),
        is_stable_order(keys, b),
        0 <= n <= a.len(),
    ensures
        a.take(n) == b.take(n),
    decreases n,
{
    if n > 0 {
        lemma_stable_order_prefix(keys, a, b, n - 1);
        let k = n - 1;
        assert forall|j: int| 0 <= j < k implies a[j] == b[j] by {
            assert(a.take(k)[j] == a[j]);
            assert(b.take(k)[j] == b[j]);
        }
        lemma_stable_order_is_total(keys, b, a[k] as int);
        lemma_stable_order_is_total(keys, a, b[k] as int);
        let i = choose|i: int| 0 <= i < b.len() && #[trigger] b[i] == a[k];
        let j = choose|j: int| 0 <= j < a.len() && #[trigger] a[j] == b[k];
        if i < k {
            assert(a[i] == b[i]);
            assert(precedes(keys, a[i] as int, a[k] as int));
        }
        if j < k {
            assert(a[j] == b[j]);
            assert(precedes(keys, b[j] as int, b[k] as int));
        }
        if i > k && j > k {
            assert(precedes(keys, b[k] as int, b[i] as int));
            assert(precedes(keys, a[k] as int, a[j] as int));
        }
        assert(a[k] == b[k]);
        assert(a.take(n) =~= b.take(n));
    }
}

/// An order of all keys but the last becomes one of all when the last is put behind the keys that
/// are not larger.
proof fn lemma_insert_keeps_order(keys: Seq<u128>, before: Seq<usize>, at: int, x: usize)
    requires
        keys.len() > 0,
        x == keys.len() - 1,
        is_stable_order(keys.drop_last(), before),
        0 <= at <= before.len(),
        forall|j: int| at <= j < before.len() ==> keys[#[trigger] before[j] as int] > keys[x as int],
        at > 0 ==> keys[before[at - 1] as int] <= keys[x as int],
    ensures
        is_stable_order(keys, before.insert(at, x)),
{
    let was = keys.drop_last();
    let o = before.insert(at, x);
    assert forall|i: int, j: int| 0 <= i < j < o.len() implies precedes(
        keys,
        #[trigger] o[i] as int,
        #[trigger] o[j] as int,
    ) by {
        let pi = if i < at {
            i
        } else {
            i - 1
        };
        let pj = if j < at {
            j
        } else {
            j - 1
        };
        if i != at && j != at {
            assert(o[i] == before[pi]);
            assert(o[j] == before[pj]);
            assert(precedes(was, before[pi] as int, before[pj] as int));
        } else if i == at {
            assert(o[j] == before[pj]);
            assert(keys[before[pj] as int] > keys[x as int]);
        } else {
            assert(o[i] == before[i]);
            if i < at - 1 {
                assert(precedes(was, before[i] as int, before[at - 1] as int));
            }
        }
    }
    assert forall|i: int| 0 <= i < o.len() implies (#[trigger] o[i]) < keys.len() by {
        if i < at {
            assert(o[i] == before[i]);
        } else if i > at {
            assert(o[i] == before[i - 1]);
        }
    }
}

/// Where a key is put into an order: behind the last that is not larger.
spec fn place_for(keys: Seq<u128>, o: Seq<usize>, key: u128, i: int) -> int
    decreases i,
{
    if i > 0 && keys[o[i - 1] as int] > key {
        place_for(keys, o, key, i - 1)
    } else {
        i
    }
}

proof fn lemma_place_for(keys: Seq<u128>, o: Seq<usize>, key: u128, i: int)
    requires
        0 <= i <= o.len(),
        forall|j: int| i <= j < o.len() ==> keys[#[trigger] o[j] as int] > key,
    ensures
        ({
            let at = place_for(keys, o, key, i);
            &&& 0 <= at <= i
            &&& forall|j: int| at <= j < o.len() ==> keys[#[trigger] o[j] as int] > key
            &&& at > 0 ==> keys[o[at - 1] as int] <= key
        }),
    decreases i,
{
    if i > 0 && keys[o[i - 1] as int] > key {
        lemma_place_for(keys, o, key, i - 1);
    }
}

/// The positions of the keys in ascending order of key.
pub open spec fn ordered(keys: Seq<u128>) -> Seq<usize> {
    choose|o: Seq<usize>| is_stable_order(keys, o)
}

/// Keys can always be put in order.
pub proof fn lemma_ordered(keys: Seq<u128>)
    requires
        keys.len() <= usize::MAX,
    ensures
        is_stable_order(keys, ordered(keys)),
    decreases keys.len(),
{
    if keys.len() == 0 {
        assert(is_stable_order(keys, Seq::<usize>::empty()));
    } else {
        let front = keys.drop_last();
        lemma_ordered(front);
        let before = ordered(front);
        let x = (keys.len() - 1) as usize;
        lemma_place_for(keys, before, keys[x as int], before.len() as int);
        let at = place_for(keys, before, keys[x as int], before.len() as int);
        lemma_insert_keeps_order(keys, before, at, x);
        assert(is_stable_order(keys, before.insert(at, x)));
    }
}

/// The positions of the keys in ascending order of key.
pub fn stable_order(keys: &Vec<u128>) -> (order: Vec<usize>)
    ensures
        is_stable_order(keys@, order@),
        order@ == ordered(keys@),
{
    let mut order: Vec<usize> = Vec::new();
    let mut n: usize = 0;
    assert(keys@.take(0).len() == 0);
    while n < keys.len()
        invariant
            n <= keys@.len(),
            is_stable_order(keys@.take(n as int), order@),
        decreases keys@.len() - n,
    {
        let mut at: usize = order.len();
        while at > 0 && keys[order[at - 1]] > keys[n]
            invariant
                n < keys@.len(),
                at <= order@.len() == n,
                is_stable_order(keys@.take(n as int), order@),
                forall|j: int|
                    at <= j < order@.len() ==> keys@[#[trigger] order@[j] as int]
                        > keys@[n as int],
            decreases at,
        {
            at = at - 1;
        }
        proof {
            let now = keys@.take(n + 1);
            assert(now.drop_last() =~= keys@.take(n as int));
            lemma_insert_keeps_order(now, order@, at as int, n);
        }
        order.insert(at, n);
        n = n + 1;
    }
    assert(keys@.take(keys@.len() as int) == keys@);
    proof {
        lemma_stable_order_unique(keys@, order@, ordered(keys@));
    }
    order
}

/// An ordering holds every place once, smaller keys before larger ones, and places with equal keys as
/// they stood.
pub proof fn law_ordering_sorts_and_keeps_ties(keys: Seq<u128>, i: int, j: int, k: int)
    requires
        keys.len() <= usize::MAX,
        0 <= i < j < keys.len(),
        0 <= k < keys.len(),
    ensures
        ordered(keys).len() == keys.len(),
        keys[ordered(keys)[i] as int] <= keys[ordered(keys)[j] as int],
        keys[ordered(keys)[i] as int] == keys[ordered(keys)[j] as int] ==> ordered(keys)[i] < ordered(
            keys,
        )[j],
        ordered(keys)[i] != ordered(keys)[j],
        ordered(keys).contains(k as usize),
{
    lemma_ordered(keys);
    let o = ordered(keys);
    assert(precedes(keys, o[i] as int, o[j] as int));
    lemma_stable_order_is_total(keys, o, k);
}

} // verus!
