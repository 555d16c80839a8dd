//! Sorting by numbers.

use vstd::prelude::*;

verus! {

/// Whether the item at place `a` comes before that at `b`: by its key, and of equal keys by its
/// place.
pub open spec fn comes_before(keys: Seq<i64>, descending: bool, a: usize, b: usize) -> bool {
    if keys[a as int] != keys[b as int] {
        if descending {
            keys[a as int] > keys[b as int]
        } else {
            keys[a as int] < keys[b as int]
        }
    } else {
        a < b
    }
}

/// Whether `order` lists the first `n` places, sorted.
pub open spec fn is_sorted_order(keys: Seq<i64>, descending: bool, n: int, order: Seq<usize>) -> bool {
    &&& order.len() == n
    &&& forall|i: int| 0 <= i < n ==> (#[trigger] order[i]) < n
    &&& forall|i: int, j: int|
        0 <= i < j < n ==> comes_before(keys, descending, #[trigger] order[i], #[trigger] order[j])
}

/// The places of a list, sorted by their keys; items with equal keys keep their order.
pub fn sorted_order(keys: &Vec<i64>, descending: bool) -> (r: Vec<usize>)
    ensures
        is_sorted_order(keys@, descending, keys@.len() as int, r@),
{
    let mut order: Vec<usize> = Vec::new();
    let mut n: usize = 0;
    while n < keys.len()
        invariant
            n <= keys@.len(),
            is_sorted_order(keys@, descending, n as int, order@),
        decreases keys@.len() - n,
    {
        let key = keys[n];
        let mut at: usize = n;
        while at > 0 && (descending && keys[order[at - 1]] < key || !descending && keys[order[at
            - 1]] > key)
            invariant
                at <= n < keys@.len(),
                key == keys@[n as int],
                is_sorted_order(keys@, descending, n as int, order@),
                forall|i: int|
                    at <= i < n ==> comes_before(keys@, descending, n, #[trigger] order@[i]),
            decreases at,
        {
            at -= 1;
        }
        let ghost before = order@;
        proof {
            assert forall|i: int| 0 <= i < at implies comes_before(
                keys@,
                descending,
                #[trigger] before[i],
                n,
            ) by {
                assert(comes_before(keys@, descending, before[at - 1], n));
                if i < at - 1 {
                    assert(comes_before(keys@, descending, before[i], before[at - 1]));
                }
            }
        }
        order.insert(at, n);
        proof {
            let after = order@;
            assert forall|i: int| 0 <= i < n + 1 implies (#[trigger] after[i]) < n + 1 by {
                if i < at {
                    assert(before[i] < n);
                } else if i > at {
                    assert(before[i - 1] < n);
                }
            }
            assert forall|i: int, j: int| 0 <= i < j < n + 1 implies comes_before(
                keys@,
                descending,
                #[trigger] after[i],
                #[trigger] after[j],
            ) by {
                let x = if i < at {
                    i
                } else {
                    i - 1
                };
                let y = if j < at {
                    j
                } else {
                    j - 1
                };
                if i == at {
                    assert(comes_before(keys@, descending, n, before[y]));
                } else if j == at {
                    assert(comes_before(keys@, descending, before[x], n));
                } else {
                    assert(comes_before(keys@, descending, before[x], before[y]));
                }
            }
        }
        n += 1;
    }
    order
}

/// A sorted order lists every place once.
pub proof fn law_sorted_order_is_complete(
    keys: Seq<i64>,
    descending: bool,
    order: Seq<usize>,
    place: usize,
)
    requires
        is_sorted_order(keys, descending, keys.len() as int, order),
        place < keys.len() <= usize::MAX,
    ensures
        order.no_duplicates(),
        order.contains(place),
{
    assert forall|i: int, j: int| 0 <= i < order.len() && 0 <= j < order.len() && i != j implies order[i]
        != order[j] by {
        if i < j {
            assert(comes_before(keys, descending, order[i], order[j]));
        } else {
            assert(comes_before(keys, descending, order[j], order[i]));
        }
    }
    order.unique_seq_to_set();
    let all = Set::new(|p: usize| p < keys.len());
    lemma_places_below(keys.len());
    assert(order.to_set().subset_of(all)) by {
        assert forall|p: usize| order.to_set().contains(p) implies all.contains(p) by {
            let i = choose|i: int| 0 <= i < order.len() && order[i] == p;
            assert(order[i] < keys.len());
        }
    }
    if !order.contains(place) {
        assert(order.to_set().subset_of(all.remove(place)));
        vstd::set_lib::lemma_len_subset(order.to_set(), all.remove(place));
    }
}

proof fn lemma_places_below(n: nat)
    requires
        n <= usize::MAX + 1,
    ensures
        Set::new(|p: usize| p < n).finite(),
        Set::new(|p: usize| p < n).len() == n,
    decreases n,
{
    let all = Set::new(|p: usize| p < n);
    if n == 0 {
        assert(all =~= Set::empty());
    } else {
        lemma_places_below((n - 1) as nat);
        let fewer = Set::new(|p: usize| p < n - 1);
        assert(all =~= fewer.insert((n - 1) as usize));
    }
}

/// In a sorted order the keys grow, or fall if it is descending, and equal keys keep their places.
pub proof fn law_keys_are_sorted(keys: Seq<i64>, descending: bool, n: int, order: Seq<usize>, i: int, j: int)
    requires
        is_sorted_order(keys, descending, n, order),
        0 <= i < j < n,
    ensures
        descending ==> keys[order[i] as int] >= keys[order[j] as int],
        !descending ==> keys[order[i] as int] <= keys[order[j] as int],
        keys[order[i] as int] == keys[order[j] as int] ==> order[i] < order[j],
{
    assert(comes_before(keys, descending, order[i], order[j]));
}

} // verus!
