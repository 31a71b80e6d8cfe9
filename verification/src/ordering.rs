//! Stable orders of lists by integer keys.

use vstd::prelude::*;

use crate::table::Table;

verus! {

/// `a` comes before `b` when sorting by `keys`: its key is smaller (greater,
/// if descending), or the keys are equal and `a` stood earlier.
pub open spec fn precedes(keys: Seq<i128>, descending: bool, a: usize, b: usize) -> bool {
    let ka = keys[a as int];
    let kb = keys[b as int];
    if ka == kb {
        a < b
    } else if descending {
        ka > kb
    } else {
        ka < kb
    }
}

/// `order` lists every place of `keys` once, sorted by key; places with equal
/// keys keep their order.
pub open spec fn is_stable_order(keys: Seq<i128>, descending: bool, order: Seq<usize>) -> bool {
    &&& order.len() == keys.len()
    &&& forall|i: int| 0 <= i < order.len() ==> (#[trigger] order[i]) < keys.len()
    &&& forall|i: int, j: int|
        0 <= i < j < order.len() ==> precedes(keys, descending, #[trigger] order[i], #[trigger] order[j])
}

/// The places of `keys`, sorted by key; places with equal keys keep their order.
pub fn stable_order(keys: &Vec<i128>, descending: bool) -> (r: Vec<usize>)
    ensures
        is_stable_order(keys@, descending, r@),
        r@.no_duplicates(),
{
    let mut out: Vec<usize> = Vec::new();
    let mut n: usize = 0;
    while n < keys.len()
        invariant
            n <= keys.len(),
            out.len() == n,
            forall|i: int| 0 <= i < out.len() ==> (#[trigger] out[i]) < n,
            forall|i: int, j: int|
                0 <= i < j < out.len() ==> precedes(
                    keys@,
                    descending,
                    #[trigger] out[i],
                    #[trigger] out[j],
                ),
        decreases keys.len() - n,
    {
        let key: i128 = keys[n];
        let mut at: usize = 0;
        while at < out.len() && ((descending && keys[out[at]] >= key) || (!descending && keys[out[at]] <= key))
            invariant
                at <= out.len(),
                n < keys.len(),
                key == keys[n as int],
                forall|i: int| 0 <= i < out.len() ==> (#[trigger] out[i]) < n,
                forall|i: int|
                    0 <= i < at ==> precedes(keys@, descending, #[trigger] out[i], n),
            decreases out.len() - at,
        {
            at = at + 1;
        }
        let ghost before = out@;
        proof {
            assert forall|i: int| at <= i < before.len() implies precedes(
                keys@,
                descending,
                n,
                #[trigger] before[i],
            ) by {
                let first = before[at as int];
                assert(precedes(keys@, descending, n, first));
                if i > at {
                    assert(precedes(keys@, descending, first, before[i]));
                }
            }
        }
        out.insert(at, n);
        proof {
            assert forall|i: int, j: int| 0 <= i < j < out.len() implies precedes(
                keys@,
                descending,
                #[trigger] out[i],
                #[trigger] out[j],
            ) by {
                let i2 = if i < at { i } else { i - 1 };
                let j2 = if j < at { j } else { j - 1 };
                if i != at {
                    assert(out[i] == before[i2]);
                }
                if j != at {
                    assert(out[j] == before[j2]);
                }
            }
            assert forall|i: int| 0 <= i < out.len() implies (#[trigger] out[i]) < n + 1 by {
                if i != at {
                    let i2 = if i < at { i } else { i - 1 };
                    assert(out[i] == before[i2]);
                }
            }
        }
        n = n + 1;
    }
    out
}

/// The elements of a list at the given places.
pub open spec fn picked<T>(items: Seq<T>, order: Seq<usize>, chosen: Seq<&T>) -> bool {
    &&& chosen.len() == order.len()
    &&& forall|i: int| 0 <= i < order.len() ==> *(#[trigger] chosen[i]) == items[order[i] as int]
}

/// The elements of a list at the given places.
pub fn pick<'a, T>(items: &'a Vec<T>, order: &Vec<usize>) -> (r: Vec<&'a T>)
    requires
        forall|i: int| 0 <= i < order.len() ==> (#[trigger] order[i]) < items.len(),
    ensures
        picked(items@, order@, r@),
{
    let mut out: Vec<&'a T> = Vec::new();
    let mut i: usize = 0;
    while i < order.len()
        invariant
            i <= order.len(),
            out.len() == i,
            forall|j: int| 0 <= j < order.len() ==> (#[trigger] order[j]) < items.len(),
            forall|j: int| 0 <= j < i ==> *(#[trigger] out[j]) == items[order[j] as int],
        decreases order.len() - i,
    {
        out.push(&items[order[i]]);
        i = i + 1;
    }
    out
}

/// The values of a table at the given places.
pub fn pick_values<'a, V>(table: &'a Table<V>, order: &Vec<usize>) -> (r: Vec<&'a V>)
    requires
        table.wf(),
        forall|i: int| 0 <= i < order.len() ==> (#[trigger] order[i]) < table.values().len(),
    ensures
        picked(table.values(), order@, r@),
{
    let mut out: Vec<&'a V> = Vec::new();
    let mut i: usize = 0;
    while i < order.len()
        invariant
            i <= order.len(),
            out.len() == i,
            table.wf(),
            forall|j: int| 0 <= j < order.len() ==> (#[trigger] order[j]) < table.values().len(),
            forall|j: int| 0 <= j < i ==> *(#[trigger] out[j]) == table.values()[order[j] as int],
        decreases order.len() - i,
    {
        out.push(table.value_at(order[i]));
        i = i + 1;
    }
    out
}

/// A list of `n` different places below `n` lists each of them.
pub proof fn lemma_covers(order: Seq<usize>, n: nat)
    requires
        order.no_duplicates(),
        order.len() == n,
        forall|i: int| 0 <= i < order.len() ==> (#[trigger] order[i]) < n,
    ensures
        forall|x: usize| x < n ==> #[trigger] order.contains(x),
{
    let places = order.map_values(|x: usize| x as int);
    assert(places.no_duplicates()) by {
        assert forall|i: int, j: int| 0 <= i < places.len() && 0 <= j < places.len() && i != j implies places[i]
            != places[j] by {
            assert(order[i] != order[j]);
        }
    }
    let all = vstd::set_lib::set_int_range(0, n as int);
    vstd::set_lib::lemma_int_range(0, n as int);
    places.unique_seq_to_set();
    assert(places.to_set().subset_of(all)) by {
        assert forall|x: int| places.to_set().contains(x) implies all.contains(x) by {
            let i = places.index_of(x);
            assert(places.contains(x));
            assert(places[i] == order[i]);
        }
    }
    vstd::set_lib::lemma_subset_equality(places.to_set(), all);
    assert forall|x: usize| x < n implies #[trigger] order.contains(x) by {
        assert(all.contains(x as int));
        assert(places.to_set().contains(x as int));
        let i = places.index_of(x as int);
        assert(order[i] == x);
    }
}

/// What a filter keeps are the elements of the list that satisfy it.
pub proof fn lemma_filter_contains<A>(list: Seq<A>, pred: spec_fn(A) -> bool, x: A)
    ensures
        list.filter(pred).contains(x) <==> list.contains(x) && pred(x),
    decreases list.len(),
{
    reveal(Seq::filter);
    if list.len() > 0 {
        let rest = list.drop_last();
        let kept = rest.filter(pred);
        lemma_filter_contains(rest, pred, x);
        assert(list.contains(x) <==> rest.contains(x) || x == list.last()) by {
            if list.contains(x) {
                let i = list.index_of(x);
                if i < rest.len() {
                    assert(rest[i] == x);
                }
            }
            if rest.contains(x) {
                assert(list[rest.index_of(x)] == x);
            }
            assert(list[list.len() - 1] == list.last());
        }
        assert(kept.push(list.last()).contains(x) <==> kept.contains(x) || x == list.last()) by {
            if kept.contains(x) {
                assert(kept.push(list.last())[kept.index_of(x)] == x);
            }
            assert(kept.push(list.last())[kept.len() as int] == list.last());
        }
    }
}

/// A list of places that holds none twice holds every place.
pub proof fn lemma_every_place(places: Seq<usize>, j: int)
    requires
        places.no_duplicates(),
        forall|i: int| 0 <= i < places.len() ==> (#[trigger] places[i]) < places.len(),
        0 <= j < places.len(),
    ensures
        exists|k: int| 0 <= k < places.len() && #[trigger] places[k] == j,
{
    if forall|k: int| 0 <= k < places.len() ==> #[trigger] places[k] != j {
        let all = places.map_values(|p: usize| p as int);
        let range = vstd::set_lib::set_int_range(0, places.len() as int);
        vstd::set_lib::lemma_int_range(0, places.len() as int);
        assert(all.no_duplicates()) by {
            assert forall|a: int, b: int| 0 <= a < all.len() && 0 <= b < all.len() && a != b implies all[a]
                != all[b] by {
                assert(places[a] != places[b]);
            }
        }
        all.unique_seq_to_set();
        assert(all.to_set().subset_of(range.remove(j))) by {
            assert forall|x: int| all.to_set().contains(x) implies range.remove(j).contains(x) by {
                let k = all.index_of(x);
                assert(places[k] == x);
            }
        }
        vstd::set_lib::lemma_len_subset(all.to_set(), range.remove(j));
    }
}

/// A stable order lists every place, so that every element is picked.
pub proof fn lemma_every_item_is_picked<T>(
    items: Seq<T>,
    keys: Seq<i128>,
    descending: bool,
    order: Seq<usize>,
    chosen: Seq<&T>,
    k: int,
)
    requires
        is_stable_order(keys, descending, order),
        keys.len() == items.len(),
        picked(items, order, chosen),
        0 <= k < items.len(),
    ensures
        chosen.len() == items.len(),
        exists|i: int| 0 <= i < chosen.len() && *(#[trigger] chosen[i]) == items[k],
{
    assert(order.no_duplicates()) by {
        assert forall|i: int, j: int| 0 <= i < order.len() && 0 <= j < order.len() && i != j implies order[i]
            != order[j] by {
            if i < j {
                assert(precedes(keys, descending, order[i], order[j]));
            } else {
                assert(precedes(keys, descending, order[j], order[i]));
            }
        }
    }
    lemma_every_place(order, k);
    let i = choose|i: int| 0 <= i < order.len() && #[trigger] order[i] == k;
    assert(*chosen[i] == items[k]);
}

/// Elements with equal keys stay in the order in which they stood, and others are put in the
/// order of their keys.
pub proof fn orders_are_stable(
    keys: Seq<i128>,
    descending: bool,
    order: Seq<usize>,
    i: int,
    j: int,
)
    requires
        is_stable_order(keys, descending, order),
        0 <= i < j < order.len(),
    ensures
        keys[order[i] as int] == keys[order[j] as int] ==> order[i] < order[j],
        descending ==> keys[order[i] as int] >= keys[order[j] as int],
        !descending ==> keys[order[i] as int] <= keys[order[j] as int],
{
    assert(precedes(keys, descending, order[i], order[j]));
}

} // verus!
