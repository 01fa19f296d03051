//! Stable ordering of items by a number.

use vstd::prelude::*;

verus! {

/// `sorted` with `x` put behind every item whose key is not greater.
pub open spec fn insert_by_key<T>(sorted: Seq<(u32, T)>, x: (u32, T)) -> Seq<(u32, T)>
    decreases sorted.len(),
{
    if sorted.len() == 0 || sorted.last().0 <= x.0 {
        sorted.push(x)
    } else {
        insert_by_key(sorted.drop_last(), x).push(sorted.last())
    }
}

/// The items in the order of their keys; items with equal keys keep their order.
pub open spec fn sorted_by_key<T>(items: Seq<(u32, T)>) -> Seq<(u32, T)>
    decreases items.len(),
{
    if items.len() == 0 {
        items
    } else {
        insert_by_key(sorted_by_key(items.drop_last()), items.last())
    }
}

/// Whether the keys never go down.
pub open spec fn keys_ascend<T>(items: Seq<(u32, T)>) -> bool {
    forall|i: int, j: int| 0 <= i <= j < items.len() ==> items[i].0 <= items[j].0
}

/// The items with one key, in their order.
pub open spec fn with_key<T>(items: Seq<(u32, T)>, key: u32) -> Seq<(u32, T)> {
    items.filter(|x: (u32, T)| x.0 == key)
}

proof fn lemma_insert_by_key<T>(sorted: Seq<(u32, T)>, x: (u32, T))
    requires
        keys_ascend(sorted),
    ensures
        keys_ascend(insert_by_key(sorted, x)),
        insert_by_key(sorted, x).len() == sorted.len() + 1,
        insert_by_key(sorted, x).to_multiset() =~= sorted.to_multiset().insert(x),
        forall|i: int|
            0 <= i <= sorted.len() ==> #[trigger] insert_by_key(sorted, x)[i].0 <= (if sorted.len()
                == 0 || sorted.last().0 <= x.0 {
                x.0
            } else {
                sorted.last().0
            }),
        forall|key: u32| #[trigger]
            with_key(insert_by_key(sorted, x), key) == (if x.0 == key {
                with_key(sorted, key).push(x)
            } else {
                with_key(sorted, key)
            }),
    decreases sorted.len(),
{
    broadcast use vstd::seq_lib::group_to_multiset_ensures;

    reveal(Seq::filter);
    let result = insert_by_key(sorted, x);
    if sorted.len() == 0 || sorted.last().0 <= x.0 {
        assert(result.drop_last() =~= sorted);
    } else {
        let rest = sorted.drop_last();
        let last = sorted.last();
        assert(keys_ascend(rest));
        lemma_insert_by_key(rest, x);
        let inner = insert_by_key(rest, x);
        assert(result.drop_last() =~= inner);
        assert(sorted =~= rest.push(last));
        assert forall|i: int| 0 <= i < inner.len() implies (#[trigger] inner[i]).0 <= last.0 by {
            if rest.len() > 0 {
                assert(rest.last().0 <= last.0);
            }
        }
        assert forall|key: u32| #[trigger] with_key(result, key) == (if x.0 == key {
            with_key(sorted, key).push(x)
        } else {
            with_key(sorted, key)
        }) by {
            assert(with_key(inner, key) == (if x.0 == key {
                with_key(rest, key).push(x)
            } else {
                with_key(rest, key)
            }));
        }
    }
}

/// The order by key is a stable sort: the keys ascend, the items are the ones
/// that were given, and the items with equal keys stand in the order in which
/// they were given.
pub proof fn sort_is_stable<T>(items: Seq<(u32, T)>)
    ensures
        keys_ascend(sorted_by_key(items)),
        sorted_by_key(items).len() == items.len(),
        sorted_by_key(items).to_multiset() == items.to_multiset(),
        forall|key: u32| #[trigger] with_key(sorted_by_key(items), key) == with_key(items, key),
    decreases items.len(),
{
    broadcast use vstd::seq_lib::group_to_multiset_ensures;

    if items.len() > 0 {
        let rest = items.drop_last();
        sort_is_stable(rest);
        lemma_insert_by_key(sorted_by_key(rest), items.last());
        assert(items =~= rest.push(items.last()));
        assert forall|key: u32| #[trigger]
            with_key(sorted_by_key(items), key) == with_key(items, key) by {
            reveal(Seq::filter);
            assert(with_key(sorted_by_key(rest), key) == with_key(rest, key));
        }
    }
}

/// Every item of the order is one of the items that were given.
pub proof fn lemma_sorted_from_items<T>(items: Seq<(u32, T)>, i: int)
    requires
        0 <= i < items.len(),
    ensures
        exists|k: int| 0 <= k < items.len() && #[trigger] items[k] == sorted_by_key(items)[i],
{
    sort_is_stable(items);
    let sorted = sorted_by_key(items);
    broadcast use vstd::seq_lib::group_to_multiset_ensures;

    assert(sorted.contains(sorted[i]));
    assert(sorted.to_multiset().contains(sorted[i]));
    assert(items.to_multiset().contains(sorted[i]));
    assert(items.contains(sorted[i]));
}

/// The order holds every item that was given, and none twice that was not given
/// twice.
pub proof fn lemma_sort_permutes<T>(items: Seq<(u32, T)>)
    ensures
        items.no_duplicates() ==> sorted_by_key(items).no_duplicates(),
        forall|k: int|
            0 <= k < items.len() ==> sorted_by_key(items).contains(#[trigger] items[k]),
{
    broadcast use vstd::seq_lib::group_to_multiset_ensures;

    sort_is_stable(items);
    let sorted = sorted_by_key(items);
    if items.no_duplicates() {
        items.lemma_multiset_has_no_duplicates();
        sorted.lemma_multiset_has_no_duplicates_conv();
    }
    assert forall|k: int| 0 <= k < items.len() implies sorted.contains(#[trigger] items[k]) by {
        assert(items.contains(items[k]));
        assert(items.to_multiset().contains(items[k]));
        assert(sorted.to_multiset().contains(items[k]));
    }
}

/// Whether the keys never go down, and where they stay the same a second number
/// never goes down.
pub open spec fn ties_ascend<T>(items: Seq<(u32, T)>, second: spec_fn(T) -> u32) -> bool {
    forall|i: int, j: int|
        0 <= i <= j < items.len() ==> items[i].0 < items[j].0 || (items[i].0 == items[j].0
            && second(items[i].1) <= second(items[j].1))
}

proof fn lemma_insert_breaks_ties<T>(
    sorted: Seq<(u32, T)>,
    x: (u32, T),
    second: spec_fn(T) -> u32,
)
    requires
        ties_ascend(sorted, second),
        forall|i: int| 0 <= i < sorted.len() ==> second((#[trigger] sorted[i]).1) <= second(x.1),
    ensures
        ties_ascend(insert_by_key(sorted, x), second),
        forall|i: int|
            0 <= i < insert_by_key(sorted, x).len() ==> (#[trigger] insert_by_key(sorted, x)[i])
                == x || sorted.contains(insert_by_key(sorted, x)[i]),
    decreases sorted.len(),
{
    let result = insert_by_key(sorted, x);
    if sorted.len() == 0 || sorted.last().0 <= x.0 {
        assert forall|i: int| 0 <= i < result.len() implies (#[trigger] result[i]) == x
            || sorted.contains(result[i]) by {
            if i < sorted.len() {
                assert(sorted[i] == result[i]);
            }
        }
        assert forall|i: int, j: int| 0 <= i <= j < result.len() implies result[i].0 < result[j].0
            || (result[i].0 == result[j].0 && second(result[i].1) <= second(result[j].1)) by {
            if i < sorted.len() {
                assert(result[i] == sorted[i]);
                if j < sorted.len() {
                    assert(result[j] == sorted[j]);
                } else {
                    let last = sorted[sorted.len() - 1];
                    assert(sorted[i].0 <= last.0);
                }
            }
        }
    } else {
        let rest = sorted.drop_last();
        let last = sorted.last();
        let inner = insert_by_key(rest, x);
        assert forall|i: int| 0 <= i < rest.len() implies second((#[trigger] rest[i]).1) <= second(
            x.1,
        ) by {
            assert(rest[i] == sorted[i]);
        }
        assert(ties_ascend(rest, second));
        lemma_insert_breaks_ties(rest, x, second);
        assert forall|i: int| 0 <= i < inner.len() implies (#[trigger] inner[i]) == x || (
        sorted.contains(inner[i]) && (inner[i].0 < last.0 || (inner[i].0 == last.0 && second(
            inner[i].1,
        ) <= second(last.1)))) by {
            if inner[i] != x {
                assert(rest.contains(inner[i]));
                let k = choose|k: int| 0 <= k < rest.len() && rest[k] == inner[i];
                assert(sorted[k] == inner[i]);
                assert(sorted[sorted.len() - 1] == last);
            }
        }
        assert forall|i: int| 0 <= i < result.len() implies (#[trigger] result[i]) == x
            || sorted.contains(result[i]) by {
            if i < inner.len() {
                assert(result[i] == inner[i]);
            } else {
                assert(sorted[sorted.len() - 1] == result[i]);
            }
        }
        assert forall|i: int, j: int| 0 <= i <= j < result.len() implies result[i].0 < result[j].0
            || (result[i].0 == result[j].0 && second(result[i].1) <= second(result[j].1)) by {
            if i < inner.len() {
                assert(result[i] == inner[i]);
                if j < inner.len() {
                    assert(result[j] == inner[j]);
                }
            }
        }
    }
}

/// Items that are given in the order of a second number keep it among equal keys.
pub proof fn lemma_sort_breaks_ties<T>(items: Seq<(u32, T)>, second: spec_fn(T) -> u32)
    requires
        forall|i: int, j: int|
            0 <= i <= j < items.len() ==> second((#[trigger] items[i]).1) <= second(
                (#[trigger] items[j]).1,
            ),
    ensures
        ties_ascend(sorted_by_key(items), second),
    decreases items.len(),
{
    if items.len() > 0 {
        let rest = items.drop_last();
        let sorted = sorted_by_key(rest);
        assert forall|i: int, j: int| 0 <= i <= j < rest.len() implies second(
            (#[trigger] rest[i]).1,
        ) <= second((#[trigger] rest[j]).1) by {
            assert(rest[i] == items[i] && rest[j] == items[j]);
        }
        lemma_sort_breaks_ties(rest, second);
        sort_is_stable(rest);
        assert forall|i: int| 0 <= i < sorted.len() implies second((#[trigger] sorted[i]).1)
            <= second(items.last().1) by {
            lemma_sorted_from_items(rest, i);
            let k = choose|k: int| 0 <= k < rest.len() && #[trigger] rest[k] == sorted[i];
            assert(items[k] == rest[k]);
            assert(items[items.len() - 1] == items.last());
        }
        lemma_insert_breaks_ties(sorted, items.last(), second);
    }
}

/// The items under a function that leaves their keys alone.
pub open spec fn map_items<T, U>(items: Seq<(u32, T)>, f: spec_fn(T) -> U) -> Seq<(u32, U)> {
    items.map_values(|x: (u32, T)| (x.0, f(x.1)))
}

proof fn lemma_insert_map<T, U>(sorted: Seq<(u32, T)>, x: (u32, T), f: spec_fn(T) -> U)
    ensures
        map_items(insert_by_key(sorted, x), f) == insert_by_key(map_items(sorted, f), (x.0, f(x.1))),
    decreases sorted.len(),
{
    if sorted.len() == 0 || sorted.last().0 <= x.0 {
        assert(map_items(sorted.push(x), f) =~= map_items(sorted, f).push((x.0, f(x.1))));
    } else {
        let rest = sorted.drop_last();
        lemma_insert_map(rest, x, f);
        assert(map_items(rest, f) =~= map_items(sorted, f).drop_last());
        let inner = insert_by_key(rest, x);
        assert(map_items(inner.push(sorted.last()), f) =~= map_items(inner, f).push(
            (sorted.last().0, f(sorted.last().1)),
        ));
    }
}

/// The order depends on the keys alone: sorting and changing the items commute.
pub proof fn sort_commutes_with_map<T, U>(items: Seq<(u32, T)>, f: spec_fn(T) -> U)
    ensures
        map_items(sorted_by_key(items), f) == sorted_by_key(map_items(items, f)),
    decreases items.len(),
{
    if items.len() == 0 {
        assert(map_items(items, f) =~= Seq::<(u32, U)>::empty());
    } else {
        let rest = items.drop_last();
        sort_commutes_with_map(rest, f);
        assert(map_items(rest, f) =~= map_items(items, f).drop_last());
        lemma_insert_map(sorted_by_key(rest), items.last(), f);
    }
}

/// Puts the items in the order of their keys and leaves items with equal keys
/// in their order.
pub fn sort_by_key<T>(items: Vec<(u32, T)>) -> (r: Vec<(u32, T)>)
    ensures
        r@ == sorted_by_key(items@),
{
    let mut out: Vec<(u32, T)> = Vec::new();
    for item in it: items
        invariant
            it.seq() == items@,
            out@ == sorted_by_key(items@.take(it.index())),
    {
        let ghost sorted = out@;
        let mut at: usize = out.len();
        assert(out@.take(at as int) =~= out@);
        assert(insert_by_key(sorted.take(at as int), item) + sorted.skip(at as int)
            =~= insert_by_key(sorted, item));
        while at > 0 && out[at - 1].0 > item.0
            invariant
                at <= out.len(),
                out@ == sorted,
                insert_by_key(sorted.take(at as int), item) + sorted.skip(at as int)
                    == insert_by_key(sorted, item),
            decreases at,
        {
            proof {
                let head = sorted.take(at as int);
                assert(head.drop_last() =~= sorted.take(at - 1));
                assert(insert_by_key(head, item) == insert_by_key(sorted.take(at - 1), item).push(
                    head.last(),
                ));
                assert(insert_by_key(sorted.take(at - 1), item) + sorted.skip(at - 1)
                    =~= insert_by_key(head, item) + sorted.skip(at as int));
            }
            at -= 1;
        }
        out.insert(at, item);
        proof {
            assert(insert_by_key(sorted.take(at as int), item) == sorted.take(at as int).push(item));
            assert(out@ =~= insert_by_key(sorted, item));
            assert(items@.take(it.index() + 1).drop_last() =~= items@.take(it.index()));
        }
    }
    assert(items@.take(items@.len() as int) =~= items@);
    out
}

} // verus!
