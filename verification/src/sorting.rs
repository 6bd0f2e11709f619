//! Sorting that keeps equal items in the order they came in.
use vstd::prelude::*;

verus! {

/// Whether `before` orders items: no two come before each other, and an item
/// between two others that it is not behind keeps them in order.
pub open spec fn is_order<T>(before: spec_fn(T, T) -> bool) -> bool {
    &&& forall|a: T, b: T| #[trigger] before(a, b) ==> !before(b, a)
    &&& forall|a: T, b: T, c: T| #[trigger] before(a, c) ==> #[trigger] before(a, b) || before(b, c)
}

/// Whether `result` holds the items of `source` at `places`, in order, with
/// items that are level kept in the order of their places.
pub open spec fn is_arranged<T>(
    source: Seq<T>,
    result: Seq<T>,
    places: Seq<int>,
    before: spec_fn(T, T) -> bool,
) -> bool {
    &&& places.len() == source.len()
    &&& result.len() == source.len()
    &&& forall|i: int| 0 <= i < places.len() ==> 0 <= #[trigger] places[i] < source.len()
    &&& forall|i: int, j: int|
        0 <= i < j < places.len() ==> #[trigger] places[i] != #[trigger] places[j]
    &&& forall|i: int| 0 <= i < result.len() ==> #[trigger] result[i] == source[places[i]]
    &&& forall|i: int, j: int|
        #![trigger result[i], result[j]]
        0 <= i < j < result.len() ==> !before(result[j], result[i]) && (before(result[i], result[j])
            || places[i] < places[j])
}

/// Whether `result` is `source` sorted by `before`, items that are level kept
/// in the order they came in.
pub open spec fn is_sorted_from<T>(
    source: Seq<T>,
    result: Seq<T>,
    before: spec_fn(T, T) -> bool,
) -> bool {
    exists|places: Seq<int>| is_arranged(source, result, places, before)
}

/// Sorts a list by insertion.
pub fn sort_stably<T, F: Fn(&T, &T) -> bool>(
    list: &mut Vec<T>,
    precedes: F,
    Ghost(before): Ghost<spec_fn(T, T) -> bool>,
)
    requires
        is_order(before),
        forall|a: &T, b: &T| #[trigger] call_requires(precedes, (a, b)),
        forall|a: &T, b: &T, r: bool| #[trigger]
            call_ensures(precedes, (a, b), r) ==> r == before(*a, *b),
    ensures
        is_sorted_from(old(list)@, final(list)@, before),
{
    let ghost source = list@;
    let ghost mut places: Seq<int> = Seq::new(source.len(), |i: int| i);
    let mut k: usize = 0;
    while k < list.len()
        invariant
            k <= list@.len(),
            list@.len() == source.len(),
            places.len() == source.len(),
            is_order(before),
            forall|a: &T, b: &T| #[trigger] call_requires(precedes, (a, b)),
            forall|a: &T, b: &T, r: bool| #[trigger]
                call_ensures(precedes, (a, b), r) ==> r == before(*a, *b),
            forall|i: int| 0 <= i < source.len() ==> #[trigger] list@[i] == source[places[i]],
            forall|i: int| k <= i < source.len() ==> #[trigger] places[i] == i,
            forall|i: int| 0 <= i < k ==> 0 <= #[trigger] places[i] < k,
            forall|i: int, j: int| 0 <= i < j < k ==> #[trigger] places[i] != #[trigger] places[j],
            forall|i: int, j: int|
                #![trigger list@[i], list@[j]]
                0 <= i < j < k ==> !before(list@[j], list@[i]) && (before(list@[i], list@[j])
                    || places[i] < places[j]),
        decreases list@.len() - k,
    {
        let mut at: usize = k;
        let mut looking: bool = true;
        while looking && at > 0
            invariant
                at <= k < list@.len(),
                list@.len() == source.len(),
                forall|a: &T, b: &T| #[trigger] call_requires(precedes, (a, b)),
                forall|a: &T, b: &T, r: bool| #[trigger]
                    call_ensures(precedes, (a, b), r) ==> r == before(*a, *b),
                forall|i: int| at <= i < k ==> before(list@[k as int], #[trigger] list@[i]),
                !looking ==> at > 0 && !before(list@[k as int], list@[at - 1]),
            decreases at, (if looking {
                1int
            } else {
                0
            }),
        {
            if precedes(&list[k], &list[at - 1]) {
                at -= 1;
            } else {
                looking = false;
            }
        }
        let ghost older = list@;
        let ghost previous = places;
        let item = list.remove(k);
        list.insert(at, item);
        proof {
            places = previous.remove(k as int).insert(at as int, k as int);
            let newer = list@;
            assert forall|i: int| 0 <= i < source.len() implies #[trigger] newer[i]
                == source[places[i]] by {
                if i < at || i > k {
                    assert(newer[i] == older[i]);
                } else if i > at {
                    assert(newer[i] == older[i - 1]);
                    assert(places[i] == previous[i - 1]);
                }
            }
            assert forall|i: int| k < i < source.len() implies #[trigger] places[i] == i by {
                assert(places[i] == previous[i]);
            }
            assert forall|i: int| 0 <= i < k + 1 implies 0 <= #[trigger] places[i] < k + 1 by {
                if i < at {
                    assert(places[i] == previous[i]);
                } else if i > at {
                    assert(places[i] == previous[i - 1]);
                }
            }
            assert forall|i: int, j: int| 0 <= i < j < k + 1 implies #[trigger] places[i]
                != #[trigger] places[j] by {
                let a = if i > at {
                    i - 1
                } else {
                    i
                };
                let b = if j > at {
                    j - 1
                } else {
                    j
                };
                if i != at {
                    assert(places[i] == previous[a]);
                }
                if j != at {
                    assert(places[j] == previous[b]);
                }
            }
            assert forall|i: int, j: int|
                #![trigger newer[i], newer[j]]
                0 <= i < j < k + 1 implies !before(newer[j], newer[i]) && (before(
                newer[i],
                newer[j],
            ) || places[i] < places[j]) by {
                let a = if i > at {
                    i - 1
                } else {
                    i
                };
                let b = if j > at {
                    j - 1
                } else {
                    j
                };
                if i != at {
                    assert(newer[i] == older[a] && places[i] == previous[a]);
                }
                if j != at {
                    assert(newer[j] == older[b] && places[j] == previous[b]);
                }
                if i == at {
                    assert(before(older[k as int], older[b]));
                } else if j == at {
                    // Nothing before the gap is behind the item next to it.
                    assert(!before(older[k as int], older[at - 1]));
                    if a < at - 1 {
                        assert(!before(older[at - 1], older[a]));
                    }
                }
            }
        }
        k += 1;
    }
    assert(is_arranged(source, list@, places, before));
}

/// Whether the item at `x` goes ahead of the item at `y`.
spec fn ahead<T>(source: Seq<T>, x: int, y: int, before: spec_fn(T, T) -> bool) -> bool {
    before(source[x], source[y]) || (!before(source[y], source[x]) && x < y)
}

/// Whether `places` lists every index of `source` once, each ahead of the next.
spec fn is_ranking<T>(source: Seq<T>, places: Seq<int>, before: spec_fn(T, T) -> bool) -> bool {
    &&& places.len() == source.len()
    &&& forall|i: int| 0 <= i < places.len() ==> 0 <= #[trigger] places[i] < source.len()
    &&& forall|i: int, j: int|
        #![trigger places[i], places[j]]
        0 <= i < j < places.len() ==> places[i] != places[j] && ahead(
            source,
            places[i],
            places[j],
            before,
        )
}

proof fn lemma_arranged_is_ranked<T>(
    source: Seq<T>,
    result: Seq<T>,
    places: Seq<int>,
    before: spec_fn(T, T) -> bool,
)
    requires
        is_arranged(source, result, places, before),
    ensures
        is_ranking(source, places, before),
{
    assert forall|i: int, j: int|
        #![trigger places[i], places[j]]
        0 <= i < j < places.len() implies places[i] != places[j] && ahead(
        source,
        places[i],
        places[j],
        before,
    ) by {
        assert(result[i] == source[places[i]]);
        assert(result[j] == source[places[j]]);
    }
}

/// Every index of the source is some place of a ranking.
proof fn lemma_ranking_covers<T>(
    source: Seq<T>,
    places: Seq<int>,
    before: spec_fn(T, T) -> bool,
    x: int,
) -> (k: int)
    requires
        is_ranking(source, places, before),
        0 <= x < source.len(),
    ensures
        0 <= k < places.len(),
        places[k] == x,
{
    let all = vstd::set_lib::set_int_range(0, source.len() as int);
    vstd::set_lib::lemma_int_range(0, source.len() as int);
    assert(places.no_duplicates());
    places.unique_seq_to_set();
    assert(places.to_set().subset_of(all)) by {
        assert forall|y: int| places.to_set().contains(y) implies all.contains(y) by {
            assert(places.contains(y));
            let i = choose|i: int| 0 <= i < places.len() && places[i] == y;
            assert(0 <= places[i] < source.len());
        }
    }
    vstd::set_lib::lemma_subset_equality(places.to_set(), all);
    assert(all.contains(x));
    assert(places.contains(x));
    choose|i: int| 0 <= i < places.len() && places[i] == x
}

/// Every item of the source is found in what was sorted from it.
pub proof fn lemma_place_found<T>(
    source: Seq<T>,
    result: Seq<T>,
    places: Seq<int>,
    before: spec_fn(T, T) -> bool,
    x: int,
) -> (k: int)
    requires
        is_arranged(source, result, places, before),
        0 <= x < source.len(),
    ensures
        0 <= k < result.len(),
        places[k] == x,
        result[k] == source[x],
{
    lemma_arranged_is_ranked(source, result, places, before);
    let k = lemma_ranking_covers(source, places, before, x);
    assert(result[k] == source[places[k]]);
    k
}

proof fn lemma_same_places<T>(
    source: Seq<T>,
    p: Seq<int>,
    q: Seq<int>,
    before: spec_fn(T, T) -> bool,
    i: int,
)
    requires
        is_order(before),
        is_ranking(source, p, before),
        is_ranking(source, q, before),
        0 <= i < source.len(),
    ensures
        p[i] == q[i],
    decreases i,
{
    assert forall|j: int| 0 <= j < i implies p[j] == q[j] by {
        lemma_same_places(source, p, q, before, j);
    }
    let k = lemma_ranking_covers(source, p, before, q[i]);
    let l = lemma_ranking_covers(source, q, before, p[i]);
    if p[i] != q[i] {
        assert(k > i) by {
            assert(k != i);
            if k < i {
                assert(p[k] == q[k]);
            }
        }
        assert(l > i) by {
            assert(l != i);
            if l < i {
                assert(p[l] == q[l]);
            }
        }
        assert(ahead(source, p[i], p[k], before));
        assert(ahead(source, q[i], q[l], before));
    }
}

/// Sorting fixes the outcome: two lists sorted from the same one are equal.
pub proof fn law_sorted_is_unique<T>(
    source: Seq<T>,
    one: Seq<T>,
    other: Seq<T>,
    before: spec_fn(T, T) -> bool,
)
    requires
        is_order(before),
        is_sorted_from(source, one, before),
        is_sorted_from(source, other, before),
    ensures
        one == other,
{
    let p = choose|places: Seq<int>| is_arranged(source, one, places, before);
    let q = choose|places: Seq<int>| is_arranged(source, other, places, before);
    lemma_arranged_is_ranked(source, one, p, before);
    lemma_arranged_is_ranked(source, other, q, before);
    assert forall|i: int| 0 <= i < source.len() implies one[i] == other[i] by {
        lemma_same_places(source, p, q, before, i);
    }
    assert(one =~= other);
}

} // verus!
