//! Facts about choosing items from a list.
use vstd::prelude::*;

verus! {

/// Looking at one item more, one more item may be chosen.
pub proof fn lemma_filter_next<T>(list: Seq<T>, n: int, chosen: spec_fn(T) -> bool)
    requires
        0 <= n < list.len(),
    ensures
        list.take(n + 1).filter(chosen) == if chosen(list[n]) {
            list.take(n).filter(chosen).push(list[n])
        } else {
            list.take(n).filter(chosen)
        },
{
    reveal(Seq::filter);
    assert(list.take(n + 1).drop_last() =~= list.take(n));
}

/// Before any item has been looked at, none is chosen.
pub proof fn lemma_filter_none<T>(list: Seq<T>, chosen: spec_fn(T) -> bool)
    ensures
        list.take(0).filter(chosen) == Seq::<T>::empty(),
        list.take(list.len() as int) == list,
{
    reveal(Seq::filter);
    assert(list.take(0) =~= Seq::<T>::empty());
    assert(list.take(list.len() as int) =~= list);
}

/// Looking one place further back, one more item may be chosen.
pub proof fn lemma_filter_back<T>(list: Seq<T>, n: int, chosen: spec_fn(T) -> bool)
    requires
        0 <= n < list.len(),
    ensures
        list.skip(n).filter(chosen).len() == list.skip(n + 1).filter(chosen).len() + (if chosen(list[n]) {
            1int
        } else {
            0
        }),
{
    let first = seq![list[n]];
    assert(list.skip(n) =~= first + list.skip(n + 1));
    Seq::filter_distributes_over_add(first, list.skip(n + 1), chosen);
    reveal(Seq::filter);
    assert(first.drop_last() =~= seq![]);
    assert(first.drop_last().filter(chosen).len() == 0);
    assert(first.filter(chosen).len() == (if chosen(list[n]) {
        1int
    } else {
        0
    }));
}

/// An item is chosen just where it is there and the choice falls on it.
pub proof fn lemma_filter_members<T>(list: Seq<T>, chosen: spec_fn(T) -> bool, item: T)
    ensures
        list.filter(chosen).contains(item) <==> list.contains(item) && chosen(item),
    decreases list.len(),
{
    reveal(Seq::filter);
    if list.len() > 0 {
        let before = list.drop_last();
        lemma_filter_members(before, chosen, item);
        let some = before.filter(chosen);
        if before.contains(item) {
            let k = before.index_of(item);
            assert(list[k] == item);
        }
        if list.contains(item) && item != list.last() {
            let k = list.index_of(item);
            assert(before[k] == item);
        }
        assert(list[list.len() - 1] == list.last());
        if chosen(list.last()) {
            let all = some.push(list.last());
            assert(all[some.len() as int] == list.last());
            if some.contains(item) {
                let k = some.index_of(item);
                assert(all[k] == item);
            }
            if all.contains(item) && item != list.last() {
                let k = all.index_of(item);
                assert(some[k] == item);
            }
        }
    }
}

} // verus!
