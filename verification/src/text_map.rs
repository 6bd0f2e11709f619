//! A map with text for keys, kept in dictionary order.
use vstd::prelude::*;
use crate::text;
use crate::text::text_precedes;

verus! {

/// A map from text to values whose entries stand in the order of their keys.
pub struct TextMap<T> {
    entries: Vec<(String, T)>,
}

/// Whether the keys of a list ascend in dictionary order.
pub open spec fn is_ascending<T>(list: Seq<(Seq<char>, T)>) -> bool {
    forall|i: int, j: int|
        #![trigger list[i], list[j]]
        0 <= i < j < list.len() ==> text::text_before(list[i].0, list[j].0)
}

/// Whether `list` holds the entries of `map`, in the order of their keys.
pub open spec fn is_listing<T>(list: Seq<(Seq<char>, T)>, map: Map<Seq<char>, T>) -> bool {
    &&& is_ascending(list)
    &&& forall|i: int|
        0 <= i < list.len() ==> map.dom().contains((#[trigger] list[i]).0) && map[list[i].0] == list[i].1
    &&& forall|key: Seq<char>| #[trigger]
        map.dom().contains(key) ==> exists|i: int| 0 <= i < list.len() && (#[trigger] list[i]).0 == key
}

/// The entries of a map in the order of their keys.
pub open spec fn listing<T>(map: Map<Seq<char>, T>) -> Seq<(Seq<char>, T)> {
    choose|list: Seq<(Seq<char>, T)>| is_listing(list, map)
}

/// Where `key` stands in a list.
spec fn place_of<T>(list: Seq<(Seq<char>, T)>, key: Seq<char>) -> int {
    choose|i: int| 0 <= i < list.len() && (#[trigger] list[i]).0 == key
}

/// The map that a list of entries with different keys makes.
spec fn map_of<T>(list: Seq<(Seq<char>, T)>) -> Map<Seq<char>, T> {
    Map::new(
        |key: Seq<char>| exists|i: int| 0 <= i < list.len() && (#[trigger] list[i]).0 == key,
        |key: Seq<char>| list[place_of(list, key)].1,
    )
}

/// In a list with ascending keys no key occurs twice.
pub proof fn lemma_keys_differ<T>(list: Seq<(Seq<char>, T)>, i: int, j: int)
    requires
        is_ascending(list),
        0 <= i < list.len(),
        0 <= j < list.len(),
        list[i].0 == list[j].0,
    ensures
        i == j,
{
    text::lemma_text_before_asymmetric(list[i].0, list[j].0);
}

proof fn lemma_map_of<T>(list: Seq<(Seq<char>, T)>)
    requires
        is_ascending(list),
    ensures
        is_listing(list, map_of(list)),
{
    let map = map_of(list);
    assert forall|i: int| 0 <= i < list.len() implies map.dom().contains((#[trigger] list[i]).0)
        && map[list[i].0] == list[i].1 by {
        let key = list[i].0;
        assert(map.dom().contains(key));
        lemma_keys_differ(list, i, place_of(list, key));
    }
}

/// A list of entries is the list of one map only.
pub proof fn lemma_listing_fixes_map<T>(
    list: Seq<(Seq<char>, T)>,
    one: Map<Seq<char>, T>,
    other: Map<Seq<char>, T>,
)
    requires
        is_listing(list, one),
        is_listing(list, other),
    ensures
        one == other,
{
    assert forall|key: Seq<char>| one.dom().contains(key) == other.dom().contains(key) by {
        if one.dom().contains(key) {
            let i = choose|i: int| 0 <= i < list.len() && (#[trigger] list[i]).0 == key;
            assert(other.dom().contains(list[i].0));
        }
        if other.dom().contains(key) {
            let i = choose|i: int| 0 <= i < list.len() && (#[trigger] list[i]).0 == key;
            assert(one.dom().contains(list[i].0));
        }
    }
    assert forall|key: Seq<char>| one.dom().contains(key) implies one[key] == other[key] by {
        let i = choose|i: int| 0 <= i < list.len() && (#[trigger] list[i]).0 == key;
        assert(one[list[i].0] == list[i].1);
    }
    assert(one =~= other);
}

/// A map has one list of entries only.
pub proof fn lemma_listing_unique<T>(list: Seq<(Seq<char>, T)>, map: Map<Seq<char>, T>)
    requires
        is_listing(list, map),
    ensures
        listing(map) == list,
{
    let other = listing(map);
    lemma_same_entries(list, other, map, list.len() as int);
    lemma_same_entries(other, list, map, other.len() as int);
    assert(list =~= other);
}

/// The first entries of two lists of one map are the same.
proof fn lemma_same_entries<T>(
    one: Seq<(Seq<char>, T)>,
    other: Seq<(Seq<char>, T)>,
    map: Map<Seq<char>, T>,
    n: int,
)
    requires
        is_listing(one, map),
        is_listing(other, map),
        0 <= n <= one.len(),
    ensures
        n <= other.len(),
        forall|i: int| 0 <= i < n ==> one[i] == other[i],
    decreases n,
{
    if n > 0 {
        lemma_same_entries(one, other, map, n - 1);
        let key = one[n - 1].0;
        assert(map.dom().contains(key));
        let at = choose|i: int| 0 <= i < other.len() && (#[trigger] other[i]).0 == key;
        if at < n - 1 {
            lemma_keys_differ(one, at, n - 1);
        }
        if at > n - 1 {
            // The entry that `other` has here comes before `key`, so `one` has it
            // too, and only among the entries already seen.
            let smaller = other[n - 1].0;
            assert(text::text_before(smaller, key));
            assert(map.dom().contains(smaller));
            let from = choose|i: int| 0 <= i < one.len() && (#[trigger] one[i]).0 == smaller;
            if from < n - 1 {
                lemma_keys_differ(other, from, n - 1);
            } else {
                text::lemma_text_before_asymmetric(smaller, key);
                if from > n - 1 {
                    assert(text::text_before(key, smaller));
                }
            }
        }
        assert(map[one[n - 1].0] == one[n - 1].1);
        assert(map[other[n - 1].0] == other[n - 1].1);
    }
}

/// Number of leading entries whose keys come before `key`.
spec fn place_for<T>(list: Seq<(Seq<char>, T)>, key: Seq<char>) -> int
    decreases list.len(),
{
    if list.len() == 0 || !text::text_before(list[0].0, key) {
        0
    } else {
        1 + place_for(list.skip(1), key)
    }
}

proof fn lemma_place_for<T>(list: Seq<(Seq<char>, T)>, key: Seq<char>)
    requires
        is_ascending(list),
        forall|i: int| 0 <= i < list.len() ==> (#[trigger] list[i]).0 != key,
    ensures
        0 <= place_for(list, key) <= list.len(),
        forall|i: int|
            0 <= i < place_for(list, key) ==> text::text_before((#[trigger] list[i]).0, key),
        forall|i: int|
            place_for(list, key) <= i < list.len() ==> text::text_before(key, (#[trigger] list[i]).0),
    decreases list.len(),
{
    if list.len() > 0 {
        if text::text_before(list[0].0, key) {
            let tail = list.skip(1);
            assert forall|i: int, j: int|
                #![trigger tail[i], tail[j]]
                0 <= i < j < tail.len() implies text::text_before(tail[i].0, tail[j].0) by {
                assert(tail[i] == list[i + 1] && tail[j] == list[j + 1]);
            }
            lemma_place_for(tail, key);
            assert forall|i: int| 0 <= i < place_for(list, key) implies text::text_before(
                (#[trigger] list[i]).0,
                key,
            ) by {
                if i > 0 {
                    assert(list[i] == tail[i - 1]);
                }
            }
            assert forall|i: int| place_for(list, key) <= i < list.len() implies text::text_before(
                key,
                (#[trigger] list[i]).0,
            ) by {
                assert(list[i] == tail[i - 1]);
            }
        } else {
            text::lemma_text_before_total(list[0].0, key);
            assert forall|i: int| 0 <= i < list.len() implies text::text_before(
                key,
                (#[trigger] list[i]).0,
            ) by {
                if i > 0 {
                    text::lemma_text_before_transitive(key, list[0].0, list[i].0);
                }
            }
        }
    }
}

/// A new entry takes its place in the list of a map.
proof fn lemma_entry_placed<T>(
    list: Seq<(Seq<char>, T)>,
    rest: Map<Seq<char>, T>,
    key: Seq<char>,
    value: T,
) -> (at: int)
    requires
        is_listing(list, rest),
        !rest.dom().contains(key),
    ensures
        0 <= at <= list.len(),
        is_listing(list.insert(at, (key, value)), rest.insert(key, value)),
{
    let map = rest.insert(key, value);
    assert forall|i: int| 0 <= i < list.len() implies (#[trigger] list[i]).0 != key by {
        assert(rest.dom().contains(list[i].0));
    }
    lemma_place_for(list, key);
    let at = place_for(list, key);
    let grown = list.insert(at, (key, value));
    let from = |k: int|
        if k > at {
            k - 1
        } else {
            k
        };
    assert forall|i: int, j: int|
        #![trigger grown[i], grown[j]]
        0 <= i < j < grown.len() implies text::text_before(grown[i].0, grown[j].0) by {
        if i != at {
            assert(grown[i] == list[from(i)]);
        }
        if j != at {
            assert(grown[j] == list[from(j)]);
        }
    }
    assert forall|i: int| 0 <= i < grown.len() implies map.dom().contains((#[trigger] grown[i]).0)
        && map[grown[i].0] == grown[i].1 by {
        if i != at {
            assert(grown[i] == list[from(i)]);
            assert(rest.dom().contains(list[from(i)].0));
        }
    }
    assert forall|other: Seq<char>| #[trigger] map.dom().contains(other) implies exists|i: int|
        0 <= i < grown.len() && (#[trigger] grown[i]).0 == other by {
        if other == key {
            assert(grown[at].0 == other);
        } else {
            assert(rest.dom().contains(other));
            let k = choose|k: int| 0 <= k < list.len() && (#[trigger] list[k]).0 == other;
            let i = if k >= at {
                k + 1
            } else {
                k
            };
            assert(grown[i] == list[k]);
        }
    }
    at
}

/// Every finite map has its list of entries.
pub proof fn lemma_listing<T>(map: Map<Seq<char>, T>)
    requires
        map.dom().finite(),
    ensures
        is_listing(listing(map), map),
    decreases map.dom().len(),
{
    if map.dom().len() == 0 {
        assert(map.dom() =~= Set::empty());
        assert(is_listing(Seq::<(Seq<char>, T)>::empty(), map));
    } else {
        let key = map.dom().choose();
        let rest = map.remove(key);
        assert(rest.dom() =~= map.dom().remove(key));
        lemma_listing(rest);
        let at = lemma_entry_placed(listing(rest), rest, key, map[key]);
        assert(rest.insert(key, map[key]) =~= map);
        assert(is_listing(listing(rest).insert(at, (key, map[key])), map));
    }
}

/// The list of a map with a new entry is the list it had, with the entry in its
/// place.
pub proof fn lemma_listing_grows<T>(rest: Map<Seq<char>, T>, key: Seq<char>, value: T) -> (at: int)
    requires
        rest.dom().finite(),
        !rest.dom().contains(key),
    ensures
        0 <= at <= listing(rest).len(),
        listing(rest.insert(key, value)) == listing(rest).insert(at, (key, value)),
{
    lemma_listing(rest);
    let at = lemma_entry_placed(listing(rest), rest, key, value);
    lemma_listing_unique(listing(rest).insert(at, (key, value)), rest.insert(key, value));
    at
}

impl<T> TextMap<T> {
    #[verifier::type_invariant]
    spec fn sorted(self) -> bool {
        forall|i: int, j: int|
            #![trigger self.entries@[i], self.entries@[j]]
            0 <= i < j < self.entries@.len() ==> text::text_before(
                self.entries@[i].0@,
                self.entries@[j].0@,
            )
    }
}

/// The entries as plain values.
pub open spec fn list_of<T: View>(entries: Seq<(String, T)>) -> Seq<(Seq<char>, T::V)> {
    entries.map_values(|entry: (String, T)| (entry.0@, entry.1@))
}

impl<T: View> View for TextMap<T> {
    type V = Map<Seq<char>, T::V>;

    closed spec fn view(&self) -> Map<Seq<char>, T::V> {
        map_of(list_of(self.entries@))
    }
}

/// Whether the keys of some entries ascend.
spec fn entries_ascend<T>(entries: Seq<(String, T)>) -> bool {
    forall|i: int, j: int|
        #![trigger entries[i], entries[j]]
        0 <= i < j < entries.len() ==> text::text_before(entries[i].0@, entries[j].0@)
}

proof fn lemma_list_of<T: View>(entries: Seq<(String, T)>)
    requires
        entries_ascend(entries),
    ensures
        is_ascending(list_of(entries)),
        is_listing(list_of(entries), map_of(list_of(entries))),
        listing(map_of(list_of(entries))) == list_of(entries),
{
    let list = list_of(entries);
    assert forall|i: int, j: int|
        #![trigger list[i], list[j]]
        0 <= i < j < list.len() implies text::text_before(list[i].0, list[j].0) by {
        assert(list[i].0 == entries[i].0@ && list[j].0 == entries[j].0@);
    }
    lemma_map_of(list);
    lemma_listing_unique(list, map_of(list));
}

/// Where `key` stands or would stand among the entries, and whether it is there.
fn locate<T>(entries: &Vec<(String, T)>, key: &str) -> (place: (usize, bool))
    requires
        entries_ascend(entries@),
    ensures
        place.0 <= entries@.len(),
        forall|i: int| 0 <= i < place.0 ==> text::text_before((#[trigger] entries@[i]).0@, key@),
        forall|i: int|
            place.0 + (if place.1 {
                1int
            } else {
                0
            }) <= i < entries@.len() ==> text::text_before(key@, (#[trigger] entries@[i]).0@),
        place.1 ==> place.0 < entries@.len() && entries@[place.0 as int].0@ == key@,
{
    let mut low: usize = 0;
    let mut high: usize = entries.len();
    while low < high
        invariant
            low <= high <= entries@.len(),
            entries_ascend(entries@),
            forall|i: int| 0 <= i < low ==> text::text_before((#[trigger] entries@[i]).0@, key@),
            forall|i: int|
                high <= i < entries@.len() ==> text::text_before(key@, (#[trigger] entries@[i]).0@),
        decreases high - low,
    {
        let middle: usize = low + (high - low) / 2;
        let ghost pivot = entries@[middle as int].0@;
        if text_precedes(entries[middle].0.as_str(), key) {
            assert forall|i: int| 0 <= i < middle + 1 implies text::text_before(
                (#[trigger] entries@[i]).0@,
                key@,
            ) by {
                if i < middle {
                    text::lemma_text_before_transitive(entries@[i].0@, pivot, key@);
                }
            }
            low = middle + 1;
        } else if text_precedes(key, entries[middle].0.as_str()) {
            assert forall|i: int| middle <= i < entries@.len() implies text::text_before(
                key@,
                (#[trigger] entries@[i]).0@,
            ) by {
                if i > middle {
                    text::lemma_text_before_transitive(key@, pivot, entries@[i].0@);
                }
            }
            high = middle;
        } else {
            proof {
                text::lemma_text_before_total(pivot, key@);
            }
            return (middle, true);
        }
    }
    (low, false)
}

impl<T: View> TextMap<T> {
    /// A map without entries.
    pub fn new() -> (map: Self)
        ensures
            map@ == Map::<Seq<char>, T::V>::empty(),
    {
        let map = TextMap { entries: Vec::new() };
        assert(map@ =~= Map::<Seq<char>, T::V>::empty());
        map
    }

    /// Number of entries.
    pub fn len(&self) -> (n: usize)
        ensures
            n == listing(self@).len(),
            is_listing(listing(self@), self@),
    {
        proof {
            use_type_invariant(self);
            lemma_list_of(self.entries@);
        }
        self.entries.len()
    }

    /// The key of the entry at `index`, in the order of the keys.
    pub fn key_at(&self, index: usize) -> (key: &String)
        requires
            index < listing(self@).len(),
        ensures
            key@ == listing(self@)[index as int].0,
    {
        proof {
            use_type_invariant(self);
            lemma_list_of(self.entries@);
        }
        &self.entries[index].0
    }

    /// The value of the entry at `index`, in the order of the keys.
    pub fn value_at(&self, index: usize) -> (value: &T)
        requires
            index < listing(self@).len(),
        ensures
            value@ == listing(self@)[index as int].1,
    {
        proof {
            use_type_invariant(self);
            lemma_list_of(self.entries@);
        }
        &self.entries[index].1
    }

    /// The value that `key` has.
    pub fn get(&self, key: &str) -> (value: Option<&T>)
        ensures
            value is Some <==> self@.dom().contains(key@),
            value matches Some(found) ==> found@ == self@[key@],
    {
        proof {
            use_type_invariant(self);
            lemma_list_of(self.entries@);
        }
        let (at, found) = locate(&self.entries, key);
        let ghost list = list_of(self.entries@);
        if found {
            assert(list[at as int].0 == key@);
            Some(&self.entries[at].1)
        } else {
            proof {
                if self@.dom().contains(key@) {
                    let i = choose|i: int| 0 <= i < list.len() && (#[trigger] list[i]).0 == key@;
                    assert(self.entries@[i].0@ == key@);
                    text::lemma_text_before_asymmetric(key@, key@);
                }
            }
            None
        }
    }

    /// Whether `key` has a value.
    pub fn contains_key(&self, key: &str) -> (found: bool)
        ensures
            found == self@.dom().contains(key@),
    {
        self.get(key).is_some()
    }

    /// Gives `key` a value in place of the one it may have had.
    pub fn insert(&mut self, key: String, value: T)
        ensures
            final(self)@ == old(self)@.insert(key@, value@),
    {
        proof {
            use_type_invariant(&*self);
            lemma_list_of(self.entries@);
        }
        let mut entries: Vec<(String, T)> = Vec::new();
        std::mem::swap(&mut entries, &mut self.entries);
        let ghost before = entries@;
        let (at, found) = locate(&entries, key.as_str());
        let ghost entry = (key, value);
        if found {
            entries[at] = (key, value);
        } else {
            entries.insert(at, (key, value));
        }
        proof {
            let after = entries@;
            assert forall|i: int, j: int|
                #![trigger after[i], after[j]]
                0 <= i < j < after.len() implies text::text_before(after[i].0@, after[j].0@) by {
                let from = |k: int|
                    if !found && k > at {
                        k - 1
                    } else {
                        k
                    };
                if i != at {
                    assert(after[i] == before[from(i)]);
                }
                if j != at {
                    assert(after[j] == before[from(j)]);
                }
            }
            assert(entries_ascend(after));
            lemma_inserted(before, after, at as int, found, entry);
        }
        self.entries = entries;
    }

    /// The entries, in the order of their keys.
    pub fn into_entries(self) -> (entries: Vec<(String, T)>)
        ensures
            list_of(entries@) == listing(self@),
            is_listing(listing(self@), self@),
    {
        proof {
            use_type_invariant(&self);
            lemma_list_of(self.entries@);
        }
        self.entries
    }

    /// Takes out the value that `key` has.
    pub fn remove(&mut self, key: &str) -> (value: Option<T>)
        ensures
            value is Some <==> old(self)@.dom().contains(key@),
            value matches Some(found) ==> found@ == old(self)@[key@],
            final(self)@ == old(self)@.remove(key@),
    {
        proof {
            use_type_invariant(&*self);
            lemma_list_of(self.entries@);
        }
        let mut entries: Vec<(String, T)> = Vec::new();
        std::mem::swap(&mut entries, &mut self.entries);
        let ghost before = entries@;
        let ghost list = list_of(before);
        let (at, found) = locate(&entries, key);
        if !found {
            proof {
                assert forall|i: int| 0 <= i < list.len() implies (#[trigger] list[i]).0 != key@ by {
                    assert(before[i].0@ == list[i].0);
                    text::lemma_text_before_asymmetric(key@, key@);
                }
                assert(map_of(list).remove(key@) =~= map_of(list));
            }
            self.entries = entries;
            return None;
        }
        let (_, value) = entries.remove(at);
        proof {
            assert(list[at as int].0 == key@);
            let after = entries@;
            assert forall|i: int, j: int|
                #![trigger after[i], after[j]]
                0 <= i < j < after.len() implies text::text_before(after[i].0@, after[j].0@) by {
                let from = |k: int|
                    if k >= at {
                        k + 1
                    } else {
                        k
                    };
                assert(after[i] == before[from(i)]);
                assert(after[j] == before[from(j)]);
            }
            assert(entries_ascend(after));
            lemma_removed(before, after, at as int);
        }
        self.entries = entries;
        Some(value)
    }
}

proof fn lemma_inserted<T: View>(
    before: Seq<(String, T)>,
    after: Seq<(String, T)>,
    at: int,
    found: bool,
    entry: (String, T),
)
    requires
        entries_ascend(before),
        entries_ascend(after),
        0 <= at <= before.len(),
        found ==> at < before.len() && before[at].0@ == entry.0@ && after == before.update(at, entry),
        !found ==> after == before.insert(at, entry),
    ensures
        map_of(list_of(after)) == map_of(list_of(before)).insert(entry.0@, entry.1@),
{
    lemma_list_of(before);
    lemma_list_of(after);
    let old_list = list_of(before);
    let new_list = list_of(after);
    let old_map = map_of(old_list);
    let goal = old_map.insert(entry.0@, entry.1@);
    assert(new_list[at] == (entry.0@, entry.1@));
    assert forall|i: int| 0 <= i < new_list.len() implies goal.dom().contains((#[trigger] new_list[i]).0)
        && goal[new_list[i].0] == new_list[i].1 by {
        if i != at {
            let k = if !found && i > at {
                i - 1
            } else {
                i
            };
            assert(after[i] == before[k]);
            assert(new_list[i] == old_list[k]);
            if new_list[i].0 == entry.0@ {
                lemma_keys_differ(new_list, i, at);
            }
        }
    }
    assert forall|key: Seq<char>| #[trigger] goal.dom().contains(key) implies exists|i: int|
        0 <= i < new_list.len() && (#[trigger] new_list[i]).0 == key by {
        if key == entry.0@ {
            assert(new_list[at].0 == key);
        } else {
            assert(old_map.dom().contains(key));
            let k = choose|k: int| 0 <= k < old_list.len() && (#[trigger] old_list[k]).0 == key;
            let i = if !found && k >= at {
                k + 1
            } else {
                k
            };
            assert(after[i] == before[k]);
            assert(new_list[i].0 == key);
        }
    }
    lemma_listing_fixes_map(new_list, map_of(new_list), goal);
}

proof fn lemma_removed<T: View>(before: Seq<(String, T)>, after: Seq<(String, T)>, at: int)
    requires
        entries_ascend(before),
        entries_ascend(after),
        0 <= at < before.len(),
        after == before.remove(at),
    ensures
        map_of(list_of(after)) == map_of(list_of(before)).remove(before[at].0@),
{
    lemma_list_of(before);
    lemma_list_of(after);
    let old_list = list_of(before);
    let new_list = list_of(after);
    let old_map = map_of(old_list);
    let goal = old_map.remove(before[at].0@);
    assert forall|i: int| 0 <= i < new_list.len() implies goal.dom().contains((#[trigger] new_list[i]).0)
        && goal[new_list[i].0] == new_list[i].1 by {
        let k = if i >= at {
            i + 1
        } else {
            i
        };
        assert(after[i] == before[k]);
        assert(new_list[i] == old_list[k]);
        if new_list[i].0 == before[at].0@ {
            assert(old_list[at].0 == before[at].0@);
            lemma_keys_differ(old_list, k, at);
        }
    }
    assert forall|key: Seq<char>| #[trigger] goal.dom().contains(key) implies exists|i: int|
        0 <= i < new_list.len() && (#[trigger] new_list[i]).0 == key by {
        assert(old_map.dom().contains(key));
        let k = choose|k: int| 0 <= k < old_list.len() && (#[trigger] old_list[k]).0 == key;
        assert(old_list[at].0 == before[at].0@);
        let i = if k > at {
            k - 1
        } else {
            k
        };
        assert(after[i] == before[k]);
        assert(new_list[i].0 == key);
    }
    lemma_listing_fixes_map(new_list, map_of(new_list), goal);
}

} // verus!
