//! Totals and breakdowns of the usage history.
use vstd::prelude::*;
use vstd::string::*;
use crate::calendar;
use crate::calendar::day_number_to_date;
use crate::chart;
use crate::chart::sum_seconds;
use crate::sorting;
use crate::sorting::sort_stably;
use crate::text;
use crate::text::text_precedes;
use crate::text_map;
use crate::text_map::TextMap;
use crate::tracker::UsageTracker;
use crate::usage::{Days, TabUsage, Usage};

verus! {

/// The history that a tracker keeps; none without a tracker.
pub open spec fn days_of(tracker: Option<&UsageTracker>) -> Days {
    match tracker {
        Some(tracker) => tracker.store.days@,
        None => Map::empty(),
    }
}

/// What was used on a day: name and focused seconds, in the order of the tab ids.
pub open spec fn uses_on(days: Days, day: Seq<char>) -> Seq<Usage> {
    if days.dom().contains(day) {
        text_map::listing(days[day]).map_values(|tab: (Seq<char>, Usage)| tab.1)
    } else {
        seq![]
    }
}

/// The seconds of some uses.
pub open spec fn seconds_of(uses: Seq<Usage>) -> Seq<u64> {
    uses.map_values(|used: Usage| used.1)
}

/// Focused seconds on a day.
pub open spec fn total_on(days: Days, day: Seq<char>) -> u64 {
    chart::capped(chart::total(seconds_of(uses_on(days, day))))
}

/// Focused seconds on each of some days.
pub open spec fn totals_on(days: Days, selected: Seq<Seq<char>>) -> Seq<u64> {
    selected.map_values(|day: Seq<char>| total_on(days, day))
}

/// Focused seconds on some days together.
pub open spec fn total_over(days: Days, selected: Seq<Seq<char>>) -> u64 {
    chart::capped(chart::total(totals_on(days, selected)))
}

/// What a tracker has recorded of a day.
fn tabs_of<'a>(tracker: Option<&'a UsageTracker>, day: &str) -> (tabs: Option<&'a TextMap<TabUsage>>)
    ensures
        tabs is Some <==> days_of(tracker).dom().contains(day@),
        tabs matches Some(found) ==> found@ == days_of(tracker)[day@],
{
    match tracker {
        Some(tracker) => tracker.store.days.get(day),
        None => None,
    }
}

/// Focused seconds on a day.
pub fn usage_total_for_day(tracker: Option<&UsageTracker>, day: &str) -> (seconds: u64)
    ensures
        seconds == total_on(days_of(tracker), day@),
{
    match tabs_of(tracker, day) {
        Some(tabs) => {
            let ghost list = text_map::listing(tabs@);
            let ghost uses = uses_on(days_of(tracker), day@);
            let mut seconds: Vec<u64> = Vec::new();
            let count: usize = tabs.len();
            let mut i: usize = 0;
            while i < count
                invariant
                    i <= count == list.len(),
                    list == text_map::listing(tabs@),
                    uses == list.map_values(|tab: (Seq<char>, Usage)| tab.1),
                    seconds@ =~= seconds_of(uses).take(i as int),
                decreases count - i,
            {
                seconds.push(tabs.value_at(i).seconds);
                i += 1;
            }
            assert(seconds@ =~= seconds_of(uses));
            sum_seconds(seconds.as_slice())
        },
        None => {
            assert(seconds_of(uses_on(days_of(tracker), day@)) =~= seq![]);
            0
        },
    }
}

/// Focused seconds on some days together.
pub fn usage_total_for_days(tracker: Option<&UsageTracker>, days: &Vec<String>) -> (seconds: u64)
    ensures
        seconds == total_over(days_of(tracker), text::texts(days@)),
{
    let ghost all = totals_on(days_of(tracker), text::texts(days@));
    let mut totals: Vec<u64> = Vec::new();
    let mut i: usize = 0;
    while i < days.len()
        invariant
            i <= days@.len(),
            all == totals_on(days_of(tracker), text::texts(days@)),
            totals@ =~= all.take(i as int),
        decreases days@.len() - i,
    {
        totals.push(usage_total_for_day(tracker, days[i].as_str()));
        i += 1;
    }
    assert(totals@ =~= all);
    sum_seconds(totals.as_slice())
}

/// Focused seconds on each day of the calendar; days to come have none.
pub open spec fn daily_seconds(days: Days, start: int, weeks: int, today: int) -> Seq<u64> {
    Seq::new(
        (weeks * 7) as nat,
        |index: int|
            if start + index > today {
                0
            } else {
                total_on(days, calendar::date_text(start + index))
            },
    )
}

/// Focused seconds per grid cell, in chronological order.
pub fn daily_totals(
    tracker: Option<&UsageTracker>,
    start: i64,
    weeks: usize,
    today_number: i64,
) -> (totals: Vec<u64>)
    requires
        weeks * 7 <= usize::MAX,
        weeks * 7 <= i64::MAX,
        start + weeks * 7 - 1 <= i64::MAX,
    ensures
        totals@ == daily_seconds(days_of(tracker), start as int, weeks as int, today_number as int),
{
    let ghost all = daily_seconds(
        days_of(tracker),
        start as int,
        weeks as int,
        today_number as int,
    );
    let mut totals: Vec<u64> = Vec::new();
    let count: usize = weeks * 7;
    let mut index: usize = 0;
    while index < count
        invariant
            index <= count == weeks * 7,
            count <= i64::MAX,
            start + count - 1 <= i64::MAX,
            all == daily_seconds(
                days_of(tracker),
                start as int,
                weeks as int,
                today_number as int,
            ),
            totals@ =~= all.take(index as int),
        decreases count - index,
    {
        let number: i64 = start + index as i64;
        if number > today_number {
            totals.push(0);
        } else {
            totals.push(usage_total_for_day(tracker, day_number_to_date(number).as_str()));
        }
        index += 1;
    }
    assert(totals@ =~= all);
    totals
}

/// What was used on some days, day by day.
pub open spec fn uses_over(days: Days, selected: Seq<Seq<char>>) -> Seq<Usage>
    decreases selected.len(),
{
    if selected.len() == 0 {
        seq![]
    } else {
        uses_over(days, selected.drop_last()) + uses_on(days, selected.last())
    }
}

/// The seconds of the uses under one name, added up.
pub open spec fn time_under(uses: Seq<Usage>, name: Seq<char>) -> nat
    decreases uses.len(),
{
    if uses.len() == 0 {
        0
    } else {
        time_under(uses.drop_last(), name) + (if uses.last().0 == name {
            uses.last().1 as nat
        } else {
            0
        })
    }
}

/// Whether a name is among some uses.
pub open spec fn is_used(uses: Seq<Usage>, name: Seq<char>) -> bool {
    exists|i: int| 0 <= i < uses.len() && (#[trigger] uses[i]).0 == name
}

/// The order of a breakdown: the longest time first, and by name among the same.
pub open spec fn busier_first() -> spec_fn(Usage, Usage) -> bool {
    |a: Usage, b: Usage| a.1 > b.1 || (a.1 == b.1 && text::text_before(a.0, b.0))
}

/// Whether some rows break some uses down by name: one row for each name, with
/// its time, the longest first.
pub open spec fn is_breakdown(uses: Seq<Usage>, rows: Seq<Usage>) -> bool {
    &&& forall|i: int|
        0 <= i < rows.len() ==> is_used(uses, (#[trigger] rows[i]).0) && rows[i].1 == chart::capped(
            time_under(uses, rows[i].0),
        )
    &&& forall|name: Seq<char>| #[trigger]
        is_used(uses, name) ==> exists|i: int| 0 <= i < rows.len() && (#[trigger] rows[i]).0 == name
    &&& forall|i: int, j: int|
        #![trigger rows[i], rows[j]]
        0 <= i < j < rows.len() ==> busier_first()(rows[i], rows[j])
}

/// The rows of a breakdown as plain values.
pub open spec fn rows_of(rows: Seq<(String, u64)>) -> Seq<Usage> {
    rows.map_values(|row: (String, u64)| (row.0@, row.1))
}

/// Whether a map holds the time under each name.
spec fn holds_times(totals: Map<Seq<char>, u64>, uses: Seq<Usage>) -> bool {
    &&& forall|name: Seq<char>| #[trigger] totals.dom().contains(name) <==> is_used(uses, name)
    &&& forall|name: Seq<char>| #[trigger]
        totals.dom().contains(name) ==> totals[name] == chart::capped(time_under(uses, name))
}

/// What is not used takes no time.
proof fn lemma_unused(uses: Seq<Usage>, name: Seq<char>)
    requires
        !is_used(uses, name),
    ensures
        time_under(uses, name) == 0,
    decreases uses.len(),
{
    if uses.len() > 0 {
        assert(uses[uses.len() - 1] == uses.last());
        if is_used(uses.drop_last(), name) {
            let i = choose|i: int|
                0 <= i < uses.drop_last().len() && (#[trigger] uses.drop_last()[i]).0 == name;
            assert(uses[i].0 == name);
        }
        lemma_unused(uses.drop_last(), name);
    }
}

proof fn lemma_one_use_more(
    totals: Map<Seq<char>, u64>,
    grown: Map<Seq<char>, u64>,
    uses: Seq<Usage>,
    used: Usage,
)
    requires
        holds_times(totals, uses),
        grown == totals.insert(
            used.0,
            chart::capped(
                ((if totals.dom().contains(used.0) {
                    totals[used.0]
                } else {
                    0u64
                }) + used.1) as nat,
            ),
        ),
    ensures
        holds_times(grown, uses.push(used)),
{
    let more = uses.push(used);
    assert(more.drop_last() =~= uses);
    assert forall|name: Seq<char>| #[trigger] is_used(more, name) == (is_used(uses, name) || name
        == used.0) by {
        if is_used(more, name) {
            let i = choose|i: int| 0 <= i < more.len() && (#[trigger] more[i]).0 == name;
            if i < uses.len() {
                assert(uses[i].0 == name);
            }
        }
        if is_used(uses, name) {
            let i = choose|i: int| 0 <= i < uses.len() && (#[trigger] uses[i]).0 == name;
            assert(more[i].0 == name);
        }
        assert(more[uses.len() as int].0 == used.0);
    }
    assert forall|name: Seq<char>| #[trigger] grown.dom().contains(name) implies grown[name]
        == chart::capped(time_under(more, name)) by {
        if name == used.0 && !is_used(uses, name) {
            lemma_unused(uses, name);
        }
    }
}

/// Adds what was used on one day to the time under each name.
fn add_uses(totals: &mut TextMap<u64>, tabs: &TextMap<TabUsage>, Ghost(uses): Ghost<Seq<Usage>>)
    requires
        holds_times(old(totals)@, uses),
    ensures
        holds_times(
            final(totals)@,
            uses + text_map::listing(tabs@).map_values(|tab: (Seq<char>, Usage)| tab.1),
        ),
{
    let ghost list = text_map::listing(tabs@).map_values(|tab: (Seq<char>, Usage)| tab.1);
    let count: usize = tabs.len();
    let mut i: usize = 0;
    assert(uses + list.take(0) =~= uses);
    while i < count
        invariant
            i <= count == list.len(),
            count == text_map::listing(tabs@).len(),
            list == text_map::listing(tabs@).map_values(|tab: (Seq<char>, Usage)| tab.1),
            holds_times(totals@, uses + list.take(i as int)),
        decreases count - i,
    {
        let used = tabs.value_at(i);
        let ghost before = totals@;
        let earlier: u64 = match totals.get(used.name.as_str()) {
            Some(seconds) => *seconds,
            None => 0,
        };
        totals.insert(used.name.clone(), earlier.saturating_add(used.seconds));
        proof {
            lemma_one_use_more(before, totals@, uses + list.take(i as int), list[i as int]);
            assert((uses + list.take(i as int)).push(list[i as int]) =~= uses + list.take(i + 1));
        }
        i += 1;
    }
    assert(list.take(list.len() as int) =~= list);
}

/// Focused time per tab across some days, busiest first. Totals merge on tab
/// name, so a week's worth of the same tab reads as one row.
pub fn usage_breakdown(tracker: Option<&UsageTracker>, days: &Vec<String>) -> (rows: Vec<(String, u64)>)
    ensures
        is_breakdown(uses_over(days_of(tracker), text::texts(days@)), rows_of(rows@)),
        rows_of(rows@) == breakdown(uses_over(days_of(tracker), text::texts(days@))),
{
    let ghost all = text::texts(days@);
    let ghost kept = days_of(tracker);
    let mut totals: TextMap<u64> = TextMap::new();
    let mut i: usize = 0;
    assert(all.take(0) =~= seq![]);
    while i < days.len()
        invariant
            i <= days@.len(),
            all == text::texts(days@),
            kept == days_of(tracker),
            holds_times(totals@, uses_over(kept, all.take(i as int))),
        decreases days@.len() - i,
    {
        let ghost uses = uses_over(kept, all.take(i as int));
        proof {
            assert(all.take(i + 1).drop_last() =~= all.take(i as int));
            assert(all.take(i + 1).last() == days@[i as int]@);
        }
        match tabs_of(tracker, days[i].as_str()) {
            Some(tabs) => {
                add_uses(&mut totals, tabs, Ghost(uses));
            },
            None => {
                assert(uses + uses_on(kept, days@[i as int]@) =~= uses);
            },
        }
        i += 1;
    }
    assert(all.take(all.len() as int) =~= all);
    let ghost uses = uses_over(kept, all);
    let ghost times = totals@;
    let mut rows = totals.into_entries();
    let ghost unsorted = rows@;
    let ghost list = text_map::listing(times);
    let ghost order = |a: (String, u64), b: (String, u64)| busier_first()((a.0@, a.1), (b.0@, b.1));
    let precedes = |a: &(String, u64), b: &(String, u64)| -> (before: bool)
        ensures
            before == busier_first()((a.0@, a.1), (b.0@, b.1)),
    {
        a.1 > b.1 || (a.1 == b.1 && text_precedes(a.0.as_str(), b.0.as_str()))
    };
    proof {
        lemma_busier_first();
    }
    sort_stably(&mut rows, precedes, Ghost(order));
    proof {
        lemma_rows(times, unsorted, rows@, uses);
        law_breakdown_is_unique(uses, rows_of(rows@));
    }
    rows
}

proof fn lemma_busier_first()
    ensures
        sorting::is_order(
            |a: (String, u64), b: (String, u64)| busier_first()((a.0@, a.1), (b.0@, b.1)),
        ),
{
    let order = |a: (String, u64), b: (String, u64)| busier_first()((a.0@, a.1), (b.0@, b.1));
    assert forall|a: (String, u64), b: (String, u64)| #[trigger] order(a, b) implies !order(b, a) by {
        text::lemma_text_before_asymmetric(a.0@, b.0@);
    }
    assert forall|a: (String, u64), b: (String, u64), c: (String, u64)| #[trigger]
        order(a, c) implies #[trigger] order(a, b) || order(b, c) by {
        text::lemma_text_before_total(a.0@, b.0@);
        if text::text_before(b.0@, a.0@) && text::text_before(a.0@, c.0@) {
            text::lemma_text_before_transitive(b.0@, a.0@, c.0@);
        }
    }
}

/// The entries of a map of times, sorted, are the breakdown.
proof fn lemma_rows(
    times: Map<Seq<char>, u64>,
    unsorted: Seq<(String, u64)>,
    rows: Seq<(String, u64)>,
    uses: Seq<Usage>,
)
    requires
        holds_times(times, uses),
        text_map::list_of(unsorted) == text_map::listing(times),
        text_map::is_listing(text_map::listing(times), times),
        sorting::is_sorted_from(
            unsorted,
            rows,
            |a: (String, u64), b: (String, u64)| busier_first()((a.0@, a.1), (b.0@, b.1)),
        ),
    ensures
        is_breakdown(uses, rows_of(rows)),
{
    let order = |a: (String, u64), b: (String, u64)| busier_first()((a.0@, a.1), (b.0@, b.1));
    let places = choose|places: Seq<int>| sorting::is_arranged(unsorted, rows, places, order);
    let list = text_map::listing(times);
    let plain = rows_of(rows);
    assert forall|i: int| 0 <= i < plain.len() implies is_used(uses, (#[trigger] plain[i]).0) && plain[i].1
        == chart::capped(time_under(uses, plain[i].0)) by {
        assert(rows[i] == unsorted[places[i]]);
        assert(text_map::list_of(unsorted)[places[i]] == plain[i]);
        assert(times.dom().contains(list[places[i]].0));
    }
    assert forall|name: Seq<char>| #[trigger] is_used(uses, name) implies exists|i: int|
        0 <= i < plain.len() && (#[trigger] plain[i]).0 == name by {
        assert(times.dom().contains(name));
        let k = choose|k: int| 0 <= k < list.len() && (#[trigger] list[k]).0 == name;
        let i = sorting::lemma_place_found(unsorted, rows, places, order, k);
        assert(rows[i] == unsorted[k]);
        assert(text_map::list_of(unsorted)[k].0 == name);
        assert(plain[i].0 == name);
    }
    assert forall|i: int, j: int|
        #![trigger plain[i], plain[j]]
        0 <= i < j < plain.len() implies busier_first()(plain[i], plain[j]) by {
        assert(!order(rows[j], rows[i]));
        assert(text_map::list_of(unsorted)[places[i]] == plain[i]);
        assert(text_map::list_of(unsorted)[places[j]] == plain[j]);
        text::lemma_text_before_total(plain[i].0, plain[j].0);
        if plain[i].0 == plain[j].0 {
            text_map::lemma_keys_differ(list, places[i], places[j]);
        }
    }
}

/// The time under each of some names, added up.
spec fn time_under_all(uses: Seq<Usage>, names: Seq<Seq<char>>) -> nat
    decreases names.len(),
{
    if names.len() == 0 {
        0
    } else {
        time_under_all(uses, names.drop_last()) + time_under(uses, names.last())
    }
}

proof fn lemma_one_use_more_in_all(uses: Seq<Usage>, used: Usage, names: Seq<Seq<char>>)
    requires
        names.no_duplicates(),
    ensures
        time_under_all(uses.push(used), names) == time_under_all(uses, names) + (if names.contains(
            used.0,
        ) {
            used.1 as nat
        } else {
            0
        }),
    decreases names.len(),
{
    let more = uses.push(used);
    assert(more.drop_last() =~= uses);
    if names.len() > 0 {
        let before = names.drop_last();
        lemma_one_use_more_in_all(uses, used, before);
        if before.contains(used.0) {
            let k = before.index_of(used.0);
            assert(names[k] == used.0);
            assert(names[names.len() - 1] != used.0);
        }
        if names.contains(used.0) && names.last() != used.0 {
            let k = names.index_of(used.0);
            assert(before[k] == used.0);
        }
        if names.last() == used.0 {
            assert(names[names.len() - 1] == used.0);
        }
    }
}

proof fn lemma_all_time(uses: Seq<Usage>, names: Seq<Seq<char>>)
    requires
        names.no_duplicates(),
        forall|i: int| 0 <= i < uses.len() ==> names.contains((#[trigger] uses[i]).0),
    ensures
        time_under_all(uses, names) == chart::total(seconds_of(uses)),
    decreases uses.len(),
{
    if uses.len() == 0 {
        lemma_no_time(uses, names);
    } else {
        let before = uses.drop_last();
        assert forall|i: int| 0 <= i < before.len() implies names.contains((#[trigger] before[i]).0) by {
            assert(before[i] == uses[i]);
        }
        lemma_all_time(before, names);
        lemma_one_use_more_in_all(before, uses.last(), names);
        assert(before.push(uses.last()) =~= uses);
        assert(uses[uses.len() - 1] == uses.last());
        assert(seconds_of(uses).drop_last() =~= seconds_of(before));
    }
}

proof fn lemma_no_time(uses: Seq<Usage>, names: Seq<Seq<char>>)
    requires
        uses.len() == 0,
    ensures
        time_under_all(uses, names) == 0,
    decreases names.len(),
{
    if names.len() > 0 {
        lemma_no_time(uses, names.drop_last());
    }
}

/// The rows of a breakdown, each capped, come to the time under their names.
proof fn lemma_rows_add_up(uses: Seq<Usage>, rows: Seq<Usage>)
    requires
        forall|i: int|
            0 <= i < rows.len() ==> (#[trigger] rows[i]).1 == chart::capped(
                time_under(uses, rows[i].0),
            ),
    ensures
        ({
            let all = time_under_all(uses, rows.map_values(|row: Usage| row.0));
            &&& chart::capped(chart::total(seconds_of(rows))) == chart::capped(all)
            &&& all <= u64::MAX ==> chart::total(seconds_of(rows)) == all
        }),
    decreases rows.len(),
{
    let names = rows.map_values(|row: Usage| row.0);
    if rows.len() > 0 {
        let before = rows.drop_last();
        assert forall|i: int| 0 <= i < before.len() implies (#[trigger] before[i]).1
            == chart::capped(time_under(uses, before[i].0)) by {
            assert(before[i] == rows[i]);
        }
        lemma_rows_add_up(uses, before);
        assert(seconds_of(rows).drop_last() =~= seconds_of(before));
        assert(names.drop_last() =~= before.map_values(|row: Usage| row.0));
        assert(rows[rows.len() - 1] == rows.last());
    }
}

/// The rows of a breakdown add up to all the time there was, as far as a `u64`
/// can hold it.
pub proof fn law_breakdown_adds_up(uses: Seq<Usage>, rows: Seq<Usage>)
    requires
        is_breakdown(uses, rows),
    ensures
        chart::capped(chart::total(seconds_of(rows))) == chart::capped(
            chart::total(seconds_of(uses)),
        ),
        chart::total(seconds_of(uses)) <= u64::MAX ==> chart::total(seconds_of(rows))
            == chart::total(seconds_of(uses)),
{
    let names = rows.map_values(|row: Usage| row.0);
    assert(names.no_duplicates()) by {
        assert forall|i: int, j: int| 0 <= i < j < names.len() implies names[i] != names[j] by {
            assert(busier_first()(rows[i], rows[j]));
            if names[i] == names[j] {
                text::lemma_text_before_asymmetric(rows[i].0, rows[j].0);
                assert(rows[i].1 == rows[j].1);
            }
        }
    }
    assert forall|i: int| 0 <= i < uses.len() implies names.contains((#[trigger] uses[i]).0) by {
        assert(is_used(uses, uses[i].0));
        let k = choose|k: int| 0 <= k < rows.len() && (#[trigger] rows[k]).0 == uses[i].0;
        assert(names[k] == uses[i].0);
    }
    lemma_rows_add_up(uses, rows);
    lemma_all_time(uses, names);
}

/// The rows that break some uses down.
pub open spec fn breakdown(uses: Seq<Usage>) -> Seq<Usage> {
    choose|rows: Seq<Usage>| is_breakdown(uses, rows)
}

proof fn lemma_same_rows(uses: Seq<Usage>, one: Seq<Usage>, other: Seq<Usage>, n: int)
    requires
        is_breakdown(uses, one),
        is_breakdown(uses, other),
        0 <= n <= one.len(),
    ensures
        n <= other.len(),
        forall|i: int| 0 <= i < n ==> one[i] == other[i],
    decreases n,
{
    if n > 0 {
        lemma_same_rows(uses, one, other, n - 1);
        let row = one[n - 1];
        assert(is_used(uses, row.0));
        let at = choose|i: int| 0 <= i < other.len() && (#[trigger] other[i]).0 == row.0;
        assert(other[at] == row);
        if at < n - 1 {
            assert(one[at] == row);
            assert(busier_first()(one[at], one[n - 1]));
            text::lemma_text_before_asymmetric(row.0, row.0);
        }
        if at > n - 1 {
            let ahead = other[n - 1];
            assert(busier_first()(ahead, row));
            assert(is_used(uses, ahead.0));
            let from = choose|i: int| 0 <= i < one.len() && (#[trigger] one[i]).0 == ahead.0;
            assert(one[from] == ahead);
            text::lemma_text_before_asymmetric(ahead.0, row.0);
            text::lemma_text_before_asymmetric(ahead.0, ahead.0);
            if from < n - 1 {
                assert(other[from] == ahead);
                assert(busier_first()(other[from], other[n - 1]));
            } else if from > n - 1 {
                assert(busier_first()(row, ahead));
            }
        }
    }
}

/// There is one way only to break some uses down.
pub proof fn law_breakdown_is_unique(uses: Seq<Usage>, rows: Seq<Usage>)
    requires
        is_breakdown(uses, rows),
    ensures
        breakdown(uses) == rows,
{
    let other = breakdown(uses);
    lemma_same_rows(uses, rows, other, rows.len() as int);
    lemma_same_rows(uses, other, rows, other.len() as int);
    assert(other =~= rows);
}

/// Whether some rows are the entries of a map, the longest time first.
spec fn are_sorted_entries(rows: Seq<Usage>, times: Map<Seq<char>, u64>) -> bool {
    &&& forall|i: int|
        0 <= i < rows.len() ==> times.dom().contains((#[trigger] rows[i]).0) && times[rows[i].0]
            == rows[i].1
    &&& forall|name: Seq<char>| #[trigger]
        times.dom().contains(name) ==> exists|i: int| 0 <= i < rows.len() && (#[trigger] rows[i]).0
            == name
    &&& forall|i: int, j: int|
        #![trigger rows[i], rows[j]]
        0 <= i < j < rows.len() ==> busier_first()(rows[i], rows[j])
}

/// How many rows at the front come before a new one.
spec fn rows_ahead(rows: Seq<Usage>, row: Usage) -> int
    decreases rows.len(),
{
    if rows.len() == 0 || busier_first()(row, rows[0]) {
        0
    } else {
        1 + rows_ahead(rows.skip(1), row)
    }
}

proof fn lemma_rows_ahead(rows: Seq<Usage>, row: Usage)
    ensures
        0 <= rows_ahead(rows, row) <= rows.len(),
        forall|i: int| 0 <= i < rows_ahead(rows, row) ==> !busier_first()(row, #[trigger] rows[i]),
        rows_ahead(rows, row) < rows.len() ==> busier_first()(row, rows[rows_ahead(rows, row)]),
    decreases rows.len(),
{
    if rows.len() > 0 && !busier_first()(row, rows[0]) {
        let rest = rows.skip(1);
        lemma_rows_ahead(rest, row);
        assert forall|i: int| 0 <= i < rows_ahead(rows, row) implies !busier_first()(
            row,
            #[trigger] rows[i],
        ) by {
            if i > 0 {
                assert(rest[i - 1] == rows[i]);
            }
        }
    }
}

/// The entries of a finite map of times can be put in order.
proof fn lemma_entries_sorted(times: Map<Seq<char>, u64>) -> (rows: Seq<Usage>)
    requires
        times.dom().finite(),
    ensures
        are_sorted_entries(rows, times),
    decreases times.dom().len(),
{
    if times.dom().len() == 0 {
        assert(times.dom() =~= Set::empty());
        seq![]
    } else {
        let name = times.dom().choose();
        let rest = times.remove(name);
        let others = lemma_entries_sorted(rest);
        let row: Usage = (name, times[name]);
        let at = rows_ahead(others, row);
        lemma_rows_ahead(others, row);
        let rows = others.insert(at, row);
        assert forall|i: int, j: int|
            #![trigger rows[i], rows[j]]
            0 <= i < j < rows.len() implies busier_first()(rows[i], rows[j]) by {
            let x = if i < at {
                others[i]
            } else {
                others[i - 1]
            };
            let y = if j < at {
                others[j]
            } else {
                others[j - 1]
            };
            if i == at {
                let next = others[at];
                assert(busier_first()(row, next));
                if j - 1 > at {
                    assert(busier_first()(next, y));
                    if text::text_before(row.0, next.0) && text::text_before(next.0, y.0) {
                        text::lemma_text_before_transitive(row.0, next.0, y.0);
                    }
                }
            } else if j == at {
                assert(rest.dom().contains(others[i].0));
                text::lemma_text_before_total(row.0, x.0);
            }
        }
        assert forall|i: int| 0 <= i < rows.len() implies times.dom().contains(
            (#[trigger] rows[i]).0,
        ) && times[rows[i].0] == rows[i].1 by {
            if i < at {
                assert(rows[i] == others[i]);
            } else if i > at {
                assert(rows[i] == others[i - 1]);
            }
        }
        assert forall|other: Seq<char>| #[trigger] times.dom().contains(other) implies exists|i: int|
            0 <= i < rows.len() && (#[trigger] rows[i]).0 == other by {
            if other == name {
                assert(rows[at].0 == name);
            } else {
                assert(rest.dom().contains(other));
                let k = choose|k: int| 0 <= k < others.len() && (#[trigger] others[k]).0 == other;
                if k < at {
                    assert(rows[k] == others[k]);
                } else {
                    assert(rows[k + 1] == others[k]);
                }
            }
        }
        rows
    }
}

/// Whatever was used can be broken down.
pub proof fn law_breakdown_exists(uses: Seq<Usage>)
    ensures
        is_breakdown(uses, breakdown(uses)),
{
    let times: Map<Seq<char>, u64> = Map::new(
        |name: Seq<char>| is_used(uses, name),
        |name: Seq<char>| chart::capped(time_under(uses, name)),
    );
    let names = uses.map_values(|used: Usage| used.0);
    assert forall|name: Seq<char>| times.dom().contains(name) implies names.to_set().contains(
        name,
    ) by {
        let i = choose|i: int| 0 <= i < uses.len() && (#[trigger] uses[i]).0 == name;
        assert(names[i] == name);
    }
    vstd::seq_lib::seq_to_set_is_finite(names);
    vstd::set_lib::lemma_len_subset(times.dom(), names.to_set());
    let rows = lemma_entries_sorted(times);
    assert forall|name: Seq<char>| #[trigger] is_used(uses, name) implies exists|i: int|
        0 <= i < rows.len() && (#[trigger] rows[i]).0 == name by {
        assert(times.dom().contains(name));
    }
    assert(is_breakdown(uses, rows));
}

/// Adding up day by day, each day capped, comes to adding up all there was.
proof fn lemma_total_over(days: Days, selected: Seq<Seq<char>>)
    ensures
        total_over(days, selected) == chart::capped(
            chart::total(seconds_of(uses_over(days, selected))),
        ),
    decreases selected.len(),
{
    if selected.len() > 0 {
        let before = selected.drop_last();
        let day = selected.last();
        lemma_total_over(days, before);
        assert(totals_on(days, selected).drop_last() =~= totals_on(days, before));
        let earlier = uses_over(days, before);
        let last = uses_on(days, day);
        assert(seconds_of(earlier + last) =~= seconds_of(earlier) + seconds_of(last));
        chart::lemma_total_add(seconds_of(earlier), seconds_of(last));
    }
}

/// The time shown for some days is what the rows of their breakdown add up to.
pub proof fn law_headline_is_the_breakdown(days: Days, selected: Seq<Seq<char>>)
    ensures
        total_over(days, selected) == chart::capped(
            chart::total(seconds_of(breakdown(uses_over(days, selected)))),
        ),
{
    let uses = uses_over(days, selected);
    lemma_total_over(days, selected);
    law_breakdown_exists(uses);
    law_breakdown_adds_up(uses, breakdown(uses));
}

/// The time on a day is what was recorded of each tab on it, added up: every tab
/// once, and none of another day.
pub proof fn law_day_total(days: Days, day: Seq<char>, tab_id: Seq<char>)
    ensures
        !days.dom().contains(day) ==> total_on(days, day) == 0,
        days.dom().contains(day) && days[day].dom().finite() && days[day].dom().contains(tab_id)
            ==> total_on(days, day) >= days[day][tab_id].1,
        days.dom().contains(day) && days[day].dom() == set![tab_id] ==> total_on(days, day)
            == days[day][tab_id].1,
{
    if !days.dom().contains(day) {
        assert(seconds_of(uses_on(days, day)) =~= seq![]);
    } else if days[day].dom().finite() {
        let tabs = days[day];
        text_map::lemma_listing(tabs);
        let list = text_map::listing(tabs);
        let seconds = seconds_of(uses_on(days, day));
        if tabs.dom().contains(tab_id) {
            let i = choose|i: int| 0 <= i < list.len() && (#[trigger] list[i]).0 == tab_id;
            assert(seconds[i] == tabs[tab_id].1);
            chart::lemma_total_covers(seconds, i);
            if tabs.dom() == set![tab_id] {
                if list.len() > 1 {
                    assert(tabs.dom().contains(list[0].0));
                    assert(tabs.dom().contains(list[1].0));
                    text_map::lemma_keys_differ(list, 0, 1);
                }
                assert(seconds =~= seq![tabs[tab_id].1]);
                chart::law_total(tabs[tab_id].1, seq![], seq![]);
            }
        }
    }
}

/// Another tab on a day adds its own time to that day and to no other.
pub proof fn law_another_tab_adds_its_time(
    days: Days,
    day: Seq<char>,
    tab_id: Seq<char>,
    usage: Usage,
    other: Seq<char>,
)
    requires
        days.dom().contains(day) ==> days[day].dom().finite(),
        days.dom().contains(day) ==> !days[day].dom().contains(tab_id),
    ensures
        ({
            let grown = days.insert(
                day,
                (if days.dom().contains(day) {
                    days[day]
                } else {
                    Map::empty()
                }).insert(tab_id, usage),
            );
            &&& other != day ==> total_on(grown, other) == total_on(days, other)
            &&& total_on(days, day) + usage.1 <= u64::MAX ==> total_on(grown, day) == total_on(
                days,
                day,
            ) + usage.1
        }),
{
    let tabs = if days.dom().contains(day) {
        days[day]
    } else {
        Map::empty()
    };
    let more = tabs.insert(tab_id, usage);
    let grown = days.insert(day, more);
    if other != day {
        assert(uses_on(grown, other) =~= uses_on(days, other));
    }
    text_map::lemma_listing(tabs);
    let list = text_map::listing(tabs);
    let at = text_map::lemma_listing_grows(tabs, tab_id, usage);
    let longer = text_map::listing(more);
    let before = seconds_of(list.map_values(|tab: (Seq<char>, Usage)| tab.1));
    let after = seconds_of(longer.map_values(|tab: (Seq<char>, Usage)| tab.1));
    assert(after =~= before.take(at) + seq![usage.1] + before.skip(at));
    assert(before =~= before.take(at) + before.skip(at));
    chart::law_total(usage.1, before.take(at), before.skip(at));
    chart::law_total(usage.1, before.take(at), seq![usage.1]);
    chart::law_total(usage.1, before.take(at) + seq![usage.1], before.skip(at));
    if !days.dom().contains(day) {
        assert(list =~= seq![]) by {
            if list.len() > 0 {
                assert(tabs.dom().contains(list[0].0));
            }
        }
        assert(before =~= seconds_of(uses_on(days, day)));
    }
}

/// The time over some days is that of each of them, added up.
pub proof fn law_days_add_up(days: Days, day: Seq<char>, a: Seq<Seq<char>>, b: Seq<Seq<char>>)
    ensures
        total_over(days, seq![]) == 0,
        total_over(days, seq![day]) == total_on(days, day),
        total_over(days, a + b) == chart::capped(
            (total_over(days, a) + total_over(days, b)) as nat,
        ),
{
    assert(totals_on(days, seq![]) =~= seq![]);
    assert(totals_on(days, seq![day]) =~= seq![total_on(days, day)]);
    assert(totals_on(days, a + b) =~= totals_on(days, a) + totals_on(days, b));
    chart::law_total(total_on(days, day), totals_on(days, a), totals_on(days, b));
}

/// The calendar counts each day by its date: the time of a day that has come is
/// what was recorded on its date.
pub proof fn law_calendar_counts_by_date(
    days: Days,
    start: int,
    weeks: int,
    today: int,
    number: int,
)
    requires
        weeks >= 0,
        start <= number < start + weeks * 7,
    ensures
        daily_seconds(days, start, weeks, today).len() == weeks * 7,
        number <= today ==> daily_seconds(days, start, weeks, today)[number - start] == total_on(
            days,
            calendar::date_text(number),
        ),
        number > today ==> daily_seconds(days, start, weeks, today)[number - start] == 0,
{
}

/// The rows of a breakdown: every name once, the longest time first, each with the
/// time of all the tabs of that name together.
pub proof fn law_breakdown_rows(uses: Seq<Usage>, rows: Seq<Usage>, i: int, j: int)
    requires
        is_breakdown(uses, rows),
        0 <= i < j < rows.len(),
    ensures
        rows[i].0 != rows[j].0,
        rows[i].1 >= rows[j].1,
        rows[i].1 == rows[j].1 ==> text::text_before(rows[i].0, rows[j].0),
        rows[i].1 == chart::capped(chart::total(seconds_of(uses_named(uses, rows[i].0)))),
        exists|k: int| 0 <= k < uses.len() && (#[trigger] uses[k]).0 == rows[i].0,
{
    assert(busier_first()(rows[i], rows[j]));
    if rows[i].0 == rows[j].0 {
        text::lemma_text_before_asymmetric(rows[i].0, rows[j].0);
        assert(rows[i].1 == rows[j].1);
    }
    assert(is_used(uses, rows[i].0));
    law_time_under_a_name(uses, rows[i].0);
}

/// The uses with a name.
pub open spec fn uses_named(uses: Seq<Usage>, name: Seq<char>) -> Seq<Usage> {
    uses.filter(|used: Usage| used.0 == name)
}

/// The time under a name is that of the uses with that name.
pub proof fn law_time_under_a_name(uses: Seq<Usage>, name: Seq<char>)
    ensures
        time_under(uses, name) == chart::total(seconds_of(uses_named(uses, name))),
    decreases uses.len(),
{
    reveal(Seq::filter);
    let all = uses_named(uses, name);
    if uses.len() == 0 {
        assert(seconds_of(all) =~= seq![]);
    } else {
        let before = uses.drop_last();
        law_time_under_a_name(before, name);
        let some = uses_named(before, name);
        if uses.last().0 == name {
            assert(all =~= some.push(uses.last()));
            assert(seconds_of(all) =~= seconds_of(some) + seq![uses.last().1]);
            chart::law_total(uses.last().1, seconds_of(some), seq![uses.last().1]);
        } else {
            assert(all =~= some);
        }
    }
}

/// What was used over some days is what was used on each of them.
pub proof fn law_uses_over_days(days: Days, selected: Seq<Seq<char>>, used: Usage)
    ensures
        uses_over(days, selected).contains(used) <==> exists|i: int|
            0 <= i < selected.len() && uses_on(days, #[trigger] selected[i]).contains(used),
    decreases selected.len(),
{
    if selected.len() > 0 {
        let before = selected.drop_last();
        law_uses_over_days(days, before, used);
        let early = uses_over(days, before);
        let late = uses_on(days, selected.last());
        let all = early + late;
        if early.contains(used) {
            let k = early.index_of(used);
            assert(all[k] == used);
            let i = choose|i: int|
                0 <= i < before.len() && uses_on(days, #[trigger] before[i]).contains(used);
            assert(selected[i] == before[i]);
        }
        if late.contains(used) {
            let k = late.index_of(used);
            assert(all[early.len() + k] == used);
            assert(selected[selected.len() - 1] == selected.last());
        }
        if all.contains(used) {
            let k = all.index_of(used);
            if k < early.len() {
                assert(early[k] == used);
            } else {
                assert(late[k - early.len()] == used);
            }
        }
        if exists|i: int|
            0 <= i < selected.len() && uses_on(days, #[trigger] selected[i]).contains(used) {
            let i = choose|i: int|
                0 <= i < selected.len() && uses_on(days, #[trigger] selected[i]).contains(used);
            if i < before.len() {
                assert(before[i] == selected[i]);
            }
        }
    }
}

/// What was used on a day is what was recorded of its tabs.
pub proof fn law_uses_on_a_day(days: Days, day: Seq<char>, used: Usage)
    requires
        days.dom().contains(day) ==> days[day].dom().finite(),
    ensures
        uses_on(days, day).contains(used) <==> days.dom().contains(day) && exists|tab_id: Seq<char>|
            #[trigger] days[day].dom().contains(tab_id) && days[day][tab_id] == used,
{
    if days.dom().contains(day) {
        let tabs = days[day];
        text_map::lemma_listing(tabs);
        let list = text_map::listing(tabs);
        let uses = uses_on(days, day);
        if uses.contains(used) {
            let i = uses.index_of(used);
            assert(tabs.dom().contains(list[i].0) && tabs[list[i].0] == used);
        }
        if exists|tab_id: Seq<char>| #[trigger]
            tabs.dom().contains(tab_id) && tabs[tab_id] == used {
            let tab_id = choose|tab_id: Seq<char>| #[trigger]
                tabs.dom().contains(tab_id) && tabs[tab_id] == used;
            let i = choose|i: int| 0 <= i < list.len() && (#[trigger] list[i]).0 == tab_id;
            assert(uses[i] == used);
        }
    }
}

} // verus!
