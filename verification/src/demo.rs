//! Removable calendar data to try the usage view with.
use vstd::prelude::*;
use vstd::string::*;
use crate::calendar;
use crate::calendar::{date_to_day_number, day_number_to_date};
use crate::history;
use crate::lists;
use crate::text;
use crate::text::starts_with;
use crate::text_map;
use crate::text_map::TextMap;
use crate::usage;
use crate::usage::{Days, MAX_DAILY_SECONDS, TabUsage, Tabs, Usage, UsageStore, set_usage};

verus! {

/// What the id of every demo tab begins with.
pub const DEMO_PREFIX: &'static str = "demo:";

/// Days before today that demo data may be put on.
pub const DEMO_SPAN: u64 = 55;

/// Why demo data cannot be written.
#[derive(Clone, Copy, Debug, PartialEq, Eq, Structural)]
pub enum DemoHistoryError {
    InvalidCurrentDate,
}

impl DemoHistoryError {
    /// The error in words.
    pub fn message(self) -> (message: &'static str)
        ensures
            message@ == "invalid current date"@,
    {
        "invalid current date"
    }
}

/// What changing the demo data came to.
pub struct DemoOutcome {
    /// Number of days that were changed.
    pub days: usize,
    /// What the history file is to hold, where it has to be written.
    pub contents: Option<String>,
}

/// Whether a tab holds demo data.
pub open spec fn is_demo(tab_id: Seq<char>) -> bool {
    text::begins_with(tab_id, DEMO_PREFIX@)
}

/// Ids of the demo tabs.
pub open spec fn demo_id(index: int) -> Seq<char> {
    if index == 0 {
        "demo:editor"@
    } else if index == 1 {
        "demo:server"@
    } else if index == 2 {
        "demo:tests"@
    } else {
        "demo:shell"@
    }
}

/// Names of the demo tabs.
pub open spec fn demo_name(index: int) -> Seq<char> {
    if index == 0 {
        "Demo \u{b7} editor"@
    } else if index == 1 {
        "Demo \u{b7} server"@
    } else if index == 2 {
        "Demo \u{b7} tests"@
    } else {
        "Demo \u{b7} shell"@
    }
}

fn demo_tab(index: usize) -> (tab: (&'static str, &'static str))
    ensures
        tab.0@ == demo_id(index as int),
        tab.1@ == demo_name(index as int),
{
    if index == 0 {
        ("demo:editor", "Demo \u{b7} editor")
    } else if index == 1 {
        ("demo:server", "Demo \u{b7} server")
    } else if index == 2 {
        ("demo:tests", "Demo \u{b7} tests")
    } else {
        ("demo:shell", "Demo \u{b7} shell")
    }
}

/// Whether the day that lies `offset` days back gets demo data.
pub open spec fn gets_demo(offset: int) -> bool {
    offset % 5 != 0 && offset % 13 != 0
}

/// How many demo tabs the day that lies `offset` days back gets.
pub open spec fn demo_tab_count(offset: int) -> int {
    1 + offset % 4
}

/// Focused seconds of a demo tab.
pub open spec fn demo_seconds(offset: int, index: int) -> u64 {
    (900 + (offset * 977 + index * 1_597) % 7_200) as u64
}

/// `days` with the first `n` demo tabs of one day.
pub open spec fn with_demo_tabs(days: Days, day: Seq<char>, offset: int, n: int) -> Days
    decreases n,
{
    if n <= 0 {
        days
    } else {
        usage::with_usage(
            with_demo_tabs(days, day, offset, n - 1),
            day,
            demo_id(n - 1),
            (demo_name(n - 1), demo_seconds(offset, n - 1)),
        )
    }
}

/// `days` with the demo data of the `n` days before `today`.
pub open spec fn seeded(days: Days, today: int, n: int) -> Days
    decreases n,
{
    if n <= 0 {
        days
    } else if gets_demo(n) {
        with_demo_tabs(
            seeded(days, today, n - 1),
            calendar::date_text(today - n),
            n,
            demo_tab_count(n),
        )
    } else {
        seeded(days, today, n - 1)
    }
}

/// How many of the `n` days before today get demo data.
pub open spec fn demo_days(n: int) -> int
    decreases n,
{
    if n <= 0 {
        0
    } else {
        demo_days(n - 1) + (if gets_demo(n) {
            1int
        } else {
            0
        })
    }
}

/// Demo data is put on forty days.
pub proof fn law_demo_days()
    ensures
        demo_days(DEMO_SPAN as int) == 40,
{
    reveal_with_fuel(demo_days, 56);
}

/// What is left of a day without its demo tabs.
pub open spec fn real_tabs(tabs: Tabs) -> Tabs {
    Map::new(
        |tab_id: Seq<char>| tabs.dom().contains(tab_id) && !is_demo(tab_id),
        |tab_id: Seq<char>| tabs[tab_id],
    )
}

/// Whether a day has a tab that is no demo.
pub open spec fn has_real_tab(tabs: Tabs) -> bool {
    exists|tab_id: Seq<char>| #[trigger] tabs.dom().contains(tab_id) && !is_demo(tab_id)
}

/// Whether a day has a demo tab.
pub open spec fn has_demo_tab(tabs: Tabs) -> bool {
    exists|tab_id: Seq<char>| #[trigger] tabs.dom().contains(tab_id) && is_demo(tab_id)
}

/// `days` without demo tabs, and without the days that had no others.
pub open spec fn cleared(days: Days) -> Days {
    Map::new(
        |day: Seq<char>| days.dom().contains(day) && has_real_tab(days[day]),
        |day: Seq<char>| real_tabs(days[day]),
    )
}

/// Number of days that have a demo tab.
pub open spec fn days_with_demo(days: Days) -> nat {
    text_map::listing(days).filter(|day: (Seq<char>, Tabs)| has_demo_tab(day.1)).len()
}

/// Whether `made` is what is left of the days from index `n` on.
spec fn cleared_from(made: Days, list: Seq<(Seq<char>, Tabs)>, n: int) -> bool {
    &&& forall|day: Seq<char>| #[trigger]
        made.dom().contains(day) ==> exists|i: int|
            n <= i < list.len() && (#[trigger] list[i]).0 == day && has_real_tab(list[i].1)
    &&& forall|i: int|
        n <= i < list.len() && has_real_tab((#[trigger] list[i]).1) ==> made.dom().contains(list[i].0)
            && made[list[i].0] == real_tabs(list[i].1)
}

/// Whether `made` is what is left of the tabs from index `n` on.
spec fn kept_from(made: Tabs, list: Seq<(Seq<char>, Usage)>, n: int) -> bool {
    &&& forall|tab_id: Seq<char>| #[trigger]
        made.dom().contains(tab_id) ==> exists|i: int|
            n <= i < list.len() && (#[trigger] list[i]).0 == tab_id && !is_demo(tab_id)
    &&& forall|i: int|
        n <= i < list.len() && !is_demo((#[trigger] list[i]).0) ==> made.dom().contains(list[i].0)
            && made[list[i].0] == list[i].1
}

/// The tabs of a day that are no demo, and whether it had others.
fn without_demo_tabs(tabs: TextMap<TabUsage>) -> (parted: (TextMap<TabUsage>, bool))
    ensures
        parted.0@ == real_tabs(tabs@),
        parted.1 == has_demo_tab(tabs@),
{
    let ghost all = tabs@;
    let ghost list = text_map::listing(all);
    let mut entries = tabs.into_entries();
    let mut kept: TextMap<TabUsage> = TextMap::new();
    let mut removed: bool = false;
    while entries.len() > 0
        invariant
            text_map::is_listing(list, all),
            entries@.len() <= list.len(),
            text_map::list_of(entries@) == list.take(entries@.len() as int),
            kept_from(kept@, list, entries@.len() as int),
            removed <==> exists|i: int|
                entries@.len() <= i < list.len() && is_demo((#[trigger] list[i]).0),
        decreases entries@.len(),
    {
        let ghost n = entries@.len() as int;
        let ghost before = entries@;
        let ghost older = kept@;
        let (tab_id, usage) = entries.pop().unwrap();
        proof {
            assert(text_map::list_of(before)[n - 1] == (tab_id@, usage@));
            assert(list[n - 1] == (tab_id@, usage@));
            assert(text_map::list_of(entries@) =~= list.take(n - 1));
        }
        if starts_with(tab_id.as_str(), DEMO_PREFIX) {
            assert(is_demo(list[n - 1].0));
            removed = true;
        } else {
            let ghost id = tab_id@;
            kept.insert(tab_id, usage);
            proof {
                assert forall|i: int|
                    n - 1 <= i < list.len() && !is_demo((#[trigger] list[i]).0) implies kept@.dom().contains(
                    list[i].0,
                ) && kept@[list[i].0] == list[i].1 by {
                    if i >= n && list[i].0 == id {
                        text_map::lemma_keys_differ(list, i, n - 1);
                    }
                }
                assert forall|other: Seq<char>| #[trigger] kept@.dom().contains(other) implies exists|i: int|
                    n - 1 <= i < list.len() && (#[trigger] list[i]).0 == other && !is_demo(other) by {
                    if other == id {
                        assert(list[n - 1].0 == other);
                    } else {
                        assert(older.dom().contains(other));
                    }
                }
            }
        }
    }
    proof {
        assert forall|tab_id: Seq<char>| kept@.dom().contains(tab_id) == real_tabs(
            all,
        ).dom().contains(tab_id) by {
            if kept@.dom().contains(tab_id) {
                let i = choose|i: int|
                    0 <= i < list.len() && (#[trigger] list[i]).0 == tab_id && !is_demo(tab_id);
                assert(all.dom().contains(list[i].0));
            }
            if all.dom().contains(tab_id) && !is_demo(tab_id) {
                let i = choose|i: int| 0 <= i < list.len() && (#[trigger] list[i]).0 == tab_id;
                assert(kept@.dom().contains(list[i].0));
            }
        }
        assert forall|tab_id: Seq<char>| kept@.dom().contains(tab_id) implies kept@[tab_id]
            == all[tab_id] by {
            let i = choose|i: int|
                0 <= i < list.len() && (#[trigger] list[i]).0 == tab_id && !is_demo(tab_id);
            assert(all[list[i].0] == list[i].1);
        }
        assert(kept@ =~= real_tabs(all));
        if removed {
            let i = choose|i: int| 0 <= i < list.len() && is_demo((#[trigger] list[i]).0);
            assert(all.dom().contains(list[i].0));
        }
        if has_demo_tab(all) {
            let tab_id = choose|tab_id: Seq<char>| #[trigger]
                all.dom().contains(tab_id) && is_demo(tab_id);
            let i = choose|i: int| 0 <= i < list.len() && (#[trigger] list[i]).0 == tab_id;
            assert(is_demo(list[i].0));
        }
    }
    (kept, removed)
}

impl UsageStore {
    /// Adds the demo data of the days before `today`.
    pub fn seed_demo(&mut self, today: i64) -> (days: usize)
        requires
            today - DEMO_SPAN >= i64::MIN,
        ensures
            days == 40,
            final(self).days@ == seeded(old(self).days@, today as int, DEMO_SPAN as int),
            final(self).dirty,
    {
        let mut count: usize = 0;
        let mut offset: u64 = 0;
        while offset < DEMO_SPAN
            invariant
                offset <= DEMO_SPAN,
                count <= offset,
                today - DEMO_SPAN >= i64::MIN,
                count == demo_days(offset as int),
                self.days@ == seeded(old(self).days@, today as int, offset as int),
            decreases DEMO_SPAN - offset,
        {
            offset += 1;
            if offset % 5 == 0 || offset % 13 == 0 {
                continue;
            }
            let day = day_number_to_date(today - offset as i64);
            let tab_count: usize = 1 + (offset % 4) as usize;
            let ghost before = self.days@;
            let mut index: usize = 0;
            while index < tab_count
                invariant
                    index <= tab_count <= 4,
                    0 < offset <= DEMO_SPAN,
                    self.days@ == with_demo_tabs(before, day@, offset as int, index as int),
                decreases tab_count - index,
            {
                let (tab_id, name) = demo_tab(index);
                let seconds: u64 = 900 + (offset * 977 + index as u64 * 1_597) % 7_200;
                set_usage(
                    &mut self.days,
                    day.as_str(),
                    tab_id.to_owned(),
                    TabUsage { name: name.to_owned(), seconds },
                );
                index += 1;
            }
            count += 1;
        }
        proof {
            law_demo_days();
        }
        self.dirty = true;
        count
    }

    /// Takes out the demo data, and the days that hold nothing else.
    pub fn clear_demo(&mut self) -> (days: usize)
        ensures
            days == days_with_demo(old(self).days@),
            final(self).days@ == cleared(old(self).days@),
            final(self).dirty == (old(self).dirty || days > 0),
    {
        let mut old_days: TextMap<TextMap<TabUsage>> = TextMap::new();
        std::mem::swap(&mut old_days, &mut self.days);
        let ghost all = old_days@;
        let ghost list = text_map::listing(all);
        let ghost chosen = |day: (Seq<char>, Tabs)| has_demo_tab(day.1);
        let mut entries = old_days.into_entries();
        let total: usize = entries.len();
        let mut count: usize = 0;
        assert(list.skip(list.len() as int) =~= seq![]);
        while entries.len() > 0
            invariant
                text_map::is_listing(list, all),
                entries@.len() <= list.len(),
                text_map::list_of(entries@) == list.take(entries@.len() as int),
                chosen == (|day: (Seq<char>, Tabs)| has_demo_tab(day.1)),
                count == list.skip(entries@.len() as int).filter(chosen).len(),
                count + entries@.len() <= list.len() == total,
                cleared_from(self.days@, list, entries@.len() as int),
                self.dirty == old(self).dirty,
            decreases entries@.len(),
        {
            let ghost n = entries@.len() as int;
            let ghost before = entries@;
            let ghost made = self.days@;
            let (day, tabs) = entries.pop().unwrap();
            let ghost name = day@;
            let ghost held = tabs@;
            proof {
                assert(text_map::list_of(before)[n - 1] == (name, held));
                assert(list[n - 1] == (name, held));
                assert(text_map::list_of(entries@) =~= list.take(n - 1));
                lists::lemma_filter_back(list, n - 1, chosen);
            }
            let (kept, removed) = without_demo_tabs(tabs);
            if removed {
                count += 1;
            }
            let ghost left = kept@;
            let kept_count: usize = kept.len();
            proof {
                let kept_list = text_map::listing(left);
                if kept_count > 0 {
                    assert(left.dom().contains(kept_list[0].0));
                } else if has_real_tab(held) {
                    let tab_id = choose|tab_id: Seq<char>| #[trigger]
                        held.dom().contains(tab_id) && !is_demo(tab_id);
                    assert(left.dom().contains(tab_id));
                }
                assert(has_real_tab(held) == (kept_count > 0));
            }
            if kept_count > 0 {
                self.days.insert(day, kept);
            }
            proof {
                assert forall|i: int|
                    n - 1 <= i < list.len() && has_real_tab((#[trigger] list[i]).1) implies self.days@.dom().contains(
                    list[i].0,
                ) && self.days@[list[i].0] == real_tabs(list[i].1) by {
                    if i >= n && list[i].0 == name {
                        text_map::lemma_keys_differ(list, i, n - 1);
                    }
                }
                assert forall|other: Seq<char>| #[trigger] self.days@.dom().contains(other) implies exists|i: int|
                    n - 1 <= i < list.len() && (#[trigger] list[i]).0 == other && has_real_tab(
                        list[i].1,
                    ) by {
                    if kept_count > 0 && other == name {
                        assert(list[n - 1].0 == other);
                    } else {
                        assert(made.dom().contains(other));
                    }
                }
            }
        }
        proof {
            assert(list.skip(0) =~= list);
            let made = self.days@;
            assert forall|day: Seq<char>| made.dom().contains(day) == cleared(all).dom().contains(
                day,
            ) by {
                if made.dom().contains(day) {
                    let i = choose|i: int|
                        0 <= i < list.len() && (#[trigger] list[i]).0 == day && has_real_tab(list[i].1);
                    assert(all[list[i].0] == list[i].1);
                }
                if all.dom().contains(day) && has_real_tab(all[day]) {
                    let i = choose|i: int| 0 <= i < list.len() && (#[trigger] list[i]).0 == day;
                    assert(all[list[i].0] == list[i].1);
                    assert(made.dom().contains(list[i].0));
                }
            }
            assert forall|day: Seq<char>| made.dom().contains(day) implies made[day] == real_tabs(
                all[day],
            ) by {
                let i = choose|i: int|
                    0 <= i < list.len() && (#[trigger] list[i]).0 == day && has_real_tab(list[i].1);
                assert(all[list[i].0] == list[i].1);
            }
            assert(made =~= cleared(all));
        }
        if count > 0 {
            self.dirty = true;
        }
        count
    }
}

/// What a file records.
pub open spec fn history_in(contents: Option<&str>) -> Days {
    match contents {
        Some(text) => history::read_back(text@),
        None => Map::empty(),
    }
}

/// Whether demo data can be put on the days before a date.
pub open spec fn can_seed(today: Seq<char>) -> bool {
    match calendar::date_number(today) {
        Some(number) => number - DEMO_SPAN >= i64::MIN,
        None => false,
    }
}

/// Adds demo data to a history file, given what it holds, for the days before a
/// date. Where there is no file, nothing is to be written.
pub fn seed_demo_history_at(has_file: bool, contents: Option<&str>, today: &str) -> (outcome: Result<
    DemoOutcome,
    DemoHistoryError,
>)
    ensures
        outcome is Ok <==> can_seed(today@),
        outcome matches Ok(done) ==> {
            &&& done.days == 40
            &&& done.contents is Some <==> has_file
            &&& done.contents matches Some(text) ==> text@ == usage::history_text(
                seeded(
                    history_in(contents),
                    calendar::date_number(today@).unwrap() as int,
                    DEMO_SPAN as int,
                ),
            )
        },
{
    let number: i64 = match date_to_day_number(today) {
        Some(number) => number,
        None => {
            return Err(DemoHistoryError::InvalidCurrentDate);
        },
    };
    if number < i64::MIN + DEMO_SPAN as i64 {
        return Err(DemoHistoryError::InvalidCurrentDate);
    }
    let mut store = UsageStore::load(contents);
    let days: usize = store.seed_demo(number);
    Ok(DemoOutcome { days, contents: store.save(has_file) })
}

/// Adds demo data to a history file for the days before today, or before the
/// first day of 1970 where today is not known.
pub fn seed_demo_history(has_file: bool, contents: Option<&str>, today: Option<&str>) -> (outcome:
    Result<DemoOutcome, DemoHistoryError>)
    ensures
        ({
            let date = match today {
                Some(date) => date@,
                None => "1970-01-01"@,
            };
            &&& outcome is Ok <==> can_seed(date)
            &&& outcome matches Ok(done) ==> {
                &&& done.days == 40
                &&& done.contents is Some <==> has_file
                &&& done.contents matches Some(text) ==> text@ == usage::history_text(
                    seeded(
                        history_in(contents),
                        calendar::date_number(date).unwrap() as int,
                        DEMO_SPAN as int,
                    ),
                )
            }
        }),
{
    match today {
        Some(date) => seed_demo_history_at(has_file, contents, date),
        None => seed_demo_history_at(has_file, contents, "1970-01-01"),
    }
}

/// Takes the demo data out of a history file, given what it holds. A file
/// without any is not written.
pub fn clear_demo_history_at(has_file: bool, contents: Option<&str>) -> (done: DemoOutcome)
    ensures
        done.days == days_with_demo(history_in(contents)),
        done.contents is Some <==> has_file && done.days > 0,
        done.contents matches Some(text) ==> text@ == usage::history_text(
            cleared(history_in(contents)),
        ),
{
    let mut store = UsageStore::load(contents);
    let days: usize = store.clear_demo();
    DemoOutcome { days, contents: store.save(has_file) }
}

/// Every demo tab is known by its id.
proof fn lemma_demo_ids(index: int)
    ensures
        is_demo(demo_id(index)),
{
    reveal_strlit("demo:");
    reveal_strlit("demo:editor");
    reveal_strlit("demo:server");
    reveal_strlit("demo:tests");
    reveal_strlit("demo:shell");
    assert(demo_id(index).take(5) =~= DEMO_PREFIX@);
}

/// Whether two histories record the same of a tab on a day.
pub open spec fn agree_on(one: Days, other: Days, day: Seq<char>, tab_id: Seq<char>) -> bool {
    let a = usage::tabs_on(one, day);
    let b = usage::tabs_on(other, day);
    a.dom().contains(tab_id) == b.dom().contains(tab_id) && (a.dom().contains(tab_id) ==> a[tab_id]
        == b[tab_id])
}

proof fn lemma_demo_tabs_keep_real(
    days: Days,
    day: Seq<char>,
    offset: int,
    n: int,
    other: Seq<char>,
    tab_id: Seq<char>,
)
    requires
        !is_demo(tab_id),
    ensures
        agree_on(with_demo_tabs(days, day, offset, n), days, other, tab_id),
    decreases n,
{
    if n > 0 {
        lemma_demo_tabs_keep_real(days, day, offset, n - 1, other, tab_id);
        lemma_demo_ids(n - 1);
    }
}

/// Demo data leaves every other tab of every day as it was.
pub proof fn law_seeding_keeps_real_usage(
    days: Days,
    today: int,
    n: int,
    day: Seq<char>,
    tab_id: Seq<char>,
)
    requires
        !is_demo(tab_id),
    ensures
        agree_on(seeded(days, today, n), days, day, tab_id),
    decreases n,
{
    if n > 0 {
        law_seeding_keeps_real_usage(days, today, n - 1, day, tab_id);
        if gets_demo(n) {
            lemma_demo_tabs_keep_real(
                seeded(days, today, n - 1),
                calendar::date_text(today - n),
                n,
                demo_tab_count(n),
                day,
                tab_id,
            );
        }
    }
}

/// Clearing leaves every other tab of every day as it was, and no demo tab.
pub proof fn law_clearing_keeps_real_usage(days: Days, day: Seq<char>, tab_id: Seq<char>)
    ensures
        !is_demo(tab_id) ==> agree_on(cleared(days), days, day, tab_id),
        is_demo(tab_id) ==> !usage::tabs_on(cleared(days), day).dom().contains(tab_id),
{
}

/// Clearing takes out all that seeding has put in.
pub proof fn law_clearing_undoes_seeding(days: Days, today: int, n: int)
    ensures
        cleared(seeded(days, today, n)) == cleared(days),
{
    let grown = seeded(days, today, n);
    assert forall|day: Seq<char>| #[trigger]
        cleared(grown).dom().contains(day) == cleared(days).dom().contains(day) by {
        if cleared(grown).dom().contains(day) {
            let tab_id = choose|tab_id: Seq<char>| #[trigger]
                grown[day].dom().contains(tab_id) && !is_demo(tab_id);
            law_seeding_keeps_real_usage(days, today, n, day, tab_id);
            assert(days[day].dom().contains(tab_id));
        }
        if cleared(days).dom().contains(day) {
            let tab_id = choose|tab_id: Seq<char>| #[trigger]
                days[day].dom().contains(tab_id) && !is_demo(tab_id);
            law_seeding_keeps_real_usage(days, today, n, day, tab_id);
            assert(grown[day].dom().contains(tab_id));
        }
    }
    assert forall|day: Seq<char>| #[trigger] cleared(days).dom().contains(day) implies cleared(
        grown,
    )[day] == cleared(days)[day] by {
        assert(cleared(grown).dom().contains(day));
        let a = real_tabs(grown[day]);
        let b = real_tabs(days[day]);
        assert forall|tab_id: Seq<char>| #[trigger]
            a.dom().contains(tab_id) == b.dom().contains(tab_id) by {
            if !is_demo(tab_id) {
                law_seeding_keeps_real_usage(days, today, n, day, tab_id);
            }
        }
        assert forall|tab_id: Seq<char>| #[trigger] a.dom().contains(tab_id) implies a[tab_id]
            == b[tab_id] by {
            law_seeding_keeps_real_usage(days, today, n, day, tab_id);
        }
        assert(a =~= b);
    }
    assert(cleared(grown) =~= cleared(days));
}

/// Adding a demo tab leaves a clean history clean.
proof fn lemma_demo_tabs_keep_clean(days: Days, number: int, offset: int, n: int)
    requires
        history::is_clean_history(days),
    ensures
        history::is_clean_history(with_demo_tabs(days, calendar::date_text(number), offset, n)),
    decreases n,
{
    if n > 0 {
        let day = calendar::date_text(number);
        lemma_demo_tabs_keep_clean(days, number, offset, n - 1);
        lemma_demo_fields(number, n - 1);
        history::lemma_clean_usage(
            with_demo_tabs(days, day, offset, n - 1),
            (day, demo_id(n - 1), (demo_name(n - 1), demo_seconds(offset, n - 1))),
        );
    }
}

/// Nothing that demo data is written with needs cleaning.
proof fn lemma_demo_fields(number: int, index: int)
    ensures
        usage::is_clean(calendar::date_text(number)),
        usage::is_clean(demo_id(index)),
        usage::is_clean(demo_name(index)),
{
    let day = calendar::date_text(number);
    assert forall|i: int| 0 <= i < day.len() implies #[trigger] day[i] != '\t' && day[i] != '\n'
        && day[i] != '\r' by {
        calendar::lemma_date_chars(number, i);
    }
    reveal_strlit("demo:editor");
    reveal_strlit("demo:server");
    reveal_strlit("demo:tests");
    reveal_strlit("demo:shell");
    reveal_strlit("Demo \u{b7} editor");
    reveal_strlit("Demo \u{b7} server");
    reveal_strlit("Demo \u{b7} tests");
    reveal_strlit("Demo \u{b7} shell");
}

/// A clean history stays clean when demo data is added.
pub proof fn law_seeding_keeps_clean(days: Days, today: int, n: int)
    requires
        history::is_clean_history(days),
    ensures
        history::is_clean_history(seeded(days, today, n)),
    decreases n,
{
    if n > 0 {
        law_seeding_keeps_clean(days, today, n - 1);
        if gets_demo(n) {
            lemma_demo_tabs_keep_clean(seeded(days, today, n - 1), today - n, n, demo_tab_count(n));
        }
    }
}

proof fn lemma_demo_tabs_keep_history(days: Days, day: Seq<char>, offset: int, n: int)
    requires
        history::is_history(days),
    ensures
        history::is_history(with_demo_tabs(days, day, offset, n)),
    decreases n,
{
    if n > 0 {
        lemma_demo_tabs_keep_history(days, day, offset, n - 1);
        history::law_usage_keeps_history(
            with_demo_tabs(days, day, offset, n - 1),
            day,
            demo_id(n - 1),
            (demo_name(n - 1), demo_seconds(offset, n - 1)),
        );
    }
}

/// A history stays one when demo data is added.
pub proof fn law_seeding_keeps_history(days: Days, today: int, n: int)
    requires
        history::is_history(days),
    ensures
        history::is_history(seeded(days, today, n)),
    decreases n,
{
    if n > 0 {
        law_seeding_keeps_history(days, today, n - 1);
        if gets_demo(n) {
            lemma_demo_tabs_keep_history(
                seeded(days, today, n - 1),
                calendar::date_text(today - n),
                n,
                demo_tab_count(n),
            );
        }
    }
}

/// A history stays one when demo data is taken out.
pub proof fn law_clearing_keeps_history(days: Days)
    requires
        history::is_history(days),
    ensures
        history::is_history(cleared(days)),
{
    let left = cleared(days);
    assert(left.dom().subset_of(days.dom()));
    vstd::set_lib::lemma_len_subset(left.dom(), days.dom());
    assert forall|day: Seq<char>| #[trigger] left.dom().contains(day) implies left[day].dom().finite()
        && left[day].dom().len() > 0 by {
        assert(days.dom().contains(day));
        assert(left[day].dom().subset_of(days[day].dom()));
        vstd::set_lib::lemma_len_subset(left[day].dom(), days[day].dom());
        let tab_id = choose|tab_id: Seq<char>| #[trigger]
            days[day].dom().contains(tab_id) && !is_demo(tab_id);
        assert(left[day].dom().contains(tab_id));
        if left[day].dom().len() == 0 {
            assert(left[day].dom() =~= Set::empty());
        }
    }
    assert forall|day: Seq<char>, tab_id: Seq<char>|
        left.dom().contains(day) && #[trigger] left[day].dom().contains(tab_id) implies left[day][tab_id].1
        <= MAX_DAILY_SECONDS by {
        assert(days.dom().contains(day) && days[day].dom().contains(tab_id));
    }
}

/// Whether no tab of a history holds demo data.
pub open spec fn is_without_demo(days: Days) -> bool {
    forall|day: Seq<char>, tab_id: Seq<char>|
        days.dom().contains(day) && #[trigger] days[day].dom().contains(tab_id) ==> !is_demo(tab_id)
}

/// The dates of the `n` days before `today` that get demo data.
spec fn demo_dates(today: int, n: int) -> Set<Seq<char>>
    decreases n,
{
    if n <= 0 {
        Set::empty()
    } else if gets_demo(n) {
        demo_dates(today, n - 1).insert(calendar::date_text(today - n))
    } else {
        demo_dates(today, n - 1)
    }
}

/// Demo data is put on as many dates as there are days for it: no two days share
/// a date.
proof fn lemma_demo_dates(today: int, n: int)
    ensures
        demo_dates(today, n).finite(),
        demo_dates(today, n).len() == demo_days(n),
        forall|later: int| n < later ==> !demo_dates(today, n).contains(
            #[trigger] calendar::date_text(today - later),
        ),
    decreases n,
{
    if n > 0 {
        lemma_demo_dates(today, n - 1);
        assert(!demo_dates(today, n - 1).contains(calendar::date_text(today - n)));
        assert forall|later: int| n < later implies !demo_dates(today, n).contains(
            #[trigger] calendar::date_text(today - later),
        ) by {
            calendar::law_dates_differ(today - n, today - later);
        }
    }
}

/// Demo tabs change one day only, and leave it with a demo tab.
proof fn lemma_demo_tabs_on_one_day(days: Days, day: Seq<char>, offset: int, n: int)
    requires
        n > 0,
    ensures
        ({
            let grown = with_demo_tabs(days, day, offset, n);
            &&& grown.dom() == days.dom().insert(day)
            &&& has_demo_tab(grown[day])
            &&& forall|other: Seq<char>| other != day && days.dom().contains(other) ==> #[trigger]
                grown[other] == days[other]
        }),
    decreases n,
{
    lemma_demo_ids(n - 1);
    if n > 1 {
        lemma_demo_tabs_on_one_day(days, day, offset, n - 1);
    }
    let grown = with_demo_tabs(days, day, offset, n);
    assert(grown == usage::with_usage(
        with_demo_tabs(days, day, offset, n - 1),
        day,
        demo_id(n - 1),
        (demo_name(n - 1), demo_seconds(offset, n - 1)),
    ));
    assert(grown[day].dom().contains(demo_id(n - 1)));
    assert(grown.dom() =~= days.dom().insert(day));
}

/// The days with demo data are those that it was put on.
proof fn lemma_seeded_days(days: Days, today: int, n: int)
    requires
        days.dom().finite(),
        is_without_demo(days),
    ensures
        seeded(days, today, n).dom().finite(),
        forall|day: Seq<char>| #[trigger]
            demo_dates(today, n).contains(day) <==> seeded(days, today, n).dom().contains(day)
                && has_demo_tab(seeded(days, today, n)[day]),
    decreases n,
{
    let dates = demo_dates(today, n);
    let grown = seeded(days, today, n);
    if n <= 0 {
        assert forall|day: Seq<char>| #[trigger] dates.contains(day) <==> grown.dom().contains(day)
            && has_demo_tab(grown[day]) by {
            if days.dom().contains(day) && has_demo_tab(days[day]) {
                let tab_id = choose|tab_id: Seq<char>| #[trigger]
                    days[day].dom().contains(tab_id) && is_demo(tab_id);
                assert(days[day].dom().contains(tab_id));
            }
        }
    } else {
        lemma_seeded_days(days, today, n - 1);
        if gets_demo(n) {
            let date = calendar::date_text(today - n);
            let before = seeded(days, today, n - 1);
            lemma_demo_tabs_on_one_day(before, date, n, demo_tab_count(n));
            assert forall|day: Seq<char>| #[trigger]
                dates.contains(day) <==> grown.dom().contains(day) && has_demo_tab(grown[day]) by {
                assert(demo_dates(today, n - 1).contains(day) <==> before.dom().contains(day)
                    && has_demo_tab(before[day]));
                if day != date && before.dom().contains(day) {
                    assert(grown[day] == before[day]);
                }
            }
        } else {
            assert(dates == demo_dates(today, n - 1));
            assert(grown == seeded(days, today, n - 1));
        }
    }
}

/// The keys among the first `n` entries whose days have a demo tab.
spec fn demo_keys(list: Seq<(Seq<char>, Tabs)>, n: int) -> Set<Seq<char>>
    decreases n,
{
    if n <= 0 {
        Set::empty()
    } else if has_demo_tab(list[n - 1].1) {
        demo_keys(list, n - 1).insert(list[n - 1].0)
    } else {
        demo_keys(list, n - 1)
    }
}

proof fn lemma_demo_keys(list: Seq<(Seq<char>, Tabs)>, n: int)
    requires
        text_map::is_ascending(list),
        0 <= n <= list.len(),
    ensures
        demo_keys(list, n).finite(),
        demo_keys(list, n).len() == list.take(n).filter(
            |day: (Seq<char>, Tabs)| has_demo_tab(day.1),
        ).len(),
        forall|key: Seq<char>| #[trigger]
            demo_keys(list, n).contains(key) <==> exists|i: int|
                0 <= i < n && (#[trigger] list[i]).0 == key && has_demo_tab(list[i].1),
    decreases n,
{
    let chosen = |day: (Seq<char>, Tabs)| has_demo_tab(day.1);
    if n == 0 {
        lists::lemma_filter_none(list, chosen);
    } else {
        lemma_demo_keys(list, n - 1);
        lists::lemma_filter_next(list, n - 1, chosen);
        let before = demo_keys(list, n - 1);
        if before.contains(list[n - 1].0) {
            let i = choose|i: int|
                0 <= i < n - 1 && (#[trigger] list[i]).0 == list[n - 1].0 && has_demo_tab(list[i].1);
            text_map::lemma_keys_differ(list, i, n - 1);
        }
        assert forall|key: Seq<char>| #[trigger]
            demo_keys(list, n).contains(key) <==> exists|i: int|
                0 <= i < n && (#[trigger] list[i]).0 == key && has_demo_tab(list[i].1) by {
            if has_demo_tab(list[n - 1].1) && key == list[n - 1].0 {
                assert(demo_keys(list, n).contains(key));
            }
        }
    }
}

/// The number of days with demo data is the size of their set.
proof fn lemma_days_with_demo(days: Days, found: Set<Seq<char>>)
    requires
        days.dom().finite(),
        forall|day: Seq<char>| #[trigger]
            found.contains(day) <==> days.dom().contains(day) && has_demo_tab(days[day]),
    ensures
        days_with_demo(days) == found.len(),
{
    text_map::lemma_listing(days);
    let list = text_map::listing(days);
    lemma_demo_keys(list, list.len() as int);
    lists::lemma_filter_none(list, |day: (Seq<char>, Tabs)| has_demo_tab(day.1));
    assert forall|day: Seq<char>| demo_keys(list, list.len() as int).contains(day) == found.contains(
        day,
    ) by {
        if found.contains(day) {
            let i = choose|i: int| 0 <= i < list.len() && (#[trigger] list[i]).0 == day;
            assert(has_demo_tab(list[i].1));
        }
    }
    assert(demo_keys(list, list.len() as int) =~= found);
}

/// In a history without demo data, as many days have demo data after seeding as
/// seeding counts.
pub proof fn law_seeded_days_are_counted(days: Days, today: int, n: int)
    requires
        days.dom().finite(),
        is_without_demo(days),
    ensures
        days_with_demo(seeded(days, today, n)) == demo_days(n),
{
    lemma_demo_dates(today, n);
    lemma_seeded_days(days, today, n);
    lemma_days_with_demo(seeded(days, today, n), demo_dates(today, n));
}

/// After clearing no demo data is left, and clearing again finds none.
pub proof fn law_clearing_leaves_no_demo(days: Days)
    requires
        days.dom().finite(),
    ensures
        is_without_demo(cleared(days)),
        days_with_demo(cleared(days)) == 0,
        cleared(cleared(days)) == cleared(days),
{
    let left = cleared(days);
    assert(left.dom().subset_of(days.dom()));
    vstd::set_lib::lemma_len_subset(left.dom(), days.dom());
    lemma_days_with_demo(left, Set::empty());
    assert forall|day: Seq<char>| #[trigger] left.dom().contains(day) implies has_real_tab(left[day])
        && real_tabs(left[day]) == left[day] by {
        let tab_id = choose|tab_id: Seq<char>| #[trigger]
            days[day].dom().contains(tab_id) && !is_demo(tab_id);
        assert(left[day].dom().contains(tab_id));
        assert(real_tabs(left[day]) =~= left[day]);
    }
    assert(cleared(left) =~= left);
}

/// Clearing a history without demo data changes nothing.
pub proof fn law_clearing_nothing(days: Days)
    requires
        history::is_history(days),
        is_without_demo(days),
    ensures
        cleared(days) == days,
{
    assert forall|day: Seq<char>| #[trigger] days.dom().contains(day) implies has_real_tab(days[day])
        && real_tabs(days[day]) == days[day] by {
        let tab_id = days[day].dom().choose();
        assert(days[day].dom().contains(tab_id));
        assert(real_tabs(days[day]) =~= days[day]);
    }
    assert(cleared(days) =~= days);
}

/// A file without demo data, whose fields need no cleaning, can be seeded and
/// cleared: clearing finds as many days as seeding counted, leaves a file that
/// records what the first one did, and finds nothing the second time.
pub proof fn law_demo_comes_and_goes(contents: Option<&str>, today: int)
    requires
        history::is_clean_history(history_in(contents)),
        is_without_demo(history_in(contents)),
    ensures
        ({
            let days = history_in(contents);
            let full = usage::history_text(seeded(days, today, DEMO_SPAN as int));
            let empty = usage::history_text(cleared(history::read_back(full)));
            &&& days_with_demo(history::read_back(full)) == demo_days(DEMO_SPAN as int) == 40
            &&& history::read_back(empty) == days
            &&& days_with_demo(history::read_back(empty)) == 0
        }),
{
    let days = history_in(contents);
    match contents {
        Some(text) => {
            history::law_rows_make_history(text::lines_of(text@));
        },
        None => {},
    }
    assert(history::is_history(days));
    let n = DEMO_SPAN as int;
    law_demo_days();
    law_seeding_keeps_history(days, today, n);
    law_seeding_keeps_clean(days, today, n);
    history::law_clean_history_survives(seeded(days, today, n));
    law_seeded_days_are_counted(days, today, n);
    law_clearing_undoes_seeding(days, today, n);
    law_clearing_nothing(days);
    history::law_clean_history_survives(days);
    law_clearing_leaves_no_demo(days);
}

/// What the demo adds: on each of the days before today, but those whose distance
/// is a multiple of five or of thirteen, a quarter of an hour to two hours and a
/// quarter for the first one to four of its tabs. Its other tabs, and all other
/// days, stay as they were.
pub proof fn law_what_the_demo_adds(days: Days, today: int, n: int, k: int, index: int)
    requires
        0 <= index < 4,
        k <= n,
    ensures
        ({
            let day = calendar::date_text(today - k);
            let tabs = usage::tabs_on(seeded(days, today, n), day);
            let names = seq![
                ("demo:editor"@, "Demo \u{b7} editor"@),
                ("demo:server"@, "Demo \u{b7} server"@),
                ("demo:tests"@, "Demo \u{b7} tests"@),
                ("demo:shell"@, "Demo \u{b7} shell"@),
            ];
            let (tab_id, name) = names[index];
            if 1 <= k && k % 5 != 0 && k % 13 != 0 && index <= k % 4 {
                &&& tabs.dom().contains(tab_id)
                &&& tabs[tab_id].0 == name
                &&& tabs[tab_id].1 == 900 + (k * 977 + index * 1_597) % 7_200
                &&& 900 <= tabs[tab_id].1 < 8_100
            } else {
                agree_on(seeded(days, today, n), days, day, tab_id)
            }
        }),
    decreases n,
{
    if n > 0 {
        if k < n {
            law_what_the_demo_adds(days, today, n - 1, k, index);
        } else {
            lemma_later_days_untouched(days, today, n - 1, k, index);
        }
        let before = seeded(days, today, n - 1);
        if k != n {
            calendar::law_dates_differ(today - k, today - n);
        }
        if n % 5 != 0 && n % 13 != 0 {
            lemma_demo_tabs_added(
                before,
                calendar::date_text(today - n),
                n,
                1 + n % 4,
                calendar::date_text(today - k),
                index,
            );
        }
    }
}

/// Seeding the last few days leaves those before them alone.
proof fn lemma_later_days_untouched(days: Days, today: int, n: int, k: int, index: int)
    requires
        k > n,
        0 <= index < 4,
    ensures
        agree_on(
            seeded(days, today, n),
            days,
            calendar::date_text(today - k),
            demo_id(index),
        ),
    decreases n,
{
    if n > 0 {
        lemma_later_days_untouched(days, today, n - 1, k, index);
        calendar::law_dates_differ(today - k, today - n);
        if gets_demo(n) {
            lemma_demo_tabs_added(
                seeded(days, today, n - 1),
                calendar::date_text(today - n),
                n,
                demo_tab_count(n),
                calendar::date_text(today - k),
                index,
            );
        }
    }
}

/// The tabs that are added on one day.
proof fn lemma_demo_tabs_added(
    days: Days,
    day: Seq<char>,
    offset: int,
    n: int,
    other: Seq<char>,
    index: int,
)
    requires
        0 <= n <= 4,
        0 <= index < 4,
    ensures
        ({
            let grown = with_demo_tabs(days, day, offset, n);
            if other == day && index < n {
                usage::tabs_on(grown, day).dom().contains(demo_id(index)) && usage::tabs_on(
                    grown,
                    day,
                )[demo_id(index)] == (demo_name(index), demo_seconds(offset, index))
            } else {
                agree_on(grown, days, other, demo_id(index))
            }
        }),
    decreases n,
{
    if n > 0 {
        lemma_demo_tabs_added(days, day, offset, n - 1, other, index);
        if index != n - 1 {
            lemma_demo_ids_differ(index, n - 1);
        }
    }
}

/// No two tabs of the demo have one id.
proof fn lemma_demo_ids_differ(one: int, other: int)
    requires
        0 <= one < 4,
        0 <= other < 4,
        one != other,
    ensures
        demo_id(one) != demo_id(other),
{
    reveal_strlit("demo:editor");
    reveal_strlit("demo:server");
    reveal_strlit("demo:tests");
    reveal_strlit("demo:shell");
    assert("demo:editor"@[5] == 'e' && "demo:server"@[5] == 's' && "demo:tests"@[5] == 't'
        && "demo:shell"@[5] == 's');
    assert("demo:server"@[6] == 'e' && "demo:shell"@[6] == 'h');
}

} // verus!
