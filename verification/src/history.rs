//! What the usage history keeps to, and what its file gives back.
use vstd::prelude::*;
use crate::number;
use crate::text;
use crate::text_map;
use crate::usage;
use crate::usage::{Days, MAX_DAILY_SECONDS, Tabs, Usage};

verus! {

/// What holds of every history: finitely many days, none without a tab, and no
/// tab focused for more than a day.
pub open spec fn is_history(days: Days) -> bool {
    &&& days.dom().finite()
    &&& forall|day: Seq<char>| #[trigger]
        days.dom().contains(day) ==> days[day].dom().finite() && days[day].dom().len() > 0
    &&& forall|day: Seq<char>, tab_id: Seq<char>|
        days.dom().contains(day) && #[trigger] days[day].dom().contains(tab_id)
            ==> days[day][tab_id].1 <= MAX_DAILY_SECONDS
}

/// A history stays one when a tab is given at most a day of focused time.
pub proof fn law_usage_keeps_history(days: Days, day: Seq<char>, tab_id: Seq<char>, usage: Usage)
    requires
        is_history(days),
        usage.1 <= MAX_DAILY_SECONDS,
    ensures
        is_history(usage::with_usage(days, day, tab_id, usage)),
{
    let grown = usage::with_usage(days, day, tab_id, usage);
    assert forall|other: Seq<char>| #[trigger] grown.dom().contains(other) implies grown[other].dom().finite()
        && grown[other].dom().len() > 0 by {
        if other == day {
            let tabs = usage::tabs_on(days, day);
            assert(tabs.dom().finite());
            assert(grown[day].dom() =~= tabs.dom().insert(tab_id));
        } else {
            assert(days.dom().contains(other));
        }
    }
    assert forall|other: Seq<char>, id: Seq<char>|
        grown.dom().contains(other) && #[trigger] grown[other].dom().contains(id) implies grown[other][id].1
        <= MAX_DAILY_SECONDS by {
        if other == day {
            if id != tab_id {
                assert(days.dom().contains(day) && days[day].dom().contains(id));
            }
        } else {
            assert(days.dom().contains(other) && days[other].dom().contains(id));
        }
    }
}

/// Whatever the rows of a file, they make a history.
pub proof fn law_rows_make_history(rows: Seq<Seq<char>>)
    ensures
        is_history(usage::history_of(rows)),
    decreases rows.len(),
{
    if rows.len() > 0 {
        law_rows_make_history(rows.drop_last());
        match usage::row_of(rows.last()) {
            Some((day, tab_id, usage)) => {
                law_usage_keeps_history(usage::history_of(rows.drop_last()), day, tab_id, usage);
            },
            None => {},
        }
    }
}

/// One recorded usage: day, tab id and usage.
pub type Entry = (Seq<char>, Seq<char>, (Seq<char>, u64));

/// The entries of one day.
pub open spec fn day_entries(day: Seq<char>, tabs: Seq<(Seq<char>, Usage)>) -> Seq<Entry> {
    tabs.map_values(|tab: (Seq<char>, Usage)| (day, tab.0, tab.1))
}

/// The entries of some days.
pub open spec fn days_entries(days: Seq<(Seq<char>, Tabs)>) -> Seq<Entry>
    decreases days.len(),
{
    if days.len() == 0 {
        seq![]
    } else {
        days_entries(days.drop_last()) + day_entries(
            days.last().0,
            text_map::listing(days.last().1),
        )
    }
}

/// Everything that a history records, in the order of the days and tab ids.
pub open spec fn entries(days: Days) -> Seq<Entry> {
    days_entries(text_map::listing(days))
}

/// What is left of an entry once it has been written and read.
pub open spec fn as_read(entry: Entry) -> Entry {
    (
        usage::cleaned(entry.0),
        usage::cleaned(entry.1),
        (usage::cleaned(entry.2.0), usage::within_a_day(entry.2.1 as int)),
    )
}

/// `days` with some entries recorded, one after the other.
pub open spec fn recorded(days: Days, list: Seq<Entry>) -> Days
    decreases list.len(),
{
    if list.len() == 0 {
        days
    } else {
        let entry = list.last();
        usage::with_usage(recorded(days, list.drop_last()), entry.0, entry.1, entry.2)
    }
}

/// The history that the contents of a file record.
pub open spec fn read_back(contents: Seq<char>) -> Days {
    usage::history_of(text::lines_of(contents))
}

/// Text that ends its last line, if it has any line.
spec fn ends_its_line(s: Seq<char>) -> bool {
    s.len() == 0 || s.last() == '\n'
}

/// A line appended to whole lines is one more line.
proof fn lemma_line_appended(s: Seq<char>, line: Seq<char>)
    requires
        ends_its_line(s),
        forall|i: int| 0 <= i < line.len() ==> line[i] != '\n',
        line.len() > 0 ==> line.last() != '\r',
    ensures
        text::lines_of(s + line + seq!['\n']) == text::lines_of(s).push(line),
    decreases s.len(),
{
    let whole = s + line + seq!['\n'];
    if s.len() == 0 {
        text::lemma_find_is(whole, '\n', line.len() as int);
        assert(whole.take(line.len() as int) =~= line);
        assert(whole.skip(line.len() as int + 1) =~= seq![]);
        assert(text::lines_of(whole.skip(line.len() as int + 1)) =~= seq![]);
        assert(text::lines_of(whole) =~= seq![line]);
        assert(text::lines_of(s) =~= seq![]);
    } else {
        text::lemma_find(s, '\n');
        let at = text::find(s, '\n');
        assert(at < s.len()) by {
            assert(s[s.len() - 1] == '\n');
        }
        assert forall|i: int| 0 <= i < at implies whole[i] != '\n' by {
            assert(whole[i] == s[i]);
        }
        assert(whole[at] == s[at]);
        text::lemma_find_is(whole, '\n', at);
        let tail = s.skip(at + 1);
        assert(whole.take(at) =~= s.take(at));
        assert(whole.skip(at + 1) =~= tail + line + seq!['\n']);
        assert(ends_its_line(tail)) by {
            if tail.len() > 0 {
                assert(tail.last() == s.last());
            }
        }
        lemma_line_appended(tail, line);
        let first = seq![text::without_return(s.take(at))];
        assert(first + text::lines_of(tail).push(line) =~= (first + text::lines_of(tail)).push(line));
    }
}

/// Splitting at a separator behind text that has none gives that text first.
pub proof fn lemma_first_piece(head: Seq<char>, rest: Seq<char>, separator: char, limit: nat)
    requires
        limit > 1,
        forall|i: int| 0 <= i < head.len() ==> head[i] != separator,
    ensures
        text::pieces_up_to(head + seq![separator] + rest, separator, limit) == seq![head]
            + text::pieces_up_to(rest, separator, (limit - 1) as nat),
{
    let whole = head + seq![separator] + rest;
    text::lemma_find_is(whole, separator, head.len() as int);
    assert(whole.take(head.len() as int) =~= head);
    assert(whole.skip(head.len() as int + 1) =~= rest);
}

/// The row of an entry without the end of its line.
spec fn row_line(entry: Entry) -> Seq<char> {
    usage::cleaned(entry.0) + seq!['\t'] + (usage::cleaned(entry.1) + seq!['\t'] + (number::decimal(
        entry.2.1 as nat,
    ) + seq!['\t'] + usage::cleaned(entry.2.0)))
}

proof fn lemma_row_line(entry: Entry)
    ensures
        usage::row_text(entry.0, entry.1, entry.2) == row_line(entry) + seq!['\n'],
        usage::row_of(row_line(entry)) == Some(as_read(entry)),
        usage::is_clean(number::decimal(entry.2.1 as nat)),
        forall|i: int| 0 <= i < row_line(entry).len() ==> row_line(entry)[i] != '\n',
        row_line(entry).len() > 0 ==> row_line(entry).last() != '\r',
{
    reveal_strlit("\t");
    reveal_strlit("\n");
    assert("\t"@ =~= seq!['\t']);
    assert("\n"@ =~= seq!['\n']);
    let day = usage::cleaned(entry.0);
    let id = usage::cleaned(entry.1);
    let digits = number::decimal(entry.2.1 as nat);
    let name = usage::cleaned(entry.2.0);
    usage::law_cleaned(entry.0);
    usage::law_cleaned(entry.1);
    usage::law_cleaned(entry.2.0);
    number::lemma_decimal(entry.2.1 as nat);
    assert forall|i: int| 0 <= i < digits.len() implies #[trigger] digits[i] != '\t' && digits[i]
        != '\n' && digits[i] != '\r' by {
        assert(number::is_digit(digits[i]));
    }
    assert(usage::row_text(entry.0, entry.1, entry.2) =~= row_line(entry) + seq!['\n']);
    let after_digits = digits + seq!['\t'] + name;
    let after_id = id + seq!['\t'] + after_digits;
    lemma_first_piece(day, after_id, '\t', 4);
    lemma_first_piece(id, after_digits, '\t', 3);
    lemma_first_piece(digits, name, '\t', 2);
    assert(text::pieces_up_to(name, '\t', 1) =~= seq![name]);
    assert(text::pieces_up_to(row_line(entry), '\t', 4) =~= seq![day, id, digits, name]);
    assert(number::u64_of(digits) == Some(entry.2.1));
    let line = row_line(entry);
    assert forall|i: int| 0 <= i < line.len() implies line[i] != '\n' by {
        let a = day.len();
        let b = a + 1 + id.len();
        let c = b + 1 + digits.len();
        if i < a {
            assert(line[i] == day[i]);
        } else if a < i < b {
            assert(line[i] == id[i - a - 1]);
        } else if b < i < c {
            assert(line[i] == digits[i - b - 1]);
        } else if c < i {
            assert(line[i] == name[i - c - 1]);
        }
    }
    assert(line.last() != '\r') by {
        if name.len() > 0 {
            assert(line.last() == name.last());
        } else {
            assert(line.last() == '\t');
        }
    }
}

/// A row appended to a file records its entry last.
proof fn lemma_row_appended(contents: Seq<char>, entry: Entry)
    requires
        ends_its_line(contents),
    ensures
        ({
            let grown = contents + usage::row_text(entry.0, entry.1, entry.2);
            let read = as_read(entry);
            &&& ends_its_line(grown)
            &&& read_back(grown) == usage::with_usage(read_back(contents), read.0, read.1, read.2)
        }),
{
    lemma_row_line(entry);
    let line = row_line(entry);
    lemma_line_appended(contents, line);
    let grown = contents + usage::row_text(entry.0, entry.1, entry.2);
    assert(grown =~= contents + line + seq!['\n']);
    let lines = text::lines_of(contents);
    assert(lines.push(line).drop_last() =~= lines);
}

proof fn lemma_day_appended(contents: Seq<char>, day: Seq<char>, tabs: Seq<(Seq<char>, Usage)>)
    requires
        ends_its_line(contents),
    ensures
        ends_its_line(contents + usage::day_text(day, tabs)),
        read_back(contents + usage::day_text(day, tabs)) == recorded(
            read_back(contents),
            day_entries(day, tabs).map_values(|entry: Entry| as_read(entry)),
        ),
    decreases tabs.len(),
{
    let list = day_entries(day, tabs).map_values(|entry: Entry| as_read(entry));
    if tabs.len() == 0 {
        assert(contents + usage::day_text(day, tabs) =~= contents);
    } else {
        let before = tabs.drop_last();
        lemma_day_appended(contents, day, before);
        let entry = (day, tabs.last().0, tabs.last().1);
        let written = contents + usage::day_text(day, before);
        lemma_row_appended(written, entry);
        assert(contents + usage::day_text(day, tabs) =~= written + usage::row_text(
            entry.0,
            entry.1,
            entry.2,
        ));
        assert(list.drop_last() =~= day_entries(day, before).map_values(
            |entry: Entry| as_read(entry),
        ));
        assert(list.last() == as_read(entry));
    }
}

proof fn lemma_recorded_in_turn(days: Days, one: Seq<Entry>, other: Seq<Entry>)
    ensures
        recorded(days, one + other) == recorded(recorded(days, one), other),
    decreases other.len(),
{
    if other.len() == 0 {
        assert(one + other =~= one);
    } else {
        lemma_recorded_in_turn(days, one, other.drop_last());
        assert((one + other).drop_last() =~= one + other.drop_last());
    }
}

proof fn lemma_days_written(list: Seq<(Seq<char>, Tabs)>)
    ensures
        ends_its_line(usage::days_text(list)),
        read_back(usage::days_text(list)) == recorded(
            Map::empty(),
            days_entries(list).map_values(|entry: Entry| as_read(entry)),
        ),
    decreases list.len(),
{
    if list.len() == 0 {
        assert(text::lines_of(usage::days_text(list)) =~= seq![]);
        assert(days_entries(list).map_values(|entry: Entry| as_read(entry)) =~= seq![]);
    } else {
        let before = list.drop_last();
        let day = list.last().0;
        let tabs = text_map::listing(list.last().1);
        lemma_days_written(before);
        lemma_day_appended(usage::days_text(before), day, tabs);
        let one = days_entries(before).map_values(|entry: Entry| as_read(entry));
        let other = day_entries(day, tabs).map_values(|entry: Entry| as_read(entry));
        lemma_recorded_in_turn(Map::empty(), one, other);
        assert(days_entries(list).map_values(|entry: Entry| as_read(entry)) =~= one + other);
    }
}

/// Reading a written history gives what its entries record, each with blanks in
/// place of tabs and line ends, in the order in which they were written.
pub proof fn law_reading_what_was_written(days: Days)
    ensures
        read_back(usage::history_text(days)) == recorded(
            Map::empty(),
            entries(days).map_values(|entry: Entry| as_read(entry)),
        ),
{
    lemma_days_written(text_map::listing(days));
}

/// Whether an entry is recorded in a history.
pub open spec fn records(days: Days, entry: Entry) -> bool {
    &&& days.dom().contains(entry.0)
    &&& days[entry.0].dom().contains(entry.1)
    &&& days[entry.0][entry.1] == entry.2
}

proof fn lemma_day_entries(days: Days, list: Seq<(Seq<char>, Tabs)>)
    requires
        forall|day: Seq<char>| #[trigger] days.dom().contains(day) ==> days[day].dom().finite(),
        forall|i: int|
            0 <= i < list.len() ==> days.dom().contains((#[trigger] list[i]).0) && days[list[i].0]
                == list[i].1,
    ensures
        forall|k: int|
            0 <= k < days_entries(list).len() ==> records(days, #[trigger] days_entries(list)[k]),
        forall|i: int, tab_id: Seq<char>|
            0 <= i < list.len() && #[trigger] (list[i]).1.dom().contains(tab_id)
                ==> days_entries(list).contains((list[i].0, tab_id, list[i].1[tab_id])),
    decreases list.len(),
{
    if list.len() > 0 {
        let before = list.drop_last();
        assert forall|i: int| 0 <= i < before.len() implies days.dom().contains(
            (#[trigger] before[i]).0,
        ) && days[before[i].0] == before[i].1 by {
            assert(before[i] == list[i]);
        }
        lemma_day_entries(days, before);
        let day = list.last().0;
        let tabs = list.last().1;
        assert(list[list.len() - 1] == list.last());
        text_map::lemma_listing(tabs);
        let one = days_entries(before);
        let other = day_entries(day, text_map::listing(tabs));
        let all = days_entries(list);
        assert forall|k: int| 0 <= k < all.len() implies records(days, #[trigger] all[k]) by {
            if k < one.len() {
                assert(all[k] == one[k]);
            } else {
                assert(all[k] == other[k - one.len()]);
                assert(tabs.dom().contains(text_map::listing(tabs)[k - one.len()].0));
            }
        }
        assert forall|i: int, tab_id: Seq<char>|
            0 <= i < list.len() && #[trigger] (list[i]).1.dom().contains(tab_id) implies all.contains(
            (list[i].0, tab_id, list[i].1[tab_id]),
        ) by {
            let entry = (list[i].0, tab_id, list[i].1[tab_id]);
            if i < before.len() {
                assert(before[i] == list[i]);
                assert(before[i].1.dom().contains(tab_id));
                let k = choose|k: int| 0 <= k < one.len() && one[k] == entry;
                assert(all[k] == entry);
            } else {
                let listed = text_map::listing(tabs);
                let k = choose|k: int| 0 <= k < listed.len() && (#[trigger] listed[k]).0 == tab_id;
                assert(tabs[listed[k].0] == listed[k].1);
                assert(all[one.len() + k] == entry);
            }
        }
    }
}

/// The entries of a history are just what it records.
pub proof fn law_entries(days: Days, entry: Entry)
    requires
        is_history(days),
    ensures
        entries(days).contains(entry) <==> records(days, entry),
{
    let list = text_map::listing(days);
    text_map::lemma_listing(days);
    lemma_day_entries(days, list);
    if records(days, entry) {
        let i = choose|i: int| 0 <= i < list.len() && (#[trigger] list[i]).0 == entry.0;
        assert(list[i].1.dom().contains(entry.1));
    }
}

/// Recording some entries of a history gives nothing but them.
proof fn lemma_recorded(days: Days, list: Seq<Entry>)
    requires
        forall|k: int| 0 <= k < list.len() ==> records(days, #[trigger] list[k]),
    ensures
        ({
            let made = recorded(Map::empty(), list);
            &&& forall|k: int| 0 <= k < list.len() ==> records(made, #[trigger] list[k])
            &&& forall|day: Seq<char>, tab_id: Seq<char>|
                made.dom().contains(day) && #[trigger] made[day].dom().contains(tab_id) ==> records(
                    days,
                    (day, tab_id, made[day][tab_id]),
                )
            &&& forall|day: Seq<char>| #[trigger] made.dom().contains(day) ==> days.dom().contains(day)
        }),
    decreases list.len(),
{
    if list.len() > 0 {
        let before = list.drop_last();
        assert forall|k: int| 0 <= k < before.len() implies records(days, #[trigger] before[k]) by {
            assert(before[k] == list[k]);
        }
        lemma_recorded(days, before);
        let entry = list.last();
        assert(records(days, list[list.len() - 1]));
        let older = recorded(Map::empty(), before);
        let made = recorded(Map::empty(), list);
        assert forall|k: int| 0 <= k < list.len() implies records(made, #[trigger] list[k]) by {
            if k < before.len() {
                assert(before[k] == list[k]);
                assert(records(older, before[k]));
            }
        }
        assert forall|day: Seq<char>, tab_id: Seq<char>|
            made.dom().contains(day) && #[trigger] made[day].dom().contains(tab_id) implies records(
            days,
            (day, tab_id, made[day][tab_id]),
        ) by {
            if day != entry.0 || tab_id != entry.1 {
                assert(older.dom().contains(day) && older[day].dom().contains(tab_id));
            }
        }
    }
}

/// Whether writing changes nothing of what a history records.
pub open spec fn is_clean_history(days: Days) -> bool {
    forall|day: Seq<char>, tab_id: Seq<char>|
        days.dom().contains(day) && #[trigger] days[day].dom().contains(tab_id) ==> usage::is_clean(day)
            && usage::is_clean(tab_id) && usage::is_clean(days[day][tab_id].0)
}

/// A written history is read back as it was, where no name or id in it has a tab
/// or a line end.
pub proof fn law_clean_history_survives(days: Days)
    requires
        is_history(days),
        is_clean_history(days),
    ensures
        read_back(usage::history_text(days)) == days,
{
    law_reading_what_was_written(days);
    let list = entries(days);
    let read = list.map_values(|entry: Entry| as_read(entry));
    assert forall|k: int| 0 <= k < list.len() implies read[k] == list[k] && records(
        days,
        #[trigger] list[k],
    ) by {
        assert(list.contains(list[k]));
        law_entries(days, list[k]);
        usage::law_cleaned(list[k].0);
        usage::law_cleaned(list[k].1);
        usage::law_cleaned(list[k].2.0);
        assert(days[list[k].0].dom().contains(list[k].1));
    }
    assert(read =~= list);
    lemma_recorded(days, list);
    let made = recorded(Map::empty(), list);
    assert forall|day: Seq<char>, tab_id: Seq<char>|
        days.dom().contains(day) && #[trigger] days[day].dom().contains(tab_id) implies records(
        made,
        (day, tab_id, days[day][tab_id]),
    ) by {
        let entry = (day, tab_id, days[day][tab_id]);
        law_entries(days, entry);
        let k = choose|k: int| 0 <= k < list.len() && list[k] == entry;
        assert(records(made, list[k]));
    }
    assert forall|day: Seq<char>| days.dom().contains(day) implies #[trigger] made.dom().contains(
        day,
    ) && made[day] == days[day] by {
        let tab_id = days[day].dom().choose();
        assert(days[day].dom().contains(tab_id));
        assert(records(made, (day, tab_id, days[day][tab_id])));
        assert(made[day] =~= days[day]);
    }
    assert(made =~= days);
}

/// A clean entry leaves a clean history clean.
pub proof fn lemma_clean_usage(days: Days, entry: Entry)
    requires
        is_clean_history(days),
        usage::is_clean(entry.0),
        usage::is_clean(entry.1),
        usage::is_clean(entry.2.0),
    ensures
        is_clean_history(usage::with_usage(days, entry.0, entry.1, entry.2)),
{
    let grown = usage::with_usage(days, entry.0, entry.1, entry.2);
    assert forall|day: Seq<char>, tab_id: Seq<char>|
        grown.dom().contains(day) && #[trigger] grown[day].dom().contains(tab_id) implies usage::is_clean(
        day,
    ) && usage::is_clean(tab_id) && usage::is_clean(grown[day][tab_id].0) by {
        if day != entry.0 || tab_id != entry.1 {
            assert(days.dom().contains(day) && days[day].dom().contains(tab_id));
        }
    }
}

/// Whether what a row records, if it records anything, has no tab or line end in
/// its fields.
pub open spec fn is_clean_row(row: Seq<char>) -> bool {
    match usage::row_of(row) {
        Some((day, tab_id, usage)) => usage::is_clean(day) && usage::is_clean(tab_id)
            && usage::is_clean(usage.0),
        None => true,
    }
}

proof fn lemma_rows_are_clean(rows: Seq<Seq<char>>)
    requires
        forall|k: int| 0 <= k < rows.len() ==> is_clean_row(#[trigger] rows[k]),
    ensures
        is_clean_history(usage::history_of(rows)),
    decreases rows.len(),
{
    if rows.len() > 0 {
        let before = rows.drop_last();
        assert forall|k: int| 0 <= k < before.len() implies is_clean_row(#[trigger] before[k]) by {
            assert(before[k] == rows[k]);
        }
        lemma_rows_are_clean(before);
        assert(is_clean_row(rows[rows.len() - 1]));
        match usage::row_of(rows.last()) {
            Some(entry) => {
                lemma_clean_usage(usage::history_of(before), entry);
            },
            None => {},
        }
    }
}

proof fn lemma_recorded_is_clean(list: Seq<Entry>)
    requires
        forall|k: int|
            0 <= k < list.len() ==> usage::is_clean((#[trigger] list[k]).0) && usage::is_clean(list[k].1)
                && usage::is_clean(list[k].2.0) && list[k].2.1 <= MAX_DAILY_SECONDS,
    ensures
        is_history(recorded(Map::empty(), list)),
        is_clean_history(recorded(Map::empty(), list)),
    decreases list.len(),
{
    if list.len() > 0 {
        let before = list.drop_last();
        assert forall|k: int| 0 <= k < before.len() implies usage::is_clean((#[trigger] before[k]).0)
            && usage::is_clean(before[k].1) && usage::is_clean(before[k].2.0) && before[k].2.1
            <= MAX_DAILY_SECONDS by {
            assert(before[k] == list[k]);
        }
        lemma_recorded_is_clean(before);
        let entry = list[list.len() - 1];
        lemma_clean_usage(recorded(Map::empty(), before), entry);
        law_usage_keeps_history(recorded(Map::empty(), before), entry.0, entry.1, entry.2);
    }
}

/// What is read of a written history is a history whose fields are clean.
proof fn lemma_read_is_clean(days: Days)
    ensures
        is_history(read_back(usage::history_text(days))),
        is_clean_history(read_back(usage::history_text(days))),
{
    law_reading_what_was_written(days);
    let list = entries(days).map_values(|entry: Entry| as_read(entry));
    assert forall|k: int| 0 <= k < list.len() implies usage::is_clean((#[trigger] list[k]).0)
        && usage::is_clean(list[k].1) && usage::is_clean(list[k].2.0) && list[k].2.1
        <= MAX_DAILY_SECONDS by {
        let entry = entries(days)[k];
        usage::law_cleaned(entry.0);
        usage::law_cleaned(entry.1);
        usage::law_cleaned(entry.2.0);
    }
    lemma_recorded_is_clean(list);
}

/// Rewriting a file loses and changes nothing of the rows that parse, just where
/// none of what they record has a tab or a line end in it. Rows that have none are
/// enough for that.
pub proof fn law_rewriting_keeps_rows(contents: Seq<char>)
    ensures
        read_back(usage::history_text(read_back(contents))) == read_back(contents)
            <==> is_clean_history(read_back(contents)),
        (forall|k: int|
            0 <= k < text::lines_of(contents).len() ==> is_clean_row(
                #[trigger] text::lines_of(contents)[k],
            )) ==> is_clean_history(read_back(contents)),
{
    let rows = text::lines_of(contents);
    law_rows_make_history(rows);
    lemma_read_is_clean(read_back(contents));
    if is_clean_history(read_back(contents)) {
        law_clean_history_survives(read_back(contents));
    }
    if forall|k: int| 0 <= k < rows.len() ==> is_clean_row(#[trigger] rows[k]) {
        lemma_rows_are_clean(rows);
    }
}

/// Once a history has been written and read, writing and reading it again
/// changes nothing.
pub proof fn law_rewriting_settles(days: Days)
    ensures
        ({
            let once = read_back(usage::history_text(days));
            read_back(usage::history_text(once)) == once
        }),
{
    lemma_read_is_clean(days);
    law_clean_history_survives(read_back(usage::history_text(days)));
}

} // verus!
