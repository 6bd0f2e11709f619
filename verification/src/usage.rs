//! Focused time per day and tab, and the file it is kept in.
use vstd::prelude::*;
use vstd::string::*;
use crate::columns;
use crate::columns::truncate;
use crate::history;
use crate::number;
use crate::number::{parse_u64, write_decimal};
use crate::text;
use crate::text::{is_blank, split_lines, split_up_to};
use crate::text_map;
use crate::text_map::TextMap;

verus! {

/// A tab cannot be focused for longer than the day it is recorded against, so
/// any larger value is corrupt and is read as a whole day.
pub const MAX_DAILY_SECONDS: u64 = 86_400;

/// Name and focused seconds of a tab on one day.
pub type Usage = (Seq<char>, u64);

/// Usage by tab id.
pub type Tabs = Map<Seq<char>, (Seq<char>, u64)>;

/// Usage by day and tab id.
pub type Days = Map<Seq<char>, Map<Seq<char>, (Seq<char>, u64)>>;

/// Focused time of one tab on one day.
pub struct TabUsage {
    pub name: String,
    pub seconds: u64,
}

impl View for TabUsage {
    type V = (Seq<char>, u64);

    open spec fn view(&self) -> (Seq<char>, u64) {
        (self.name@, self.seconds)
    }
}

impl Default for TabUsage {
    fn default() -> (usage: Self)
        ensures
            usage@ == (Seq::<char>::empty(), 0u64),
    {
        TabUsage { name: String::new(), seconds: 0 }
    }
}

/// The tab that holds the focus, and the terminal within it.
pub struct FocusedTab {
    pub tab_id: String,
    pub tab_name: String,
    pub terminal_id: String,
    pub terminal_name: String,
}

impl Clone for FocusedTab {
    fn clone(&self) -> (copy: Self)
        ensures
            copy == *self,
    {
        FocusedTab {
            tab_id: self.tab_id.clone(),
            tab_name: self.tab_name.clone(),
            terminal_id: self.terminal_id.clone(),
            terminal_name: self.terminal_name.clone(),
        }
    }
}

/// The usage history.
pub struct UsageStore {
    pub days: TextMap<TextMap<TabUsage>>,
    /// Whether the history holds something that its file does not.
    pub dirty: bool,
}

impl Default for UsageStore {
    fn default() -> (store: Self)
        ensures
            store.days@ == Map::<Seq<char>, Tabs>::empty(),
            !store.dirty,
    {
        UsageStore { days: TextMap::new(), dirty: false }
    }
}

/// A character that may stand in a field of a history file.
pub open spec fn clean_char(c: char) -> char {
    if c == '\t' || c == '\n' || c == '\r' {
        ' '
    } else {
        c
    }
}

/// Text that may stand in a field of a history file.
pub open spec fn cleaned(s: Seq<char>) -> Seq<char> {
    s.map_values(|c: char| clean_char(c))
}

/// Whether text may stand in a field as it is.
pub open spec fn is_clean(s: Seq<char>) -> bool {
    forall|i: int| 0 <= i < s.len() ==> #[trigger] s[i] != '\t' && s[i] != '\n' && s[i] != '\r'
}

/// Replaces the characters that separate fields and rows by blanks.
pub fn clean_field(value: &str) -> (field: String)
    ensures
        field@ == cleaned(value@),
{
    let mut field = String::new();
    for c in it: value.chars()
        invariant
            it.seq() == value@,
            field@ == cleaned(value@.take(it.index())),
    {
        if c == '\t' || c == '\n' || c == '\r' {
            field.push(' ');
        } else {
            field.push(c);
        }
        assert(field@ =~= cleaned(value@.take(it.index() + 1)));
    }
    assert(value@.take(value@.len() as int) == value@);
    field
}

/// A cleaned field is clean, and cleaning changes no clean field.
pub proof fn law_cleaned(s: Seq<char>)
    ensures
        is_clean(cleaned(s)),
        is_clean(s) ==> cleaned(s) == s,
        cleaned(s).len() == s.len(),
{
    if is_clean(s) {
        assert(cleaned(s) =~= s);
    }
}

/// The name that a focused tab is recorded under.
pub open spec fn tab_title(focus: FocusedTab) -> Seq<char> {
    if text::trimmed(focus.tab_name@).len() > 0 {
        focus.tab_name@
    } else if text::trimmed(focus.terminal_name@).len() > 0 {
        focus.terminal_name@
    } else {
        "Tab "@ + columns::truncated_text(focus.tab_id@, 8)
    }
}

/// The name that a focused tab is recorded under: its own, else that of its
/// terminal, else its id.
pub fn display_tab_name(focus: &FocusedTab) -> (name: String)
    ensures
        name@ == tab_title(*focus),
{
    if !is_blank(focus.tab_name.as_str()) {
        focus.tab_name.clone()
    } else if !is_blank(focus.terminal_name.as_str()) {
        focus.terminal_name.clone()
    } else {
        let mut name = "Tab ".to_owned();
        name.append(truncate(focus.tab_id.as_str(), 8).as_str());
        name
    }
}

/// What is recorded of a day, by tab id.
pub open spec fn tabs_on(days: Days, day: Seq<char>) -> Tabs {
    if days.dom().contains(day) {
        days[day]
    } else {
        Map::empty()
    }
}

/// `days` with the usage of one tab on one day replaced.
pub open spec fn with_usage(days: Days, day: Seq<char>, tab_id: Seq<char>, usage: Usage) -> Days {
    days.insert(day, tabs_on(days, day).insert(tab_id, usage))
}

/// Focused seconds that are recorded of a tab on a day.
pub open spec fn seconds_on(days: Days, day: Seq<char>, tab_id: Seq<char>) -> u64 {
    if tabs_on(days, day).dom().contains(tab_id) {
        tabs_on(days, day)[tab_id].1
    } else {
        0
    }
}

/// A number of seconds, or a whole day where it is more.
pub open spec fn within_a_day(seconds: int) -> u64 {
    if seconds <= MAX_DAILY_SECONDS {
        seconds as u64
    } else {
        MAX_DAILY_SECONDS
    }
}

/// What a row of the history file records: day, tab id and usage. A row without
/// its fields, or whose seconds are no number, records nothing.
pub open spec fn row_of(line: Seq<char>) -> Option<(Seq<char>, Seq<char>, Usage)> {
    let fields = text::pieces_up_to(line, '\t', 4);
    if fields.len() != 4 {
        None
    } else {
        match number::u64_of(fields[2]) {
            None => None,
            Some(seconds) => Some((fields[0], fields[1], (fields[3], within_a_day(seconds as int)))),
        }
    }
}

/// `days` with what one row records.
pub open spec fn with_row(days: Days, line: Seq<char>) -> Days {
    match row_of(line) {
        None => days,
        Some((day, tab_id, usage)) => with_usage(days, day, tab_id, usage),
    }
}

/// The history that some rows record; of rows for the same day and tab the last
/// one counts.
pub open spec fn history_of(rows: Seq<Seq<char>>) -> Days
    decreases rows.len(),
{
    if rows.len() == 0 {
        Map::empty()
    } else {
        with_row(history_of(rows.drop_last()), rows.last())
    }
}

/// One row of the history file.
pub open spec fn row_text(day: Seq<char>, tab_id: Seq<char>, usage: Usage) -> Seq<char> {
    cleaned(day) + "\t"@ + cleaned(tab_id) + "\t"@ + number::decimal(usage.1 as nat) + "\t"@ + cleaned(
        usage.0,
    ) + "\n"@
}

/// The rows of one day.
pub open spec fn day_text(day: Seq<char>, tabs: Seq<(Seq<char>, Usage)>) -> Seq<char>
    decreases tabs.len(),
{
    if tabs.len() == 0 {
        seq![]
    } else {
        day_text(day, tabs.drop_last()) + row_text(day, tabs.last().0, tabs.last().1)
    }
}

/// The rows of some days.
pub open spec fn days_text(days: Seq<(Seq<char>, Tabs)>) -> Seq<char>
    decreases days.len(),
{
    if days.len() == 0 {
        seq![]
    } else {
        days_text(days.drop_last()) + day_text(days.last().0, text_map::listing(days.last().1))
    }
}

/// The history file: one row for each day and tab, in the order of the days and
/// of the tab ids.
pub open spec fn history_text(days: Days) -> Seq<char> {
    days_text(text_map::listing(days))
}

/// Records the usage of one tab on one day.
pub fn set_usage(days: &mut TextMap<TextMap<TabUsage>>, day: &str, tab_id: String, usage: TabUsage)
    ensures
        final(days)@ == with_usage(old(days)@, day@, tab_id@, usage@),
{
    let mut tabs = match days.remove(day) {
        Some(tabs) => tabs,
        None => TextMap::new(),
    };
    tabs.insert(tab_id, usage);
    days.insert(day.to_owned(), tabs);
    assert(days@ =~= with_usage(old(days)@, day@, tab_id@, usage@));
}

impl UsageStore {
    /// Reads the history from the contents of its file. Rows that do not parse
    /// are passed over; without a file there is no history.
    pub fn load(contents: Option<&str>) -> (store: Self)
        ensures
            store.days@ == match contents {
                Some(s) => history_of(text::lines_of(s@)),
                None => Map::empty(),
            },
            history::is_history(store.days@),
            !store.dirty,
    {
        let mut store = UsageStore::default();
        let contents = match contents {
            Some(contents) => contents,
            None => {
                proof {
                    history::law_rows_make_history(seq![]);
                }
                return store;
            },
        };
        let lines = split_lines(contents);
        let ghost all = text::texts(lines@);
        let mut i: usize = 0;
        assert(all.take(0) =~= seq![]);
        while i < lines.len()
            invariant
                i <= lines@.len(),
                all == text::texts(lines@),
                store.days@ == history_of(all.take(i as int)),
                !store.dirty,
            decreases lines@.len() - i,
        {
            proof {
                assert(all.take(i + 1).drop_last() == all.take(i as int));
                assert(all.take(i + 1).last() == lines@[i as int]@);
            }
            let fields = split_up_to(lines[i].as_str(), '\t', 4);
            proof {
                let parts = text::texts(fields@);
                assert(parts.len() == fields@.len());
                assert forall|k: int| 0 <= k < parts.len() implies parts[k] == fields@[k]@ by {}
            }
            if fields.len() == 4 {
                match parse_u64(fields[2].as_str()) {
                    Some(seconds) => {
                        let seconds: u64 = if seconds <= MAX_DAILY_SECONDS {
                            seconds
                        } else {
                            MAX_DAILY_SECONDS
                        };
                        set_usage(
                            &mut store.days,
                            fields[0].as_str(),
                            fields[1].clone(),
                            TabUsage { name: fields[3].clone(), seconds },
                        );
                    },
                    None => {},
                }
            }
            i += 1;
        }
        assert(all.take(all.len() as int) == all);
        proof {
            history::law_rows_make_history(all);
        }
        store
    }

    /// Adds focused time to a tab on a day, up to a whole day of it.
    pub fn add(&mut self, day: &str, focus: &FocusedTab, seconds: u64)
        ensures
            seconds == 0 ==> final(self).days@ == old(self).days@ && final(self).dirty == old(
                self,
            ).dirty,
            seconds > 0 ==> final(self).dirty && final(self).days@ == with_usage(
                old(self).days@,
                day@,
                focus.tab_id@,
                (
                    tab_title(*focus),
                    within_a_day(seconds_on(old(self).days@, day@, focus.tab_id@) + seconds),
                ),
            ),
            history::is_history(old(self).days@) ==> history::is_history(final(self).days@),
    {
        if seconds == 0 {
            return;
        }
        let before: u64 = match self.days.get(day) {
            Some(tabs) => match tabs.get(focus.tab_id.as_str()) {
                Some(usage) => usage.seconds,
                None => 0,
            },
            None => 0,
        };
        let sum: u64 = before.saturating_add(seconds);
        let capped: u64 = if sum <= MAX_DAILY_SECONDS {
            sum
        } else {
            MAX_DAILY_SECONDS
        };
        set_usage(
            &mut self.days,
            day,
            focus.tab_id.clone(),
            TabUsage { name: display_tab_name(focus), seconds: capped },
        );
        proof {
            if history::is_history(old(self).days@) {
                history::law_usage_keeps_history(
                    old(self).days@,
                    day@,
                    focus.tab_id@,
                    (tab_title(*focus), capped),
                );
            }
        }
        self.dirty = true;
    }

    /// The contents to write to the history file, where there is something to
    /// write. Without a file there never is, and nothing waits to be written.
    pub fn save(&mut self, has_file: bool) -> (contents: Option<String>)
        ensures
            contents is Some <==> old(self).dirty && has_file,
            contents matches Some(text) ==> text@ == history_text(old(self).days@),
            final(self).days@ == old(self).days@,
            final(self).dirty == (old(self).dirty && has_file),
    {
        if !self.dirty {
            return None;
        }
        if !has_file {
            self.dirty = false;
            return None;
        }
        Some(self.contents())
    }

    /// Notes that the history has been written.
    pub fn saved(&mut self)
        ensures
            final(self).days@ == old(self).days@,
            !final(self).dirty,
    {
        self.dirty = false;
    }

    /// The contents of the history file.
    pub fn contents(&self) -> (contents: String)
        ensures
            contents@ == history_text(self.days@),
    {
        let mut contents = String::new();
        let count: usize = self.days.len();
        let ghost days = text_map::listing(self.days@);
        let mut i: usize = 0;
        assert(days.take(0) =~= seq![]);
        while i < count
            invariant
                i <= count == days.len(),
                days == text_map::listing(self.days@),
                contents@ == days_text(days.take(i as int)),
            decreases count - i,
        {
            let day = self.days.key_at(i);
            let tabs = self.days.value_at(i);
            append_day(&mut contents, day.as_str(), tabs);
            proof {
                assert(days.take(i + 1).drop_last() == days.take(i as int));
                assert(days.take(i + 1).last() == days[i as int]);
            }
            i += 1;
        }
        assert(days.take(days.len() as int) == days);
        contents
    }
}

/// Writes the rows of one day.
fn append_day(contents: &mut String, day: &str, tabs: &TextMap<TabUsage>)
    ensures
        final(contents)@ == old(contents)@ + day_text(day@, text_map::listing(tabs@)),
{
    let ghost before = contents@;
    let count: usize = tabs.len();
    let ghost list = text_map::listing(tabs@);
    let mut i: usize = 0;
    assert(list.take(0) =~= seq![]);
    assert(before + day_text(day@, list.take(0)) =~= before);
    while i < count
        invariant
            i <= count == list.len(),
            list == text_map::listing(tabs@),
            contents@ == before + day_text(day@, list.take(i as int)),
        decreases count - i,
    {
        let tab_id = tabs.key_at(i);
        let usage = tabs.value_at(i);
        let ghost written = contents@;
        contents.append(clean_field(day).as_str());
        contents.append("\t");
        contents.append(clean_field(tab_id.as_str()).as_str());
        contents.append("\t");
        contents.append(write_decimal(usage.seconds).as_str());
        contents.append("\t");
        contents.append(clean_field(usage.name.as_str()).as_str());
        contents.append("\n");
        proof {
            assert(list.take(i + 1).drop_last() == list.take(i as int));
            assert(list.take(i + 1).last() == list[i as int]);
            let row = row_text(day@, list[i as int].0, list[i as int].1);
            assert(contents@ =~= written + row);
            assert(contents@ =~= before + day_text(day@, list.take(i + 1)));
        }
        i += 1;
    }
    assert(list.take(list.len() as int) == list);
}

/// Recording the usage of a tab on a day replaces what was recorded of that tab on
/// that day, and nothing else.
pub proof fn law_usage_is_recorded(
    days: Days,
    day: Seq<char>,
    tab_id: Seq<char>,
    usage: Usage,
    other_day: Seq<char>,
    other_id: Seq<char>,
)
    ensures
        ({
            let after = with_usage(days, day, tab_id, usage);
            &&& after.dom().contains(day) && after[day].dom().contains(tab_id)
            &&& after[day][tab_id] == usage
            &&& other_day != day ==> after.dom().contains(other_day) == days.dom().contains(
                other_day,
            ) && (days.dom().contains(other_day) ==> after[other_day] == days[other_day])
            &&& other_id != tab_id && days.dom().contains(day) ==> after[day].dom().contains(
                other_id,
            ) == days[day].dom().contains(other_id)
            &&& other_id != tab_id && days.dom().contains(day) && days[day].dom().contains(other_id)
                ==> after[day][other_id] == days[day][other_id]
            &&& other_id != tab_id && !days.dom().contains(day) ==> !after[day].dom().contains(
                other_id,
            )
        }),
{
}

/// No time is counted beyond the hours of a day.
pub proof fn law_a_day_has_its_hours(seconds: int)
    requires
        seconds >= 0,
    ensures
        seconds <= 24 * 3_600 ==> within_a_day(seconds) == seconds,
        seconds > 24 * 3_600 ==> within_a_day(seconds) == 24 * 3_600,
{
}

/// A tab is always recorded under a name that can be read: its own, else that of
/// its terminal, else one made from its id.
pub proof fn law_titles_can_be_read(focus: FocusedTab)
    ensures
        text::trimmed(focus.tab_name@).len() > 0 ==> tab_title(focus) == focus.tab_name@,
        text::trimmed(focus.tab_name@).len() == 0 && text::trimmed(focus.terminal_name@).len() > 0
            ==> tab_title(focus) == focus.terminal_name@,
        text::trimmed(focus.tab_name@).len() == 0 && text::trimmed(focus.terminal_name@).len() == 0
            ==> text::begins_with(tab_title(focus), "Tab "@),
        text::trimmed(focus.tab_name@).len() == 0 && text::trimmed(focus.terminal_name@).len() == 0
            && focus.tab_id@.len() <= 8 ==> tab_title(focus) == "Tab "@ + focus.tab_id@,
        text::trimmed(tab_title(focus)).len() > 0,
{
    reveal_strlit("Tab ");
    let made = "Tab "@ + columns::truncated_text(focus.tab_id@, 8);
    assert(made.take(4) =~= "Tab "@);
    assert(made[0] == 'T');
    text::lemma_not_blank(made, 0);
}

/// A row of the file with its four fields says what it seems to say.
pub proof fn law_row_is_read(
    day: Seq<char>,
    tab_id: Seq<char>,
    seconds: nat,
    name: Seq<char>,
)
    requires
        !day.contains('\t'),
        !tab_id.contains('\t'),
        seconds <= u64::MAX,
    ensures
        row_of(day + "\t"@ + tab_id + "\t"@ + number::decimal(seconds) + "\t"@ + name) == Some(
            (day, tab_id, (name, if seconds <= 86_400 {
                seconds as u64
            } else {
                86_400u64
            })),
        ),
{
    reveal_strlit("\t");
    let digits = number::decimal(seconds);
    number::lemma_decimal(seconds);
    let tail = digits + "\t"@ + name;
    let rest = tab_id + "\t"@ + tail;
    let line = day + "\t"@ + tab_id + "\t"@ + digits + "\t"@ + name;
    assert("\t"@ =~= seq!['\t']);
    assert(line =~= day + seq!['\t'] + rest);
    assert(rest =~= tab_id + seq!['\t'] + tail);
    assert(tail =~= digits + seq!['\t'] + name);
    assert(!digits.contains('\t'));
    history::lemma_first_piece(day, rest, '\t', 4);
    history::lemma_first_piece(tab_id, tail, '\t', 3);
    history::lemma_first_piece(digits, name, '\t', 2);
    assert(text::pieces_up_to(name, '\t', 1) =~= seq![name]);
    assert(text::pieces_up_to(line, '\t', 4) =~= seq![day, tab_id, digits, name]);
}

} // verus!
