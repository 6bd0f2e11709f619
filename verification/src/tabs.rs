//! What Ghostty tells of its tabs.
use vstd::prelude::*;
use vstd::string::*;
use crate::lists;
use crate::number;
use crate::number::parse_u32;
use crate::sorting;
use crate::sorting::sort_stably;
use crate::text;
use crate::text::{same_text, split, split_up_to, text_precedes, trim, trim_end};
use crate::usage::FocusedTab;

verus! {

/// How long a query for the focused tab may take, in nanoseconds.
pub const USAGE_SAMPLE_TIMEOUT: u64 = 1_000_000_000;

/// How long a query for all the tabs may take, in nanoseconds. Walking every
/// surface scales with the number of tabs and routinely runs past a second.
pub const INVENTORY_TIMEOUT: u64 = 8_000_000_000;

/// What is wrong where Ghostty may not be asked.
pub const QUERY_REFUSED: &'static str = "Ghostty Automation permission is unavailable";

/// What is wrong where Ghostty does not answer in time.
pub const QUERY_TIMED_OUT: &'static str = "Ghostty focus query timed out; allow Automation access";

/// How far a query has come.
#[derive(Clone, Copy, Debug, PartialEq, Eq, Structural)]
pub enum QueryProgress {
    Running,
    Succeeded,
    Failed,
}

/// What is to be done about a query.
#[derive(Clone, Copy, Debug, PartialEq, Eq, Structural)]
pub enum QueryStep {
    /// Look again later.
    Wait,
    /// Read what it printed.
    Read,
    /// Give up: it was not allowed.
    Refused,
    /// Stop it and give up: it takes too long.
    TimedOut,
}

/// What is to be done with a query that was given a time to end by.
pub open spec fn step_of(progress: QueryProgress, now: u64, deadline: u64) -> QueryStep {
    match progress {
        QueryProgress::Succeeded => QueryStep::Read,
        QueryProgress::Failed => QueryStep::Refused,
        QueryProgress::Running => if now < deadline {
            QueryStep::Wait
        } else {
            QueryStep::TimedOut
        },
    }
}


/// What is to be done about a query that has until `deadline` to answer. One that
/// is over counts, however late it is noticed.
pub fn query_step(progress: QueryProgress, now: u64, deadline: u64) -> (step: QueryStep)
    ensures
        step == step_of(progress, now, deadline),
{
    match progress {
        QueryProgress::Succeeded => QueryStep::Read,
        QueryProgress::Failed => QueryStep::Refused,
        QueryProgress::Running => {
            if now < deadline {
                QueryStep::Wait
            } else {
                QueryStep::TimedOut
            }
        },
    }
}

/// One terminal surface as Ghostty lists it.
#[derive(Debug)]
pub struct TabObservation {
    pub app_frontmost: bool,
    pub window_id: String,
    pub window_name: String,
    pub tab_id: String,
    pub tab_name: String,
    pub tab_index: u32,
    pub selected: bool,
    pub terminal_count: u32,
    pub terminal_id: String,
    pub terminal_name: String,
    pub working_directory: String,
    pub terminal_focused: bool,
}

/// A terminal surface as plain values.
pub struct Surface {
    pub app_frontmost: bool,
    pub window_id: Seq<char>,
    pub window_name: Seq<char>,
    pub tab_id: Seq<char>,
    pub tab_name: Seq<char>,
    pub tab_index: u32,
    pub selected: bool,
    pub terminal_count: u32,
    pub terminal_id: Seq<char>,
    pub terminal_name: Seq<char>,
    pub working_directory: Seq<char>,
    pub terminal_focused: bool,
}

impl View for TabObservation {
    type V = Surface;

    open spec fn view(&self) -> Surface {
        Surface {
            app_frontmost: self.app_frontmost,
            window_id: self.window_id@,
            window_name: self.window_name@,
            tab_id: self.tab_id@,
            tab_name: self.tab_name@,
            tab_index: self.tab_index,
            selected: self.selected,
            terminal_count: self.terminal_count,
            terminal_id: self.terminal_id@,
            terminal_name: self.terminal_name@,
            working_directory: self.working_directory@,
            terminal_focused: self.terminal_focused,
        }
    }
}

/// Some surfaces as plain values.
pub open spec fn surfaces_of(list: Seq<TabObservation>) -> Seq<Surface> {
    list.map_values(|observation: TabObservation| observation@)
}

/// Whether two surfaces are listed in the same way.
fn same_observation(a: &TabObservation, b: &TabObservation) -> (same: bool)
    ensures
        same == (a@ == b@),
{
    a.app_frontmost == b.app_frontmost && a.window_id == b.window_id && a.window_name
        == b.window_name && a.tab_id == b.tab_id && a.tab_name == b.tab_name && a.tab_index
        == b.tab_index && a.selected == b.selected && a.terminal_count == b.terminal_count
        && a.terminal_id == b.terminal_id && a.terminal_name == b.terminal_name
        && a.working_directory == b.working_directory && a.terminal_focused == b.terminal_focused
}

/// Whether two lists of surfaces are the same.
pub fn same_inventory(a: &Vec<TabObservation>, b: &Vec<TabObservation>) -> (same: bool)
    ensures
        same == (surfaces_of(a@) == surfaces_of(b@)),
{
    if a.len() != b.len() {
        assert(surfaces_of(a@).len() != surfaces_of(b@).len());
        return false;
    }
    let mut i: usize = 0;
    while i < a.len()
        invariant
            i <= a@.len() == b@.len(),
            forall|k: int| 0 <= k < i ==> a@[k]@ == b@[k]@,
        decreases a@.len() - i,
    {
        if !same_observation(&a[i], &b[i]) {
            assert(surfaces_of(a@)[i as int] != surfaces_of(b@)[i as int]);
            return false;
        }
        i += 1;
    }
    assert(surfaces_of(a@) =~= surfaces_of(b@));
    true
}

/// The fields that Ghostty tells of the focused tab, where it tells of one.
pub open spec fn focus_fields(reply: Seq<char>) -> Seq<Seq<char>> {
    text::pieces_up_to(text::trimmed(reply), '\t', 4)
}

/// Reads what Ghostty tells of the focused tab: nothing where it is not the
/// frontmost application.
pub fn query_focused_tab(reply: &str) -> (focus: Result<Option<FocusedTab>, String>)
    ensures
        focus is Err <==> text::trimmed(reply@).len() > 0 && focus_fields(reply@).len() != 4,
        focus matches Err(error) ==> error@ == "Ghostty returned an unexpected focus response"@,
        focus matches Ok(None) ==> text::trimmed(reply@).len() == 0,
        focus matches Ok(Some(tab)) ==> {
            let fields = focus_fields(reply@);
            &&& text::trimmed(reply@).len() > 0
            &&& tab.tab_id@ == fields[0]
            &&& tab.tab_name@ == fields[1]
            &&& tab.terminal_id@ == fields[2]
            &&& tab.terminal_name@ == fields[3]
        },
{
    let reply = trim(reply);
    if reply.as_str().is_empty() {
        return Ok(None);
    }
    let fields = split_up_to(reply.as_str(), '\t', 4);
    let ghost parts = text::texts(fields@);
    assert(parts.len() == fields@.len());
    if fields.len() != 4 {
        return Err("Ghostty returned an unexpected focus response".to_owned());
    }
    proof {
        assert(parts[0] == fields@[0]@ && parts[1] == fields@[1]@);
        assert(parts[2] == fields@[2]@ && parts[3] == fields@[3]@);
    }
    Ok(
        Some(
            FocusedTab {
                tab_id: fields[0].clone(),
                tab_name: fields[1].clone(),
                terminal_id: fields[2].clone(),
                terminal_name: fields[3].clone(),
            },
        ),
    )
}

/// A number, or 0 for what is none.
pub open spec fn number_or_zero(s: Seq<char>) -> u32 {
    match number::u32_of(s) {
        Some(n) => n,
        None => 0,
    }
}

/// The surface that the fields of a record tell of.
pub open spec fn surface_from(fields: Seq<Seq<char>>) -> Surface {
    Surface {
        app_frontmost: fields[0] == "true"@,
        window_id: fields[1],
        window_name: fields[2],
        tab_id: fields[3],
        tab_name: fields[4],
        tab_index: number_or_zero(fields[5]),
        selected: fields[6] == "true"@,
        terminal_count: number_or_zero(fields[7]),
        terminal_id: fields[8],
        terminal_name: fields[9],
        working_directory: fields[10],
        terminal_focused: fields[11] == "true"@,
    }
}

/// The fields of a record.
pub open spec fn record_fields(record: Seq<char>) -> Seq<Seq<char>> {
    text::pieces(record, '\u{1f}')
}

/// The records in what Ghostty tells of its tabs, empty ones left out.
pub open spec fn records_in(reply: Seq<char>) -> Seq<Seq<char>> {
    text::pieces(text::without_trailing_space(reply), '\u{1e}').filter(
        |record: Seq<char>| record.len() > 0,
    )
}

/// Whether a record has the fields it should.
pub open spec fn is_record(record: Seq<char>) -> bool {
    record_fields(record).len() == 12
}

/// The surfaces that some records tell of.
pub open spec fn surfaces_from(records: Seq<Seq<char>>) -> Seq<Surface> {
    records.map_values(|record: Seq<char>| surface_from(record_fields(record)))
}

/// Surfaces are listed by window, then by tab, then by terminal.
pub open spec fn surface_order() -> spec_fn(Surface, Surface) -> bool {
    |a: Surface, b: Surface|
        {
            ||| text::text_before(a.window_id, b.window_id)
            ||| a.window_id == b.window_id && text::text_before(a.tab_id, b.tab_id)
            ||| a.window_id == b.window_id && a.tab_id == b.tab_id && text::text_before(
                a.terminal_id,
                b.terminal_id,
            )
        }
}

/// Whether one surface is listed before another.
fn listed_before(a: &TabObservation, b: &TabObservation) -> (before: bool)
    ensures
        before == surface_order()(a@, b@),
{
    text_precedes(a.window_id.as_str(), b.window_id.as_str()) || (a.window_id == b.window_id && (
    text_precedes(a.tab_id.as_str(), b.tab_id.as_str()) || (a.tab_id == b.tab_id && text_precedes(
        a.terminal_id.as_str(),
        b.terminal_id.as_str(),
    ))))
}

/// The order of surfaces is one: sorting by it fixes the outcome.
pub proof fn law_surface_order()
    ensures
        sorting::is_order(surface_order()),
{
    let before = surface_order();
    assert forall|a: Surface, b: Surface| #[trigger] before(a, b) implies !before(b, a) by {
        text::lemma_text_before_asymmetric(a.window_id, b.window_id);
        text::lemma_text_before_asymmetric(b.window_id, a.window_id);
        text::lemma_text_before_asymmetric(a.tab_id, b.tab_id);
        text::lemma_text_before_asymmetric(b.tab_id, a.tab_id);
        text::lemma_text_before_asymmetric(a.terminal_id, b.terminal_id);
    }
    assert forall|a: Surface, b: Surface, c: Surface| #[trigger] before(a, c) implies #[trigger] before(
        a,
        b,
    ) || before(b, c) by {
        text::lemma_text_before_total(a.window_id, b.window_id);
        text::lemma_text_before_total(a.tab_id, b.tab_id);
        text::lemma_text_before_total(a.terminal_id, b.terminal_id);
        if text::text_before(b.window_id, a.window_id) && text::text_before(a.window_id, c.window_id) {
            text::lemma_text_before_transitive(b.window_id, a.window_id, c.window_id);
        }
        if text::text_before(b.tab_id, a.tab_id) && text::text_before(a.tab_id, c.tab_id) {
            text::lemma_text_before_transitive(b.tab_id, a.tab_id, c.tab_id);
        }
        if text::text_before(b.terminal_id, a.terminal_id) && text::text_before(
            a.terminal_id,
            c.terminal_id,
        ) {
            text::lemma_text_before_transitive(b.terminal_id, a.terminal_id, c.terminal_id);
        }
    }
}

/// Reads one record.
fn read_record(record: &str) -> (found: Option<TabObservation>)
    ensures
        found is Some <==> is_record(record@),
        found matches Some(observation) ==> observation@ == surface_from(record_fields(record@)),
{
    let fields = split(record, '\u{1f}');
    let ghost parts = text::texts(fields@);
    assert(parts.len() == fields@.len());
    if fields.len() != 12 {
        return None;
    }
    assert forall|k: int| 0 <= k < 12 implies parts[k] == #[trigger] fields@[k]@ by {}
    let tab_index: u32 = match parse_u32(fields[5].as_str()) {
        Some(n) => n,
        None => 0,
    };
    let terminal_count: u32 = match parse_u32(fields[7].as_str()) {
        Some(n) => n,
        None => 0,
    };
    Some(
        TabObservation {
            app_frontmost: same_text(fields[0].as_str(), "true"),
            window_id: fields[1].clone(),
            window_name: fields[2].clone(),
            tab_id: fields[3].clone(),
            tab_name: fields[4].clone(),
            tab_index,
            selected: same_text(fields[6].as_str(), "true"),
            terminal_count,
            terminal_id: fields[8].clone(),
            terminal_name: fields[9].clone(),
            working_directory: fields[10].clone(),
            terminal_focused: same_text(fields[11].as_str(), "true"),
        },
    )
}

/// Whether the tabs that a reply tells of have been read: all its records must be
/// whole, and the tabs come in the order of their windows.
pub open spec fn is_inventory(
    reply: Seq<char>,
    inventory: Result<Vec<TabObservation>, String>,
) -> bool {
    let records = records_in(reply);
    &&& inventory is Ok <==> forall|i: int|
        0 <= i < records.len() ==> is_record(#[trigger] records[i])
    &&& inventory matches Ok(list) ==> sorting::is_sorted_from(
        surfaces_from(records),
        surfaces_of(list@),
        surface_order(),
    )
    &&& inventory matches Err(error) ==> error@
        == "Ghostty returned an unexpected tab inventory"@
}

/// Reads what Ghostty tells of all its tabs.
pub fn parse_tab_inventory(reply: &str) -> (inventory: Result<Vec<TabObservation>, String>)
    ensures
        is_inventory(reply@, inventory),
{
    let body = trim_end(reply);
    let records = split(body.as_str(), '\u{1e}');
    let ghost all = text::texts(records@);
    let ghost chosen = |record: Seq<char>| record.len() > 0;
    let ghost wanted = records_in(reply@);
    let mut observations: Vec<TabObservation> = Vec::new();
    let mut i: usize = 0;
    proof {
        lists::lemma_filter_none(all, chosen);
    }
    while i < records.len()
        invariant
            i <= records@.len(),
            all == text::texts(records@),
            chosen == (|record: Seq<char>| record.len() > 0),
            wanted == all.filter(chosen),
            wanted == records_in(reply@),
            surfaces_of(observations@) == surfaces_from(all.take(i as int).filter(chosen)),
            forall|k: int|
                0 <= k < all.take(i as int).filter(chosen).len() ==> is_record(
                    #[trigger] all.take(i as int).filter(chosen)[k],
                ),
        decreases records@.len() - i,
    {
        let ghost record = records@[i as int]@;
        let ghost some = all.take(i as int).filter(chosen);
        let ghost more = all.take(i + 1).filter(chosen);
        proof {
            lists::lemma_filter_next(all, i as int, chosen);
            assert(all[i as int] == record);
        }
        if !records[i].as_str().is_empty() {
            let ghost before = surfaces_of(observations@);
            match read_record(records[i].as_str()) {
                Some(observation) => {
                    observations.push(observation);
                    proof {
                        assert(surfaces_of(observations@) =~= before.push(observation@));
                        assert(surfaces_from(some.push(record)) =~= surfaces_from(some).push(
                            surface_from(record_fields(record)),
                        ));
                    }
                },
                None => {
                    proof {
                        assert(all =~= all.take(i + 1) + all.skip(i + 1));
                        Seq::filter_distributes_over_add(all.take(i + 1), all.skip(i + 1), chosen);
                        assert(more[some.len() as int] == record);
                        assert(wanted[some.len() as int] == record);
                    }
                    return Err("Ghostty returned an unexpected tab inventory".to_owned());
                },
            }
        }
        i += 1;
    }
    proof {
        lists::lemma_filter_none(all, chosen);
        law_surface_order();
    }
    let ghost unsorted = observations@;
    let ghost order = |a: TabObservation, b: TabObservation| surface_order()(a@, b@);
    let precedes = |a: &TabObservation, b: &TabObservation| -> (before: bool)
        ensures
            before == surface_order()(a@, b@),
    {
        listed_before(a, b)
    };
    sort_stably(&mut observations, precedes, Ghost(order));
    proof {
        let places = choose|places: Seq<int>|
            sorting::is_arranged(unsorted, observations@, places, order);
        let source = surfaces_of(unsorted);
        let result = surfaces_of(observations@);
        assert forall|k: int| 0 <= k < result.len() implies #[trigger] result[k] == source[places[k]] by {
            assert(observations@[k] == unsorted[places[k]]);
        }
        assert forall|a: int, b: int|
            #![trigger result[a], result[b]]
            0 <= a < b < result.len() implies !surface_order()(result[b], result[a]) && (
        surface_order()(result[a], result[b]) || places[a] < places[b]) by {
            assert(observations@[a]@ == result[a] && observations@[b]@ == result[b]);
            assert(!order(observations@[b], observations@[a]));
        }
        assert(sorting::is_arranged(source, result, places, surface_order()));
    }
    Ok(observations)
}

/// The tabs there are. `reply` is what Ghostty told of them, or why it did not;
/// it is not asked where it is not running or has no way to tell.
pub fn query_tab_inventory(reply: Option<Result<String, String>>) -> (inventory: Result<
    Vec<TabObservation>,
    String,
>)
    ensures
        match reply {
            None => inventory is Ok && inventory.unwrap()@.len() == 0,
            Some(Err(reason)) => inventory is Err && inventory.unwrap_err()@ == reason@,
            Some(Ok(reply)) => is_inventory(reply@, inventory),
        },
{
    match reply {
        None => Ok(Vec::new()),
        Some(Err(reason)) => Err(reason),
        Some(Ok(reply)) => parse_tab_inventory(reply.as_str()),
    }
}

/// In an inventory the surfaces are in the order of their windows, then of their
/// tabs, then of their terminals.
pub proof fn law_inventory_is_in_order(
    reply: Seq<char>,
    list: Vec<TabObservation>,
    i: int,
    j: int,
)
    requires
        is_inventory(reply, Ok(list)),
        0 <= i < j < list@.len(),
    ensures
        !text::text_before(list@[j].window_id@, list@[i].window_id@),
        list@[i].window_id@ == list@[j].window_id@ ==> !text::text_before(
            list@[j].tab_id@,
            list@[i].tab_id@,
        ),
        list@[i].window_id@ == list@[j].window_id@ && list@[i].tab_id@ == list@[j].tab_id@
            ==> !text::text_before(list@[j].terminal_id@, list@[i].terminal_id@),
        list@.len() == records_in(reply).len(),
{
    let source = surfaces_from(records_in(reply));
    let result = surfaces_of(list@);
    let order = surface_order();
    let places = choose|places: Seq<int>| sorting::is_arranged(source, result, places, order);
    assert(!order(result[j], result[i]));
}

/// A record of an inventory has twelve fields, each with its meaning.
pub proof fn law_fields_of_a_record(fields: Seq<Seq<char>>, k: nat)
    requires
        fields.len() == 12,
        k <= u32::MAX,
    ensures
        ({
            let surface = surface_from(fields);
            &&& surface.app_frontmost <==> fields[0] == "true"@
            &&& surface.window_id == fields[1]
            &&& surface.window_name == fields[2]
            &&& surface.tab_id == fields[3]
            &&& surface.tab_name == fields[4]
            &&& fields[5] == number::decimal(k) ==> surface.tab_index == k
            &&& surface.selected <==> fields[6] == "true"@
            &&& fields[7] == number::decimal(k) ==> surface.terminal_count == k
            &&& surface.terminal_id == fields[8]
            &&& surface.terminal_name == fields[9]
            &&& surface.working_directory == fields[10]
            &&& surface.terminal_focused <==> fields[11] == "true"@
        }),
{
    number::lemma_decimal(k);
}

/// A query for the focused tab is given a second, one for all the tabs eight; what
/// has ended by itself is never stopped.
pub proof fn law_queries_are_given_their_time(start: u64, now: u64)
    requires
        start + INVENTORY_TIMEOUT <= u64::MAX,
    ensures
        ({
            let one = (start + USAGE_SAMPLE_TIMEOUT) as u64;
            let all = (start + INVENTORY_TIMEOUT) as u64;
            &&& step_of(QueryProgress::Running, now, one) is TimedOut <==> now - start
                >= 1_000_000_000
            &&& step_of(QueryProgress::Running, now, one) is Wait <==> now - start < 1_000_000_000
            &&& step_of(QueryProgress::Running, now, all) is TimedOut <==> now - start
                >= 8_000_000_000
            &&& step_of(QueryProgress::Succeeded, now, all) is Read
            &&& step_of(QueryProgress::Failed, now, all) is Refused
        }),
{
}

/// The reply on the focused tab gives the tab, its name and the terminal, each up to
/// a tab stop, and behind these the terminal's name, whatever it holds.
pub proof fn law_fields_of_the_focus(
    tab_id: Seq<char>,
    tab_name: Seq<char>,
    terminal_id: Seq<char>,
    terminal_name: Seq<char>,
)
    requires
        !tab_id.contains('\t'),
        !tab_name.contains('\t'),
        !terminal_id.contains('\t'),
    ensures
        ({
            let reply = tab_id + seq!['\t'] + (tab_name + seq!['\t'] + (terminal_id + seq!['\t']
                + terminal_name));
            text::trimmed(reply) == reply ==> focus_fields(reply) == seq![
                tab_id,
                tab_name,
                terminal_id,
                terminal_name,
            ]
        }),
{
    let third = terminal_id + seq!['\t'] + terminal_name;
    let second = tab_name + seq!['\t'] + third;
    text::law_pieces(terminal_id, '\t', terminal_name, 2);
    text::law_pieces(tab_name, '\t', third, 3);
    text::law_pieces(tab_id, '\t', second, 4);
    assert(seq![tab_id] + (seq![tab_name] + (seq![terminal_id] + seq![terminal_name])) =~= seq![
        tab_id,
        tab_name,
        terminal_id,
        terminal_name,
    ]);
}

/// A record has twelve fields: another field with its separator in front makes one
/// of eleven fields a record, and one of twelve none.
pub proof fn law_records_have_twelve_fields(field: Seq<char>, record: Seq<char>)
    requires
        !field.contains('\u{1f}'),
    ensures
        record_fields(field) == seq![field],
        record_fields(field + seq!['\u{1f}'] + record) == seq![field] + record_fields(record),
        is_record(field + seq!['\u{1f}'] + record) <==> record_fields(record).len() == 11,
{
    text::law_pieces(field, '\u{1f}', record, 0);
}

/// A reply of nothing but white space holds no record, and no record is empty.
pub proof fn law_no_record_is_empty(reply: Seq<char>, i: int)
    ensures
        text::without_trailing_space(reply).len() == 0 ==> records_in(reply).len() == 0,
        0 <= i < records_in(reply).len() ==> records_in(reply)[i].len() > 0 && text::pieces(
            text::without_trailing_space(reply),
            '\u{1e}',
        ).contains(records_in(reply)[i]),
{
    let pieces = text::pieces(text::without_trailing_space(reply), '\u{1e}');
    let chosen = |record: Seq<char>| record.len() > 0;
    let records = records_in(reply);
    if 0 <= i < records.len() {
        lists::lemma_filter_members(pieces, chosen, records[i]);
        assert(records.contains(records[i]));
    }
    if text::without_trailing_space(reply).len() == 0 && records.len() > 0 {
        assert(records.contains(records[0]));
        lists::lemma_filter_members(pieces, chosen, records[0]);
        assert(pieces =~= seq![text::without_trailing_space(reply)]);
    }
}

} // verus!
