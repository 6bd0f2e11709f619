//! The state of the program, and what keys and clicks do to it.
use vstd::prelude::*;
use vstd::string::*;
use crate::chart::UsageScale;
use crate::grouping;
use crate::grouping::aggregate;
use crate::input::{Key, MouseEvent};
use crate::labels;
use crate::labels::{LabelCache, LabelReply, TAB_LABEL_REFRESH, shell_pid};
use crate::memory;
use crate::memory::{MemoryHistory, MemoryTrend, update_trends};
use crate::process::{CpuShare, Platform, Process};
use crate::screen;
use crate::screen::{CalendarCell, Cell, ClickAction, ClickZone, Layout};
use crate::sorting;
use crate::terminals;
use crate::terminals::{SortBy, Terminal, sort_terminals};
use crate::text::same_text;
use crate::tracker;
use crate::tracker::{FocusReply, InventoryReply, RESOURCE_HISTORY_INTERVAL, TickOutcome, UsageTracker};
use crate::usage;
use crate::usage::Usage;
use std::collections::HashMap;
use std::collections::VecDeque;

verus! {

/// Which view is shown.
#[derive(Clone, Copy, Debug, PartialEq, Eq, Structural)]
pub enum Screen {
    Monitor,
    Usage,
}

/// The state of the program.
pub struct App {
    pub terminals: Vec<Terminal>,
    pub ghostty: Option<Process>,
    pub selected: usize,
    pub sort: SortBy,
    pub descending: bool,
    pub expanded: bool,
    /// Time between two process samples, in nanoseconds.
    pub interval: u64,
    pub last_error: Option<String>,
    pub memory_history: HashMap<i32, MemoryHistory>,
    pub labels: LabelCache,
    pub usage_tracker: Option<UsageTracker>,
    pub view: Screen,
    pub tracker_outdated: bool,
    pub usage_scale: UsageScale,
    pub hovered_day: Option<String>,
    pub selected_day: Option<String>,
}

/// What a key or a click does.
#[derive(Clone, Copy, Debug, PartialEq, Eq, Structural)]
pub enum Effect {
    Nothing,
    Quit,
    /// Order the terminals by something, or turn the order round.
    Sort(SortBy),
    /// Turn the order of the terminals round.
    Reverse,
    /// Move the selection by so many rows.
    Move(isize),
    /// Select a terminal.
    Select(usize),
    ToggleExpand,
    Show(Screen),
    SetScale(UsageScale),
}

/// The view that is not shown.
pub open spec fn other_view(view: Screen) -> Screen {
    if view == Screen::Monitor {
        Screen::Usage
    } else {
        Screen::Monitor
    }
}

/// The last of `n` indices, or 0 where there is none.
pub open spec fn last_index(n: nat) -> int {
    if n > 0 {
        n - 1
    } else {
        0
    }
}

/// What a key does. The calendar claims letters that order the terminals in the
/// other view.
pub open spec fn key_effect(view: Screen, terminals: nat, key: Key) -> Effect {
    match key {
        Key::Up => Effect::Move((-1) as isize),
        Key::Down => Effect::Move(1),
        Key::Home => Effect::Select(0),
        Key::End => Effect::Select(last_index(terminals) as usize),
        Key::Char(c) => if view == Screen::Usage && c == 'd' as u8 {
            Effect::SetScale(UsageScale::Daily)
        } else if view == Screen::Usage && c == 'w' as u8 {
            Effect::SetScale(UsageScale::Weekly)
        } else if view == Screen::Usage && c == 'c' as u8 {
            Effect::SetScale(UsageScale::Cumulative)
        } else if c == 'q' as u8 || c == 3 {
            Effect::Quit
        } else if c == 'c' as u8 {
            Effect::Sort(SortBy::Cpu)
        } else if c == 'm' as u8 {
            Effect::Sort(SortBy::Memory)
        } else if c == 'g' as u8 {
            Effect::Sort(SortBy::Trend)
        } else if c == 'p' as u8 {
            Effect::Sort(SortBy::Processes)
        } else if c == 'a' as u8 {
            Effect::Sort(SortBy::Age)
        } else if c == 'n' as u8 {
            Effect::Sort(SortBy::Activity)
        } else if c == 't' as u8 {
            Effect::Sort(SortBy::Tab)
        } else if c == 'u' as u8 {
            Effect::Show(other_view(view))
        } else if c == 'r' as u8 {
            Effect::Reverse
        } else if c == 'j' as u8 {
            Effect::Move(1)
        } else if c == 'k' as u8 {
            Effect::Move((-1) as isize)
        } else if c == 'e' as u8 || c == '\n' as u8 || c == ' ' as u8 {
            Effect::ToggleExpand
        } else {
            Effect::Nothing
        },
    }
}

/// What a click target does.
pub open spec fn action_effect(action: ClickAction) -> Effect {
    match action {
        ClickAction::Sort(sort) => Effect::Sort(sort),
        ClickAction::SelectPrevious => Effect::Move((-1) as isize),
        ClickAction::SelectNext => Effect::Move(1),
        ClickAction::ToggleExpand => Effect::ToggleExpand,
        ClickAction::ShowUsage => Effect::Show(Screen::Usage),
        ClickAction::ShowMonitor => Effect::Show(Screen::Monitor),
        ClickAction::SetScale(scale) => Effect::SetScale(scale),
        ClickAction::Quit => Effect::Quit,
    }
}

/// An index moved by some rows, kept among the terminals.
pub open spec fn moved(selected: int, offset: int, terminals: nat) -> int {
    if selected + offset < 0 {
        0
    } else if selected + offset > last_index(terminals) {
        last_index(terminals)
    } else {
        selected + offset
    }
}

/// The direction that the terminals are ordered in once they are ordered by
/// `sort`: turned round where they already were, and else downwards, tab names
/// aside.
pub open spec fn direction_after(app: App, sort: SortBy) -> bool {
    if app.sort == sort {
        !app.descending
    } else {
        sort != SortBy::Tab
    }
}

/// Whether `after` is `before` with its terminals ordered anew.
pub open spec fn is_reordered(before: App, sort: SortBy, descending: bool, after: App) -> bool {
    &&& after == (App { sort, descending, terminals: after.terminals, ..before })
    &&& sorting::is_sorted_from(
        before.terminals@,
        after.terminals@,
        terminals::terminal_order(sort, descending),
    )
}

/// Whether `after` is what an effect makes of `before`.
pub open spec fn is_result(before: App, effect: Effect, after: App) -> bool {
    match effect {
        Effect::Nothing => after == before,
        Effect::Quit => after == before,
        Effect::Sort(sort) => is_reordered(before, sort, direction_after(before, sort), after),
        Effect::Reverse => is_reordered(before, before.sort, !before.descending, after),
        Effect::Move(offset) => after == (App {
            selected: moved(before.selected as int, offset as int, before.terminals@.len()) as usize,
            ..before
        }),
        Effect::Select(index) => after == (App { selected: index, ..before }),
        Effect::ToggleExpand => after == (App { expanded: !before.expanded, ..before }),
        Effect::Show(view) => after == (App { view, ..before }),
        Effect::SetScale(scale) => after == (App { usage_scale: scale, ..before }),
    }
}

/// The text in an optional string.
pub open spec fn text_of(s: Option<String>) -> Option<Seq<char>> {
    match s {
        Some(s) => Some(s@),
        None => None,
    }
}

/// Whether a mouse event lies in a cell.
pub open spec fn is_in_cell(cell: Cell, mouse: MouseEvent) -> bool {
    mouse.row == cell.row && cell.start_column <= mouse.column <= cell.end_column
}

/// The day under the mouse: that of the first cell it lies in.
pub open spec fn day_under(cells: Seq<Cell>, mouse: MouseEvent) -> Option<Seq<char>>
    decreases cells.len(),
{
    if cells.len() == 0 {
        None
    } else if is_in_cell(cells[0], mouse) {
        Some(cells[0].day)
    } else {
        day_under(cells.skip(1), mouse)
    }
}

/// What a click target under the mouse does: the first one it lies in.
pub open spec fn effect_under(zones: Seq<ClickZone>, mouse: MouseEvent) -> Effect
    decreases zones.len(),
{
    if zones.len() == 0 {
        Effect::Nothing
    } else if zones[0].holds(mouse) {
        action_effect(zones[0].action)
    } else {
        effect_under(zones.skip(1), mouse)
    }
}

/// Whether a mouse event lies on the row of a terminal.
pub open spec fn is_on_terminal(layout: Layout, mouse: MouseEvent) -> bool {
    layout.terminal_start_row <= mouse.row < layout.terminal_start_row + layout.shown_count
}

/// Whether the place that a click stands for can be counted.
pub open spec fn is_in_range(layout: Layout, mouse: MouseEvent) -> bool {
    mouse.pressed && mouse.button == 0 ==> {
        &&& layout.terminal_start_row + layout.shown_count <= usize::MAX
        &&& is_on_terminal(layout, mouse) ==> layout.shown_start + mouse.row
            - layout.terminal_start_row <= usize::MAX
    }
}

/// What the mouse does in the monitor.
pub open spec fn monitor_effect(app: App, layout: Layout, mouse: MouseEvent) -> Effect {
    if !mouse.pressed {
        Effect::Nothing
    } else if mouse.button == 64 {
        Effect::Move((-3) as isize)
    } else if mouse.button == 65 {
        Effect::Move(3)
    } else if mouse.button != 0 {
        Effect::Nothing
    } else if is_on_terminal(layout, mouse) {
        let clicked = layout.shown_start + mouse.row - layout.terminal_start_row;
        if clicked == app.selected {
            Effect::ToggleExpand
        } else {
            Effect::Select(clicked as usize)
        }
    } else {
        effect_under(layout.zones@, mouse)
    }
}

/// Whether `after` is what the mouse makes of `before` in the calendar: the day
/// under it is hovered, and a click selects that day or, where there is none,
/// does what the target under it says.
pub open spec fn is_calendar_result(
    before: App,
    layout: Layout,
    mouse: MouseEvent,
    after: App,
) -> bool {
    let day = day_under(screen::cells_of(layout.calendar_cells@), mouse);
    let clicked = mouse.pressed && mouse.button == 0;
    let hovering = App { hovered_day: after.hovered_day, ..before };
    &&& text_of(after.hovered_day) == day
    &&& if clicked && day is Some {
        after == (App { selected_day: after.selected_day, ..hovering }) && text_of(
            after.selected_day,
        ) == day
    } else if clicked {
        is_result(hovering, effect_under(layout.zones@, mouse), after)
    } else {
        after == hovering
    }
}

/// Whether the mouse ends the program.
pub open spec fn quits(app: App, layout: Layout, mouse: MouseEvent) -> bool {
    if app.view == Screen::Usage {
        mouse.pressed && mouse.button == 0 && day_under(
            screen::cells_of(layout.calendar_cells@),
            mouse,
        ) is None && effect_under(layout.zones@, mouse) is Quit
    } else {
        monitor_effect(app, layout, mouse) is Quit
    }
}

/// The effect of the first click target under the mouse.
fn target_under(zones: &Vec<ClickZone>, mouse: &MouseEvent) -> (effect: Effect)
    ensures
        effect == effect_under(zones@, *mouse),
{
    let mut i: usize = 0;
    assert(zones@.skip(0) =~= zones@);
    while i < zones.len()
        invariant
            i <= zones@.len(),
            effect_under(zones@, *mouse) == effect_under(zones@.skip(i as int), *mouse),
        decreases zones@.len() - i,
    {
        assert(zones@.skip(i as int).skip(1) =~= zones@.skip(i + 1));
        if zones[i].contains(mouse) {
            return effect_of(zones[i].action);
        }
        i += 1;
    }
    Effect::Nothing
}

fn effect_of(action: ClickAction) -> (effect: Effect)
    ensures
        effect == action_effect(action),
{
    match action {
        ClickAction::Sort(sort) => Effect::Sort(sort),
        ClickAction::SelectPrevious => Effect::Move(-1),
        ClickAction::SelectNext => Effect::Move(1),
        ClickAction::ToggleExpand => Effect::ToggleExpand,
        ClickAction::ShowUsage => Effect::Show(Screen::Usage),
        ClickAction::ShowMonitor => Effect::Show(Screen::Monitor),
        ClickAction::SetScale(scale) => Effect::SetScale(scale),
        ClickAction::Quit => Effect::Quit,
    }
}

/// The day under the mouse.
fn hovered(cells: &Vec<CalendarCell>, mouse: &MouseEvent) -> (day: Option<String>)
    ensures
        text_of(day) == day_under(screen::cells_of(cells@), *mouse),
{
    let ghost all = screen::cells_of(cells@);
    let mut i: usize = 0;
    assert(all.skip(0) =~= all);
    while i < cells.len()
        invariant
            i <= cells@.len(),
            all == screen::cells_of(cells@),
            day_under(all, *mouse) == day_under(all.skip(i as int), *mouse),
        decreases cells@.len() - i,
    {
        proof {
            assert(all.skip(i as int).skip(1) =~= all.skip(i + 1));
            assert(all.skip(i as int)[0] == cells@[i as int]@);
        }
        let cell = &cells[i];
        if mouse.row == cell.row && mouse.column >= cell.start_column && mouse.column
            <= cell.end_column {
            return Some(cell.day.clone());
        }
        i += 1;
    }
    None
}

fn key_does(view: Screen, terminals: usize, key: Key) -> (effect: Effect)
    ensures
        effect == key_effect(view, terminals as nat, key),
{
    match key {
        Key::Up => Effect::Move(-1),
        Key::Down => Effect::Move(1),
        Key::Home => Effect::Select(0),
        Key::End => Effect::Select(terminals.saturating_sub(1)),
        Key::Char(c) => {
            if view == Screen::Usage && c == 'd' as u8 {
                Effect::SetScale(UsageScale::Daily)
            } else if view == Screen::Usage && c == 'w' as u8 {
                Effect::SetScale(UsageScale::Weekly)
            } else if view == Screen::Usage && c == 'c' as u8 {
                Effect::SetScale(UsageScale::Cumulative)
            } else if c == 'q' as u8 || c == 3 {
                Effect::Quit
            } else if c == 'c' as u8 {
                Effect::Sort(SortBy::Cpu)
            } else if c == 'm' as u8 {
                Effect::Sort(SortBy::Memory)
            } else if c == 'g' as u8 {
                Effect::Sort(SortBy::Trend)
            } else if c == 'p' as u8 {
                Effect::Sort(SortBy::Processes)
            } else if c == 'a' as u8 {
                Effect::Sort(SortBy::Age)
            } else if c == 'n' as u8 {
                Effect::Sort(SortBy::Activity)
            } else if c == 't' as u8 {
                Effect::Sort(SortBy::Tab)
            } else if c == 'u' as u8 {
                match view {
                    Screen::Monitor => Effect::Show(Screen::Usage),
                    Screen::Usage => Effect::Show(Screen::Monitor),
                }
            } else if c == 'r' as u8 {
                Effect::Reverse
            } else if c == 'j' as u8 {
                Effect::Move(1)
            } else if c == 'k' as u8 {
                Effect::Move(-1)
            } else if c == 'e' as u8 || c == '\n' as u8 || c == ' ' as u8 {
                Effect::ToggleExpand
            } else {
                Effect::Nothing
            }
        },
    }
}

impl App {
    /// The state that the program begins in.
    pub fn new(interval: u64) -> (app: Self)
        ensures
            app.terminals@.len() == 0,
            app.ghostty is None,
            app.selected == 0,
            app.sort == SortBy::Memory,
            app.descending,
            !app.expanded,
            app.interval == interval,
            app.last_error is None,
            app.memory_history@ == Map::<i32, MemoryHistory>::empty(),
            app.labels.by_tty@ == Map::<Seq<char>, Seq<char>>::empty(),
            !app.labels.pending,
            app.labels.next_refresh is None,
            app.usage_tracker is None,
            app.view == Screen::Monitor,
            !app.tracker_outdated,
            app.usage_scale == UsageScale::Daily,
            app.hovered_day is None,
            app.selected_day is None,
    {
        App {
            terminals: Vec::new(),
            ghostty: None,
            selected: 0,
            sort: SortBy::Memory,
            descending: true,
            expanded: false,
            interval,
            last_error: None,
            memory_history: HashMap::new(),
            labels: LabelCache::default(),
            usage_tracker: None,
            view: Screen::Monitor,
            tracker_outdated: false,
            usage_scale: UsageScale::Daily,
            hovered_day: None,
            selected_day: None,
        }
    }

    /// Does what a key stands for. False when the program should end.
    pub fn handle_key(&mut self, key: Key) -> (running: bool)
        ensures
            ({
                let effect = key_effect(old(self).view, old(self).terminals@.len(), key);
                is_result(*old(self), effect, *final(self)) && running == !(effect is Quit)
            }),
    {
        let effect = key_does(self.view, self.terminals.len(), key);
        self.perform(effect)
    }

    /// Does what the mouse stands for. False when the program should end.
    pub fn handle_mouse(&mut self, mouse: MouseEvent, layout: &Layout) -> (running: bool)
        requires
            old(self).view == Screen::Monitor ==> is_in_range(*layout, mouse),
        ensures
            running == !quits(*old(self), *layout, mouse),
            old(self).view == Screen::Usage ==> is_calendar_result(
                *old(self),
                *layout,
                mouse,
                *final(self),
            ),
            old(self).view == Screen::Monitor ==> is_result(
                *old(self),
                monitor_effect(*old(self), *layout, mouse),
                *final(self),
            ),
    {
        match self.view {
            Screen::Usage => {
                self.hovered_day = hovered(&layout.calendar_cells, &mouse);
                if mouse.pressed && mouse.button == 0 {
                    match &self.hovered_day {
                        Some(day) => {
                            self.selected_day = Some(day.clone());
                        },
                        None => {
                            let effect = target_under(&layout.zones, &mouse);
                            return self.perform(effect);
                        },
                    }
                }
                true
            },
            Screen::Monitor => {
                if !mouse.pressed {
                    return true;
                }
                if mouse.button == 64 {
                    return self.perform(Effect::Move(-3));
                }
                if mouse.button == 65 {
                    return self.perform(Effect::Move(3));
                }
                if mouse.button != 0 {
                    return true;
                }
                if mouse.row >= layout.terminal_start_row && mouse.row < layout.terminal_start_row
                    + layout.shown_count {
                    let clicked: usize = layout.shown_start + (mouse.row
                        - layout.terminal_start_row);
                    if clicked == self.selected {
                        return self.perform(Effect::ToggleExpand);
                    }
                    return self.perform(Effect::Select(clicked));
                }
                let effect = target_under(&layout.zones, &mouse);
                self.perform(effect)
            },
        }
    }

    /// Runs a click target's action. False when the program should end.
    pub fn apply(&mut self, action: ClickAction) -> (running: bool)
        ensures
            is_result(*old(self), action_effect(action), *final(self)),
            running == !(action is Quit),
    {
        let effect = effect_of(action);
        self.perform(effect)
    }

    /// Does one thing. False when the program should end.
    pub fn perform(&mut self, effect: Effect) -> (running: bool)
        ensures
            is_result(*old(self), effect, *final(self)),
            running == !(effect is Quit),
    {
        match effect {
            Effect::Nothing => {},
            Effect::Quit => {
                return false;
            },
            Effect::Sort(sort) => {
                self.set_sort(sort);
            },
            Effect::Reverse => {
                self.descending = !self.descending;
                sort_terminals(&mut self.terminals, self.sort, self.descending);
            },
            Effect::Move(offset) => {
                self.move_selection(offset);
            },
            Effect::Select(index) => {
                self.selected = index;
            },
            Effect::ToggleExpand => {
                self.expanded = !self.expanded;
            },
            Effect::Show(view) => {
                self.view = view;
            },
            Effect::SetScale(scale) => {
                self.usage_scale = scale;
            },
        }
        true
    }

    /// Moves the selection by some rows, within the terminals.
    pub fn move_selection(&mut self, offset: isize)
        ensures
            is_result(*old(self), Effect::Move(offset), *final(self)),
    {
        let last: i128 = self.terminals.len().saturating_sub(1) as i128;
        let target: i128 = self.selected as i128 + offset as i128;
        self.selected = if target < 0 {
            0
        } else if target > last {
            last as usize
        } else {
            target as usize
        };
    }

    /// Orders the terminals by something, or turns the order round where they
    /// already are.
    pub fn set_sort(&mut self, sort: SortBy)
        ensures
            is_result(*old(self), Effect::Sort(sort), *final(self)),
    {
        if self.sort == sort {
            self.descending = !self.descending;
        } else {
            self.sort = sort;
            self.descending = sort != SortBy::Tab;
        }
        sort_terminals(&mut self.terminals, self.sort, self.descending);
    }
}

/// The calendar's own letters leave the terminals as they are.
pub proof fn law_calendar_keys_leave_the_monitor(before: App, key: Key, after: App)
    requires
        before.view == Screen::Usage,
        key == Key::Char('d' as u8) || key == Key::Char('w' as u8) || key == Key::Char('c' as u8),
        is_result(before, key_effect(before.view, before.terminals@.len(), key), after),
    ensures
        after == (App { usage_scale: after.usage_scale, ..before }),
        key == Key::Char('d' as u8) ==> after.usage_scale == UsageScale::Daily,
        key == Key::Char('w' as u8) ==> after.usage_scale == UsageScale::Weekly,
        key == Key::Char('c' as u8) ==> after.usage_scale == UsageScale::Cumulative,
{
}

/// Ordering by the same thing twice more brings the direction back.
pub proof fn law_sorting_again_turns_round(first: App, sort: SortBy, second: App, third: App)
    requires
        is_result(first, Effect::Sort(sort), second),
        is_result(second, Effect::Sort(sort), third),
    ensures
        third.sort == sort,
        third.descending == !second.descending,
        first.sort == sort ==> third.descending == first.descending,
{
}

/// Whether the selection is one of the terminals, where there are any.
pub open spec fn is_selection(app: App) -> bool {
    app.selected < app.terminals@.len() || app.selected == 0
}

/// No key takes the selection off the terminals.
pub proof fn law_keys_keep_the_selection(before: App, key: Key, after: App)
    requires
        is_selection(before),
        before.terminals@.len() <= usize::MAX,
        is_result(before, key_effect(before.view, before.terminals@.len(), key), after),
    ensures
        is_selection(after),
        after.terminals@.len() == before.terminals@.len(),
{
    lemma_reordered_length(
        before,
        key_effect(before.view, before.terminals@.len(), key),
        after,
    );
}

/// Ordering the terminals anew loses none of them.
proof fn lemma_reordered_length(before: App, effect: Effect, after: App)
    requires
        is_result(before, effect, after),
    ensures
        after.terminals@.len() == before.terminals@.len(),
{
}

/// No click takes the selection off the terminals, where the layout shows none
/// but them.
pub proof fn law_clicks_keep_the_selection(before: App, layout: Layout, mouse: MouseEvent, after: App)
    requires
        is_selection(before),
        before.terminals@.len() <= usize::MAX,
        layout.shown_start + layout.shown_count <= before.terminals@.len(),
        before.view == Screen::Monitor ==> is_result(
            before,
            monitor_effect(before, layout, mouse),
            after,
        ),
        before.view == Screen::Usage ==> is_calendar_result(before, layout, mouse, after),
    ensures
        is_selection(after),
{
    lemma_targets_select_nothing(layout.zones@, mouse);
    if before.view == Screen::Monitor {
        lemma_reordered_length(before, monitor_effect(before, layout, mouse), after);
    }
}

proof fn lemma_targets_select_nothing(zones: Seq<ClickZone>, mouse: MouseEvent)
    ensures
        !(effect_under(zones, mouse) is Select),
    decreases zones.len(),
{
    if zones.len() > 0 {
        lemma_targets_select_nothing(zones.skip(1), mouse);
    }
}

/// A click on a terminal's row selects it, and the next one there opens or
/// closes it.
pub proof fn law_second_click_expands(
    first: App,
    layout: Layout,
    mouse: MouseEvent,
    second: App,
    third: App,
)
    requires
        first.view == Screen::Monitor,
        mouse.pressed,
        mouse.button == 0,
        is_on_terminal(layout, mouse),
        is_in_range(layout, mouse),
        first.selected != layout.shown_start + mouse.row - layout.terminal_start_row,
        is_result(first, monitor_effect(first, layout, mouse), second),
        is_result(second, monitor_effect(second, layout, mouse), third),
    ensures
        second.selected == layout.shown_start + mouse.row - layout.terminal_start_row,
        second.expanded == first.expanded,
        third.expanded == !first.expanded,
        third.selected == second.selected,
{
}

/// Whether some terminals are the given ones under their names.
pub open spec fn are_named(
    before: Seq<Terminal>,
    labels: Map<Seq<char>, Seq<char>>,
    after: Seq<Terminal>,
) -> bool {
    &&& after.len() == before.len()
    &&& forall|i: int|
        0 <= i < before.len() ==> (#[trigger] after[i]) == (Terminal {
            label: after[i].label,
            ..before[i]
        }) && after[i].label@ == labels::label_of(labels, before[i].tty@)
}

/// Gives the terminals their names.
fn name_terminals(terminals: &mut Vec<Terminal>, labels: &LabelCache)
    ensures
        are_named(old(terminals)@, labels.by_tty@, final(terminals)@),
{
    let ghost source = terminals@;
    let mut i: usize = 0;
    while i < terminals.len()
        invariant
            i <= terminals@.len() == source.len(),
            forall|k: int| i <= k < source.len() ==> terminals@[k] == source[k],
            forall|k: int|
                0 <= k < i ==> (#[trigger] terminals@[k]) == (Terminal {
                    label: terminals@[k].label,
                    ..source[k]
                }) && terminals@[k].label@ == labels::label_of(labels.by_tty@, source[k].tty@),
        decreases terminals@.len() - i,
    {
        let label = labels.label_for(terminals[i].tty.as_str());
        terminals[i].label = label;
        i += 1;
    }
}

/// The index of the first terminal at a tty.
pub open spec fn index_at(terminals: Seq<Terminal>, tty: Seq<char>) -> Option<int>
    decreases terminals.len(),
{
    if terminals.len() == 0 {
        None
    } else if terminals[0].tty@ == tty {
        Some(0)
    } else {
        match index_at(terminals.skip(1), tty) {
            Some(i) => Some(i + 1),
            None => None,
        }
    }
}

/// The selection after a sample: the terminal that was selected, where it is
/// still there, and else the same row, as far as there are rows.
pub open spec fn selection_after(app: App, terminals: Seq<Terminal>) -> int {
    let row = if app.selected > last_index(terminals.len()) {
        last_index(terminals.len())
    } else {
        app.selected as int
    };
    if app.selected < app.terminals@.len() {
        match index_at(terminals, app.terminals@[app.selected as int].tty@) {
            Some(i) => i,
            None => row,
        }
    } else {
        row
    }
}

fn find_tty(terminals: &Vec<Terminal>, tty: &str) -> (index: Option<usize>)
    ensures
        index is Some <==> index_at(terminals@, tty@) is Some,
        index matches Some(i) ==> Some(i as int) == index_at(terminals@, tty@) && i
            < terminals@.len(),
{
    let mut i: usize = 0;
    assert(terminals@.skip(0) =~= terminals@);
    while i < terminals.len()
        invariant
            i <= terminals@.len(),
            index_at(terminals@, tty@) == match index_at(terminals@.skip(i as int), tty@) {
                Some(k) => Some(k + i),
                None => None,
            },
        decreases terminals@.len() - i,
    {
        assert(terminals@.skip(i as int).skip(1) =~= terminals@.skip(i + 1));
        if same_text(terminals[i].tty.as_str(), tty) {
            return Some(i);
        }
        i += 1;
    }
    None
}

/// Whether some terminals are those of the given processes.
pub open spec fn are_grouped<F: Fn(&Vec<Process>) -> CpuShare>(
    processes: Seq<Process>,
    self_pid: i32,
    platform: Platform,
    sum_cpu: F,
    terminals: Seq<Terminal>,
) -> bool {
    match grouping::ghostty_of(processes) {
        None => terminals.len() == 0,
        Some(app) => {
            let roots = grouping::surfaces(processes, app.pid, platform);
            let owner = grouping::surface_owners(processes, roots);
            &&& terminals.len() == roots.len()
            &&& forall|i: int|
                0 <= i < roots.len() ==> grouping::is_aggregated(
                    roots[i],
                    grouping::members_of(processes, owner, roots[i].pid, self_pid),
                    sum_cpu,
                    #[trigger] terminals[i],
                )
        },
    }
}

/// Whether `after` is `before` with a new sample of the processes: grouped into
/// terminals, which are named, get their memory trends and are put in order.
pub open spec fn is_refreshed<
    F: Fn(&Vec<Process>) -> CpuShare,
    G: Fn(&VecDeque<(u64, u64)>) -> MemoryTrend,
>(
    before: App,
    processes: Seq<Process>,
    self_pid: i32,
    platform: Platform,
    sum_cpu: F,
    now: u64,
    analyze: G,
    after: App,
    grouped: Seq<Terminal>,
    named: Seq<Terminal>,
    traced: Seq<Terminal>,
) -> bool {
    &&& are_grouped(processes, self_pid, platform, sum_cpu, grouped)
    &&& are_named(grouped, before.labels.by_tty@, named)
    &&& traced.len() == named.len()
    &&& memory::are_steps(
        memory::still_open(before.memory_history@, named),
        after.memory_history@,
        named,
        traced,
        now,
        analyze,
        named.len() as int,
    )
    &&& sorting::is_sorted_from(
        traced,
        after.terminals@,
        terminals::terminal_order(before.sort, before.descending),
    )
    &&& after == (App {
        terminals: after.terminals,
        ghostty: grouping::ghostty_of(processes),
        selected: selection_after(before, after.terminals@) as usize,
        memory_history: after.memory_history,
        usage_tracker: after.usage_tracker,
        last_error: None,
        ..before
    })
}

/// What happens to the tracker when the terminals have been sampled: the next
/// record of what they use is put off, where one is due.
pub open spec fn tracker_after_sample(
    tracker: Option<UsageTracker>,
    now: u64,
) -> Option<UsageTracker> {
    match tracker {
        Some(tracker) => if now >= tracker.next_resource_history {
            Some(
                UsageTracker {
                    next_resource_history: (now + RESOURCE_HISTORY_INTERVAL) as u64,
                    ..tracker
                },
            )
        } else {
            Some(tracker)
        },
        None => None,
    }
}

/// Whether what the terminals use is to be recorded.
pub open spec fn resources_due(tracker: Option<UsageTracker>, now: u64) -> bool {
    match tracker {
        Some(tracker) => now >= tracker.next_resource_history,
        None => false,
    }
}

impl App {
    /// Takes in a sample of the processes, or the error in its place, and tells
    /// whether what the terminals use is to be recorded. `sum_cpu` adds up the
    /// processor shares of some processes, and `analyze` reads the trend out of
    /// the memory samples of a terminal.
    pub fn refresh<
        F: Fn(&Vec<Process>) -> CpuShare,
        G: Fn(&VecDeque<(u64, u64)>) -> MemoryTrend,
    >(
        &mut self,
        sample: Result<Vec<Process>, String>,
        self_pid: i32,
        platform: Platform,
        sum_cpu: F,
        now: u64,
        analyze: G,
    ) -> (record: bool)
        requires
            tracker::can_wait(now),
            sample matches Ok(processes) ==> grouping::fits_by_terminal(
                processes@,
                self_pid,
                platform,
            ),
            forall|list: &Vec<Process>| #[trigger] call_requires(sum_cpu, (list,)),
            forall|samples: &VecDeque<(u64, u64)>| #[trigger] call_requires(analyze, (samples,)),
        ensures
            sample matches Err(error) ==> !record && *final(self) == (App {
                last_error: Some(error),
                ..*old(self)
            }),
            sample matches Ok(processes) ==> {
                &&& record == resources_due(old(self).usage_tracker, now)
                &&& final(self).usage_tracker == tracker_after_sample(old(self).usage_tracker, now)
                &&& exists|grouped: Seq<Terminal>, named: Seq<Terminal>, traced: Seq<Terminal>|
                    #[trigger] is_refreshed(
                        *old(self),
                        processes@,
                        self_pid,
                        platform,
                        sum_cpu,
                        now,
                        analyze,
                        *final(self),
                        grouped,
                        named,
                        traced,
                    )
            },
    {
        let processes = match sample {
            Ok(processes) => processes,
            Err(error) => {
                self.last_error = Some(error);
                return false;
            },
        };
        let selected_tty = if self.selected < self.terminals.len() {
            Some(self.terminals[self.selected].tty.clone())
        } else {
            None
        };
        let (ghostty, mut terminals) = aggregate(
            processes.as_slice(),
            self_pid,
            platform,
            sum_cpu,
        );
        let ghost grouped = terminals@;
        name_terminals(&mut terminals, &self.labels);
        let ghost named = terminals@;
        self.update_memory_trends(&mut terminals, now, analyze);
        let ghost traced = terminals@;
        sort_terminals(&mut terminals, self.sort, self.descending);
        self.ghostty = ghostty;
        self.terminals = terminals;
        let last: usize = self.terminals.len().saturating_sub(1);
        let row: usize = if self.selected > last {
            last
        } else {
            self.selected
        };
        self.selected = match selected_tty {
            Some(tty) => match find_tty(&self.terminals, tty.as_str()) {
                Some(index) => index,
                None => row,
            },
            None => row,
        };
        self.last_error = None;
        let record: bool = match self.usage_tracker.take() {
            Some(mut tracker) => {
                let due: bool = tracker.capture_resources(now);
                self.usage_tracker = Some(tracker);
                due
            },
            None => false,
        };
        assert(is_refreshed(
            *old(self),
            processes@,
            self_pid,
            platform,
            sum_cpu,
            now,
            analyze,
            *self,
            grouped,
            named,
            traced,
        ));
        record
    }

    /// Takes one sample of every terminal's memory and notes on the terminals
    /// what their samples tell.
    pub fn update_memory_trends<G: Fn(&VecDeque<(u64, u64)>) -> MemoryTrend>(
        &mut self,
        terminals: &mut Vec<Terminal>,
        now: u64,
        analyze: G,
    )
        requires
            forall|samples: &VecDeque<(u64, u64)>| #[trigger] call_requires(analyze, (samples,)),
        ensures
            final(terminals)@.len() == old(terminals)@.len(),
            *final(self) == (App { memory_history: final(self).memory_history, ..*old(self) }),
            memory::are_steps(
                memory::still_open(old(self).memory_history@, old(terminals)@),
                final(self).memory_history@,
                old(terminals)@,
                final(terminals)@,
                now,
                analyze,
                old(terminals)@.len() as int,
            ),
    {
        update_trends(&mut self.memory_history, terminals, now, analyze);
    }

    /// The ttys of the terminals with the pids of their shells.
    pub fn shells(&self) -> (shells: Vec<(String, i32)>)
        ensures
            labels::shells_of(shells@) == self.terminals@.map_values(
                |terminal: Terminal| (terminal.tty@, labels::shell_of(terminal)),
            ),
    {
        let ghost all = self.terminals@.map_values(
            |terminal: Terminal| (terminal.tty@, labels::shell_of(terminal)),
        );
        let mut shells: Vec<(String, i32)> = Vec::new();
        let mut i: usize = 0;
        while i < self.terminals.len()
            invariant
                i <= self.terminals@.len(),
                all == self.terminals@.map_values(
                    |terminal: Terminal| (terminal.tty@, labels::shell_of(terminal)),
                ),
                labels::shells_of(shells@) =~= all.take(i as int),
            decreases self.terminals@.len() - i,
        {
            let terminal = &self.terminals[i];
            let ghost before = shells@;
            shells.push((terminal.tty.clone(), shell_pid(terminal)));
            proof {
                assert(labels::shells_of(shells@) =~= labels::shells_of(before).push(
                    (terminal.tty@, labels::shell_of(*terminal)),
                ));
                assert(all.take(i + 1) =~= all.take(i as int).push(all[i as int]));
            }
            i += 1;
        }
        assert(labels::shells_of(shells@) =~= all);
        shells
    }

    /// Takes in what has come of the search for tab names, and gives the shells
    /// to search the names of where the next search is to be started.
    pub fn poll_labels(&mut self, now: u64, reply: LabelReply) -> (shells: Option<Vec<(String, i32)>>)
        requires
            now + TAB_LABEL_REFRESH <= u64::MAX,
        ensures
            *final(self) == (App { labels: final(self).labels, ..*old(self) }),
            ({
                let before = old(self).labels;
                let after = final(self).labels;
                let waits = before.pending && reply is Waiting;
                &&& after.by_tty@ == (match reply {
                    LabelReply::Found(labels) if before.pending => labels@,
                    _ => before.by_tty@,
                })
                &&& after.next_refresh == (if before.pending && !waits {
                    Some((now + TAB_LABEL_REFRESH) as u64)
                } else {
                    before.next_refresh
                })
                &&& shells is Some <==> !waits && old(self).terminals@.len() > 0 && labels::is_stale(
                    after.next_refresh,
                    now,
                )
                &&& after.pending == (waits || shells is Some)
            }),
            shells matches Some(list) ==> labels::shells_of(list@) == old(self).terminals@.map_values(
                |terminal: Terminal| (terminal.tty@, labels::shell_of(terminal)),
            ),
    {
        let shells = self.shells();
        assert(labels::shells_of(shells@).len() == shells@.len());
        if self.labels.poll(now, shells.len() > 0, reply) {
            Some(shells)
        } else {
            None
        }
    }

    /// Begins to follow the focused tab.
    pub fn enable_usage_tracking(&mut self, tracker: UsageTracker)
        ensures
            *final(self) == (App { usage_tracker: Some(tracker), ..*old(self) }),
    {
        self.usage_tracker = Some(tracker);
    }

    /// Moves on what is followed of the focused tab, where it is followed.
    pub fn track_usage(
        &mut self,
        platform: Platform,
        now: u64,
        day: Option<String>,
        focus: FocusReply,
        inventory: InventoryReply,
        has_file: bool,
    ) -> (outcome: Option<TickOutcome>)
        requires
            tracker::can_wait(now),
        ensures
            *final(self) == (App { usage_tracker: final(self).usage_tracker, ..*old(self) }),
            outcome is Some <==> old(self).usage_tracker is Some,
            final(self).usage_tracker is Some <==> old(self).usage_tracker is Some,
            outcome matches Some(done) ==> tracker::is_tick(
                old(self).usage_tracker.unwrap(),
                platform,
                now,
                day,
                focus,
                inventory,
                has_file,
                final(self).usage_tracker.unwrap(),
                done,
            ),
    {
        match self.usage_tracker.take() {
            Some(mut tracker) => {
                let outcome = tracker.tick(platform, now, day, focus, inventory, has_file);
                self.usage_tracker = Some(tracker);
                Some(outcome)
            },
            None => None,
        }
    }

    /// The contents to write to the usage history file before the program ends,
    /// where there is something to write.
    pub fn flush_usage(&mut self, has_file: bool) -> (contents: Option<String>)
        ensures
            contents is Some <==> has_file && old(self).usage_tracker is Some && old(
                self,
            ).usage_tracker.unwrap().store.dirty,
            contents matches Some(text) ==> text@ == usage::history_text(
                old(self).usage_tracker.unwrap().store.days@,
            ),
            *final(self) == (App { usage_tracker: final(self).usage_tracker, ..*old(self) }),
            final(self).usage_tracker is Some <==> old(self).usage_tracker is Some,
            final(self).usage_tracker matches Some(tracker) ==> {
                let before = old(self).usage_tracker.unwrap();
                &&& tracker == (UsageTracker { store: tracker.store, ..before })
                &&& tracker.store.days@ == before.store.days@
                &&& tracker.store.dirty == (before.store.dirty && has_file)
            },
    {
        match self.usage_tracker.take() {
            Some(mut tracker) => {
                let contents = tracker.store.save(has_file);
                self.usage_tracker = Some(tracker);
                contents
            },
            None => None,
        }
    }
}

proof fn lemma_index_at(terminals: Seq<Terminal>, tty: Seq<char>)
    ensures
        index_at(terminals, tty) matches Some(i) ==> 0 <= i < terminals.len(),
    decreases terminals.len(),
{
    if terminals.len() > 0 {
        lemma_index_at(terminals.skip(1), tty);
    }
}

/// No sample takes the selection off the terminals.
pub proof fn law_samples_keep_the_selection(before: App, after: App)
    requires
        after.terminals@.len() <= usize::MAX,
        after.selected == selection_after(before, after.terminals@) as usize,
    ensures
        is_selection(after),
{
    if before.selected < before.terminals@.len() {
        lemma_index_at(after.terminals@, before.terminals@[before.selected as int].tty@);
    }
}

/// What a key leaves in the monitor: the column to sort by for its letter, the
/// calendar for `u`, the program's end for `q` and for an interrupt.
pub proof fn law_keys_of_the_monitor(before: App, key: u8, after: App)
    requires
        before.view == Screen::Monitor,
        is_result(before, key_effect(Screen::Monitor, before.terminals@.len(), Key::Char(key)), after),
    ensures
        key == 'c' as u8 ==> after.sort == SortBy::Cpu,
        key == 'm' as u8 ==> after.sort == SortBy::Memory,
        key == 'g' as u8 ==> after.sort == SortBy::Trend,
        key == 'p' as u8 ==> after.sort == SortBy::Processes,
        key == 'a' as u8 ==> after.sort == SortBy::Age,
        key == 'n' as u8 ==> after.sort == SortBy::Activity,
        key == 't' as u8 ==> after.sort == SortBy::Tab,
        key == 'r' as u8 ==> after.sort == before.sort && after.descending == !before.descending,
        key == 'u' as u8 ==> after == (App { view: Screen::Usage, ..before }),
        key == 'e' as u8 || key == '\n' as u8 || key == ' ' as u8 ==> after == (App {
            expanded: !before.expanded,
            ..before
        }),
        key == 'q' as u8 || key == 3 <==> key_effect(
            Screen::Monitor,
            before.terminals@.len(),
            Key::Char(key),
        ) is Quit,
        after.usage_scale == before.usage_scale,
        after.usage_tracker == before.usage_tracker,
{
}

/// In the calendar `u` leads back, `q` and an interrupt end the program, and no key
/// but the three for the scales changes the scale.
pub proof fn law_keys_of_the_calendar(before: App, key: u8, after: App)
    requires
        before.view == Screen::Usage,
        is_result(before, key_effect(Screen::Usage, before.terminals@.len(), Key::Char(key)), after),
    ensures
        key == 'u' as u8 ==> after == (App { view: Screen::Monitor, ..before }),
        key == 'q' as u8 || key == 3 <==> key_effect(
            Screen::Usage,
            before.terminals@.len(),
            Key::Char(key),
        ) is Quit,
        after.usage_scale != before.usage_scale ==> key == 'd' as u8 || key == 'w' as u8 || key
            == 'c' as u8,
{
}

/// The keys that move the selection: one row at a time, no further than the first
/// and the last terminal, or straight to them.
pub proof fn law_moving_keys(before: App, view: Screen, key: Key, after: App)
    requires
        is_selection(before),
        before.terminals@.len() <= usize::MAX,
        is_result(before, key_effect(view, before.terminals@.len(), key), after),
    ensures
        key == Key::Down || key == Key::Char('j' as u8) ==> after == (App {
            selected: if before.selected + 1 < before.terminals@.len() {
                (before.selected + 1) as usize
            } else {
                before.selected
            },
            ..before
        }),
        key == Key::Up || key == Key::Char('k' as u8) ==> after == (App {
            selected: if before.selected > 0 {
                (before.selected - 1) as usize
            } else {
                0
            },
            ..before
        }),
        key == Key::Home ==> after == (App { selected: 0, ..before }),
        key == Key::End && before.terminals@.len() > 0 ==> after == (App {
            selected: (before.terminals@.len() - 1) as usize,
            ..before
        }),
{
}

/// A column that is chosen anew shows the most first, but names from the start of
/// the alphabet.
pub proof fn law_new_columns_begin_with_the_most(before: App, sort: SortBy, after: App)
    requires
        before.sort != sort,
        is_result(before, Effect::Sort(sort), after),
    ensures
        after.sort == sort,
        after.descending <==> sort != SortBy::Tab,
        after.terminals@.len() == before.terminals@.len(),
{
}

/// The wheel moves the selection by three rows, within the terminals.
pub proof fn law_wheel(before: App, layout: Layout, mouse: MouseEvent, after: App)
    requires
        is_selection(before),
        before.terminals@.len() <= usize::MAX,
        before.view == Screen::Monitor,
        mouse.pressed,
        is_result(before, monitor_effect(before, layout, mouse), after),
    ensures
        mouse.button == 64 ==> after == (App {
            selected: if before.selected >= 3 {
                (before.selected - 3) as usize
            } else {
                0
            },
            ..before
        }),
        mouse.button == 65 && before.terminals@.len() > 0 ==> after == (App {
            selected: if before.selected + 3 < before.terminals@.len() {
                (before.selected + 3) as usize
            } else {
                (before.terminals@.len() - 1) as usize
            },
            ..before
        }),
        mouse.button != 0 && mouse.button != 64 && mouse.button != 65 ==> after == before,
{
}

/// A click on a target does what the target stands for: of those under the mouse
/// the first counts, and beside all of them a click does nothing.
pub proof fn law_clicks_find_their_target(zones: Seq<ClickZone>, mouse: MouseEvent, k: int)
    ensures
        0 <= k < zones.len() && is_under(zones[k], mouse) && (forall|i: int|
            0 <= i < k ==> !is_under(#[trigger] zones[i], mouse)) ==> effect_under(zones, mouse)
            == action_effect(zones[k].action),
        (forall|i: int| 0 <= i < zones.len() ==> !is_under(#[trigger] zones[i], mouse))
            ==> effect_under(zones, mouse) is Nothing,
    decreases zones.len(),
{
    if zones.len() > 0 {
        let rest = zones.skip(1);
        assert forall|i: int| 0 <= i < rest.len() implies #[trigger] rest[i] == zones[i + 1] by {}
        law_clicks_find_their_target(rest, mouse, k - 1);
        if !is_under(zones[0], mouse) {
            if 0 < k < zones.len() {
                assert(rest[k - 1] == zones[k]);
            }
        }
    }
}

/// Whether the mouse is on a target.
pub open spec fn is_under(zone: ClickZone, mouse: MouseEvent) -> bool {
    mouse.row == zone.row && zone.start_column <= mouse.column && mouse.column <= zone.end_column
}

/// What the targets stand for.
pub proof fn law_targets_do_what_they_say(action: ClickAction)
    ensures
        action matches ClickAction::Sort(sort) ==> action_effect(action) == Effect::Sort(sort),
        action is SelectPrevious ==> action_effect(action) == Effect::Move((-1) as isize),
        action is SelectNext ==> action_effect(action) == Effect::Move(1),
        action is ToggleExpand ==> action_effect(action) is ToggleExpand,
        action is ShowUsage ==> action_effect(action) == Effect::Show(Screen::Usage),
        action is ShowMonitor ==> action_effect(action) == Effect::Show(Screen::Monitor),
        action matches ClickAction::SetScale(scale) ==> action_effect(action) == Effect::SetScale(
            scale,
        ),
        action is Quit <==> action_effect(action) is Quit,
{
}

/// Pointing at a cell of the calendar names its day, and clicking it selects that
/// day; beside all cells there is no day.
pub proof fn law_pointing_names_the_day(cells: Seq<Cell>, mouse: MouseEvent, k: int)
    ensures
        0 <= k < cells.len() && is_over(cells[k], mouse) && (forall|i: int|
            0 <= i < k ==> !is_over(#[trigger] cells[i], mouse)) ==> day_under(cells, mouse)
            == Some(cells[k].day),
        (forall|i: int| 0 <= i < cells.len() ==> !is_over(#[trigger] cells[i], mouse)) ==> day_under(
            cells,
            mouse,
        ) is None,
    decreases cells.len(),
{
    if cells.len() > 0 {
        let rest = cells.skip(1);
        assert forall|i: int| 0 <= i < rest.len() implies #[trigger] rest[i] == cells[i + 1] by {}
        law_pointing_names_the_day(rest, mouse, k - 1);
        if !is_over(cells[0], mouse) {
            if 0 < k < cells.len() {
                assert(rest[k - 1] == cells[k]);
            }
        }
    }
}

/// Whether the mouse is over a cell.
pub open spec fn is_over(cell: Cell, mouse: MouseEvent) -> bool {
    mouse.row == cell.row && cell.start_column <= mouse.column && mouse.column <= cell.end_column
}

/// In the calendar the mouse hovers wherever it goes, and selects by its left
/// button alone. The monitor behind it stays as it is, unless a target is clicked.
pub proof fn law_calendar_mouse(
    before: App,
    layout: Layout,
    mouse: MouseEvent,
    after: App,
    day: Seq<char>,
)
    requires
        is_calendar_result(before, layout, mouse, after),
    ensures
        ({
            let found = day_under(screen::cells_of(layout.calendar_cells@), mouse);
            &&& text_of(after.hovered_day) == found
            &&& mouse.pressed && mouse.button == 0 && found == Some(day) ==> text_of(
                after.selected_day,
            ) == Some(day)
            &&& !(mouse.pressed && mouse.button == 0) || found is None ==> after.selected_day
                == before.selected_day
            &&& found is Some || !(mouse.pressed && mouse.button == 0) ==> after.terminals
                == before.terminals && after.selected == before.selected && after.view
                == before.view && after.usage_scale == before.usage_scale
        }),
{
}

/// The terminal that was selected stays selected in the next sample, wherever it
/// then stands; where it is gone, the selection stays in its row, or in the last.
pub proof fn law_selection_follows_its_terminal(before: App, terminals: Seq<Terminal>, k: int)
    requires
        before.selected < before.terminals@.len(),
        0 <= k < terminals.len(),
    ensures
        ({
            let tty = before.terminals@[before.selected as int].tty@;
            &&& terminals[k].tty@ == tty && (forall|i: int|
                0 <= i < k ==> (#[trigger] terminals[i]).tty@ != tty) ==> selection_after(
                before,
                terminals,
            ) == k
            &&& (forall|i: int|
                0 <= i < terminals.len() ==> (#[trigger] terminals[i]).tty@ != tty)
                ==> selection_after(before, terminals) == (if before.selected < terminals.len() {
                before.selected as int
            } else {
                terminals.len() - 1
            })
        }),
{
    lemma_first_at(terminals, before.terminals@[before.selected as int].tty@, k);
}

proof fn lemma_first_at(terminals: Seq<Terminal>, tty: Seq<char>, k: int)
    ensures
        0 <= k < terminals.len() && terminals[k].tty@ == tty && (forall|i: int|
            0 <= i < k ==> (#[trigger] terminals[i]).tty@ != tty) ==> index_at(terminals, tty)
            == Some(k),
        (forall|i: int| 0 <= i < terminals.len() ==> (#[trigger] terminals[i]).tty@ != tty)
            ==> index_at(terminals, tty) is None,
    decreases terminals.len(),
{
    if terminals.len() > 0 {
        let rest = terminals.skip(1);
        assert forall|i: int| 0 <= i < rest.len() implies #[trigger] rest[i] == terminals[i
            + 1] by {}
        lemma_first_at(rest, tty, k - 1);
        if terminals[0].tty@ != tty {
            if 0 < k < terminals.len() {
                assert(rest[k - 1] == terminals[k]);
            }
        }
    }
}

/// A new sample shows its terminals, each under the label found for its tty, and
/// Ghostty itself apart; it leaves the view, the order, the calendar and what is
/// selected there alone, and takes back an earlier error.
pub proof fn law_samples_are_shown<
    F: Fn(&Vec<Process>) -> CpuShare,
    G: Fn(&VecDeque<(u64, u64)>) -> MemoryTrend,
>(
    before: App,
    processes: Seq<Process>,
    self_pid: i32,
    platform: Platform,
    sum_cpu: F,
    now: u64,
    analyze: G,
    after: App,
    grouped: Seq<Terminal>,
    named: Seq<Terminal>,
    traced: Seq<Terminal>,
    i: int,
)
    requires
        is_refreshed(
            before,
            processes,
            self_pid,
            platform,
            sum_cpu,
            now,
            analyze,
            after,
            grouped,
            named,
            traced,
        ),
        0 <= i < grouped.len(),
    ensures
        after.ghostty == grouping::ghostty_of(processes),
        after.last_error is None,
        after.view == before.view,
        after.sort == before.sort,
        after.descending == before.descending,
        after.expanded == before.expanded,
        after.usage_scale == before.usage_scale,
        after.hovered_day == before.hovered_day,
        after.selected_day == before.selected_day,
        after.terminals@.len() == grouped.len(),
        named[i].tty == grouped[i].tty,
        named[i].rss_kib == grouped[i].rss_kib,
        named[i].processes == grouped[i].processes,
        before.labels.by_tty@.dom().contains(grouped[i].tty@) ==> named[i].label@
            == before.labels.by_tty@[grouped[i].tty@],
        !before.labels.by_tty@.dom().contains(grouped[i].tty@) ==> named[i].label@
            == grouped[i].tty@,
        after.terminals@.contains(traced[i]),
{
    terminals::law_sorting_keeps_every_terminal(
        traced,
        after.terminals@,
        before.sort,
        before.descending,
        traced[i],
    );
}

/// Resources are recorded every five minutes.
pub proof fn law_resources_are_recorded(tracker: UsageTracker, now: u64)
    requires
        tracker::can_wait(now),
    ensures
        resources_due(Some(tracker), now) <==> now >= tracker.next_resource_history,
        resources_due(Some(tracker), now) ==> tracker_after_sample(Some(tracker), now) == Some(
            UsageTracker { next_resource_history: (now + 300_000_000_000) as u64, ..tracker },
        ),
        !resources_due(Some(tracker), now) ==> tracker_after_sample(Some(tracker), now) == Some(
            tracker,
        ),
        !resources_due(None, now),
{
}

/// The mouse ends the program only by a click of its left button on a target that
/// says so; where no other target lies above it, such a click does end it.
pub proof fn law_quitting_by_mouse(app: App, layout: Layout, mouse: MouseEvent, k: int)
    ensures
        quits(app, layout, mouse) ==> mouse.pressed && mouse.button == 0 && exists|i: int|
            0 <= i < layout.zones@.len() && is_under(#[trigger] layout.zones@[i], mouse)
                && layout.zones@[i].action is Quit,
        mouse.pressed && mouse.button == 0 && 0 <= k < layout.zones@.len() && is_under(
            layout.zones@[k],
            mouse,
        ) && layout.zones@[k].action is Quit && (forall|i: int|
            0 <= i < k ==> !is_under(#[trigger] layout.zones@[i], mouse)) ==> {
            &&& app.view == Screen::Monitor && !is_on_terminal(layout, mouse) ==> quits(
                app,
                layout,
                mouse,
            )
            &&& app.view == Screen::Usage && day_under(
                screen::cells_of(layout.calendar_cells@),
                mouse,
            ) is None ==> quits(app, layout, mouse)
        },
{
    lemma_quit_target(layout.zones@, mouse);
    law_clicks_find_their_target(layout.zones@, mouse, k);
}

proof fn lemma_quit_target(zones: Seq<ClickZone>, mouse: MouseEvent)
    ensures
        effect_under(zones, mouse) is Quit ==> exists|i: int|
            0 <= i < zones.len() && is_under(#[trigger] zones[i], mouse) && zones[i].action is Quit,
    decreases zones.len(),
{
    if zones.len() > 0 && effect_under(zones, mouse) is Quit {
        if zones[0].holds(mouse) {
            assert(is_under(zones[0], mouse));
        } else {
            let rest = zones.skip(1);
            lemma_quit_target(rest, mouse);
            let i = choose|i: int|
                0 <= i < rest.len() && is_under(#[trigger] rest[i], mouse)
                    && rest[i].action is Quit;
            assert(zones[i + 1] == rest[i]);
        }
    }
}

} // verus!
