//! Styles, click targets and the lines that hold them.
use vstd::prelude::*;
use vstd::string::*;
use crate::chart::UsageScale;
use crate::columns;
use crate::columns::{ESCAPE, RESET, fit_to_width};
use crate::input::MouseEvent;
use crate::number;
use crate::number::parse_usize;
use crate::terminals::SortBy;
use crate::text;
use crate::text::split_words;

verus! {

pub const GREEN: &'static str = "\x1b[38;5;114m";

pub const CYAN: &'static str = "\x1b[38;5;81m";

pub const YELLOW: &'static str = "\x1b[38;5;221m";

pub const DIM: &'static str = "\x1b[2m";

pub const BOLD: &'static str = "\x1b[1m";

pub const SELECTED: &'static str = "\x1b[48;5;236m";

pub const UNDERLINE: &'static str = "\x1b[4m";

pub const RED: &'static str = "\x1b[38;5;203m";

pub const WARNING: &'static str = "\x1b[48;5;52m\x1b[38;5;231m";

pub const ACTIVE_HEADER: &'static str = "\x1b[1;38;5;232;48;5;114m";

pub const CALENDAR_BLOCK: &'static str = "\u{25a0}";

/// Highlights recolour the square rather than filling its cell: a background
/// would cover the gap beside the glyph too.
pub const CALENDAR_HOVER: &'static str = "\x1b[1;38;5;159m";

pub const CALENDAR_SELECTED: &'static str = "\x1b[1;38;5;231m";

/// What a click does.
#[derive(Clone, Copy, Debug, PartialEq, Eq, Structural)]
pub enum ClickAction {
    Sort(SortBy),
    SelectPrevious,
    SelectNext,
    ToggleExpand,
    ShowUsage,
    ShowMonitor,
    Quit,
    SetScale(UsageScale),
}

/// Part of a line that can be clicked. Rows and columns count from 1, and both
/// ends belong to it.
#[derive(Clone, Copy, Debug, PartialEq, Eq, Structural)]
pub struct ClickZone {
    pub start_column: usize,
    pub end_column: usize,
    pub row: usize,
    pub action: ClickAction,
}

/// Part of a line that stands for a day.
#[derive(Debug)]
pub struct CalendarCell {
    pub start_column: usize,
    pub end_column: usize,
    pub row: usize,
    pub day: String,
}

/// Where things are on a frame.
#[derive(Debug)]
pub struct Layout {
    pub terminal_start_row: usize,
    pub shown_start: usize,
    pub shown_count: usize,
    pub calendar_cells: Vec<CalendarCell>,
    pub zones: Vec<ClickZone>,
}

impl Default for Layout {
    fn default() -> (layout: Self)
        ensures
            layout.terminal_start_row == 0,
            layout.shown_start == 0,
            layout.shown_count == 0,
            layout.calendar_cells@.len() == 0,
            layout.zones@.len() == 0,
    {
        Layout {
            terminal_start_row: 0,
            shown_start: 0,
            shown_count: 0,
            calendar_cells: Vec::new(),
            zones: Vec::new(),
        }
    }
}

impl ClickZone {
    /// Whether a mouse event lies in the zone.
    pub open spec fn holds(self, mouse: MouseEvent) -> bool {
        mouse.row == self.row && self.start_column <= mouse.column <= self.end_column
    }

    /// Whether a mouse event lies in the zone.
    pub fn contains(&self, mouse: &MouseEvent) -> (inside: bool)
        ensures
            inside == self.holds(*mouse),
    {
        mouse.row == self.row && mouse.column >= self.start_column && mouse.column
            <= self.end_column
    }
}

/// A day's part of a line as plain values: columns, row and day.
pub struct Cell {
    pub start_column: usize,
    pub end_column: usize,
    pub row: usize,
    pub day: Seq<char>,
}

impl View for CalendarCell {
    type V = Cell;

    open spec fn view(&self) -> Cell {
        Cell {
            start_column: self.start_column,
            end_column: self.end_column,
            row: self.row,
            day: self.day@,
        }
    }
}

/// Some cells as plain values.
pub open spec fn cells_of(cells: Seq<CalendarCell>) -> Seq<Cell> {
    cells.map_values(|cell: CalendarCell| cell@)
}

/// The smaller of two columns.
pub open spec fn least(a: usize, b: usize) -> usize {
    if a <= b {
        a
    } else {
        b
    }
}

/// The zones that begin within `width` columns, each cut at the edge.
pub open spec fn zones_within(zones: Seq<ClickZone>, width: usize) -> Seq<ClickZone>
    decreases zones.len(),
{
    if zones.len() == 0 {
        seq![]
    } else {
        let before = zones_within(zones.drop_last(), width);
        let zone = zones.last();
        if zone.start_column <= width {
            before.push(ClickZone { end_column: least(zone.end_column, width), ..zone })
        } else {
            before
        }
    }
}

/// The cells that begin within `width` columns, each cut at the edge.
pub open spec fn cells_within(cells: Seq<Cell>, width: usize) -> Seq<Cell>
    decreases cells.len(),
{
    if cells.len() == 0 {
        seq![]
    } else {
        let before = cells_within(cells.drop_last(), width);
        let cell = cells.last();
        if cell.start_column <= width {
            before.push(Cell { end_column: least(cell.end_column, width), ..cell })
        } else {
            before
        }
    }
}

/// Drops click targets the frame has no room to draw and clamps the rest to the
/// visible edge, so no target sits where the user cannot reach it.
pub fn fit_targets(layout: &mut Layout, width: usize)
    ensures
        final(layout).zones@ == zones_within(old(layout).zones@, width),
        cells_of(final(layout).calendar_cells@) == cells_within(
            cells_of(old(layout).calendar_cells@),
            width,
        ),
        final(layout).terminal_start_row == old(layout).terminal_start_row,
        final(layout).shown_start == old(layout).shown_start,
        final(layout).shown_count == old(layout).shown_count,
{
    let ghost zones = layout.zones@;
    let mut kept: Vec<ClickZone> = Vec::new();
    let mut i: usize = 0;
    assert(zones.take(0) =~= seq![]);
    while i < layout.zones.len()
        invariant
            i <= layout.zones@.len(),
            zones == layout.zones@,
            *layout == *old(layout),
            kept@ == zones_within(zones.take(i as int), width),
        decreases layout.zones@.len() - i,
    {
        assert(zones.take(i + 1).drop_last() =~= zones.take(i as int));
        let zone = layout.zones[i];
        if zone.start_column <= width {
            let end_column: usize = if zone.end_column <= width {
                zone.end_column
            } else {
                width
            };
            kept.push(ClickZone { end_column, ..zone });
        }
        i += 1;
    }
    assert(zones.take(zones.len() as int) =~= zones);
    let ghost cells = cells_of(layout.calendar_cells@);
    let mut kept_cells: Vec<CalendarCell> = Vec::new();
    let mut k: usize = 0;
    assert(cells.take(0) =~= seq![]);
    while k < layout.calendar_cells.len()
        invariant
            k <= layout.calendar_cells@.len(),
            cells == cells_of(layout.calendar_cells@),
            *layout == *old(layout),
            cells_of(kept_cells@) == cells_within(cells.take(k as int), width),
        decreases layout.calendar_cells@.len() - k,
    {
        let ghost before = cells_of(kept_cells@);
        proof {
            assert(cells.take(k + 1).drop_last() =~= cells.take(k as int));
            assert(cells.take(k + 1).last() == layout.calendar_cells@[k as int]@);
        }
        let cell = &layout.calendar_cells[k];
        if cell.start_column <= width {
            let end_column: usize = if cell.end_column <= width {
                cell.end_column
            } else {
                width
            };
            kept_cells.push(
                CalendarCell {
                    start_column: cell.start_column,
                    end_column,
                    row: cell.row,
                    day: cell.day.clone(),
                },
            );
            assert(cells_of(kept_cells@) =~= before.push(kept_cells@.last()@));
        }
        k += 1;
    }
    assert(cells.take(cells.len() as int) =~= cells);
    layout.zones = kept;
    layout.calendar_cells = kept_cells;
}

/// Whether a target lies on a frame of so many rows, within its columns.
pub open spec fn is_on_frame(row: usize, start: usize, end: usize, rows: int, width: int) -> bool {
    1 <= row <= rows && 1 <= start <= end <= width
}

/// Whether a target lies on some row of a frame and is not empty.
pub open spec fn is_drawn(row: usize, start: usize, end: usize, rows: int) -> bool {
    1 <= row <= rows && 1 <= start <= end
}

/// Once the targets of a frame have been fitted, all of them can be reached.
pub proof fn law_fitted_zones_are_on_frame(zones: Seq<ClickZone>, rows: int, width: usize)
    requires
        forall|i: int|
            0 <= i < zones.len() ==> is_drawn(
                (#[trigger] zones[i]).row,
                zones[i].start_column,
                zones[i].end_column,
                rows,
            ),
    ensures
        forall|i: int|
            0 <= i < zones_within(zones, width).len() ==> is_on_frame(
                (#[trigger] zones_within(zones, width)[i]).row,
                zones_within(zones, width)[i].start_column,
                zones_within(zones, width)[i].end_column,
                rows,
                width as int,
            ),
    decreases zones.len(),
{
    if zones.len() > 0 {
        let before = zones.drop_last();
        assert forall|i: int| 0 <= i < before.len() implies is_drawn(
            (#[trigger] before[i]).row,
            before[i].start_column,
            before[i].end_column,
            rows,
        ) by {
            assert(before[i] == zones[i]);
        }
        law_fitted_zones_are_on_frame(before, rows, width);
        assert(is_drawn(
            zones[zones.len() - 1].row,
            zones[zones.len() - 1].start_column,
            zones[zones.len() - 1].end_column,
            rows,
        ));
        let kept = zones_within(zones, width);
        let earlier = zones_within(before, width);
        assert forall|i: int| 0 <= i < kept.len() implies is_on_frame(
            (#[trigger] kept[i]).row,
            kept[i].start_column,
            kept[i].end_column,
            rows,
            width as int,
        ) by {
            if i < earlier.len() {
                assert(kept[i] == earlier[i]);
            }
        }
    }
}

/// Once the cells of a frame have been fitted, all of them can be reached.
pub proof fn law_fitted_cells_are_on_frame(cells: Seq<Cell>, rows: int, width: usize)
    requires
        forall|i: int|
            0 <= i < cells.len() ==> is_drawn(
                (#[trigger] cells[i]).row,
                cells[i].start_column,
                cells[i].end_column,
                rows,
            ),
    ensures
        forall|i: int|
            0 <= i < cells_within(cells, width).len() ==> is_on_frame(
                (#[trigger] cells_within(cells, width)[i]).row,
                cells_within(cells, width)[i].start_column,
                cells_within(cells, width)[i].end_column,
                rows,
                width as int,
            ),
    decreases cells.len(),
{
    if cells.len() > 0 {
        let before = cells.drop_last();
        assert forall|i: int| 0 <= i < before.len() implies is_drawn(
            (#[trigger] before[i]).row,
            before[i].start_column,
            before[i].end_column,
            rows,
        ) by {
            assert(before[i] == cells[i]);
        }
        law_fitted_cells_are_on_frame(before, rows, width);
        assert(is_drawn(
            cells[cells.len() - 1].row,
            cells[cells.len() - 1].start_column,
            cells[cells.len() - 1].end_column,
            rows,
        ));
        let kept = cells_within(cells, width);
        let earlier = cells_within(before, width);
        assert forall|i: int| 0 <= i < kept.len() implies is_on_frame(
            (#[trigger] kept[i]).row,
            kept[i].start_column,
            kept[i].end_column,
            rows,
            width as int,
        ) by {
            if i < earlier.len() {
                assert(kept[i] == earlier[i]);
            }
        }
    }
}

/// Adds a line to a frame.
pub fn push_line(lines: &mut Vec<String>, line: String)
    ensures
        text::texts(final(lines)@) == text::texts(old(lines)@).push(line@),
        final(lines)@.len() == old(lines)@.len() + 1,
{
    let ghost before = text::texts(lines@);
    lines.push(line);
    assert(text::texts(lines@) =~= before.push(line@));
}

/// Lines cut to the width of the terminal.
pub open spec fn fitted_lines(lines: Seq<Seq<char>>, width: int) -> Seq<Seq<char>> {
    lines.map_values(|line: Seq<char>| columns::fitted(line, width))
}

/// Cuts every line to the width of the terminal.
pub fn fit_lines(lines: &Vec<String>, width: usize) -> (fitted: Vec<String>)
    ensures
        text::texts(fitted@) == fitted_lines(text::texts(lines@), width as int),
{
    let ghost all = fitted_lines(text::texts(lines@), width as int);
    let mut fitted: Vec<String> = Vec::new();
    let mut i: usize = 0;
    while i < lines.len()
        invariant
            i <= lines@.len(),
            all == fitted_lines(text::texts(lines@), width as int),
            text::texts(fitted@) =~= all.take(i as int),
        decreases lines@.len() - i,
    {
        let ghost before = text::texts(fitted@);
        fitted.push(fit_to_width(lines[i].as_str(), width));
        proof {
            assert(text::texts(fitted@) =~= before.push(all[i as int]));
            assert(all.take(i + 1) =~= all.take(i as int).push(all[i as int]));
        }
        i += 1;
    }
    assert(text::texts(fitted@) =~= all);
    fitted
}

/// No line of a fitted frame is wider than the terminal.
pub proof fn law_no_line_is_wider(lines: Seq<Seq<char>>, width: int, i: int)
    requires
        width >= 0,
        0 <= i < lines.len(),
    ensures
        columns::visible(fitted_lines(lines, width)[i]).len() <= width,
{
    columns::law_clipping(lines[i], width);
}

/// What separates the segments of a hint.
pub const HINT_SEPARATOR: &'static str = "  \u{b7}  ";

/// The first `n` segments of a hint.
pub open spec fn hint_body(segments: Seq<(&str, Option<ClickAction>)>, n: int) -> Seq<char>
    decreases n,
{
    if n <= 0 {
        seq![]
    } else if n == 1 {
        segments[0].0@
    } else {
        hint_body(segments, n - 1) + HINT_SEPARATOR@ + segments[n - 1].0@
    }
}

/// The column that segment `n` of a hint begins in.
pub open spec fn hint_column(segments: Seq<(&str, Option<ClickAction>)>, n: int) -> int
    decreases n,
{
    if n <= 0 {
        1
    } else {
        hint_column(segments, n - 1) + segments[n - 1].0@.len() + HINT_SEPARATOR@.len()
    }
}

/// The column behind the first `n` segments of a hint.
pub open spec fn hint_end(segments: Seq<(&str, Option<ClickAction>)>, n: int) -> int {
    if n <= 0 {
        1
    } else {
        hint_column(segments, n - 1) + segments[n - 1].0@.len()
    }
}

/// A hint: its segments, dimmed.
pub open spec fn hint_text(segments: Seq<(&str, Option<ClickAction>)>) -> Seq<char> {
    DIM@ + hint_body(segments, segments.len() as int) + RESET@
}

/// The click targets of the first `n` segments of a hint.
pub open spec fn hint_zones(
    segments: Seq<(&str, Option<ClickAction>)>,
    row: usize,
    n: int,
) -> Seq<ClickZone>
    decreases n,
{
    if n <= 0 {
        seq![]
    } else {
        let before = hint_zones(segments, row, n - 1);
        let (label, action) = segments[n - 1];
        let column = hint_column(segments, n - 1);
        match action {
            Some(action) => before.push(
                ClickZone {
                    start_column: column as usize,
                    end_column: (column + label@.len() - 1) as usize,
                    row,
                    action,
                },
            ),
            None => before,
        }
    }
}

/// Later segments of a hint begin further right.
pub proof fn lemma_hint_columns(segments: Seq<(&str, Option<ClickAction>)>, n: int, m: int)
    requires
        n <= m,
    ensures
        1 <= hint_column(segments, n) <= hint_column(segments, m),
    decreases m,
{
    if m > 0 {
        if n < m {
            lemma_hint_columns(segments, n, m - 1);
        } else {
            lemma_hint_columns(segments, n - 1, m - 1);
        }
    }
}

/// No segment of a hint ends behind the last one.
pub proof fn lemma_segment_ends(segments: Seq<(&str, Option<ClickAction>)>, i: int, n: int)
    requires
        0 <= i < n <= segments.len(),
    ensures
        hint_column(segments, i) + segments[i].0@.len() <= hint_end(segments, n),
{
    if i < n - 1 {
        lemma_hint_columns(segments, i + 1, n - 1);
    }
}

/// The single dim line at the bottom of a view. Segments that name an action are
/// also click targets.
pub fn hint_line(row: usize, segments: &[(&str, Option<ClickAction>)]) -> (hint: (
    String,
    Vec<ClickZone>,
))
    requires
        hint_end(segments@, segments@.len() as int) <= usize::MAX,
    ensures
        hint.0@ == hint_text(segments@),
        hint.1@ == hint_zones(segments@, row, segments@.len() as int),
{
    let mut line = DIM.to_owned();
    let mut column: usize = 1;
    let mut zones: Vec<ClickZone> = Vec::new();
    let mut i: usize = 0;
    let gap: usize = HINT_SEPARATOR.unicode_len();
    assert(line@ =~= DIM@ + hint_body(segments@, 0));
    while i < segments.len()
        invariant
            i <= segments@.len(),
            hint_end(segments@, segments@.len() as int) <= usize::MAX,
            gap == HINT_SEPARATOR@.len(),
            line@ == DIM@ + hint_body(segments@, i as int),
            column == hint_end(segments@, i as int),
            zones@ == hint_zones(segments@, row, i as int),
        decreases segments@.len() - i,
    {
        let (label, action) = segments[i];
        let ghost before = line@;
        let length: usize = label.unicode_len();
        proof {
            lemma_hint_columns(segments@, i as int, segments@.len() - 1);
            if i + 1 < segments@.len() {
                lemma_hint_columns(segments@, i + 1, segments@.len() - 1);
            }
        }
        if i > 0 {
            line.append(HINT_SEPARATOR);
            column += gap;
        }
        assert(column == hint_column(segments@, i as int));
        line.append(label);
        proof {
            if i == 0 {
                assert(line@ =~= DIM@ + label@);
            } else {
                assert(line@ =~= DIM@ + (hint_body(segments@, i as int) + HINT_SEPARATOR@ + label@));
            }
        }
        match action {
            Some(action) => {
                zones.push(
                    ClickZone {
                        start_column: column,
                        end_column: column + length - 1,
                        row,
                        action,
                    },
                );
            },
            None => {},
        }
        column += length;
        i += 1;
    }
    line.append(RESET);
    (line, zones)
}

/// The styles put nothing on the screen.
pub proof fn lemma_styles()
    ensures
        columns::visible(DIM@) == Seq::<char>::empty() && columns::is_complete(DIM@),
        columns::visible(BOLD@) == Seq::<char>::empty() && columns::is_complete(BOLD@),
        columns::visible(UNDERLINE@) == Seq::<char>::empty() && columns::is_complete(UNDERLINE@),
        columns::visible(RESET@) == Seq::<char>::empty() && columns::is_complete(RESET@),
        columns::visible(ACTIVE_HEADER@) == Seq::<char>::empty() && columns::is_complete(
            ACTIVE_HEADER@,
        ),
{
    reveal_strlit("\x1b[2m");
    reveal_strlit("\x1b[1m");
    reveal_strlit("\x1b[4m");
    reveal_strlit("\x1b[0m");
    reveal_strlit("\x1b[1;38;5;232;48;5;114m");
    columns::lemma_one_escape(DIM@);
    columns::lemma_one_escape(BOLD@);
    columns::lemma_one_escape(UNDERLINE@);
    columns::lemma_one_escape(RESET@);
    columns::lemma_one_escape(ACTIVE_HEADER@);
}

/// Whether no segment of a hint has an escape.
pub open spec fn are_plain(segments: Seq<(&str, Option<ClickAction>)>) -> bool {
    forall|i: int| 0 <= i < segments.len() ==> columns::is_plain((#[trigger] segments[i]).0@)
}

proof fn lemma_hint_body(segments: Seq<(&str, Option<ClickAction>)>, n: int)
    requires
        are_plain(segments),
        0 <= n <= segments.len(),
    ensures
        columns::is_plain(hint_body(segments, n)),
        hint_body(segments, n).len() == hint_end(segments, n) - 1,
        forall|i: int|
            0 <= i < n ==> 1 <= #[trigger] hint_column(segments, i) && hint_column(segments, i) - 1
                + segments[i].0@.len() <= hint_body(segments, n).len() && hint_body(segments, n).subrange(
                hint_column(segments, i) - 1,
                hint_column(segments, i) - 1 + segments[i].0@.len(),
            ) == segments[i].0@,
    decreases n,
{
    reveal_strlit("  \u{b7}  ");
    if n == 1 {
        assert(segments[0].0@.subrange(0, segments[0].0@.len() as int) =~= segments[0].0@);
    } else if n > 1 {
        lemma_hint_body(segments, n - 1);
        let before = hint_body(segments, n - 1);
        let last = segments[n - 1].0@;
        let whole = hint_body(segments, n);
        assert(columns::is_plain(HINT_SEPARATOR@));
        assert(columns::is_plain(last));
        assert forall|i: int| 0 <= i < whole.len() implies #[trigger] whole[i] != ESCAPE by {
            if i < before.len() {
                assert(whole[i] == before[i]);
            } else if i < before.len() + 5 {
                assert(whole[i] == HINT_SEPARATOR@[i - before.len()]);
            } else {
                assert(whole[i] == last[i - before.len() - 5]);
            }
        }
        assert forall|i: int| 0 <= i < n implies 1 <= #[trigger] hint_column(segments, i)
            && hint_column(segments, i) - 1 + segments[i].0@.len() <= whole.len() && whole.subrange(
            hint_column(segments, i) - 1,
            hint_column(segments, i) - 1 + segments[i].0@.len(),
        ) == segments[i].0@ by {
            let from = hint_column(segments, i) - 1;
            if i < n - 1 {
                let to = from + segments[i].0@.len();
                assert(whole.subrange(from, to) =~= before.subrange(from, to));
            } else {
                assert(from == before.len() + 5);
                assert(whole.subrange(from, from + last.len()) =~= last);
            }
        }
    }
}

/// Every segment of a hint is seen in the columns from where it begins, counted
/// in characters.
pub proof fn law_hint_is_drawn_where_it_is_clicked(
    segments: Seq<(&str, Option<ClickAction>)>,
    i: int,
)
    requires
        are_plain(segments),
        0 <= i < segments.len(),
    ensures
        ({
            let seen = columns::visible(hint_text(segments));
            let from = hint_column(segments, i) - 1;
            let to = from + segments[i].0@.len();
            0 <= from <= to <= seen.len() && seen.subrange(from, to) == segments[i].0@
        }),
{
    let n = segments.len() as int;
    lemma_hint_body(segments, n);
    lemma_styles();
    let body = hint_body(segments, n);
    columns::lemma_plain(body);
    columns::lemma_visible_add(DIM@, body);
    columns::lemma_visible_add(DIM@ + body, RESET@);
    assert(columns::visible(hint_text(segments)) =~= body);
    assert(hint_column(segments, i) >= 1);
}

/// Every click target of a hint is that of one of its segments.
pub proof fn lemma_zone_of_segment(
    segments: Seq<(&str, Option<ClickAction>)>,
    row: usize,
    n: int,
    k: int,
) -> (i: int)
    requires
        0 <= n <= segments.len(),
        0 <= k < hint_zones(segments, row, n).len(),
    ensures
        0 <= i < n,
        segments[i].1 == Some(hint_zones(segments, row, n)[k].action),
        hint_zones(segments, row, n)[k].start_column == hint_column(segments, i) as usize,
        hint_zones(segments, row, n)[k].end_column == (hint_column(segments, i) + segments[i].0@.len()
            - 1) as usize,
        hint_zones(segments, row, n)[k].row == row,
    decreases n,
{
    let before = hint_zones(segments, row, n - 1);
    if k < before.len() {
        let i = lemma_zone_of_segment(segments, row, n - 1, k);
        assert(hint_zones(segments, row, n)[k] == before[k]);
        i
    } else {
        n - 1
    }
}

/// Every click target of a hint covers the text of its own segment.
pub proof fn law_hint_zones_cover_their_text(
    segments: Seq<(&str, Option<ClickAction>)>,
    row: usize,
    k: int,
)
    requires
        are_plain(segments),
        hint_end(segments, segments.len() as int) <= usize::MAX,
        0 <= k < hint_zones(segments, row, segments.len() as int).len(),
    ensures
        ({
            let zone = hint_zones(segments, row, segments.len() as int)[k];
            let seen = columns::visible(hint_text(segments));
            exists|i: int|
                {
                    &&& 0 <= i < segments.len()
                    &&& (#[trigger] segments[i]).1 == Some(zone.action)
                    &&& zone.row == row
                    &&& 1 <= zone.start_column
                    &&& zone.end_column <= seen.len()
                    &&& zone.start_column - 1 <= zone.end_column
                    &&& seen.subrange(zone.start_column - 1, zone.end_column as int)
                        == segments[i].0@
                }
        }),
{
    let n = segments.len() as int;
    let i = lemma_zone_of_segment(segments, row, n, k);
    law_hint_is_drawn_where_it_is_clicked(segments, i);
    lemma_hint_body(segments, n);
    lemma_styles();
    let body = hint_body(segments, n);
    columns::lemma_plain(body);
    columns::lemma_visible_add(DIM@, body);
    columns::lemma_visible_add(DIM@ + body, RESET@);
    assert(columns::visible(hint_text(segments)) =~= body);
    assert(segments[i].1 is Some);
}

/// The numbers among some words.
pub open spec fn numbers_among(words: Seq<Seq<char>>) -> Seq<usize>
    decreases words.len(),
{
    if words.len() == 0 {
        seq![]
    } else {
        let before = numbers_among(words.drop_last());
        match number::usize_of(words.last()) {
            Some(size) => before.push(size),
            None => before,
        }
    }
}

/// The rows and columns of the terminal: the first two numbers that `stty` tells,
/// with defaults for those it does not.
pub fn terminal_size(reply: Option<&str>) -> (size: (usize, usize))
    ensures
        ({
            let sizes = match reply {
                Some(reply) => numbers_among(text::words(reply@)),
                None => seq![],
            };
            &&& size.0 == (if sizes.len() > 0 {
                sizes[0]
            } else {
                24
            })
            &&& size.1 == (if sizes.len() > 1 {
                sizes[1]
            } else {
                100
            })
        }),
{
    let mut sizes: Vec<usize> = Vec::new();
    match reply {
        Some(reply) => {
            let words = split_words(reply);
            let ghost all = text::texts(words@);
            let mut i: usize = 0;
            assert(all.take(0) =~= seq![]);
            while i < words.len()
                invariant
                    i <= words@.len(),
                    all == text::texts(words@),
                    sizes@ == numbers_among(all.take(i as int)),
                decreases words@.len() - i,
            {
                proof {
                    assert(all.take(i + 1).drop_last() =~= all.take(i as int));
                    assert(all.take(i + 1).last() == words@[i as int]@);
                }
                match parse_usize(words[i].as_str()) {
                    Some(size) => {
                        sizes.push(size);
                    },
                    None => {},
                }
                i += 1;
            }
            assert(all.take(all.len() as int) =~= all);
        },
        None => {},
    }
    let rows: usize = if sizes.len() > 0 {
        sizes[0]
    } else {
        24
    };
    let columns: usize = if sizes.len() > 1 {
        sizes[1]
    } else {
        100
    };
    (rows, columns)
}

/// A target that begins within the width is kept, cut off at the width; one that
/// begins beyond it goes, and no other comes.
pub proof fn law_targets_are_cut_off(zones: Seq<ClickZone>, width: usize, zone: ClickZone)
    ensures
        zones.contains(zone) && zone.start_column <= width ==> zones_within(zones, width).contains(
            ClickZone {
                end_column: if zone.end_column > width {
                    width
                } else {
                    zone.end_column
                },
                ..zone
            },
        ),
        zones_within(zones, width).contains(zone) ==> zone.start_column <= width && zone.end_column
            <= width && exists|i: int|
            0 <= i < zones.len() && (#[trigger] zones[i]).start_column == zone.start_column
                && zones[i].row == zone.row && zones[i].action == zone.action && zones[i].end_column
                >= zone.end_column,
        (forall|i: int|
            0 <= i < zones.len() ==> (#[trigger] zones[i]).end_column <= width
                && zones[i].start_column <= width) ==> zones_within(zones, width) == zones,
    decreases zones.len(),
{
    if zones.len() > 0 {
        let front = zones.drop_last();
        let kept = zones_within(front, width);
        let all = zones_within(zones, width);
        let last = zones.last();
        law_targets_are_cut_off(front, width, zone);
        let cut = ClickZone { end_column: least(zone.end_column, width), ..zone };
        if zones.contains(zone) && zone.start_column <= width {
            let i = zones.index_of(zone);
            if i < front.len() {
                assert(front[i] == zone);
                let j = kept.index_of(cut);
                assert(all[j] == cut);
            } else {
                assert(all.last() == cut);
            }
        }
        if all.contains(zone) {
            let j = all.index_of(zone);
            if j < kept.len() {
                assert(kept[j] == zone);
                let i = choose|i: int|
                    0 <= i < front.len() && (#[trigger] front[i]).start_column == zone.start_column
                        && front[i].row == zone.row && front[i].action == zone.action
                        && front[i].end_column >= zone.end_column;
                assert(zones[i] == front[i]);
            } else {
                assert(zones[zones.len() - 1] == last);
            }
        }
        if forall|i: int|
            0 <= i < zones.len() ==> (#[trigger] zones[i]).end_column <= width
                && zones[i].start_column <= width {
            assert forall|i: int| 0 <= i < front.len() implies (#[trigger] front[i]).end_column
                <= width && front[i].start_column <= width by {
                assert(front[i] == zones[i]);
            }
            assert(zones[zones.len() - 1] == last);
            assert(all =~= zones);
        }
    }
}

/// A cell that begins within the width is kept, cut off at the width; one that
/// begins beyond it goes, and no other comes.
pub proof fn law_cells_are_cut_off(cells: Seq<Cell>, width: usize, cell: Cell)
    ensures
        cells.contains(cell) && cell.start_column <= width ==> cells_within(cells, width).contains(
            Cell {
                end_column: if cell.end_column > width {
                    width
                } else {
                    cell.end_column
                },
                ..cell
            },
        ),
        cells_within(cells, width).contains(cell) ==> cell.start_column <= width && cell.end_column
            <= width && exists|i: int|
            0 <= i < cells.len() && (#[trigger] cells[i]).start_column == cell.start_column
                && cells[i].row == cell.row && cells[i].day == cell.day && cells[i].end_column
                >= cell.end_column,
    decreases cells.len(),
{
    if cells.len() > 0 {
        let front = cells.drop_last();
        let kept = cells_within(front, width);
        let all = cells_within(cells, width);
        let last = cells.last();
        law_cells_are_cut_off(front, width, cell);
        let cut = Cell { end_column: least(cell.end_column, width), ..cell };
        if cells.contains(cell) && cell.start_column <= width {
            let i = cells.index_of(cell);
            if i < front.len() {
                assert(front[i] == cell);
                let j = kept.index_of(cut);
                assert(all[j] == cut);
            } else {
                assert(all.last() == cut);
            }
        }
        if all.contains(cell) {
            let j = all.index_of(cell);
            if j < kept.len() {
                assert(kept[j] == cell);
                let i = choose|i: int|
                    0 <= i < front.len() && (#[trigger] front[i]).start_column == cell.start_column
                        && front[i].row == cell.row && front[i].day == cell.day
                        && front[i].end_column >= cell.end_column;
                assert(cells[i] == front[i]);
            } else {
                assert(cells[cells.len() - 1] == last);
            }
        }
    }
}

/// The numbers of a reply are those among its words, in their order: a word that is
/// no number is passed over.
pub proof fn law_numbers_of_a_reply(before: Seq<Seq<char>>, word: Seq<char>, n: usize)
    ensures
        numbers_among(before.push(number::decimal(n as nat))) == numbers_among(before).push(n),
        number::usize_of(word) is None ==> numbers_among(before.push(word)) == numbers_among(before),
        numbers_among(Seq::empty()).len() == 0,
{
    number::law_numbers_come_back(n as nat, 0);
    assert(before.push(number::decimal(n as nat)).drop_last() =~= before);
    assert(before.push(word).drop_last() =~= before);
}

/// The targets of a hint line are all in its row.
pub proof fn law_hints_share_their_row(
    segments: Seq<(&str, Option<ClickAction>)>,
    row: usize,
    n: int,
    k: int,
)
    requires
        0 <= k < hint_zones(segments, row, n).len(),
    ensures
        hint_zones(segments, row, n)[k].row == row,
    decreases n,
{
    if n > 0 && k < hint_zones(segments, row, n - 1).len() {
        law_hints_share_their_row(segments, row, n - 1, k);
    }
}

} // verus!
