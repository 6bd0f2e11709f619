//! The usage calendar: focused time by day or by week.
use vstd::prelude::*;
use vstd::string::*;
use crate::calendar;
use crate::calendar::{CALENDAR_CELL_WIDTH, CALENDAR_GUTTER, date_to_day_number, day_number_to_date, month_header, selection_days, selection_label, sunday_index, visible_weeks};
use crate::chart;
use crate::chart::{UsageScale, bar_eighths, bar_glyph, maximum, sum_seconds, usage_level, usage_peak, weekly_usage};
use crate::columns;
use crate::columns::{ESCAPE, RESET, truncate};
use crate::labels;
use crate::measure;
use crate::measure::{human_duration, share};
use crate::number;
use crate::number::{align_left, align_right, repeat_char, write_decimal};
use crate::process::Platform;
use crate::report;
use crate::report::{daily_totals, usage_breakdown, usage_total_for_days};
use crate::screen;
use crate::screen::{BOLD, CALENDAR_BLOCK, CALENDAR_HOVER, CALENDAR_SELECTED, CalendarCell, Cell, ClickAction, ClickZone, DIM, GREEN, Layout, RED, UNDERLINE, fit_lines, fit_targets, hint_line, push_line};
use crate::service::FOCUS_UNAVAILABLE;
use crate::state;
use crate::state::App;
use crate::text;
use crate::text::same_text;
use crate::tracker::UsageTracker;
use crate::usage::{Days, Usage};

verus! {

/// Rows of the calendar grid: the days of a week.
pub const GRID_ROWS: usize = 7;

/// Columns between two words of the scale selector.
pub const SEPARATOR_WIDTH: usize = 3;

/// The colour of a shade: 0 is no usage, 1 to 4 are quarters of the peak.
pub open spec fn ramp_text(level: int) -> Seq<char> {
    if level == 0 {
        "\x1b[38;5;237m"@
    } else if level == 1 {
        "\x1b[38;5;25m"@
    } else if level == 2 {
        "\x1b[38;5;32m"@
    } else if level == 3 {
        "\x1b[38;5;39m"@
    } else {
        "\x1b[38;5;81m"@
    }
}

/// The colour of a shade.
fn ramp(level: usize) -> (color: &'static str)
    ensures
        color@ == ramp_text(level as int),
{
    if level == 0 {
        "\x1b[38;5;237m"
    } else if level == 1 {
        "\x1b[38;5;25m"
    } else if level == 2 {
        "\x1b[38;5;32m"
    } else if level == 3 {
        "\x1b[38;5;39m"
    } else {
        "\x1b[38;5;81m"
    }
}

/// The first `n` shades of the legend.
pub open spec fn legend_shades(n: int) -> Seq<char>
    decreases n,
{
    if n <= 0 {
        number::repeated(' ', CALENDAR_GUTTER as int) + DIM@ + "Less"@ + RESET@ + " "@
    } else {
        legend_shades(n - 1) + ramp_text(n - 1) + CALENDAR_BLOCK@ + RESET@ + " "@
    }
}

/// What the shades of the grid mean.
pub open spec fn legend_text() -> Seq<char> {
    legend_shades(5) + DIM@ + "More"@ + RESET@
}

/// Writes what the shades of the grid mean.
pub fn legend_line() -> (line: String)
    ensures
        line@ == legend_text(),
{
    let mut line = repeat_char(' ', CALENDAR_GUTTER);
    line.append(DIM);
    line.append("Less");
    line.append(RESET);
    line.append(" ");
    let mut level: usize = 0;
    while level < 5
        invariant
            level <= 5,
            line@ == legend_shades(level as int),
        decreases 5 - level,
    {
        line.append(ramp(level));
        line.append(CALENDAR_BLOCK);
        line.append(RESET);
        line.append(" ");
        level += 1;
    }
    line.append(DIM);
    line.append("More");
    line.append(RESET);
    line
}

/// The scales in the order they are offered.
pub open spec fn scale_at(index: int) -> UsageScale {
    if index == 0 {
        UsageScale::Daily
    } else if index == 1 {
        UsageScale::Weekly
    } else {
        UsageScale::Cumulative
    }
}

/// A word of the scale selector with its style.
pub open spec fn scale_word(scale: UsageScale, active: UsageScale) -> Seq<char> {
    if scale == active {
        BOLD@ + ramp_text(4) + scale.name() + RESET@
    } else {
        DIM@ + scale.name() + RESET@
    }
}

/// The first `n` words of the scale selector.
pub open spec fn scale_words(active: UsageScale, n: int) -> Seq<char>
    decreases n,
{
    if n <= 0 {
        number::repeated(' ', CALENDAR_GUTTER as int)
    } else {
        let before = scale_words(active, n - 1);
        if n > 1 {
            before + DIM@ + " \u{b7} "@ + RESET@ + scale_word(scale_at(n - 1), active)
        } else {
            before + scale_word(scale_at(n - 1), active)
        }
    }
}

/// The column that a word of the scale selector begins in.
pub open spec fn scale_column(n: int) -> int
    decreases n,
{
    if n <= 0 {
        CALENDAR_GUTTER + 1
    } else {
        scale_column(n - 1) + scale_at(n - 1).name().len() + SEPARATOR_WIDTH
    }
}

/// The click target of a word of the scale selector.
pub open spec fn scale_zone(row: usize, n: int) -> ClickZone {
    ClickZone {
        start_column: scale_column(n) as usize,
        end_column: (scale_column(n) + scale_at(n).name().len() - 1) as usize,
        row,
        action: ClickAction::SetScale(scale_at(n)),
    }
}

/// The click targets of the scale selector.
pub open spec fn scale_zones(row: usize) -> Seq<ClickZone> {
    Seq::new(3, |n: int| scale_zone(row, n))
}

proof fn lemma_scale_columns()
    ensures
        UsageScale::Daily.name().len() == 5,
        UsageScale::Weekly.name().len() == 6,
        UsageScale::Cumulative.name().len() == 10,
        scale_column(0) == 5,
        scale_column(1) == 13,
        scale_column(2) == 22,
{
    reveal_strlit("daily");
    reveal_strlit("weekly");
    reveal_strlit("cumulative");
    reveal_with_fuel(scale_column, 3);
}

impl UsageScale {
    /// The scales in the order they are offered.
    pub fn all() -> (scales: [UsageScale; 3])
        ensures
            forall|i: int| 0 <= i < 3 ==> scales@[i] == scale_at(i),
    {
        [UsageScale::Daily, UsageScale::Weekly, UsageScale::Cumulative]
    }
}

/// Renders the scales to choose from, and the columns each word occupies.
pub fn scale_selector(row: usize, active: UsageScale) -> (selector: (String, Vec<ClickZone>))
    ensures
        selector.0@ == scale_words(active, 3),
        selector.1@ == scale_zones(row),
{
    let mut line = repeat_char(' ', CALENDAR_GUTTER);
    let mut column: usize = CALENDAR_GUTTER + 1;
    let mut zones: Vec<ClickZone> = Vec::new();
    let scales = UsageScale::all();
    let mut index: usize = 0;
    while index < 3
        invariant
            index <= 3,
            forall|i: int| 0 <= i < 3 ==> scales@[i] == scale_at(i),
            line@ == scale_words(active, index as int),
            index < 3 ==> column + (if index > 0 {
                SEPARATOR_WIDTH as int
            } else {
                0
            }) == scale_column(index as int),
            zones@ =~= scale_zones(row).take(index as int),
        decreases 3 - index,
    {
        proof {
            lemma_scale_columns();
        }
        let scale = scales[index];
        if index > 0 {
            line.append(DIM);
            line.append(" \u{b7} ");
            line.append(RESET);
            column += SEPARATOR_WIDTH;
        }
        let label = scale.label();
        let ghost before = line@;
        if scale == active {
            line.append(BOLD);
            line.append(ramp(4));
        } else {
            line.append(DIM);
        }
        line.append(label);
        line.append(RESET);
        assert(line@ =~= before + scale_word(scale, active));
        let length: usize = label.unicode_len();
        zones.push(
            ClickZone {
                start_column: column,
                end_column: column + length - 1,
                row,
                action: ClickAction::SetScale(scale),
            },
        );
        column += length;
        index += 1;
    }
    (line, zones)
}

/// What is seen of the first `n` words of the scale selector.
spec fn scale_seen(n: int) -> Seq<char>
    decreases n,
{
    if n <= 0 {
        number::repeated(' ', CALENDAR_GUTTER as int)
    } else if n > 1 {
        scale_seen(n - 1) + " \u{b7} "@ + scale_at(n - 1).name()
    } else {
        scale_seen(n - 1) + scale_at(n - 1).name()
    }
}

proof fn lemma_scale_word(scale: UsageScale, active: UsageScale)
    ensures
        columns::is_plain(scale.name()),
        columns::is_complete(scale_word(scale, active)),
        columns::visible(scale_word(scale, active)) == scale.name(),
{
    reveal_strlit("daily");
    reveal_strlit("weekly");
    reveal_strlit("cumulative");
    reveal_strlit("\x1b[38;5;81m");
    screen::lemma_styles();
    columns::lemma_one_escape(ramp_text(4));
    let name = scale.name();
    assert forall|i: int| 0 <= i < name.len() implies #[trigger] name[i] != ESCAPE by {}
    columns::lemma_plain(name);
    let style = if scale == active {
        BOLD@ + ramp_text(4)
    } else {
        DIM@
    };
    columns::lemma_visible_add(BOLD@, ramp_text(4));
    columns::lemma_visible_add(style, name);
    columns::lemma_visible_add(style + name, RESET@);
    assert(columns::visible(style + name + RESET@) =~= name);
}

proof fn lemma_scale_seen(active: UsageScale, n: int)
    requires
        0 <= n <= 3,
    ensures
        columns::is_complete(scale_words(active, n)),
        columns::visible(scale_words(active, n)) == scale_seen(n),
    decreases n,
{
    if n <= 0 {
        columns::lemma_plain(number::repeated(' ', CALENDAR_GUTTER as int));
    } else {
        lemma_scale_seen(active, n - 1);
        lemma_scale_word(scale_at(n - 1), active);
        let before = scale_words(active, n - 1);
        let word = scale_word(scale_at(n - 1), active);
        if n > 1 {
            reveal_strlit(" \u{b7} ");
            let gap = " \u{b7} "@;
            screen::lemma_styles();
            columns::lemma_plain(gap);
            columns::lemma_visible_add(before, DIM@);
            columns::lemma_visible_add(before + DIM@, gap);
            columns::lemma_visible_add(before + DIM@ + gap, RESET@);
            columns::lemma_visible_add(before + DIM@ + gap + RESET@, word);
            assert(columns::visible(scale_words(active, n)) =~= scale_seen(n));
        } else {
            columns::lemma_visible_add(before, word);
        }
    }
}

/// Every word of the scale selector is seen where it is clicked.
pub proof fn law_scales_are_drawn_where_they_are_clicked(row: usize, active: UsageScale, i: int)
    requires
        0 <= i < 3,
    ensures
        ({
            let zone = scale_zones(row)[i];
            let seen = columns::visible(scale_words(active, 3));
            &&& 1 <= zone.start_column <= zone.end_column <= seen.len()
            &&& seen.subrange(zone.start_column - 1, zone.end_column as int) == scale_at(i).name()
            &&& zone.action == ClickAction::SetScale(scale_at(i))
            &&& zone.row == row
        }),
{
    lemma_scale_columns();
    lemma_scale_seen(active, 3);
    reveal_strlit(" \u{b7} ");
    reveal_with_fuel(scale_seen, 4);
    let seen = scale_seen(3);
    let zone = scale_zone(row, i);
    assert(seen.len() == 31);
    assert(seen.subrange(zone.start_column - 1, zone.end_column as int) =~= scale_at(i).name());
}

/// The days that the calendar shows: whole weeks from a Sunday on, the last of
/// them with today in it.
#[derive(Clone, Copy, Debug)]
pub struct Span {
    pub start: i64,
    pub weeks: usize,
    pub today: i64,
}

impl Span {
    /// Whether the days of the span can be counted.
    pub open spec fn is_countable(self) -> bool {
        &&& 4 <= self.weeks <= 53
        &&& self.start + self.weeks * 7 - 1 <= i64::MAX
    }
}

/// The day that counts as today: the one the tracker has, else the one given,
/// else the first there is.
pub open spec fn today_text(app: App, date: Option<Seq<char>>) -> Seq<char> {
    match app.usage_tracker {
        Some(tracker) => tracker.current_day@,
        None => match date {
            Some(date) => date,
            None => "1970-01-01"@,
        },
    }
}

/// The number of the day that counts as today.
pub open spec fn today_number(app: App, date: Option<Seq<char>>) -> i64 {
    match calendar::date_number(today_text(app, date)) {
        Some(number) => number,
        None => 0,
    }
}

/// Whether the first and the last day of the calendar have numbers.
pub open spec fn has_span(app: App, date: Option<Seq<char>>, width: int) -> bool {
    let weeks = calendar::weeks_shown(width);
    let start = calendar::grid_start(today_number(app, date) as int, weeks);
    i64::MIN <= start && start + weeks * 7 - 1 <= i64::MAX
}

/// The days that the calendar shows.
pub open spec fn span_of(app: App, date: Option<Seq<char>>, width: int) -> Span {
    let weeks = calendar::weeks_shown(width);
    let today = today_number(app, date);
    Span { start: calendar::grid_start(today as int, weeks) as i64, weeks: weeks as usize, today }
}

/// The days that the calendar shows in a terminal of `width` columns; none where
/// they lie beyond the first or the last day number.
pub fn calendar_span(app: &App, date: Option<&str>, width: usize) -> (span: Option<Span>)
    ensures
        span is Some <==> has_span(*app, labels::text_in(date), width as int),
        span matches Some(found) ==> found == span_of(
            *app,
            labels::text_in(date),
            width as int,
        ) && found.is_countable(),
{
    let weeks: usize = visible_weeks(width);
    let found: Option<i64> = match &app.usage_tracker {
        Some(tracker) => date_to_day_number(tracker.current_day.as_str()),
        None => match date {
            Some(date) => date_to_day_number(date),
            None => date_to_day_number("1970-01-01"),
        },
    };
    let today: i64 = match found {
        Some(number) => number,
        None => 0,
    };
    let start: i128 = today as i128 - sunday_index(today) as i128 - (weeks as i128 - 1) * 7;
    if start < i64::MIN as i128 || start + weeks as i128 * 7 - 1 > i64::MAX as i128 {
        return None;
    }
    Some(Span { start: start as i64, weeks, today })
}

/// What has been recorded; nothing without a tracker.
pub open spec fn recorded_days(app: App) -> Days {
    match app.usage_tracker {
        Some(tracker) => tracker.store.days@,
        None => Map::empty(),
    }
}

/// Focused seconds on each day of the calendar.
pub open spec fn shown_seconds(app: App, span: Span) -> Seq<u64> {
    report::daily_seconds(
        recorded_days(app),
        span.start as int,
        span.weeks as int,
        span.today as int,
    )
}

/// The style of a day: it stands out where it is selected or under the mouse.
pub open spec fn day_style(app: App, day: Seq<char>, plain: Seq<char>) -> Seq<char> {
    if state::text_of(app.selected_day) == Some(day) {
        CALENDAR_SELECTED@
    } else if state::text_of(app.hovered_day) == Some(day) {
        CALENDAR_HOVER@
    } else {
        plain
    }
}

fn is_day(marked: &Option<String>, day: &str) -> (same: bool)
    ensures
        same == (state::text_of(*marked) == Some(day@)),
{
    match marked {
        Some(marked) => same_text(marked.as_str(), day),
        None => false,
    }
}

fn style_of(app: &App, day: &str, plain: &'static str) -> (style: &'static str)
    ensures
        style@ == day_style(*app, day@, plain@),
{
    if is_day(&app.selected_day, day) {
        CALENDAR_SELECTED
    } else if is_day(&app.hovered_day, day) {
        CALENDAR_HOVER
    } else {
        plain
    }
}

/// The place of a day in the column of week `week`.
pub open spec fn cell_in(week: int, row: usize, day: Seq<char>) -> Cell {
    Cell {
        start_column: (CALENDAR_GUTTER + 1 + week * CALENDAR_CELL_WIDTH) as usize,
        end_column: (CALENDAR_GUTTER + week * CALENDAR_CELL_WIDTH + CALENDAR_CELL_WIDTH) as usize,
        row,
        day,
    }
}

fn place(week: usize, row: usize, day: String) -> (cell: CalendarCell)
    requires
        week <= 53,
    ensures
        cell@ == cell_in(week as int, row, day@),
{
    CalendarCell {
        start_column: CALENDAR_GUTTER + 1 + week * CALENDAR_CELL_WIDTH,
        end_column: CALENDAR_GUTTER + week * CALENDAR_CELL_WIDTH + CALENDAR_CELL_WIDTH,
        row,
        day,
    }
}

/// A square of the grid: the shade of its day.
pub open spec fn square_text(app: App, day: Seq<char>, seconds: u64, peak: u64) -> Seq<char> {
    day_style(app, day, ramp_text(chart::level_of(seconds as int, peak as int))) + CALENDAR_BLOCK@
        + " "@ + RESET@
}

/// The day of week `week` on the weekday `weekday`.
pub open spec fn day_in(span: Span, week: int, weekday: int) -> int {
    span.start + week * 7 + weekday
}

/// The name of a row of the grid.
pub open spec fn weekday_label(weekday: int) -> Seq<char> {
    if weekday == 0 {
        " Su "@
    } else if weekday == 1 {
        " Mo "@
    } else if weekday == 2 {
        " Tu "@
    } else if weekday == 3 {
        " We "@
    } else if weekday == 4 {
        " Th "@
    } else if weekday == 5 {
        " Fr "@
    } else {
        " Sa "@
    }
}

fn row_name(weekday: usize) -> (name: &'static str)
    ensures
        name@ == weekday_label(weekday as int),
{
    if weekday == 0 {
        " Su "
    } else if weekday == 1 {
        " Mo "
    } else if weekday == 2 {
        " Tu "
    } else if weekday == 3 {
        " We "
    } else if weekday == 4 {
        " Th "
    } else if weekday == 5 {
        " Fr "
    } else {
        " Sa "
    }
}

/// The first `n` squares of a row of the grid; days to come are left blank.
pub open spec fn grid_line(app: App, span: Span, weekday: int, n: int) -> Seq<char>
    decreases n,
{
    if n <= 0 {
        weekday_label(weekday)
    } else {
        let before = grid_line(app, span, weekday, n - 1);
        let number = day_in(span, n - 1, weekday);
        if number > span.today {
            before + number::repeated(' ', CALENDAR_CELL_WIDTH as int)
        } else {
            let daily = shown_seconds(app, span);
            before + square_text(
                app,
                calendar::date_text(number),
                daily[(n - 1) * 7 + weekday],
                chart::peak_of(daily, UsageScale::Daily),
            )
        }
    }
}

/// The places of the days in the first `n` squares of a row of the grid.
pub open spec fn grid_line_cells(span: Span, weekday: int, row: usize, n: int) -> Seq<Cell>
    decreases n,
{
    if n <= 0 {
        seq![]
    } else {
        let before = grid_line_cells(span, weekday, row, n - 1);
        let number = day_in(span, n - 1, weekday);
        if number > span.today {
            before
        } else {
            before.push(cell_in(n - 1, row, calendar::date_text(number)))
        }
    }
}

/// The rows of the grid, Sundays first.
pub open spec fn grid_lines(app: App, span: Span) -> Seq<Seq<char>> {
    Seq::new(7, |weekday: int| grid_line(app, span, weekday, span.weeks as int))
}

/// The places of the days in the first `n` rows of the grid.
pub open spec fn grid_cells(span: Span, first_row: int, n: int) -> Seq<Cell>
    decreases n,
{
    if n <= 0 {
        seq![]
    } else {
        grid_cells(span, first_row, n - 1) + grid_line_cells(
            span,
            n - 1,
            (first_row + n - 1) as usize,
            span.weeks as int,
        )
    }
}

fn write_grid_line(
    app: &App,
    span: Span,
    daily: &Vec<u64>,
    peak: u64,
    weekday: usize,
    row: usize,
) -> (line: (String, Vec<CalendarCell>))
    requires
        span.is_countable(),
        weekday < 7,
        daily@ == shown_seconds(*app, span),
        peak == chart::peak_of(daily@, UsageScale::Daily),
    ensures
        line.0@ == grid_line(*app, span, weekday as int, span.weeks as int),
        screen::cells_of(line.1@) == grid_line_cells(
            span,
            weekday as int,
            row,
            span.weeks as int,
        ),
{
    let mut line = row_name(weekday).to_owned();
    let mut cells: Vec<CalendarCell> = Vec::new();
    let mut week: usize = 0;
    assert(screen::cells_of(cells@) =~= seq![]);
    while week < span.weeks
        invariant
            week <= span.weeks,
            span.is_countable(),
            weekday < 7,
            daily@ == shown_seconds(*app, span),
            daily@.len() == span.weeks * 7,
            peak == chart::peak_of(daily@, UsageScale::Daily),
            line@ == grid_line(*app, span, weekday as int, week as int),
            screen::cells_of(cells@) == grid_line_cells(span, weekday as int, row, week as int),
        decreases span.weeks - week,
    {
        let index: usize = week * 7 + weekday;
        let number: i64 = span.start + index as i64;
        if number > span.today {
            line.append(repeat_char(' ', CALENDAR_CELL_WIDTH).as_str());
        } else {
            let day = day_number_to_date(number);
            let style = style_of(app, day.as_str(), ramp(usage_level(daily[index], peak)));
            let ghost before = line@;
            line.append(style);
            line.append(CALENDAR_BLOCK);
            line.append(" ");
            line.append(RESET);
            assert(line@ =~= before + square_text(*app, day@, daily@[index as int], peak));
            let ghost earlier = screen::cells_of(cells@);
            cells.push(place(week, row, day));
            assert(screen::cells_of(cells@) =~= earlier.push(cells@.last()@));
        }
        week += 1;
    }
    (line, cells)
}

fn push_grid(
    app: &App,
    span: Span,
    daily: &Vec<u64>,
    lines: &mut Vec<String>,
    layout: &mut Layout,
)
    requires
        span.is_countable(),
        daily@ == shown_seconds(*app, span),
        old(lines)@.len() <= 5,
    ensures
        text::texts(final(lines)@) == text::texts(old(lines)@) + grid_lines(*app, span),
        final(lines)@.len() == old(lines)@.len() + 7,
        screen::cells_of(final(layout).calendar_cells@) == screen::cells_of(
            old(layout).calendar_cells@,
        ) + grid_cells(span, old(lines)@.len() as int + 1, 7),
        final(layout).zones == old(layout).zones,
        final(layout).terminal_start_row == old(layout).terminal_start_row,
        final(layout).shown_start == old(layout).shown_start,
        final(layout).shown_count == old(layout).shown_count,
{
    let ghost before = text::texts(lines@);
    let ghost count = lines@.len() as int;
    let ghost rows = grid_lines(*app, span);
    let ghost cells_before = screen::cells_of(layout.calendar_cells@);
    let peak: u64 = usage_peak(daily.as_slice(), UsageScale::Daily);
    let mut weekday: usize = 0;
    assert(before + rows.take(0) =~= before);
    assert(cells_before + grid_cells(span, count + 1, 0) =~= cells_before);
    while weekday < GRID_ROWS
        invariant
            weekday <= GRID_ROWS,
            span.is_countable(),
            daily@ == shown_seconds(*app, span),
            peak == chart::peak_of(daily@, UsageScale::Daily),
            rows == grid_lines(*app, span),
            count <= 5,
            lines@.len() == count + weekday,
            text::texts(lines@) == before + rows.take(weekday as int),
            screen::cells_of(layout.calendar_cells@) == cells_before + grid_cells(
                span,
                count + 1,
                weekday as int,
            ),
            layout.zones == old(layout).zones,
            layout.terminal_start_row == old(layout).terminal_start_row,
            layout.shown_start == old(layout).shown_start,
            layout.shown_count == old(layout).shown_count,
        decreases GRID_ROWS - weekday,
    {
        let (line, mut cells) = write_grid_line(app, span, daily, peak, weekday, lines.len() + 1);
        let ghost earlier = layout.calendar_cells@;
        let ghost added = cells@;
        layout.calendar_cells.append(&mut cells);
        push_line(lines, line);
        proof {
            assert(screen::cells_of(layout.calendar_cells@) =~= screen::cells_of(earlier)
                + screen::cells_of(added));
            assert(cells_before + grid_cells(span, count + 1, weekday + 1) =~= (cells_before
                + grid_cells(span, count + 1, weekday as int)) + screen::cells_of(added));
            assert(rows.take(weekday + 1) =~= rows.take(weekday as int).push(line@));
            assert(before + rows.take(weekday as int).push(line@) =~= (before + rows.take(
                weekday as int,
            )).push(line@));
        }
        weekday += 1;
    }
    assert(rows.take(7) =~= rows);
}

/// Rows of the chart, within bounds.
pub open spec fn chart_rows(height: int) -> int {
    let room = height - 16;
    if room < 4 {
        4
    } else if room > 12 {
        12
    } else {
        room
    }
}

/// What stands in front of a row of the chart.
pub open spec fn gutter_text(row_index: int, rows: int) -> Seq<char> {
    if row_index == 0 {
        "max "@
    } else if row_index + 1 == rows {
        "  0 "@
    } else {
        number::repeated(' ', CALENDAR_GUTTER as int)
    }
}

/// The values of the weeks that the chart shows.
pub open spec fn shown_weeks(app: App, span: Span) -> Seq<u64> {
    chart::weekly_values(shown_seconds(app, span), app.usage_scale)
}

/// The glyph of week `week` in a row of the chart.
pub open spec fn bar_slice(app: App, span: Span, rows: int, row_index: int, week: int) -> Seq<char> {
    let values = shown_weeks(app, span);
    chart::glyph_text(
        chart::row_level(
            chart::eighths_of(values[week] as int, chart::largest(values) as int, rows),
            rows - 1 - row_index,
        ),
    )
}

/// The slice of the bar of week `week` in a row of the chart, in its style.
pub open spec fn bar_text(app: App, span: Span, rows: int, row_index: int, week: int) -> Seq<char> {
    day_style(app, calendar::date_text(day_in(span, week, 0)), ramp_text(3)) + bar_slice(
        app,
        span,
        rows,
        row_index,
        week,
    ) + RESET@ + " "@
}

/// The first `n` slices of a row of the chart.
pub open spec fn chart_line(app: App, span: Span, rows: int, row_index: int, n: int) -> Seq<char>
    decreases n,
{
    if n <= 0 {
        DIM@ + gutter_text(row_index, rows) + RESET@
    } else {
        chart_line(app, span, rows, row_index, n - 1) + bar_text(app, span, rows, row_index, n - 1)
    }
}

/// The rows of the chart from the top down.
pub open spec fn chart_lines(app: App, span: Span, rows: int) -> Seq<Seq<char>> {
    Seq::new(
        rows as nat,
        |row_index: int| chart_line(app, span, rows, row_index, span.weeks as int),
    )
}

/// The places of the weeks in a row of the chart, each named by its Sunday.
pub open spec fn chart_line_cells(span: Span, row: usize) -> Seq<Cell> {
    Seq::new(
        span.weeks as nat,
        |week: int| cell_in(week, row, calendar::date_text(day_in(span, week, 0))),
    )
}

/// The places of the weeks in the first `n` rows of the chart.
pub open spec fn chart_cells(span: Span, first_row: int, n: int) -> Seq<Cell>
    decreases n,
{
    if n <= 0 {
        seq![]
    } else {
        chart_cells(span, first_row, n - 1) + chart_line_cells(span, (first_row + n - 1) as usize)
    }
}

fn write_chart_line(
    app: &App,
    span: Span,
    values: &Vec<u64>,
    peak: u64,
    rows: usize,
    row_index: usize,
    row: usize,
) -> (line: (String, Vec<CalendarCell>))
    requires
        span.is_countable(),
        row_index < rows <= 12,
        values@ == shown_weeks(*app, span),
        peak == chart::largest(values@),
    ensures
        line.0@ == chart_line(*app, span, rows as int, row_index as int, span.weeks as int),
        screen::cells_of(line.1@) == chart_line_cells(span, row),
{
    let rows_below: usize = rows - 1 - row_index;
    let mut line = DIM.to_owned();
    if row_index == 0 {
        line.append("max ");
    } else if row_index + 1 == rows {
        line.append("  0 ");
    } else {
        line.append(repeat_char(' ', CALENDAR_GUTTER).as_str());
    }
    line.append(RESET);
    let ghost all = chart_line_cells(span, row);
    let mut cells: Vec<CalendarCell> = Vec::new();
    let mut week: usize = 0;
    while week < span.weeks
        invariant
            week <= span.weeks,
            span.is_countable(),
            row_index < rows <= 12,
            rows_below == rows - 1 - row_index,
            values@ == shown_weeks(*app, span),
            values@.len() == span.weeks,
            peak == chart::largest(values@),
            line@ == chart_line(*app, span, rows as int, row_index as int, week as int),
            all == chart_line_cells(span, row),
            screen::cells_of(cells@) =~= all.take(week as int),
        decreases span.weeks - week,
    {
        let day = day_number_to_date(span.start + week as i64 * 7);
        let style = style_of(app, day.as_str(), ramp(3));
        let glyph = bar_glyph(bar_eighths(values[week], peak, rows), rows_below);
        let ghost before = line@;
        line.append(style);
        line.append(glyph);
        line.append(RESET);
        line.append(" ");
        assert(line@ =~= before + bar_text(
            *app,
            span,
            rows as int,
            row_index as int,
            week as int,
        ));
        let ghost earlier = screen::cells_of(cells@);
        cells.push(place(week, row, day));
        assert(screen::cells_of(cells@) =~= earlier.push(cells@.last()@));
        week += 1;
    }
    (line, cells)
}

fn push_chart(
    app: &App,
    span: Span,
    values: &Vec<u64>,
    peak: u64,
    rows: usize,
    lines: &mut Vec<String>,
    layout: &mut Layout,
)
    requires
        span.is_countable(),
        rows <= 12,
        values@ == shown_weeks(*app, span),
        peak == chart::largest(values@),
        old(lines)@.len() <= 5,
    ensures
        text::texts(final(lines)@) == text::texts(old(lines)@) + chart_lines(
            *app,
            span,
            rows as int,
        ),
        final(lines)@.len() == old(lines)@.len() + rows,
        screen::cells_of(final(layout).calendar_cells@) == screen::cells_of(
            old(layout).calendar_cells@,
        ) + chart_cells(span, old(lines)@.len() as int + 1, rows as int),
        final(layout).zones == old(layout).zones,
        final(layout).terminal_start_row == old(layout).terminal_start_row,
        final(layout).shown_start == old(layout).shown_start,
        final(layout).shown_count == old(layout).shown_count,
{
    let ghost before = text::texts(lines@);
    let ghost count = lines@.len() as int;
    let ghost drawn = chart_lines(*app, span, rows as int);
    let ghost cells_before = screen::cells_of(layout.calendar_cells@);
    let mut row_index: usize = 0;
    assert(before + drawn.take(0) =~= before);
    assert(cells_before + chart_cells(span, count + 1, 0) =~= cells_before);
    while row_index < rows
        invariant
            row_index <= rows <= 12,
            span.is_countable(),
            values@ == shown_weeks(*app, span),
            peak == chart::largest(values@),
            drawn == chart_lines(*app, span, rows as int),
            count <= 5,
            lines@.len() == count + row_index,
            text::texts(lines@) == before + drawn.take(row_index as int),
            screen::cells_of(layout.calendar_cells@) == cells_before + chart_cells(
                span,
                count + 1,
                row_index as int,
            ),
            layout.zones == old(layout).zones,
            layout.terminal_start_row == old(layout).terminal_start_row,
            layout.shown_start == old(layout).shown_start,
            layout.shown_count == old(layout).shown_count,
        decreases rows - row_index,
    {
        let row: usize = lines.len() + 1;
        let (line, mut cells) = write_chart_line(app, span, values, peak, rows, row_index, row);
        let ghost earlier = layout.calendar_cells@;
        let ghost added = cells@;
        layout.calendar_cells.append(&mut cells);
        push_line(lines, line);
        proof {
            assert(screen::cells_of(layout.calendar_cells@) =~= screen::cells_of(earlier)
                + screen::cells_of(added));
            assert(cells_before + chart_cells(span, count + 1, row_index + 1) =~= (cells_before
                + chart_cells(span, count + 1, row_index as int)) + screen::cells_of(added));
            assert(drawn.take(row_index + 1) =~= drawn.take(row_index as int).push(line@));
            assert(before + drawn.take(row_index as int).push(line@) =~= (before + drawn.take(
                row_index as int,
            )).push(line@));
        }
        row_index += 1;
    }
    assert(drawn.take(drawn.len() as int) =~= drawn);
}

/// Whether a click stands for a whole week.
pub open spec fn is_by_week(app: App) -> bool {
    app.usage_scale != UsageScale::Daily
}

/// The first line of the calendar.
pub open spec fn usage_title() -> Seq<char> {
    BOLD@ + GREEN@ + "ghostty-top"@ + RESET@ + "  "@ + BOLD@ + "usage calendar"@ + RESET@ + "  "@
        + DIM@ + "time spent with each Ghostty tab focused"@ + RESET@
}

/// Focused seconds in all the days that are shown.
pub open spec fn shown_total(app: App, span: Span) -> u64 {
    chart::capped(chart::total(shown_seconds(app, span)))
}

/// What the days that are shown come to.
pub open spec fn usage_summary(app: App, span: Span) -> Seq<char> {
    "Last "@ + number::decimal(span.weeks as nat) + " weeks  \u{2022}  "@ + measure::duration_text(
        shown_total(app, span) as int,
    ) + " total  \u{2022}  busiest day "@ + measure::duration_text(
        chart::largest(shown_seconds(app, span)) as int,
    )
}

/// Whether time is being recorded, and if not, why.
pub open spec fn recording_text(app: App, platform: Platform) -> Seq<char> {
    let error = match app.usage_tracker {
        Some(tracker) => tracker.last_error,
        None => None,
    };
    let away = match app.usage_tracker {
        Some(tracker) => tracker.away,
        None => None,
    };
    if platform == Platform::Linux {
        DIM@ + "Not recording: "@ + FOCUS_UNAVAILABLE@ + "."@ + RESET@
    } else {
        match error {
            Some(error) => RED@ + "Tracking paused: "@ + error@ + RESET@,
            None => match away {
                Some(away) => DIM@ + "Paused while "@ + away.words() + "."@ + RESET@,
                None => DIM@
                    + "Counting only while Ghostty is frontmost and you are at the machine."@
                    + RESET@,
            },
        }
    }
}

/// The lines above the grid or the chart.
pub open spec fn usage_head(app: App, platform: Platform, span: Span) -> Seq<Seq<char>> {
    seq![
        usage_title(),
        usage_summary(app, span),
        recording_text(app, platform),
        ""@,
        DIM@ + calendar::month_line(span.start as int, span.weeks as int) + RESET@,
    ]
}

/// The grid or the chart.
pub open spec fn picture_lines(app: App, span: Span, height: int) -> Seq<Seq<char>> {
    if is_by_week(app) {
        chart_lines(app, span, chart_rows(height))
    } else {
        grid_lines(app, span)
    }
}

/// The places of the days in the grid or of the weeks in the chart.
pub open spec fn picture_cells(app: App, span: Span, height: int) -> Seq<Cell> {
    if is_by_week(app) {
        chart_cells(span, 6, chart_rows(height))
    } else {
        grid_cells(span, 6, 7)
    }
}

/// What the grid or the chart shows.
pub open spec fn caption_text(app: App, span: Span) -> Seq<char> {
    let peak = measure::duration_text(chart::largest(shown_weeks(app, span)) as int);
    match app.usage_scale {
        UsageScale::Daily => legend_text(),
        UsageScale::Weekly => number::repeated(' ', CALENDAR_GUTTER as int) + DIM@
            + "Each column = 1 week  \u{b7}  tallest"@ + RESET@ + " "@ + peak,
        UsageScale::Cumulative => number::repeated(' ', CALENDAR_GUTTER as int) + DIM@
            + "Running total  \u{b7}  top"@ + RESET@ + " "@ + peak,
    }
}

/// Focused seconds in the days that a selected column covers.
pub open spec fn covered_total(app: App, day: Seq<char>) -> u64 {
    report::total_over(recorded_days(app), calendar::covered_days(day, is_by_week(app)))
}

/// What is under the mouse, or what can be done with it.
pub open spec fn hover_text(app: App, span: Span) -> Seq<char> {
    match state::text_of(app.hovered_day) {
        Some(day) => BOLD@ + calendar::selection_text(day, is_by_week(app)) + RESET@
            + "  \u{2022}  "@ + measure::duration_text(covered_total(app, day) as int),
        None => if shown_total(app, span) == 0 {
            DIM@ + "Nothing recorded yet. Time is logged while Ghostty is frontmost; run"@ + RESET@
                + " ghostty-top --install-tracker "@ + DIM@ + "to keep it running."@ + RESET@
        } else {
            DIM@ + "Hover a "@ + (if is_by_week(app) {
                "column"@
            } else {
                "square"@
            }) + " for its total; click it for the tab breakdown."@ + RESET@
        },
    }
}

/// The tabs used in the days that a selected column covers, busiest first.
pub open spec fn covered_tabs(app: App, day: Seq<char>) -> Seq<Usage> {
    report::breakdown(
        report::uses_over(recorded_days(app), calendar::covered_days(day, is_by_week(app))),
    )
}

/// A tab of the breakdown: its name, its time, and its share of the whole.
pub open spec fn tab_line(tab: Usage, whole: u64) -> Seq<char> {
    "  "@ + number::pad_right(columns::truncated_text(tab.0, 40), 40) + " "@ + number::pad_left(
        measure::duration_text(tab.1 as int),
        8,
    ) + "   "@ + number::pad_left(measure::share_text(tab.1 as nat, whole as nat), 5) + "%"@
}

/// Tabs of the breakdown that have room in so many lines, below some others.
pub open spec fn tab_room(height: int, lines: int, tabs: nat) -> int {
    let room = if height > lines + 4 {
        height - (lines + 4)
    } else {
        0
    };
    if room < tabs {
        room
    } else {
        tabs as int
    }
}

/// The lines above the tabs of the breakdown.
pub open spec fn breakdown_head(app: App, day: Seq<char>) -> Seq<Seq<char>> {
    seq![
        ""@,
        BOLD@ + calendar::selection_text(day, is_by_week(app)) + " breakdown"@ + RESET@
            + "  \u{2022}  "@ + measure::duration_text(covered_total(app, day) as int),
        DIM@ + UNDERLINE@ + "  TAB                                      TIME      SHARE"@ + RESET@,
    ]
}

/// The tabs of the breakdown, as far as there is room.
pub open spec fn tab_lines(app: App, day: Seq<char>, height: int, lines: int) -> Seq<Seq<char>> {
    let tabs = covered_tabs(app, day);
    let whole = chart::capped(chart::total(report::seconds_of(tabs)));
    if tabs.len() == 0 {
        seq![
            "  No focused Ghostty usage recorded for this "@ + (if is_by_week(app) {
                "week"@
            } else {
                "day"@
            }) + "."@,
        ]
    } else {
        Seq::new(tab_room(height, lines, tabs.len()) as nat, |i: int| tab_line(tabs[i], whole))
    }
}

/// The breakdown of the selected day or week, below so many lines.
pub open spec fn breakdown_lines(app: App, height: int, lines: int) -> Seq<Seq<char>> {
    match state::text_of(app.selected_day) {
        None => seq![],
        Some(day) => breakdown_head(app, day) + tab_lines(app, day, height, lines + 3),
    }
}

/// The hints at the bottom of the calendar.
pub open spec fn usage_hints() -> Seq<(&'static str, Option<ClickAction>)> {
    seq![
        ("u back to monitor", Some(ClickAction::ShowMonitor)),
        ("q quit", Some(ClickAction::Quit)),
    ]
}

/// The lines of the calendar above its breakdown.
pub open spec fn usage_top(app: App, platform: Platform, span: Span, height: int) -> Seq<
    Seq<char>,
> {
    usage_head(app, platform, span) + picture_lines(app, span, height) + seq![
        ""@,
        caption_text(app, span),
        scale_words(app.usage_scale, 3),
        ""@,
        hover_text(app, span),
    ]
}

/// The lines of the calendar above its hints.
pub open spec fn usage_body(app: App, platform: Platform, span: Span, height: int) -> Seq<
    Seq<char>,
> {
    let top = usage_top(app, platform, span, height);
    (top + breakdown_lines(app, height, top.len() as int)).push(""@)
}

/// The lines of the calendar.
pub open spec fn usage_lines(app: App, platform: Platform, span: Span, height: int) -> Seq<
    Seq<char>,
> {
    usage_body(app, platform, span, height).push(screen::hint_text(usage_hints()))
}

/// The row of the scale selector.
pub open spec fn scale_row(app: App, span: Span, height: int) -> int {
    8 + picture_lines(app, span, height).len() as int
}

/// The click targets of the calendar.
pub open spec fn usage_zones(app: App, platform: Platform, span: Span, height: int) -> Seq<
    ClickZone,
> {
    let row = usage_body(app, platform, span, height).len() + 1;
    scale_zones(scale_row(app, span, height) as usize) + screen::hint_zones(
        usage_hints(),
        row as usize,
        2,
    )
}

fn write_usage_title() -> (line: String)
    ensures
        line@ == usage_title(),
{
    let mut line = BOLD.to_owned();
    line.append(GREEN);
    line.append("ghostty-top");
    line.append(RESET);
    line.append("  ");
    line.append(BOLD);
    line.append("usage calendar");
    line.append(RESET);
    line.append("  ");
    line.append(DIM);
    line.append("time spent with each Ghostty tab focused");
    line.append(RESET);
    line
}

fn write_usage_summary(weeks: usize, total: u64, busiest: u64) -> (line: String)
    ensures
        line@ == "Last "@ + number::decimal(weeks as nat) + " weeks  \u{2022}  "@
            + measure::duration_text(total as int) + " total  \u{2022}  busiest day "@
            + measure::duration_text(busiest as int),
{
    let mut line = "Last ".to_owned();
    line.append(write_decimal(weeks as u64).as_str());
    line.append(" weeks  \u{2022}  ");
    line.append(human_duration(total).as_str());
    line.append(" total  \u{2022}  busiest day ");
    line.append(human_duration(busiest).as_str());
    line
}

fn write_recording(app: &App, platform: Platform) -> (line: String)
    ensures
        line@ == recording_text(*app, platform),
{
    if platform == Platform::Linux {
        let mut line = DIM.to_owned();
        line.append("Not recording: ");
        line.append(FOCUS_UNAVAILABLE);
        line.append(".");
        line.append(RESET);
        return line;
    }
    match &app.usage_tracker {
        Some(tracker) => {
            match &tracker.last_error {
                Some(error) => {
                    let mut line = RED.to_owned();
                    line.append("Tracking paused: ");
                    line.append(error.as_str());
                    line.append(RESET);
                    return line;
                },
                None => {},
            }
            match tracker.away {
                Some(away) => {
                    let mut line = DIM.to_owned();
                    line.append("Paused while ");
                    line.append(away.reason());
                    line.append(".");
                    line.append(RESET);
                    return line;
                },
                None => {},
            }
        },
        None => {},
    }
    let mut line = DIM.to_owned();
    line.append("Counting only while Ghostty is frontmost and you are at the machine.");
    line.append(RESET);
    line
}

fn write_caption(scale: UsageScale, peak: u64) -> (line: String)
    requires
        scale != UsageScale::Daily,
    ensures
        line@ == number::repeated(' ', CALENDAR_GUTTER as int) + DIM@ + (if scale
            == UsageScale::Cumulative {
            "Running total  \u{b7}  top"@
        } else {
            "Each column = 1 week  \u{b7}  tallest"@
        }) + RESET@ + " "@ + measure::duration_text(peak as int),
{
    let mut line = repeat_char(' ', CALENDAR_GUTTER);
    line.append(DIM);
    if scale == UsageScale::Cumulative {
        line.append("Running total  \u{b7}  top");
    } else {
        line.append("Each column = 1 week  \u{b7}  tallest");
    }
    line.append(RESET);
    line.append(" ");
    line.append(human_duration(peak).as_str());
    line
}

/// The tracker of the program.
fn tracker_of(app: &App) -> (tracker: Option<&UsageTracker>)
    ensures
        report::days_of(tracker) == recorded_days(*app),
{
    match &app.usage_tracker {
        Some(tracker) => Some(tracker),
        None => None,
    }
}

fn write_hover(app: &App, range_total: u64, Ghost(span): Ghost<Span>) -> (line: String)
    requires
        range_total == shown_total(*app, span),
    ensures
        line@ == hover_text(*app, span),
{
    let by_week = app.usage_scale != UsageScale::Daily;
    match &app.hovered_day {
        Some(day) => {
            let days = selection_days(day.as_str(), by_week);
            let mut line = BOLD.to_owned();
            line.append(selection_label(day.as_str(), by_week).as_str());
            line.append(RESET);
            line.append("  \u{2022}  ");
            line.append(human_duration(usage_total_for_days(tracker_of(app), &days)).as_str());
            line
        },
        None => {
            let mut line = DIM.to_owned();
            if range_total == 0 {
                line.append("Nothing recorded yet. Time is logged while Ghostty is frontmost; run");
                line.append(RESET);
                line.append(" ghostty-top --install-tracker ");
                line.append(DIM);
                line.append("to keep it running.");
            } else {
                line.append("Hover a ");
                line.append(
                    if by_week {
                        "column"
                    } else {
                        "square"
                    },
                );
                line.append(" for its total; click it for the tab breakdown.");
            }
            line.append(RESET);
            line
        },
    }
}

fn write_tab(name: &str, seconds: u64, whole: u64) -> (line: String)
    requires
        seconds <= whole,
    ensures
        line@ == tab_line((name@, seconds), whole),
{
    let mut line = "  ".to_owned();
    line.append(align_left(truncate(name, 40).as_str(), 40).as_str());
    line.append(" ");
    line.append(align_right(human_duration(seconds).as_str(), 8).as_str());
    line.append("   ");
    line.append(align_right(share(seconds, whole).as_str(), 5).as_str());
    line.append("%");
    line
}

/// The seconds of the tabs of a breakdown, added up.
fn sum_tabs(tabs: &Vec<(String, u64)>) -> (whole: u64)
    ensures
        whole == chart::capped(chart::total(report::seconds_of(report::rows_of(tabs@)))),
{
    let ghost all = report::seconds_of(report::rows_of(tabs@));
    let mut seconds: Vec<u64> = Vec::new();
    let mut i: usize = 0;
    while i < tabs.len()
        invariant
            i <= tabs@.len(),
            all == report::seconds_of(report::rows_of(tabs@)),
            seconds@ =~= all.take(i as int),
        decreases tabs@.len() - i,
    {
        seconds.push(tabs[i].1);
        i += 1;
    }
    assert(seconds@ =~= all);
    sum_seconds(seconds.as_slice())
}

fn push_tabs(app: &App, day: &str, height: usize, lines: &mut Vec<String>)
    requires
        old(lines)@.len() <= 30,
    ensures
        text::texts(final(lines)@) == text::texts(old(lines)@) + tab_lines(
            *app,
            day@,
            height as int,
            old(lines)@.len() as int,
        ),
        final(lines)@.len() <= old(lines)@.len() + 1 || final(lines)@.len() + 4 <= height,
{
    let by_week = app.usage_scale != UsageScale::Daily;
    let ghost before = text::texts(lines@);
    let ghost count = lines@.len() as int;
    let days = selection_days(day, by_week);
    let tabs = usage_breakdown(tracker_of(app), &days);
    let ghost rows = report::rows_of(tabs@);
    assert(rows == covered_tabs(*app, day@));
    if tabs.len() == 0 {
        let mut line = "  No focused Ghostty usage recorded for this ".to_owned();
        line.append(
            if by_week {
                "week"
            } else {
                "day"
            },
        );
        line.append(".");
        push_line(lines, line);
        assert(text::texts(lines@) =~= before + tab_lines(*app, day@, height as int, count));
        return;
    }
    let whole: u64 = sum_tabs(&tabs);
    let available: usize = height.saturating_sub(lines.len() + 4);
    let shown: usize = if available < tabs.len() {
        available
    } else {
        tabs.len()
    };
    let ghost drawn = tab_lines(*app, day@, height as int, count);
    let mut i: usize = 0;
    assert(before + drawn.take(0) =~= before);
    while i < shown
        invariant
            i <= shown <= tabs@.len(),
            shown == 0 || shown + count + 4 <= height,
            rows == report::rows_of(tabs@),
            whole == chart::capped(chart::total(report::seconds_of(rows))),
            drawn.len() == shown,
            forall|k: int| 0 <= k < shown ==> drawn[k] == tab_line(#[trigger] rows[k], whole),
            lines@.len() == count + i,
            text::texts(lines@) == before + drawn.take(i as int),
        decreases shown - i,
    {
        proof {
            chart::lemma_total_covers(report::seconds_of(rows), i as int);
            assert(rows[i as int] == (tabs@[i as int].0@, tabs@[i as int].1));
        }
        let line = write_tab(tabs[i].0.as_str(), tabs[i].1, whole);
        push_line(lines, line);
        proof {
            assert(drawn.take(i + 1) =~= drawn.take(i as int).push(line@));
            assert(before + drawn.take(i as int).push(line@) =~= (before + drawn.take(
                i as int,
            )).push(line@));
        }
        i += 1;
    }
    assert(drawn.take(drawn.len() as int) =~= drawn);
}

fn push_breakdown(app: &App, height: usize, lines: &mut Vec<String>)
    requires
        old(lines)@.len() <= 27,
    ensures
        text::texts(final(lines)@) == text::texts(old(lines)@) + breakdown_lines(
            *app,
            height as int,
            old(lines)@.len() as int,
        ),
        final(lines)@.len() <= old(lines)@.len() + 4 || final(lines)@.len() + 4 <= height,
{
    let ghost before = text::texts(lines@);
    let ghost count = lines@.len() as int;
    match &app.selected_day {
        None => {
            assert(before + breakdown_lines(*app, height as int, count) =~= before);
        },
        Some(day) => {
            let by_week = app.usage_scale != UsageScale::Daily;
            let days = selection_days(day.as_str(), by_week);
            push_line(lines, "".to_owned());
            let mut title = BOLD.to_owned();
            title.append(selection_label(day.as_str(), by_week).as_str());
            title.append(" breakdown");
            title.append(RESET);
            title.append("  \u{2022}  ");
            title.append(human_duration(usage_total_for_days(tracker_of(app), &days)).as_str());
            push_line(lines, title);
            let mut headings = DIM.to_owned();
            headings.append(UNDERLINE);
            headings.append("  TAB                                      TIME      SHARE");
            headings.append(RESET);
            push_line(lines, headings);
            assert(text::texts(lines@) =~= before + breakdown_head(*app, day@));
            push_tabs(app, day.as_str(), height, lines);
            assert(text::texts(lines@) =~= before + breakdown_lines(*app, height as int, count));
        },
    }
}

fn push_head(app: &App, platform: Platform, span: Span, daily: &Vec<u64>, lines: &mut Vec<String>)
    requires
        span.is_countable(),
        daily@ == shown_seconds(*app, span),
        old(lines)@.len() == 0,
    ensures
        text::texts(final(lines)@) == usage_head(*app, platform, span),
        final(lines)@.len() == 5,
{
    push_line(lines, write_usage_title());
    let total: u64 = sum_seconds(daily.as_slice());
    let busiest: u64 = maximum(daily.as_slice());
    push_line(lines, write_usage_summary(span.weeks, total, busiest));
    push_line(lines, write_recording(app, platform));
    push_line(lines, "".to_owned());
    let mut months = DIM.to_owned();
    months.append(month_header(span.start, span.weeks).as_str());
    months.append(RESET);
    push_line(lines, months);
    assert(text::texts(lines@) =~= usage_head(*app, platform, span));
}

/// Draws the grid or the chart and says what it shows.
fn push_picture(
    app: &App,
    span: Span,
    daily: &Vec<u64>,
    height: usize,
    lines: &mut Vec<String>,
    layout: &mut Layout,
)
    requires
        span.is_countable(),
        daily@ == shown_seconds(*app, span),
        old(lines)@.len() == 5,
        old(layout).calendar_cells@.len() == 0,
    ensures
        text::texts(final(lines)@) == text::texts(old(lines)@) + picture_lines(
            *app,
            span,
            height as int,
        ) + seq![""@, caption_text(*app, span)],
        final(lines)@.len() == 7 + picture_lines(*app, span, height as int).len(),
        final(lines)@.len() <= 19,
        screen::cells_of(final(layout).calendar_cells@) == picture_cells(
            *app,
            span,
            height as int,
        ),
        final(layout).zones == old(layout).zones,
        final(layout).terminal_start_row == old(layout).terminal_start_row,
        final(layout).shown_start == old(layout).shown_start,
        final(layout).shown_count == old(layout).shown_count,
{
    let ghost before = text::texts(lines@);
    let ghost picture = picture_lines(*app, span, height as int);
    assert(screen::cells_of(layout.calendar_cells@) =~= seq![]);
    let caption = if app.usage_scale == UsageScale::Daily {
        push_grid(app, span, daily, lines, layout);
        legend_line()
    } else {
        let values = weekly_usage(daily.as_slice(), app.usage_scale);
        let peak: u64 = maximum(values.as_slice());
        let room: usize = height.saturating_sub(16);
        let rows: usize = if room < 4 {
            4
        } else if room > 12 {
            12
        } else {
            room
        };
        push_chart(app, span, &values, peak, rows, lines, layout);
        write_caption(app.usage_scale, peak)
    };
    assert(screen::cells_of(layout.calendar_cells@) =~= picture_cells(*app, span, height as int));
    push_line(lines, "".to_owned());
    push_line(lines, caption);
    assert(text::texts(lines@) =~= before + picture + seq![""@, caption_text(*app, span)]);
}

proof fn lemma_usage_hints()
    ensures
        usage_hints().len() == 2,
        screen::hint_end(usage_hints(), 2) <= 100,
        screen::are_plain(usage_hints()),
        forall|i: int| 0 <= i < 2 ==> (#[trigger] usage_hints()[i]).0@.len() > 0,
{
    reveal_strlit("  \u{b7}  ");
    reveal_strlit("u back to monitor");
    reveal_strlit("q quit");
    reveal_with_fuel(screen::hint_column, 3);
    let hints = usage_hints();
    assert forall|i: int| 0 <= i < hints.len() implies columns::is_plain((#[trigger] hints[i]).0@) by {
        let label = hints[i].0@;
        assert forall|k: int| 0 <= k < label.len() implies #[trigger] label[k] != ESCAPE by {}
    }
}

/// Builds the calendar frame and its click targets. `date` is today where there
/// is no tracker to know it.
pub fn render_usage(
    app: &App,
    platform: Platform,
    date: Option<&str>,
    height: usize,
    width: usize,
) -> (frame: (Vec<String>, Layout))
    requires
        has_span(*app, labels::text_in(date), width as int),
    ensures
        ({
            let span = span_of(*app, labels::text_in(date), width as int);
            &&& text::texts(frame.0@) == screen::fitted_lines(
                usage_lines(*app, platform, span, height as int),
                width as int,
            )
            &&& screen::cells_of(frame.1.calendar_cells@) == screen::cells_within(
                picture_cells(*app, span, height as int),
                width,
            )
            &&& frame.1.zones@ == screen::zones_within(
                usage_zones(*app, platform, span, height as int),
                width,
            )
        }),
        frame.1.terminal_start_row == 0,
        frame.1.shown_start == 0,
        frame.1.shown_count == 0,
{
    let span = match calendar_span(app, date, width) {
        Some(span) => span,
        None => {
            return (Vec::new(), Layout::default());
        },
    };
    let daily = daily_totals(tracker_of(app), span.start, span.weeks, span.today);
    let range_total: u64 = sum_seconds(daily.as_slice());
    let mut lines: Vec<String> = Vec::new();
    let mut layout = Layout::default();
    push_head(app, platform, span, &daily, &mut lines);
    let ghost head = text::texts(lines@);
    push_picture(app, span, &daily, height, &mut lines, &mut layout);
    let (scale_line, mut zones) = scale_selector(lines.len() + 1, app.usage_scale);
    layout.zones.append(&mut zones);
    push_line(&mut lines, scale_line);
    push_line(&mut lines, "".to_owned());
    push_line(&mut lines, write_hover(app, range_total, Ghost(span)));
    assert(text::texts(lines@) =~= usage_top(*app, platform, span, height as int));
    assert(layout.zones@ =~= scale_zones(scale_row(*app, span, height as int) as usize));
    push_breakdown(app, height, &mut lines);
    push_line(&mut lines, "".to_owned());
    assert(text::texts(lines@) == usage_body(*app, platform, span, height as int));
    let segments: Vec<(&str, Option<ClickAction>)> = vec![
        ("u back to monitor", Some(ClickAction::ShowMonitor)),
        ("q quit", Some(ClickAction::Quit)),
    ];
    assert(segments@ =~= usage_hints());
    proof {
        lemma_usage_hints();
    }
    let (hint, mut hint_zones) = hint_line(lines.len() + 1, segments.as_slice());
    layout.zones.append(&mut hint_zones);
    push_line(&mut lines, hint);
    assert(layout.zones@ =~= usage_zones(*app, platform, span, height as int));
    fit_targets(&mut layout, width);
    (fit_lines(&lines, width), layout)
}

/// Whether a cell of the grid stands for a day that has come, in the row of its
/// weekday and the column of its week.
pub open spec fn is_grid_cell(span: Span, first_row: int, cell: Cell, number: int) -> bool {
    &&& span.start <= number <= span.today
    &&& number < span.start + span.weeks * 7
    &&& cell == cell_in(
        (number - span.start) / 7,
        (first_row + (number - span.start) % 7) as usize,
        calendar::date_text(number),
    )
}

proof fn lemma_grid_line_cell(span: Span, first_row: int, weekday: int, n: int, i: int) -> (number: int)
    requires
        0 <= weekday < 7,
        0 <= n <= span.weeks,
        0 <= i < grid_line_cells(span, weekday, (first_row + weekday) as usize, n).len(),
    ensures
        is_grid_cell(
            span,
            first_row,
            grid_line_cells(span, weekday, (first_row + weekday) as usize, n)[i],
            number,
        ),
    decreases n,
{
    let row = (first_row + weekday) as usize;
    let before = grid_line_cells(span, weekday, row, n - 1);
    if i < before.len() {
        lemma_grid_line_cell(span, first_row, weekday, n - 1, i)
    } else {
        let number = day_in(span, n - 1, weekday);
        assert((number - span.start) / 7 == n - 1);
        assert((number - span.start) % 7 == weekday);
        number
    }
}

proof fn lemma_grid_cell(span: Span, first_row: int, n: int, i: int) -> (number: int)
    requires
        0 <= n <= 7,
        0 <= i < grid_cells(span, first_row, n).len(),
    ensures
        is_grid_cell(span, first_row, grid_cells(span, first_row, n)[i], number),
    decreases n,
{
    let before = grid_cells(span, first_row, n - 1);
    if i < before.len() {
        lemma_grid_cell(span, first_row, n - 1, i)
    } else {
        lemma_grid_line_cell(span, first_row, n - 1, span.weeks as int, i - before.len())
    }
}

/// Every cell of the grid stands for a day of the span that has come.
pub proof fn law_grid_cells_are_days(span: Span, first_row: int, i: int)
    requires
        0 <= i < grid_cells(span, first_row, 7).len(),
    ensures
        exists|number: int|
            #[trigger] is_grid_cell(span, first_row, grid_cells(span, first_row, 7)[i], number),
{
    let number = lemma_grid_cell(span, first_row, 7, i);
    assert(is_grid_cell(span, first_row, grid_cells(span, first_row, 7)[i], number));
}

/// Whether a cell of the chart stands for a week, in the column of that week and
/// named by its first day.
pub open spec fn is_chart_cell(span: Span, first_row: int, rows: int, cell: Cell, week: int) -> bool {
    &&& 0 <= week < span.weeks
    &&& exists|row: int|
        first_row <= row < first_row + rows && cell == #[trigger] cell_in(
            week,
            row as usize,
            calendar::date_text(day_in(span, week, 0)),
        )
}

proof fn lemma_chart_cell(span: Span, first_row: int, rows: int, i: int) -> (week: int)
    requires
        0 <= rows,
        0 <= i < chart_cells(span, first_row, rows).len(),
    ensures
        is_chart_cell(span, first_row, rows, chart_cells(span, first_row, rows)[i], week),
    decreases rows,
{
    let before = chart_cells(span, first_row, rows - 1);
    let cell = chart_cells(span, first_row, rows)[i];
    if i < before.len() {
        let week = lemma_chart_cell(span, first_row, rows - 1, i);
        let row = choose|row: int|
            first_row <= row < first_row + rows - 1 && cell == #[trigger] cell_in(
                week,
                row as usize,
                calendar::date_text(day_in(span, week, 0)),
            );
        assert(cell == cell_in(
            week,
            row as usize,
            calendar::date_text(day_in(span, week, 0)),
        ));
        week
    } else {
        let week = i - before.len();
        assert(cell == cell_in(
            week,
            (first_row + rows - 1) as usize,
            calendar::date_text(day_in(span, week, 0)),
        ));
        week
    }
}

/// Every cell of the chart stands for a week of the span, named by its Sunday.
pub proof fn law_chart_cells_are_weeks(
    app: App,
    date: Option<Seq<char>>,
    width: int,
    first_row: int,
    rows: int,
    i: int,
)
    requires
        has_span(app, date, width),
        0 <= rows,
        0 <= i < chart_cells(span_of(app, date, width), first_row, rows).len(),
    ensures
        ({
            let span = span_of(app, date, width);
            exists|week: int| #[trigger]
                is_chart_cell(
                    span,
                    first_row,
                    rows,
                    chart_cells(span, first_row, rows)[i],
                    week,
                ) && calendar::weekday_from_sunday(day_in(span, week, 0)) == 0
        }),
{
    let span = span_of(app, date, width);
    let week = lemma_chart_cell(span, first_row, rows, i);
    calendar::law_grid_start(span.today as int, span.weeks as int);
    assert((span.start + week * 7 + 4) % 7 == (span.start + 4) % 7);
    assert(is_chart_cell(span, first_row, rows, chart_cells(span, first_row, rows)[i], week));
}

/// Every click target and every cell of the calendar lies on its frame, where it
/// can be reached.
pub proof fn law_usage_targets_are_on_frame(
    app: App,
    platform: Platform,
    span: Span,
    height: int,
    width: usize,
)
    requires
        span.weeks <= 53,
        usage_lines(app, platform, span, height).len() <= usize::MAX,
    ensures
        ({
            let zones = screen::zones_within(usage_zones(app, platform, span, height), width);
            forall|i: int|
                0 <= i < zones.len() ==> screen::is_on_frame(
                    (#[trigger] zones[i]).row,
                    zones[i].start_column,
                    zones[i].end_column,
                    usage_lines(app, platform, span, height).len() as int,
                    width as int,
                )
        }),
        ({
            let cells = screen::cells_within(picture_cells(app, span, height), width);
            forall|i: int|
                0 <= i < cells.len() ==> screen::is_on_frame(
                    (#[trigger] cells[i]).row,
                    cells[i].start_column,
                    cells[i].end_column,
                    usage_lines(app, platform, span, height).len() as int,
                    width as int,
                )
        }),
{
    let rows = usage_lines(app, platform, span, height).len() as int;
    let picture = picture_lines(app, span, height);
    let top = usage_top(app, platform, span, height);
    assert(top.len() == 10 + picture.len());
    assert(rows >= top.len() + 2);
    let zones = usage_zones(app, platform, span, height);
    let scales = scale_zones(scale_row(app, span, height) as usize);
    let hints = screen::hint_zones(usage_hints(), rows as usize, 2);
    lemma_usage_hints();
    lemma_scale_columns();
    assert forall|k: int| 0 <= k < zones.len() implies screen::is_drawn(
        (#[trigger] zones[k]).row,
        zones[k].start_column,
        zones[k].end_column,
        rows,
    ) by {
        if k < 3 {
            assert(zones[k] == scales[k]);
            assert(scales[k] == scale_zone(scale_row(app, span, height) as usize, k));
        } else {
            assert(zones[k] == hints[k - 3]);
            let n = screen::lemma_zone_of_segment(usage_hints(), rows as usize, 2, k - 3);
            screen::lemma_hint_columns(usage_hints(), n, 1);
            assert(usage_hints()[n].0@.len() > 0);
            screen::lemma_segment_ends(usage_hints(), n, 2);
        }
    }
    screen::law_fitted_zones_are_on_frame(zones, rows, width);
    let cells = picture_cells(app, span, height);
    assert forall|k: int| 0 <= k < cells.len() implies screen::is_drawn(
        (#[trigger] cells[k]).row,
        cells[k].start_column,
        cells[k].end_column,
        rows,
    ) by {
        if is_by_week(app) {
            let week = lemma_chart_cell(span, 6, chart_rows(height), k);
        } else {
            let number = lemma_grid_cell(span, 6, 7, k);
        }
    }
    screen::law_fitted_cells_are_on_frame(cells, rows, width);
}

/// The styles of the calendar put nothing on the screen.
proof fn lemma_day_style(app: App, day: Seq<char>, level: int)
    ensures
        columns::is_complete(day_style(app, day, ramp_text(level))),
        columns::visible(day_style(app, day, ramp_text(level))) == Seq::<char>::empty(),
{
    reveal_strlit("\x1b[38;5;237m");
    reveal_strlit("\x1b[38;5;25m");
    reveal_strlit("\x1b[38;5;32m");
    reveal_strlit("\x1b[38;5;39m");
    reveal_strlit("\x1b[38;5;81m");
    reveal_strlit("\x1b[1;38;5;159m");
    reveal_strlit("\x1b[1;38;5;231m");
    columns::lemma_one_escape(ramp_text(level));
    columns::lemma_one_escape(CALENDAR_HOVER@);
    columns::lemma_one_escape(CALENDAR_SELECTED@);
}

/// A styled glyph beside a blank fills one cell.
proof fn lemma_cell_seen(line: Seq<char>, style: Seq<char>, glyph: Seq<char>, blank_inside: bool)
    requires
        columns::is_complete(line),
        columns::is_complete(style),
        columns::visible(style) == Seq::<char>::empty(),
        columns::is_plain(glyph),
    ensures
        ({
            let drawn = if blank_inside {
                style + glyph + " "@ + RESET@
            } else {
                style + glyph + RESET@ + " "@
            };
            &&& columns::is_complete(line + drawn)
            &&& columns::visible(line + drawn) == columns::visible(line) + (glyph + seq![' '])
        }),
{
    reveal_strlit(" ");
    screen::lemma_styles();
    let blank = " "@;
    assert(blank =~= seq![' ']);
    columns::lemma_plain(glyph);
    columns::lemma_plain(blank);
    columns::lemma_visible_add(style, glyph);
    let seen = style + glyph;
    assert(columns::visible(seen) =~= glyph);
    if blank_inside {
        columns::lemma_visible_add(seen, blank);
        columns::lemma_visible_add(seen + blank, RESET@);
        columns::lemma_visible_add(line, seen + blank + RESET@);
        assert(columns::visible(seen + blank + RESET@) =~= glyph + blank);
    } else {
        columns::lemma_visible_add(seen, RESET@);
        columns::lemma_visible_add(seen + RESET@, blank);
        columns::lemma_visible_add(line, seen + RESET@ + blank);
        assert(columns::visible(seen + RESET@ + blank) =~= glyph + blank);
    }
}

proof fn lemma_grid_line_seen(app: App, span: Span, weekday: int, n: int)
    requires
        0 <= n,
    ensures
        columns::is_complete(grid_line(app, span, weekday, n)),
        columns::visible(grid_line(app, span, weekday, n)).len() == CALENDAR_GUTTER + n
            * CALENDAR_CELL_WIDTH,
        forall|week: int|
            #![trigger day_in(span, week, weekday)]
            0 <= week < n && day_in(span, week, weekday) <= span.today ==> columns::visible(
                grid_line(app, span, weekday, n),
            )[CALENDAR_GUTTER + week * CALENDAR_CELL_WIDTH] == '\u{25a0}',
    decreases n,
{
    let line = grid_line(app, span, weekday, n);
    if n <= 0 {
        reveal_strlit(" Su ");
        reveal_strlit(" Mo ");
        reveal_strlit(" Tu ");
        reveal_strlit(" We ");
        reveal_strlit(" Th ");
        reveal_strlit(" Fr ");
        reveal_strlit(" Sa ");
        columns::lemma_plain(line);
    } else {
        let before = grid_line(app, span, weekday, n - 1);
        lemma_grid_line_seen(app, span, weekday, n - 1);
        let number = day_in(span, n - 1, weekday);
        let seen = columns::visible(line);
        if number > span.today {
            let blanks = number::repeated(' ', CALENDAR_CELL_WIDTH as int);
            columns::lemma_plain(blanks);
            columns::lemma_visible_add(before, blanks);
            assert(seen == columns::visible(before) + blanks);
        } else {
            let daily = shown_seconds(app, span);
            let level = chart::level_of(
                daily[(n - 1) * 7 + weekday] as int,
                chart::peak_of(daily, UsageScale::Daily) as int,
            );
            let day = calendar::date_text(number);
            reveal_strlit("\u{25a0}");
            lemma_day_style(app, day, level);
            lemma_cell_seen(before, day_style(app, day, ramp_text(level)), CALENDAR_BLOCK@, true);
            assert(seen == columns::visible(before) + (CALENDAR_BLOCK@ + seq![' ']));
            assert(seen[CALENDAR_GUTTER + (n - 1) * CALENDAR_CELL_WIDTH] == CALENDAR_BLOCK@[0]);
        }
        assert forall|week: int|
            #![trigger day_in(span, week, weekday)]
            0 <= week < n && day_in(span, week, weekday)
                <= span.today implies seen[CALENDAR_GUTTER + week * CALENDAR_CELL_WIDTH]
            == '\u{25a0}' by {
            if week < n - 1 {
                let at = CALENDAR_GUTTER + week * CALENDAR_CELL_WIDTH;
                assert(seen[at] == columns::visible(before)[at]);
            }
        }
    }
}

/// The square of a day is seen at the start of its cell.
pub proof fn law_squares_line_up(app: App, span: Span, weekday: int, week: int)
    requires
        span.weeks <= 53,
        0 <= weekday < 7,
        0 <= week < span.weeks,
        day_in(span, week, weekday) <= span.today,
    ensures
        ({
            let seen = columns::visible(grid_lines(app, span)[weekday]);
            let cell = cell_in(week, 0, calendar::date_text(day_in(span, week, weekday)));
            &&& 1 <= cell.start_column <= cell.end_column <= seen.len()
            &&& seen[cell.start_column - 1] == '\u{25a0}'
        }),
{
    lemma_grid_line_seen(app, span, weekday, span.weeks as int);
}

proof fn lemma_glyph(level: int)
    ensures
        chart::glyph_text(level).len() == 1,
        columns::is_plain(chart::glyph_text(level)),
{
    reveal_strlit(" ");
    reveal_strlit("\u{2581}");
    reveal_strlit("\u{2582}");
    reveal_strlit("\u{2583}");
    reveal_strlit("\u{2584}");
    reveal_strlit("\u{2585}");
    reveal_strlit("\u{2586}");
    reveal_strlit("\u{2587}");
    reveal_strlit("\u{2588}");
    let glyph = chart::glyph_text(level);
    assert forall|i: int| 0 <= i < glyph.len() implies #[trigger] glyph[i] != ESCAPE by {}
}

proof fn lemma_chart_line_seen(app: App, span: Span, rows: int, row_index: int, n: int)
    requires
        0 <= n,
    ensures
        columns::is_complete(chart_line(app, span, rows, row_index, n)),
        columns::visible(chart_line(app, span, rows, row_index, n)).len() == CALENDAR_GUTTER + n
            * CALENDAR_CELL_WIDTH,
        forall|week: int|
            #![trigger bar_slice(app, span, rows, row_index, week)]
            0 <= week < n ==> columns::visible(
                chart_line(app, span, rows, row_index, n),
            )[CALENDAR_GUTTER + week * CALENDAR_CELL_WIDTH] == bar_slice(
                app,
                span,
                rows,
                row_index,
                week,
            )[0],
    decreases n,
{
    let line = chart_line(app, span, rows, row_index, n);
    if n <= 0 {
        reveal_strlit("max ");
        reveal_strlit("  0 ");
        let gutter = gutter_text(row_index, rows);
        assert forall|i: int| 0 <= i < gutter.len() implies #[trigger] gutter[i] != ESCAPE by {}
        columns::lemma_plain(gutter);
        screen::lemma_styles();
        columns::lemma_visible_add(DIM@, gutter);
        columns::lemma_visible_add(DIM@ + gutter, RESET@);
        assert(columns::visible(line) =~= gutter);
    } else {
        let before = chart_line(app, span, rows, row_index, n - 1);
        lemma_chart_line_seen(app, span, rows, row_index, n - 1);
        let seen = columns::visible(line);
        let day = calendar::date_text(day_in(span, n - 1, 0));
        let glyph = bar_slice(app, span, rows, row_index, n - 1);
        let values = shown_weeks(app, span);
        lemma_glyph(
            chart::row_level(
                chart::eighths_of(values[n - 1] as int, chart::largest(values) as int, rows),
                rows - 1 - row_index,
            ),
        );
        lemma_day_style(app, day, 3);
        lemma_cell_seen(before, day_style(app, day, ramp_text(3)), glyph, false);
        assert(seen == columns::visible(before) + (glyph + seq![' ']));
        assert(seen[CALENDAR_GUTTER + (n - 1) * CALENDAR_CELL_WIDTH] == glyph[0]);
        assert forall|week: int|
            #![trigger bar_slice(app, span, rows, row_index, week)]
            0 <= week < n implies seen[CALENDAR_GUTTER + week * CALENDAR_CELL_WIDTH] == bar_slice(
            app,
            span,
            rows,
            row_index,
            week,
        )[0] by {
            if week < n - 1 {
                let at = CALENDAR_GUTTER + week * CALENDAR_CELL_WIDTH;
                assert(seen[at] == columns::visible(before)[at]);
            }
        }
    }
}

/// The slice of a week's bar is seen at the start of its cell.
pub proof fn law_bars_line_up(app: App, span: Span, rows: int, row_index: int, week: int)
    requires
        span.weeks <= 53,
        0 <= row_index < rows,
        0 <= week < span.weeks,
    ensures
        ({
            let seen = columns::visible(chart_lines(app, span, rows)[row_index]);
            let cell = cell_in(week, 0, calendar::date_text(day_in(span, week, 0)));
            &&& 1 <= cell.start_column <= cell.end_column <= seen.len()
            &&& seen[cell.start_column - 1] == bar_slice(app, span, rows, row_index, week)[0]
        }),
{
    lemma_chart_line_seen(app, span, rows, row_index, span.weeks as int);
}

/// Focused time on a day, by its number; days to come have none.
pub open spec fn time_on(app: App, span: Span, number: int) -> u64 {
    if number > span.today {
        0
    } else {
        report::total_on(recorded_days(app), calendar::date_text(number))
    }
}

/// Whether `peak` is the time on the busiest day shown, or four hours where that
/// is more.
pub open spec fn is_daily_peak(app: App, span: Span, peak: u64) -> bool {
    &&& peak >= 14_400
    &&& forall|number: int|
        span.start <= number < span.start + span.weeks * 7 ==> #[trigger] time_on(
            app,
            span,
            number,
        ) <= peak
    &&& peak == 14_400 || exists|number: int|
        span.start <= number < span.start + span.weeks * 7 && #[trigger] time_on(app, span, number)
            == peak
}

/// The colour for a time: one of its own for no time at all, and four shades for
/// the quarters of the peak, brighter for more.
pub open spec fn shade_of(seconds: u64, peak: u64) -> Seq<char> {
    if seconds == 0 {
        "\x1b[38;5;237m"@
    } else if 4 * seconds <= peak {
        "\x1b[38;5;25m"@
    } else if 4 * seconds <= 2 * peak {
        "\x1b[38;5;32m"@
    } else if 4 * seconds <= 3 * peak {
        "\x1b[38;5;39m"@
    } else {
        "\x1b[38;5;81m"@
    }
}

proof fn lemma_daily_peak(app: App, span: Span, peak: u64)
    requires
        is_daily_peak(app, span, peak),
    ensures
        peak == chart::peak_of(shown_seconds(app, span), UsageScale::Daily),
{
    let daily = shown_seconds(app, span);
    chart::law_peak(daily, UsageScale::Daily);
    let found = chart::peak_of(daily, UsageScale::Daily);
    if daily.contains(found) {
        let k = daily.index_of(found);
        assert(daily[k] == time_on(app, span, span.start + k));
    }
    if peak != 14_400 {
        let number = choose|number: int|
            span.start <= number < span.start + span.weeks * 7 && #[trigger] time_on(
                app,
                span,
                number,
            ) == peak;
        assert(daily[number - span.start] == peak);
    }
}

proof fn lemma_square_in_line(app: App, span: Span, weekday: int, week: int, n: int) -> (back: Seq<
    char,
>)
    requires
        0 <= weekday < 7,
        0 <= week < n,
        day_in(span, week, weekday) <= span.today,
    ensures
        grid_line(app, span, weekday, n) == grid_line(app, span, weekday, week) + square_text(
            app,
            calendar::date_text(day_in(span, week, weekday)),
            shown_seconds(app, span)[week * 7 + weekday],
            chart::peak_of(shown_seconds(app, span), UsageScale::Daily),
        ) + back,
    decreases n,
{
    let front = grid_line(app, span, weekday, week);
    if week == n - 1 {
        let back = Seq::<char>::empty();
        assert(grid_line(app, span, weekday, n) + back =~= grid_line(app, span, weekday, n));
        back
    } else {
        let before = lemma_square_in_line(app, span, weekday, week, n - 1);
        let line = grid_line(app, span, weekday, n);
        let shorter = grid_line(app, span, weekday, n - 1);
        let more = line.skip(shorter.len() as int);
        assert(line =~= shorter + more);
        assert(line =~= front + square_text(
            app,
            calendar::date_text(day_in(span, week, weekday)),
            shown_seconds(app, span)[week * 7 + weekday],
            chart::peak_of(shown_seconds(app, span), UsageScale::Daily),
        ) + (before + more));
        before + more
    }
}

/// The style of a day: bright where it is selected, less so where it is under the
/// mouse, and else the shade of the time recorded on it.
pub open spec fn shade_on(app: App, day: Seq<char>, peak: u64) -> Seq<char> {
    if state::text_of(app.selected_day) == Some(day) {
        "\x1b[1;38;5;231m"@
    } else if state::text_of(app.hovered_day) == Some(day) {
        "\x1b[1;38;5;159m"@
    } else {
        shade_of(report::total_on(recorded_days(app), day), peak)
    }
}

/// Whether a line has a styled square in a cell: so many columns are seen in front
/// of it, and the square is drawn in the given style.
pub open spec fn has_square(
    line: Seq<char>,
    columns_before: int,
    style: Seq<char>,
    front: Seq<char>,
    back: Seq<char>,
) -> bool {
    &&& line == front + (style + "\u{25a0} "@ + "\x1b[0m"@) + back
    &&& columns::visible(front).len() == columns_before
}

/// The square of a day, in the column of its week and the row of its weekday, has
/// the shade of the time recorded on that very day, measured by the busiest day
/// shown. It stands out instead where the day is selected or under the mouse.
pub proof fn law_squares_have_the_shade_of_their_day(
    app: App,
    span: Span,
    weekday: int,
    week: int,
    peak: u64,
)
    requires
        span.weeks <= 53,
        0 <= weekday < 7,
        0 <= week < span.weeks,
        span.start + week * 7 + weekday <= span.today,
        is_daily_peak(app, span, peak),
        4 * peak <= u64::MAX,
    ensures
        ({
            let day = calendar::date_text(span.start + week * 7 + weekday);
            let line = grid_lines(app, span)[weekday];
            exists|front: Seq<char>, back: Seq<char>| #[trigger]
                has_square(line, 4 + 2 * week, shade_on(app, day, peak), front, back)
        }),
{
    let number = day_in(span, week, weekday);
    let day = calendar::date_text(number);
    let seconds = report::total_on(recorded_days(app), day);
    let daily = shown_seconds(app, span);
    lemma_daily_peak(app, span, peak);
    lemma_grid_line_seen(app, span, weekday, week);
    let front = grid_line(app, span, weekday, week);
    let back = lemma_square_in_line(app, span, weekday, week, span.weeks as int);
    assert(daily[week * 7 + weekday] == seconds);
    assert(time_on(app, span, number) <= peak);
    let level = chart::level_of(seconds as int, peak as int);
    if seconds > 0 {
        chart::law_level_is_quarter(seconds as int, peak as int);
    }
    lemma_shade(seconds, peak, level);
    reveal_strlit("\u{25a0} ");
    reveal_strlit("\u{25a0}");
    reveal_strlit(" ");
    let style = day_style(app, day, ramp_text(level));
    assert(CALENDAR_BLOCK@ + " "@ =~= "\u{25a0} "@);
    let square = style + "\u{25a0} "@ + "\x1b[0m"@;
    assert(square_text(app, day, seconds, peak) =~= square);
    assert(style == shade_on(app, day, peak));
    let line = grid_lines(app, span)[weekday];
    assert(line == front + square + back);
    assert(has_square(line, 4 + 2 * week, shade_on(app, day, peak), front, back));
}

proof fn lemma_shade(seconds: u64, peak: u64, level: int)
    requires
        seconds <= peak,
        peak > 0,
        level == chart::level_of(seconds as int, peak as int),
        seconds > 0 ==> 1 <= level <= 4 && (level - 1) * peak < 4 * seconds <= level * peak,
    ensures
        ramp_text(level) == shade_of(seconds, peak),
{
    if seconds > 0 {
        assert(level == 1 ==> level * peak == peak && (level - 1) * peak == 0) by (nonlinear_arith);
        assert(level == 2 ==> level * peak == 2 * peak && (level - 1) * peak == peak)
            by (nonlinear_arith);
        assert(level == 3 ==> level * peak == 3 * peak && (level - 1) * peak == 2 * peak)
            by (nonlinear_arith);
        assert(level == 4 ==> (level - 1) * peak == 3 * peak) by (nonlinear_arith);
    }
}

/// The time of a week: its seven days, or all days up to its end for the running
/// total.
pub open spec fn week_time(app: App, span: Span, week: int) -> u64 {
    let running = app.usage_scale == UsageScale::Cumulative;
    let first = if running {
        span.start as int
    } else {
        span.start + week * 7
    };
    let count = if running {
        week * 7 + 7
    } else {
        7
    };
    chart::capped(
        chart::total(Seq::new(count as nat, |k: int| time_on(app, span, first + k))),
    )
}

proof fn lemma_week_time(app: App, span: Span, week: int)
    requires
        0 <= week < span.weeks,
    ensures
        shown_weeks(app, span).len() == span.weeks,
        shown_weeks(app, span)[week] == week_time(app, span, week),
{
    let daily = shown_seconds(app, span);
    let running = app.usage_scale == UsageScale::Cumulative;
    let first = if running {
        span.start as int
    } else {
        span.start + week * 7
    };
    let count = if running {
        week * 7 + 7
    } else {
        7
    };
    let days = Seq::new(count as nat, |k: int| time_on(app, span, first + k));
    assert(daily.len() == span.weeks * 7);
    if running {
        assert(daily.take(7 * week + 7) =~= days);
    } else {
        assert(daily.subrange(7 * week, 7 * week + 7) =~= days);
    }
}

/// A bar shows the time of its week: in the column of the week, counted from the
/// bottom, as many eighths of a row are filled as its time is of the longest time
/// among the weeks shown.
pub proof fn law_bars_show_their_week(
    app: App,
    span: Span,
    rows: int,
    row_index: int,
    week: int,
    longest: u64,
)
    requires
        span.weeks <= 53,
        0 <= row_index < rows,
        0 <= week < span.weeks,
        forall|w: int| 0 <= w < span.weeks ==> #[trigger] week_time(app, span, w) <= longest,
        exists|w: int| 0 <= w < span.weeks && #[trigger] week_time(app, span, w) == longest,
    ensures
        ({
            let seen = columns::visible(chart_lines(app, span, rows)[row_index]);
            let height = chart::eighths_of(
                week_time(app, span, week) as int,
                longest as int,
                rows,
            );
            let below = (rows - 1 - row_index) * 8;
            let glyph = seen[4 + 2 * week];
            &&& 4 + 2 * week < seen.len()
            &&& height <= below ==> glyph == ' '
            &&& height >= below + 8 ==> glyph == '\u{2588}'
            &&& below < height < below + 8 ==> glyph as int == 0x2580 + (height - below)
        }),
{
    let values = shown_weeks(app, span);
    lemma_week_time(app, span, week);
    chart::law_largest(values);
    let w = choose|w: int| 0 <= w < span.weeks && #[trigger] week_time(app, span, w) == longest;
    lemma_week_time(app, span, w);
    assert(values[w] == longest);
    let k = values.index_of(chart::largest(values));
    lemma_week_time(app, span, k);
    assert(week_time(app, span, k) <= longest);
    law_bars_line_up(app, span, rows, row_index, week);
    let height = chart::eighths_of(values[week] as int, longest as int, rows);
    if values[week] > 0 {
        chart::law_bar_visible(values[week] as int, longest as int, rows);
    }
    chart::law_bars_fill_from_the_bottom(height, rows - 1 - row_index);
    let level = chart::row_level(height, rows - 1 - row_index);
    chart::law_glyphs_rise(level);
}

/// The summary names the weeks shown, the time on all their days together, and the
/// time on the busiest of them.
pub proof fn law_summary(app: App, span: Span, platform: Platform, busiest: u64)
    requires
        span.weeks > 0,
        forall|number: int|
            span.start <= number < span.start + span.weeks * 7 ==> #[trigger] time_on(
                app,
                span,
                number,
            ) <= busiest,
        exists|number: int|
            span.start <= number < span.start + span.weeks * 7 && #[trigger] time_on(
                app,
                span,
                number,
            ) == busiest,
    ensures
        usage_head(app, platform, span)[1] == "Last "@ + number::decimal(span.weeks as nat)
            + " weeks  \u{2022}  "@ + measure::duration_text(
            chart::capped(
                chart::total(
                    Seq::new(
                        (span.weeks * 7) as nat,
                        |k: int| time_on(app, span, span.start + k),
                    ),
                ),
            ) as int,
        ) + " total  \u{2022}  busiest day "@ + measure::duration_text(busiest as int),
{
    let daily = shown_seconds(app, span);
    let times = Seq::new((span.weeks * 7) as nat, |k: int| time_on(app, span, span.start + k));
    assert(daily =~= times);
    chart::law_largest(daily);
    let number = choose|number: int|
        span.start <= number < span.start + span.weeks * 7 && #[trigger] time_on(app, span, number)
            == busiest;
    assert(daily[number - span.start] == busiest);
    let k = daily.index_of(chart::largest(daily));
    assert(daily[k] == time_on(app, span, span.start + k));
}

/// Pointing at a day tells the time on that day, or in the week from it on where
/// the calendar shows weeks.
pub proof fn law_hover_tells_the_time(app: App, span: Span, day: Seq<char>, number: i64)
    requires
        state::text_of(app.hovered_day) == Some(day),
        calendar::date_number(day) == Some(number),
        number + 6 <= i64::MAX,
    ensures
        hover_text(app, span) == BOLD@ + calendar::selection_text(
            day,
            app.usage_scale != UsageScale::Daily,
        ) + RESET@ + "  \u{2022}  "@ + measure::duration_text(
            (if app.usage_scale == UsageScale::Daily {
                report::total_on(recorded_days(app), day)
            } else {
                chart::capped(
                    chart::total(
                        Seq::new(
                            7,
                            |k: int|
                                report::total_on(
                                    recorded_days(app),
                                    calendar::date_text(number + k),
                                ),
                        ),
                    ),
                )
            }) as int,
        ),
{
    let days = recorded_days(app);
    let covered = calendar::covered_days(day, is_by_week(app));
    let totals = report::totals_on(days, covered);
    if app.usage_scale == UsageScale::Daily {
        assert(totals =~= seq![report::total_on(days, day)]);
        chart::law_total(report::total_on(days, day), seq![], seq![]);
    } else {
        assert(totals =~= Seq::new(
            7,
            |k: int| report::total_on(days, calendar::date_text(number + k)),
        ));
    }
}

/// The breakdown of the selected day or week follows the rest: a title with its
/// time, headings, and the tabs with the most time, as many as fit.
pub proof fn law_breakdown_of_the_selection(
    app: App,
    height: int,
    lines: int,
    day: Seq<char>,
    i: int,
)
    requires
        state::text_of(app.selected_day) == Some(day),
        0 <= i < breakdown_lines(app, height, lines).len() - 3,
        covered_tabs(app, day).len() > 0,
    ensures
        ({
            let tabs = report::breakdown(
                report::uses_over(
                    recorded_days(app),
                    calendar::covered_days(day, app.usage_scale != UsageScale::Daily),
                ),
            );
            let shown = breakdown_lines(app, height, lines);
            let row = shown[3 + i];
            let whole = covered_total(app, day);
            &&& i < tabs.len()
            &&& shown.len() - 3 <= tabs.len()
            &&& shown.len() - 3 < tabs.len() ==> lines + shown.len() + 4 >= height
            &&& lines + 7 < height ==> lines + shown.len() + 4 <= height
            &&& row.take(42) == "  "@ + number::pad_right(columns::truncated_text(tabs[i].0, 40), 40)
            &&& measure::duration_text(tabs[i].1 as int).len() <= 8 ==> row.subrange(43, 51)
                == number::pad_left(measure::duration_text(tabs[i].1 as int), 8)
            &&& measure::duration_text(tabs[i].1 as int).len() <= 8 ==> row.skip(54)
                == number::pad_left(measure::share_text(tabs[i].1 as nat, whole as nat), 5) + "%"@
        }),
{
    let by_week = is_by_week(app);
    let covered = calendar::covered_days(day, by_week);
    let tabs = covered_tabs(app, day);
    report::law_headline_is_the_breakdown(recorded_days(app), covered);
    let shown = breakdown_lines(app, height, lines);
    let row = shown[3 + i];
    assert(row == tab_lines(app, day, height, lines + 3)[i]);
    reveal_strlit("  ");
    reveal_strlit(" ");
    reveal_strlit("   ");
    columns::law_truncated_length(tabs[i].0, 40);
    let name = "  "@ + number::pad_right(columns::truncated_text(tabs[i].0, 40), 40);
    assert(row.take(42) =~= name);
    let time = measure::duration_text(tabs[i].1 as int);
    if time.len() <= 8 {
        assert(row.subrange(43, 51) =~= number::pad_left(time, 8));
        assert(row.skip(54) =~= number::pad_left(
            measure::share_text(tabs[i].1 as nat, covered_total(app, day) as nat),
            5,
        ) + "%"@);
    }
}

proof fn lemma_cell_of_day(span: Span, weekday: int, row: usize, n: int, week: int) -> (k: int)
    requires
        0 <= week < n,
        day_in(span, week, weekday) <= span.today,
    ensures
        0 <= k < grid_line_cells(span, weekday, row, n).len(),
        grid_line_cells(span, weekday, row, n)[k] == cell_in(
            week,
            row,
            calendar::date_text(day_in(span, week, weekday)),
        ),
    decreases n,
{
    let before = grid_line_cells(span, weekday, row, n - 1);
    if week == n - 1 {
        before.len() as int
    } else {
        lemma_cell_of_day(span, weekday, row, n - 1, week)
    }
}

proof fn lemma_cell_in_grid(span: Span, first_row: int, n: int, weekday: int, week: int) -> (k: int)
    requires
        0 <= weekday < n,
        0 <= week < span.weeks,
        day_in(span, week, weekday) <= span.today,
    ensures
        0 <= k < grid_cells(span, first_row, n).len(),
        grid_cells(span, first_row, n)[k] == cell_in(
            week,
            (first_row + weekday) as usize,
            calendar::date_text(day_in(span, week, weekday)),
        ),
    decreases n,
{
    let before = grid_cells(span, first_row, n - 1);
    if weekday == n - 1 {
        let k = lemma_cell_of_day(
            span,
            n - 1,
            (first_row + n - 1) as usize,
            span.weeks as int,
            week,
        );
        before.len() + k
    } else {
        lemma_cell_in_grid(span, first_row, n - 1, weekday, week)
    }
}

/// Every day shown that has come can be pointed at where its square is drawn: two
/// columns for each week behind the names of the weekdays, one row for each
/// weekday, Sunday on top.
pub proof fn law_every_day_has_its_cell(app: App, span: Span, height: int, number: int)
    requires
        span.weeks <= 53,
        app.usage_scale == UsageScale::Daily,
        span.start <= number <= span.today,
        number < span.start + span.weeks * 7,
    ensures
        picture_cells(app, span, height).contains(
            Cell {
                start_column: (5 + 2 * ((number - span.start) / 7)) as usize,
                end_column: (6 + 2 * ((number - span.start) / 7)) as usize,
                row: (6 + (number - span.start) % 7) as usize,
                day: calendar::date_text(number),
            },
        ),
{
    let week = (number - span.start) / 7;
    let weekday = (number - span.start) % 7;
    let k = lemma_cell_in_grid(span, 6, 7, weekday, week);
    assert(day_in(span, week, weekday) == number);
    assert(picture_cells(app, span, height)[k] == cell_in(
        week,
        (6 + weekday) as usize,
        calendar::date_text(number),
    ));
}

proof fn lemma_cell_of_week(span: Span, first_row: int, rows: int, row_index: int, week: int) -> (k:
    int)
    requires
        0 <= row_index < rows,
        0 <= week < span.weeks,
    ensures
        0 <= k < chart_cells(span, first_row, rows).len(),
        chart_cells(span, first_row, rows)[k] == cell_in(
            week,
            (first_row + row_index) as usize,
            calendar::date_text(day_in(span, week, 0)),
        ),
    decreases rows,
{
    let before = chart_cells(span, first_row, rows - 1);
    if row_index == rows - 1 {
        before.len() + week
    } else {
        lemma_cell_of_week(span, first_row, rows - 1, row_index, week)
    }
}

/// Every week shown can be pointed at in every row of its bar, and stands for its
/// first day.
pub proof fn law_every_week_has_its_cells(
    app: App,
    span: Span,
    height: int,
    row_index: int,
    week: int,
)
    requires
        span.weeks <= 53,
        app.usage_scale != UsageScale::Daily,
        0 <= row_index < chart_rows(height),
        0 <= week < span.weeks,
    ensures
        picture_cells(app, span, height).contains(
            Cell {
                start_column: (5 + 2 * week) as usize,
                end_column: (6 + 2 * week) as usize,
                row: (6 + row_index) as usize,
                day: calendar::date_text(span.start + week * 7),
            },
        ),
{
    let k = lemma_cell_of_week(span, 6, chart_rows(height), row_index, week);
    assert(picture_cells(app, span, height)[k] == cell_in(
        week,
        (6 + row_index) as usize,
        calendar::date_text(day_in(span, week, 0)),
    ));
}

/// The frame from the top: what it is, the summary, whether time is recorded, the
/// months, the picture that the scale asks for, what it means, the scales, and
/// what is pointed at. The keys come last.
pub proof fn law_calendar_frame(app: App, platform: Platform, span: Span, height: int)
    ensures
        ({
            let lines = usage_lines(app, platform, span, height);
            let rows = if app.usage_scale == UsageScale::Daily {
                7
            } else if height < 20 {
                4
            } else if height > 28 {
                12
            } else {
                height - 16
            };
            let picture = if app.usage_scale == UsageScale::Daily {
                grid_lines(app, span)
            } else {
                chart_lines(app, span, rows)
            };
            &&& lines.len() >= 12 + rows
            &&& lines[1] == usage_summary(app, span)
            &&& lines[2] == recording_text(app, platform)
            &&& lines[4] == DIM@ + calendar::month_line(span.start as int, span.weeks as int)
                + RESET@
            &&& picture.len() == rows
            &&& forall|i: int| 0 <= i < rows ==> #[trigger] lines[5 + i] == picture[i]
            &&& lines[6 + rows] == caption_text(app, span)
            &&& lines[7 + rows] == scale_words(app.usage_scale, 3)
            &&& lines[9 + rows] == hover_text(app, span)
            &&& app.selected_day is None ==> lines.len() == 12 + rows
            &&& app.selected_day is Some ==> forall|i: int|
                0 <= i < breakdown_lines(app, height, 10 + rows).len() ==> #[trigger] lines[10
                    + rows + i] == breakdown_lines(app, height, 10 + rows)[i]
            &&& lines.last() == screen::hint_text(usage_hints())
        }),
{
    let lines = usage_lines(app, platform, span, height);
    let top = usage_top(app, platform, span, height);
    let picture = picture_lines(app, span, height);
    let shown = breakdown_lines(app, height, top.len() as int);
    assert(lines =~= top + shown + seq![""@, screen::hint_text(usage_hints())]);
    assert(top.len() == 10 + picture.len());
    assert forall|i: int| 0 <= i < top.len() implies #[trigger] lines[i] == top[i] by {}
    assert forall|i: int| 0 <= i < picture.len() implies #[trigger] lines[5 + i] == picture[i] by {
        assert(top[5 + i] == picture[i]);
    }
    assert forall|i: int| 0 <= i < shown.len() implies #[trigger] lines[top.len() + i]
        == shown[i] by {}
}

/// Whether time is recorded is told truly: on Linux it is not, with an error it is
/// paused for that reason, and while the user is away it is paused for theirs.
pub proof fn law_recording_is_told(app: App, platform: Platform, tracker: UsageTracker)
    requires
        app.usage_tracker == Some(tracker),
    ensures
        platform == Platform::Linux ==> recording_text(app, platform) == DIM@ + "Not recording: "@
            + FOCUS_UNAVAILABLE@ + "."@ + RESET@,
        platform == Platform::MacOs ==> (tracker.last_error matches Some(error) ==> recording_text(
            app,
            platform,
        ) == RED@ + "Tracking paused: "@ + error@ + RESET@),
        platform == Platform::MacOs && tracker.last_error is None ==> (tracker.away matches Some(away)
            ==> recording_text(app, platform) == DIM@ + "Paused while "@ + away.words() + "."@
            + RESET@),
        platform == Platform::MacOs && tracker.last_error is None && tracker.away is None
            ==> recording_text(app, platform) == DIM@
            + "Counting only while Ghostty is frontmost and you are at the machine."@ + RESET@,
{
}

/// The targets of the calendar are in the rows that show them: the scales in the row
/// of the scales' names, the hints in the last.
pub proof fn law_calendar_targets_are_in_their_rows(
    app: App,
    platform: Platform,
    span: Span,
    height: int,
    k: int,
)
    requires
        usage_lines(app, platform, span, height).len() <= usize::MAX,
        0 <= k < usage_zones(app, platform, span, height).len(),
    ensures
        ({
            let lines = usage_lines(app, platform, span, height);
            let zone = usage_zones(app, platform, span, height)[k];
            &&& k < 3 ==> lines[zone.row - 1] == scale_words(app.usage_scale, 3)
            &&& k < 3 ==> zone.action == ClickAction::SetScale(scale_at(k))
            &&& k >= 3 ==> zone.row == lines.len() && lines[zone.row - 1] == screen::hint_text(
                usage_hints(),
            )
        }),
{
    law_calendar_frame(app, platform, span, height);
    let lines = usage_lines(app, platform, span, height);
    let scales = scale_zones(scale_row(app, span, height) as usize);
    let zones = usage_zones(app, platform, span, height);
    let hints = screen::hint_zones(usage_hints(), lines.len() as usize, 2);
    if k < 3 {
        assert(zones[k] == scales[k]);
        assert(scales[k] == scale_zone(scale_row(app, span, height) as usize, k));
    } else {
        assert(zones[k] == hints[k - 3]);
        screen::law_hints_share_their_row(usage_hints(), lines.len() as usize, 2, k - 3);
    }
}

/// Each row of squares begins with the first two letters of its weekday, from Sunday
/// on.
pub proof fn law_rows_name_their_weekday(app: App, span: Span, weekday: int)
    requires
        0 <= weekday < 7,
    ensures
        ({
            let name = calendar::weekday_text(if weekday == 0 {
                6
            } else {
                weekday - 1
            });
            text::begins_with(grid_lines(app, span)[weekday], seq![' ', name[0], name[1], ' '])
        }),
{
    let name = calendar::weekday_text(if weekday == 0 {
        6
    } else {
        weekday - 1
    });
    reveal_strlit("Mon");
    reveal_strlit("Tue");
    reveal_strlit("Wed");
    reveal_strlit("Thu");
    reveal_strlit("Fri");
    reveal_strlit("Sat");
    reveal_strlit("Sun");
    reveal_strlit(" Mo ");
    reveal_strlit(" Tu ");
    reveal_strlit(" We ");
    reveal_strlit(" Th ");
    reveal_strlit(" Fr ");
    reveal_strlit(" Sa ");
    reveal_strlit(" Su ");
    assert(weekday_label(weekday) =~= seq![' ', name[0], name[1], ' ']);
    lemma_row_begins(app, span, weekday, span.weeks as int);
}

proof fn lemma_row_begins(app: App, span: Span, weekday: int, n: int)
    ensures
        text::begins_with(grid_line(app, span, weekday, n), weekday_label(weekday)),
    decreases n,
{
    if n <= 0 {
        assert(weekday_label(weekday).take(weekday_label(weekday).len() as int)
            =~= weekday_label(weekday));
    } else {
        lemma_row_begins(app, span, weekday, n - 1);
        let before = grid_line(app, span, weekday, n - 1);
        let whole = grid_line(app, span, weekday, n);
        let length = weekday_label(weekday).len() as int;
        assert(whole.take(before.len() as int) =~= before);
        assert(whole.take(length) =~= before.take(length));
    }
}

} // verus!
