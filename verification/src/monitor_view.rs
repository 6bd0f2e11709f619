//! The monitor: terminals, what they use, and the processes in one of them.
use vstd::prelude::*;
use vstd::string::*;
use crate::chart;
use crate::columns;
use crate::columns::{ESCAPE, RESET, truncate};
use crate::lists;
use crate::measure;
use crate::measure::{compact_signed_kib, human_bytes, human_duration, signed_human_kib};
use crate::number;
use crate::number::{align_left, align_right, repeat_char, write_decimal, write_signed};
use crate::process::Process;
use crate::report;
use crate::report::usage_total_for_day;
use crate::screen;
use crate::screen::{ACTIVE_HEADER, BOLD, CYAN, ClickAction, ClickZone, DIM, GREEN, Layout, RED, SELECTED, UNDERLINE, WARNING, YELLOW, fit_lines, fit_targets, hint_line, push_line};
use crate::state;
use crate::state::App;
use crate::terminals::{SortBy, Terminal};
use crate::text;
use crate::tracker::UsageTracker;

verus! {

/// Columns other than the two flexible ones, plus the spaces between all seven.
pub const MONITOR_FIXED_WIDTH: usize = 55;

/// Columns in front of the first heading.
pub const HEADER_INDENT: usize = 3;

/// Number of headings.
pub const HEADINGS: usize = 7;

/// The space left over after the fixed columns.
pub open spec fn spare_width(width: int) -> int {
    if width > MONITOR_FIXED_WIDTH {
        width - MONITOR_FIXED_WIDTH
    } else {
        0
    }
}

/// Width of the tab names: three fifths of what is left over, within bounds.
pub open spec fn tab_column(width: int) -> int {
    let share = spare_width(width) * 3 / 5;
    if share < 10 {
        10
    } else if share > 36 {
        36
    } else {
        share
    }
}

/// Width of the activities: the rest of what is left over, within bounds.
pub open spec fn activity_column(width: int) -> int {
    let rest = spare_width(width) - tab_column(width);
    if rest < 8 {
        8
    } else {
        rest
    }
}

/// Splits the space left over after the fixed columns, favouring tab names
/// because they are longer and more distinguishing than activity names.
pub fn monitor_flex_widths(width: usize) -> (widths: (usize, usize))
    ensures
        widths.0 == tab_column(width as int),
        widths.1 == activity_column(width as int),
{
    let spare: usize = width.saturating_sub(MONITOR_FIXED_WIDTH);
    let tab: usize = if spare >= 61 {
        36
    } else if spare * 3 / 5 < 10 {
        10
    } else if spare * 3 / 5 > 36 {
        36
    } else {
        spare * 3 / 5
    };
    let rest: usize = spare.saturating_sub(tab);
    (
        tab,
        if rest < 8 {
            8
        } else {
            rest
        },
    )
}

/// Label of a heading.
pub open spec fn heading_label(index: int) -> Seq<char> {
    if index == 0 {
        "TAB"@
    } else if index == 1 {
        "CPU"@
    } else if index == 2 {
        "RAM"@
    } else if index == 3 {
        "TREND"@
    } else if index == 4 {
        "PROCS"@
    } else if index == 5 {
        "AGE"@
    } else {
        "ACTIVITY"@
    }
}

/// Width of a heading.
pub open spec fn heading_width(index: int, width: int) -> int {
    if index == 0 {
        tab_column(width)
    } else if index == 1 {
        7
    } else if index == 2 {
        9
    } else if index == 3 {
        12
    } else if index == 4 {
        7
    } else if index == 5 {
        11
    } else {
        activity_column(width)
    }
}

/// What a heading orders the terminals by.
pub open spec fn heading_sort(index: int) -> SortBy {
    if index == 0 {
        SortBy::Tab
    } else if index == 1 {
        SortBy::Cpu
    } else if index == 2 {
        SortBy::Memory
    } else if index == 3 {
        SortBy::Trend
    } else if index == 4 {
        SortBy::Processes
    } else if index == 5 {
        SortBy::Age
    } else {
        SortBy::Activity
    }
}

/// Whether the values under a heading are numbers, which stand on the right.
pub open spec fn is_right_aligned(index: int) -> bool {
    1 <= index <= 5
}

fn heading(index: usize, width: usize) -> (found: (&'static str, usize, SortBy, bool))
    ensures
        found.0@ == heading_label(index as int),
        found.1 == heading_width(index as int, width as int),
        found.2 == heading_sort(index as int),
        found.3 == is_right_aligned(index as int),
{
    let (tab_width, activity_width) = monitor_flex_widths(width);
    if index == 0 {
        ("TAB", tab_width, SortBy::Tab, false)
    } else if index == 1 {
        ("CPU", 7, SortBy::Cpu, true)
    } else if index == 2 {
        ("RAM", 9, SortBy::Memory, true)
    } else if index == 3 {
        ("TREND", 12, SortBy::Trend, true)
    } else if index == 4 {
        ("PROCS", 7, SortBy::Processes, true)
    } else if index == 5 {
        ("AGE", 11, SortBy::Age, true)
    } else {
        ("ACTIVITY", activity_width, SortBy::Activity, false)
    }
}

/// The text of a heading, with an arrow where the terminals are ordered by it.
pub open spec fn heading_text(label: Seq<char>, active: bool, descending: bool) -> Seq<char> {
    if active {
        label + " "@ + (if descending {
            "\u{2193}"@
        } else {
            "\u{2191}"@
        })
    } else {
        label
    }
}

/// A heading at its width. It is cut to it, so that the arrow can never widen a
/// heading and push the row out of step with the rows beneath it.
pub open spec fn padded_heading(
    label: Seq<char>,
    width: int,
    right_aligned: bool,
    active: bool,
    descending: bool,
) -> Seq<char> {
    let text = columns::truncated_text(heading_text(label, active, descending), width);
    if right_aligned {
        number::pad_left(text, width)
    } else {
        number::pad_right(text, width)
    }
}

/// A heading with its style.
pub open spec fn styled_heading(
    label: Seq<char>,
    width: int,
    right_aligned: bool,
    active: bool,
    descending: bool,
) -> Seq<char> {
    let padded = padded_heading(label, width, right_aligned, active, descending);
    if active {
        ACTIVE_HEADER@ + padded + RESET@
    } else {
        DIM@ + UNDERLINE@ + padded + RESET@
    }
}

/// Writes a heading.
pub fn header_cell(label: &str, width: usize, column: SortBy, right_aligned: bool, app: &App) -> (cell:
    String)
    ensures
        cell@ == styled_heading(
            label@,
            width as int,
            right_aligned,
            app.sort == column,
            app.descending,
        ),
{
    let active: bool = app.sort == column;
    let mut text = label.to_owned();
    if active {
        text.append(" ");
        text.append(
            if app.descending {
                "\u{2193}"
            } else {
                "\u{2191}"
            },
        );
    }
    let text = truncate(text.as_str(), width);
    let padded = if right_aligned {
        align_right(text.as_str(), width)
    } else {
        align_left(text.as_str(), width)
    };
    let mut cell = String::new();
    if active {
        cell.append(ACTIVE_HEADER);
        assert(cell@ =~= ACTIVE_HEADER@);
    } else {
        cell.append(DIM);
        assert(cell@ =~= DIM@);
        cell.append(UNDERLINE);
    }
    cell.append(padded.as_str());
    cell.append(RESET);
    cell
}

/// The first `n` headings.
pub open spec fn header_text(width: int, sort: SortBy, descending: bool, n: int) -> Seq<char>
    decreases n,
{
    if n <= 0 {
        number::repeated(' ', HEADER_INDENT as int)
    } else {
        let before = header_text(width, sort, descending, n - 1);
        let cell = styled_heading(
            heading_label(n - 1),
            heading_width(n - 1, width),
            is_right_aligned(n - 1),
            sort == heading_sort(n - 1),
            descending,
        );
        if n > 1 {
            before + " "@ + cell
        } else {
            before + cell
        }
    }
}

/// The column that a heading begins in.
pub open spec fn heading_column(width: int, n: int) -> int
    decreases n,
{
    if n <= 0 {
        HEADER_INDENT + 1
    } else {
        heading_column(width, n - 1) + heading_width(n - 1, width) + 1
    }
}

/// The click target of a heading. The last one owns the rest of the row, so that
/// its wide values stay clickable.
pub open spec fn heading_zone(row: usize, width: int, n: int) -> ClickZone {
    let column = heading_column(width, n);
    let end = column + heading_width(n, width);
    ClickZone {
        start_column: column as usize,
        end_column: (if n + 1 == HEADINGS {
            if width > end {
                width
            } else {
                end
            }
        } else {
            end - 1
        }) as usize,
        row,
        action: ClickAction::Sort(heading_sort(n)),
    }
}

/// The click targets of the headings.
pub open spec fn header_zones(row: usize, width: int) -> Seq<ClickZone> {
    Seq::new(HEADINGS as nat, |n: int| heading_zone(row, width, n))
}

/// The headings stand one behind the other.
proof fn lemma_heading_columns(width: int)
    ensures
        10 <= tab_column(width) <= 36,
        8 <= activity_column(width),
        width >= 0 ==> activity_column(width) <= width + 8,
        heading_column(width, 0) == 4,
        heading_column(width, 1) == 5 + tab_column(width),
        heading_column(width, 2) == 13 + tab_column(width),
        heading_column(width, 3) == 23 + tab_column(width),
        heading_column(width, 4) == 36 + tab_column(width),
        heading_column(width, 5) == 44 + tab_column(width),
        heading_column(width, 6) == 56 + tab_column(width),
        56 + tab_column(width) + activity_column(width) <= (if width + 1 > 100 {
            width + 1
        } else {
            100
        }),
{
    reveal_with_fuel(heading_column, 7);
}

/// Writes the sortable headings, with the columns each of them takes.
pub fn monitor_header(row: usize, width: usize, app: &App) -> (header: (String, Vec<ClickZone>))
    requires
        width < usize::MAX,
    ensures
        header.0@ == header_text(width as int, app.sort, app.descending, HEADINGS as int),
        header.1@ == header_zones(row, width as int),
{
    let mut line = repeat_char(' ', HEADER_INDENT);
    let mut column: usize = HEADER_INDENT + 1;
    let mut zones: Vec<ClickZone> = Vec::new();
    let mut index: usize = 0;
    proof {
        lemma_heading_columns(width as int);
    }
    while index < HEADINGS
        invariant
            index <= HEADINGS,
            width < usize::MAX,
            line@ == header_text(width as int, app.sort, app.descending, index as int),
            index < HEADINGS ==> column + (if index > 0 {
                1int
            } else {
                0
            }) == heading_column(width as int, index as int),
            zones@ =~= header_zones(row, width as int).take(index as int),
        decreases HEADINGS - index,
    {
        proof {
            lemma_heading_columns(width as int);
        }
        if index > 0 {
            line.append(" ");
            column += 1;
        }
        let (label, cell_width, sort, right_aligned) = heading(index, width);
        line.append(header_cell(label, cell_width, sort, right_aligned, app).as_str());
        let end: usize = column + cell_width;
        let end_column: usize = if index + 1 == HEADINGS {
            if width > end {
                width
            } else {
                end
            }
        } else {
            end - 1
        };
        zones.push(
            ClickZone { start_column: column, end_column, row, action: ClickAction::Sort(sort) },
        );
        column = end;
        index += 1;
    }
    (line, zones)
}

/// What is seen of the first `n` headings.
spec fn header_seen(width: int, sort: SortBy, descending: bool, n: int) -> Seq<char>
    decreases n,
{
    if n <= 0 {
        number::repeated(' ', HEADER_INDENT as int)
    } else {
        let before = header_seen(width, sort, descending, n - 1);
        let cell = padded_heading(
            heading_label(n - 1),
            heading_width(n - 1, width),
            is_right_aligned(n - 1),
            sort == heading_sort(n - 1),
            descending,
        );
        if n > 1 {
            before + " "@ + cell
        } else {
            before + cell
        }
    }
}

/// Blanks have no escapes.
proof fn lemma_blanks_are_plain(n: int)
    ensures
        columns::is_plain(number::repeated(' ', n)),
{
}

/// A heading is as wide as its column, whatever it is ordered by, and all of it
/// is seen.
proof fn lemma_heading(
    label: Seq<char>,
    width: int,
    right_aligned: bool,
    active: bool,
    descending: bool,
)
    requires
        columns::is_plain(label),
        width >= 1,
    ensures
        padded_heading(label, width, right_aligned, active, descending).len() == width,
        columns::is_plain(padded_heading(label, width, right_aligned, active, descending)),
        columns::is_complete(styled_heading(label, width, right_aligned, active, descending)),
        columns::visible(styled_heading(label, width, right_aligned, active, descending))
            == padded_heading(label, width, right_aligned, active, descending),
{
    reveal_strlit(" ");
    reveal_strlit("\u{2193}");
    reveal_strlit("\u{2191}");
    reveal_strlit("\u{2026}");
    let text = heading_text(label, active, descending);
    assert(columns::is_plain(text)) by {
        assert forall|i: int| 0 <= i < text.len() implies #[trigger] text[i] != ESCAPE by {
            if i < label.len() {
                assert(text[i] == label[i]);
            }
        }
    }
    let cut = columns::truncated_text(text, width);
    columns::law_truncated_length(text, width);
    assert(columns::is_plain(cut)) by {
        assert forall|i: int| 0 <= i < cut.len() implies #[trigger] cut[i] != ESCAPE by {
            if text.len() > width && i < width - 1 {
                assert(cut[i] == text[i]);
            }
        }
    }
    let padded = padded_heading(label, width, right_aligned, active, descending);
    let blanks = number::repeated(' ', width - cut.len());
    assert(padded.len() == width);
    assert forall|i: int| 0 <= i < padded.len() implies #[trigger] padded[i] != ESCAPE by {
        if right_aligned {
            if i >= blanks.len() {
                assert(padded[i] == cut[i - blanks.len()]);
            }
        } else if i < cut.len() {
            assert(padded[i] == cut[i]);
        }
    }
    columns::lemma_plain(padded);
    screen::lemma_styles();
    let style = if active {
        ACTIVE_HEADER@
    } else {
        DIM@ + UNDERLINE@
    };
    columns::lemma_visible_add(DIM@, UNDERLINE@);
    columns::lemma_visible_add(style, padded);
    columns::lemma_visible_add(style + padded, RESET@);
    assert(columns::visible(style + padded + RESET@) =~= padded);
}

proof fn lemma_labels_are_plain(n: int)
    ensures
        columns::is_plain(heading_label(n)),
        columns::is_plain(" "@),
        " "@.len() == 1,
{
    reveal_strlit(" ");
    reveal_strlit("TAB");
    reveal_strlit("CPU");
    reveal_strlit("RAM");
    reveal_strlit("TREND");
    reveal_strlit("PROCS");
    reveal_strlit("AGE");
    reveal_strlit("ACTIVITY");
    let label = heading_label(n);
    assert forall|i: int| 0 <= i < label.len() implies #[trigger] label[i] != ESCAPE by {}
}

/// Whether heading `i` is seen in its columns, at its full width.
pub open spec fn is_lined_up(
    seen: Seq<char>,
    width: int,
    sort: SortBy,
    descending: bool,
    i: int,
) -> bool {
    let from = heading_column(width, i) - 1;
    let to = from + heading_width(i, width);
    0 <= from <= to <= seen.len() && seen.subrange(from, to) == padded_heading(
        heading_label(i),
        heading_width(i, width),
        is_right_aligned(i),
        sort == heading_sort(i),
        descending,
    )
}

/// What follows a heading does not move it.
proof fn lemma_stays_lined_up(
    seen: Seq<char>,
    more: Seq<char>,
    width: int,
    sort: SortBy,
    descending: bool,
    i: int,
)
    requires
        is_lined_up(seen, width, sort, descending, i),
    ensures
        is_lined_up(seen + more, width, sort, descending, i),
{
    let from = heading_column(width, i) - 1;
    let to = from + heading_width(i, width);
    assert((seen + more).subrange(from, to) =~= seen.subrange(from, to));
}

proof fn lemma_column_step(width: int, n: int)
    requires
        0 <= n,
    ensures
        heading_column(width, n) >= 4,
        heading_column(width, n + 1) == heading_column(width, n) + heading_width(n, width) + 1,
        heading_width(n, width) >= 1,
    decreases n,
{
    if n > 0 {
        lemma_column_step(width, n - 1);
    }
}

/// What is seen grows by what is seen of the next heading.
proof fn lemma_cell_appended(
    before: Seq<char>,
    seen_before: Seq<char>,
    gap: Seq<char>,
    cell: Seq<char>,
    padded: Seq<char>,
)
    requires
        columns::is_complete(before),
        columns::visible(before) == seen_before,
        columns::is_plain(gap),
        columns::is_complete(cell),
        columns::visible(cell) == padded,
    ensures
        columns::is_complete(before + gap + cell),
        columns::visible(before + gap + cell) == seen_before + gap + padded,
{
    columns::lemma_plain(gap);
    columns::lemma_visible_add(before, gap);
    columns::lemma_visible_add(before + gap, cell);
}

proof fn lemma_lined_up_step(
    seen_before: Seq<char>,
    gap: Seq<char>,
    padded: Seq<char>,
    width: int,
    sort: SortBy,
    descending: bool,
    n: int,
)
    requires
        0 <= n,
        forall|i: int| 0 <= i < n ==> #[trigger] is_lined_up(seen_before, width, sort, descending, i),
        (seen_before + gap).len() == heading_column(width, n) - 1,
        padded == padded_heading(
            heading_label(n),
            heading_width(n, width),
            is_right_aligned(n),
            sort == heading_sort(n),
            descending,
        ),
        padded.len() == heading_width(n, width),
    ensures
        forall|i: int|
            0 <= i <= n ==> #[trigger] is_lined_up(
                seen_before + gap + padded,
                width,
                sort,
                descending,
                i,
            ),
{
    let seen = seen_before + gap + padded;
    assert forall|i: int| 0 <= i <= n implies #[trigger] is_lined_up(
        seen,
        width,
        sort,
        descending,
        i,
    ) by {
        if i < n {
            lemma_stays_lined_up(seen_before, gap, width, sort, descending, i);
            lemma_stays_lined_up(seen_before + gap, padded, width, sort, descending, i);
        } else {
            let from = heading_column(width, n) - 1;
            assert(seen.subrange(from, from + padded.len()) =~= padded);
        }
    }
}

proof fn lemma_header_seen(width: int, sort: SortBy, descending: bool, n: int)
    requires
        0 <= n <= HEADINGS,
    ensures
        columns::is_complete(header_text(width, sort, descending, n)),
        columns::visible(header_text(width, sort, descending, n)) == header_seen(
            width,
            sort,
            descending,
            n,
        ),
        header_seen(width, sort, descending, n).len() == heading_column(width, n) - (if n > 0 {
            2int
        } else {
            1
        }),
        forall|i: int|
            0 <= i < n ==> #[trigger] is_lined_up(
                header_seen(width, sort, descending, n),
                width,
                sort,
                descending,
                i,
            ),
    decreases n,
{
    if n <= 0 {
        lemma_blanks_are_plain(HEADER_INDENT as int);
        columns::lemma_plain(number::repeated(' ', HEADER_INDENT as int));
    } else {
        lemma_header_seen(width, sort, descending, n - 1);
        lemma_labels_are_plain(n - 1);
        lemma_column_step(width, n - 1);
        let active = sort == heading_sort(n - 1);
        let label = heading_label(n - 1);
        let cell_width = heading_width(n - 1, width);
        let right = is_right_aligned(n - 1);
        lemma_heading(label, cell_width, right, active, descending);
        let gap = if n > 1 {
            " "@
        } else {
            Seq::empty()
        };
        let before = header_text(width, sort, descending, n - 1);
        let cell = styled_heading(label, cell_width, right, active, descending);
        let padded = padded_heading(label, cell_width, right, active, descending);
        let seen_before = header_seen(width, sort, descending, n - 1);
        lemma_cell_appended(before, seen_before, gap, cell, padded);
        if n == 1 {
            assert(before + gap =~= before);
            assert(seen_before + gap =~= seen_before);
        }
        assert(header_text(width, sort, descending, n) == before + gap + cell);
        assert(header_seen(width, sort, descending, n) == seen_before + gap + padded);
        lemma_lined_up_step(seen_before, gap, padded, width, sort, descending, n - 1);
        assert forall|i: int| 0 <= i < n implies #[trigger] is_lined_up(
            header_seen(width, sort, descending, n),
            width,
            sort,
            descending,
            i,
        ) by {
            assert(is_lined_up(seen_before + gap + padded, width, sort, descending, i));
        }
    }
}

/// The headings take the fixed columns and the two flexible ones, whatever the
/// terminals are ordered by: the arrow never widens them.
pub proof fn law_header_width(width: int, sort: SortBy, descending: bool)
    ensures
        columns::visible(header_text(width, sort, descending, HEADINGS as int)).len()
            == MONITOR_FIXED_WIDTH + tab_column(width) + activity_column(width),
{
    lemma_header_seen(width, sort, descending, HEADINGS as int);
    lemma_heading_columns(width);
    lemma_column_step(width, 6);
}

/// Every heading is seen in the columns of its click target, at its full width.
pub proof fn law_headings_line_up(width: int, sort: SortBy, descending: bool, i: int)
    requires
        0 <= i < HEADINGS,
    ensures
        is_lined_up(
            columns::visible(header_text(width, sort, descending, HEADINGS as int)),
            width,
            sort,
            descending,
            i,
        ),
{
    lemma_header_seen(width, sort, descending, HEADINGS as int);
}

/// What the memory of a terminal has done of late.
pub open spec fn trend_words(terminal: Terminal) -> Seq<char> {
    if terminal.memory_samples < 2 {
        "\u{b7} sampling"@
    } else if terminal.leak_suspected {
        "\u{26a0} "@ + measure::compact_text(terminal.memory_growth_kib as int)
    } else if terminal.memory_growth_kib > 0 {
        "\u{2191} "@ + measure::compact_text(terminal.memory_growth_kib as int)
    } else if terminal.memory_growth_kib < 0 {
        "\u{2193} "@ + measure::compact_text(terminal.memory_growth_kib as int)
    } else {
        "\u{2192} stable"@
    }
}

/// What the memory of a terminal has done of late, at the width of its column
/// and with its style.
pub open spec fn trend_text(terminal: Terminal) -> Seq<char> {
    let padded = number::pad_left(columns::truncated_text(trend_words(terminal), 12), 12);
    if terminal.leak_suspected {
        BOLD@ + RED@ + padded + RESET@
    } else {
        DIM@ + padded + RESET@
    }
}

/// Writes what the memory of a terminal has done of late.
pub fn trend_cell(terminal: &Terminal) -> (cell: String)
    ensures
        cell@ == trend_text(*terminal),
{
    let mut text = String::new();
    if terminal.memory_samples < 2 {
        text = "\u{b7} sampling".to_owned();
    } else if terminal.leak_suspected {
        text = "\u{26a0} ".to_owned();
        text.append(compact_signed_kib(terminal.memory_growth_kib).as_str());
    } else if terminal.memory_growth_kib > 0 {
        text = "\u{2191} ".to_owned();
        text.append(compact_signed_kib(terminal.memory_growth_kib).as_str());
    } else if terminal.memory_growth_kib < 0 {
        text = "\u{2193} ".to_owned();
        text.append(compact_signed_kib(terminal.memory_growth_kib).as_str());
    } else {
        text = "\u{2192} stable".to_owned();
    }
    let padded = align_right(truncate(text.as_str(), 12).as_str(), 12);
    let mut cell = String::new();
    if terminal.leak_suspected {
        cell = BOLD.to_owned();
        cell.append(RED);
    } else {
        cell = DIM.to_owned();
    }
    cell.append(padded.as_str());
    cell.append(RESET);
    cell
}

/// The style of a terminal's row.
pub open spec fn row_style(selected: bool, leak_suspected: bool) -> Seq<char> {
    if selected {
        SELECTED@
    } else if leak_suspected {
        WARNING@
    } else {
        ""@
    }
}

/// The row of a terminal.
pub open spec fn terminal_line(
    terminal: Terminal,
    selected: bool,
    tab_width: int,
    activity_width: int,
) -> Seq<char> {
    let style = row_style(selected, terminal.leak_suspected);
    let marker = if selected {
        "\u{203a}"@
    } else {
        " "@
    };
    let row = style + marker + "  "@ + number::pad_right(
        columns::truncated_text(terminal.label@, tab_width),
        tab_width,
    ) + " "@ + YELLOW@ + number::pad_left(terminal.cpu.text@, 6) + "%"@ + RESET@ + style + " "@
        + CYAN@ + number::pad_left(measure::bytes_text(terminal.rss_kib as nat), 9) + RESET@ + style
        + " "@ + trend_text(terminal) + style + " "@ + number::pad_left(
        number::decimal(terminal.processes@.len()),
        7,
    ) + " "@ + number::pad_left(terminal.elapsed@, 11) + " "@ + columns::truncated_text(
        terminal.activity@,
        activity_width,
    );
    if selected || terminal.leak_suspected {
        row + RESET@
    } else {
        row
    }
}

fn write_row(terminal: &Terminal, selected: bool, tab_width: usize, activity_width: usize) -> (line:
    String)
    ensures
        line@ == terminal_line(*terminal, selected, tab_width as int, activity_width as int),
{
    let style: &str = if selected {
        SELECTED
    } else if terminal.leak_suspected {
        WARNING
    } else {
        ""
    };
    let mut line = style.to_owned();
    line.append(
        if selected {
            "\u{203a}"
        } else {
            " "
        },
    );
    line.append("  ");
    line.append(
        align_left(truncate(terminal.label.as_str(), tab_width).as_str(), tab_width).as_str(),
    );
    line.append(" ");
    line.append(YELLOW);
    line.append(align_right(terminal.cpu.text.as_str(), 6).as_str());
    line.append("%");
    line.append(RESET);
    line.append(style);
    line.append(" ");
    line.append(CYAN);
    line.append(align_right(human_bytes(terminal.rss_kib).as_str(), 9).as_str());
    line.append(RESET);
    line.append(style);
    line.append(" ");
    line.append(trend_cell(terminal).as_str());
    line.append(style);
    line.append(" ");
    line.append(align_right(write_decimal(terminal.processes.len() as u64).as_str(), 7).as_str());
    line.append(" ");
    line.append(align_right(terminal.elapsed.as_str(), 11).as_str());
    line.append(" ");
    line.append(truncate(terminal.activity.as_str(), activity_width).as_str());
    if selected || terminal.leak_suspected {
        line.append(RESET);
    }
    line
}

/// Number of terminals under an alert.
pub open spec fn alert_count(terminals: Seq<Terminal>) -> nat
    decreases terminals.len(),
{
    if terminals.len() == 0 {
        0
    } else {
        alert_count(terminals.drop_last()) + (if terminals.last().leak_suspected {
            1nat
        } else {
            0
        })
    }
}

fn count_alerts(terminals: &Vec<Terminal>) -> (count: usize)
    ensures
        count == alert_count(terminals@),
{
    let mut count: usize = 0;
    let mut i: usize = 0;
    assert(terminals@.take(0) =~= seq![]);
    while i < terminals.len()
        invariant
            i <= terminals@.len(),
            count <= i,
            count == alert_count(terminals@.take(i as int)),
        decreases terminals@.len() - i,
    {
        assert(terminals@.take(i + 1).drop_last() =~= terminals@.take(i as int));
        if terminals[i].leak_suspected {
            count += 1;
        }
        i += 1;
    }
    assert(terminals@.take(terminals@.len() as int) =~= terminals@);
    count
}

/// Resident memory of some terminals together.
pub open spec fn terminals_memory(terminals: Seq<Terminal>) -> nat {
    chart::total(terminals.map_values(|terminal: Terminal| terminal.rss_kib))
}

/// What is said of anything wrong; nothing where all is well.
pub open spec fn alert_text(app: App) -> Seq<char> {
    if app.tracker_outdated {
        "  "@ + BOLD@ + RED@
            + "\u{26a0} background tracker is an old build \u{2014} rerun --install-tracker"@ + RESET@
    } else if alert_count(app.terminals@) == 0 {
        ""@
    } else {
        "  "@ + BOLD@ + RED@ + "\u{26a0} "@ + number::decimal(alert_count(app.terminals@))
            + " potential leak alert(s)"@ + RESET@
    }
}

/// Focused seconds today.
pub open spec fn today_total(app: App) -> u64 {
    match app.usage_tracker {
        Some(tracker) => report::total_on(tracker.store.days@, tracker.current_day@),
        None => 0,
    }
}

/// What leads to the calendar.
pub open spec fn teaser_text(seconds: u64) -> Seq<char> {
    if seconds > 0 {
        DIM@ + "\u{b7}"@ + RESET@ + "  "@ + BOLD@ + measure::duration_text(seconds as int) + RESET@
            + " "@ + DIM@ + "in Ghostty today \u{b7} press"@ + RESET@ + " u "@ + DIM@
            + "for the calendar"@ + RESET@
    } else {
        DIM@ + "\u{b7}  press"@ + RESET@ + " u "@ + DIM@ + "for the usage calendar"@ + RESET@
    }
}

/// The first line of the monitor.
pub open spec fn monitor_title(app: App) -> Seq<char> {
    BOLD@ + GREEN@ + "ghostty-top"@ + RESET@ + "  "@ + teaser_text(today_total(app)) + alert_text(app)
}

/// What Ghostty itself uses.
pub open spec fn shared_cpu(app: App) -> Seq<char> {
    match app.ghostty {
        Some(process) => process.cpu.text@,
        None => "0.0"@,
    }
}

/// Resident memory of Ghostty itself.
pub open spec fn shared_memory(app: App) -> nat {
    match app.ghostty {
        Some(process) => process.rss_kib as nat,
        None => 0,
    }
}

/// The second line of the monitor: what Ghostty and its terminals use.
pub open spec fn monitor_summary(app: App, terminal_cpu: Seq<char>) -> Seq<char> {
    "Ghostty  "@ + YELLOW@ + shared_cpu(app) + "%"@ + RESET@ + " CPU "@ + DIM@ + "\u{b7}"@ + RESET@
        + " "@ + CYAN@ + measure::bytes_text(shared_memory(app)) + RESET@ + "    "@
        + number::decimal(app.terminals@.len()) + " terminals  "@ + YELLOW@ + terminal_cpu + "%"@
        + RESET@ + " CPU "@ + DIM@ + "\u{b7}"@ + RESET@ + " "@ + CYAN@ + measure::bytes_text(
        terminals_memory(app.terminals@),
    ) + RESET@
}

fn write_alert(app: &App) -> (text: String)
    ensures
        text@ == alert_text(*app),
{
    let count: usize = count_alerts(&app.terminals);
    if app.tracker_outdated {
        let mut text = "  ".to_owned();
        text.append(BOLD);
        text.append(RED);
        text.append("\u{26a0} background tracker is an old build \u{2014} rerun --install-tracker");
        text.append(RESET);
        text
    } else if count == 0 {
        "".to_owned()
    } else {
        let mut text = "  ".to_owned();
        text.append(BOLD);
        text.append(RED);
        text.append("\u{26a0} ");
        text.append(write_decimal(count as u64).as_str());
        text.append(" potential leak alert(s)");
        text.append(RESET);
        text
    }
}

fn write_teaser(seconds: u64) -> (text: String)
    ensures
        text@ == teaser_text(seconds),
{
    let mut text = DIM.to_owned();
    if seconds > 0 {
        text.append("\u{b7}");
        text.append(RESET);
        text.append("  ");
        text.append(BOLD);
        text.append(human_duration(seconds).as_str());
        text.append(RESET);
        text.append(" ");
        text.append(DIM);
        text.append("in Ghostty today \u{b7} press");
        text.append(RESET);
        text.append(" u ");
        text.append(DIM);
        text.append("for the calendar");
        text.append(RESET);
    } else {
        text.append("\u{b7}  press");
        text.append(RESET);
        text.append(" u ");
        text.append(DIM);
        text.append("for the usage calendar");
        text.append(RESET);
    }
    text
}

fn write_title(app: &App) -> (line: String)
    ensures
        line@ == monitor_title(*app),
{
    let seconds: u64 = match &app.usage_tracker {
        Some(tracker) => usage_total_for_day(Some(tracker), tracker.current_day.as_str()),
        None => 0,
    };
    let mut line = BOLD.to_owned();
    line.append(GREEN);
    line.append("ghostty-top");
    line.append(RESET);
    line.append("  ");
    line.append(write_teaser(seconds).as_str());
    line.append(write_alert(app).as_str());
    line
}

/// Whether the memory of all terminals together can be counted.
pub fn terminals_memory_fits(terminals: &Vec<Terminal>) -> (fits: bool)
    ensures
        fits == (terminals_memory(terminals@) <= u64::MAX),
{
    let ghost sizes = terminals@.map_values(|terminal: Terminal| terminal.rss_kib);
    let mut total: u128 = 0;
    let mut i: usize = 0;
    assert(sizes.take(0) =~= seq![]);
    while i < terminals.len()
        invariant
            i <= terminals@.len(),
            sizes == terminals@.map_values(|terminal: Terminal| terminal.rss_kib),
            total == chart::total(sizes.take(i as int)),
            total <= u64::MAX,
        decreases terminals@.len() - i,
    {
        assert(sizes.take(i + 1).drop_last() =~= sizes.take(i as int));
        total += terminals[i].rss_kib as u128;
        if total > u64::MAX as u128 {
            proof {
                assert(sizes =~= sizes.take(i + 1) + sizes.skip(i + 1));
                chart::lemma_total_add(sizes.take(i + 1), sizes.skip(i + 1));
            }
            return false;
        }
        i += 1;
    }
    assert(sizes.take(sizes.len() as int) =~= sizes);
    true
}

fn sum_memory(terminals: &Vec<Terminal>) -> (total: u64)
    requires
        terminals_memory(terminals@) <= u64::MAX,
    ensures
        total == terminals_memory(terminals@),
{
    let ghost sizes = terminals@.map_values(|terminal: Terminal| terminal.rss_kib);
    let mut total: u64 = 0;
    let mut i: usize = 0;
    assert(sizes.take(0) =~= seq![]);
    while i < terminals.len()
        invariant
            i <= terminals@.len(),
            sizes == terminals@.map_values(|terminal: Terminal| terminal.rss_kib),
            total == chart::total(sizes.take(i as int)),
            chart::total(sizes) <= u64::MAX,
        decreases terminals@.len() - i,
    {
        proof {
            assert(sizes.take(i + 1).drop_last() =~= sizes.take(i as int));
            assert(sizes =~= sizes.take(i + 1) + sizes.skip(i + 1));
            chart::lemma_total_add(sizes.take(i + 1), sizes.skip(i + 1));
        }
        total += terminals[i].rss_kib;
        i += 1;
    }
    assert(sizes.take(sizes.len() as int) =~= sizes);
    total
}

fn write_summary(app: &App, terminal_cpu: &str) -> (line: String)
    requires
        terminals_memory(app.terminals@) <= u64::MAX,
    ensures
        line@ == monitor_summary(*app, terminal_cpu@),
{
    let mut line = "Ghostty  ".to_owned();
    line.append(YELLOW);
    line.append(
        match &app.ghostty {
            Some(process) => process.cpu.text.as_str(),
            None => "0.0",
        },
    );
    line.append("%");
    line.append(RESET);
    line.append(" CPU ");
    line.append(DIM);
    line.append("\u{b7}");
    line.append(RESET);
    line.append(" ");
    line.append(CYAN);
    line.append(
        human_bytes(
            match &app.ghostty {
                Some(process) => process.rss_kib,
                None => 0,
            },
        ).as_str(),
    );
    line.append(RESET);
    line.append("    ");
    line.append(write_decimal(app.terminals.len() as u64).as_str());
    line.append(" terminals  ");
    line.append(YELLOW);
    line.append(terminal_cpu);
    line.append("%");
    line.append(RESET);
    line.append(" CPU ");
    line.append(DIM);
    line.append("\u{b7}");
    line.append(RESET);
    line.append(" ");
    line.append(CYAN);
    line.append(human_bytes(sum_memory(&app.terminals)).as_str());
    line.append(RESET);
    line
}

/// How many terminals there is room for.
pub open spec fn row_limit(app: App, height: int) -> int {
    let taken = if app.expanded {
        15int
    } else {
        8
    };
    let room = if height > taken + 3 {
        height - taken
    } else {
        3
    };
    if room < app.terminals@.len() {
        room
    } else {
        app.terminals@.len() as int
    }
}

/// The first terminal that is shown: the selected one stays in view.
pub open spec fn first_shown(app: App, height: int) -> int {
    if app.selected >= row_limit(app, height) {
        app.selected + 1 - row_limit(app, height)
    } else {
        0
    }
}

/// One behind the last terminal that is shown.
pub open spec fn shown_end(app: App, height: int) -> int {
    let end = first_shown(app, height) + row_limit(app, height);
    if end < app.terminals@.len() {
        end
    } else {
        app.terminals@.len() as int
    }
}

/// Whether terminals are listed.
pub open spec fn lists_terminals(app: App) -> bool {
    app.ghostty is Some && app.terminals@.len() > 0
}

/// Whether the terminals can be listed: the selection is not too far below them.
pub open spec fn can_list(app: App, height: int) -> bool {
    lists_terminals(app) ==> first_shown(app, height) <= app.terminals@.len()
}

/// The rows of the terminals that are shown.
pub open spec fn terminal_lines(app: App, height: int, width: int) -> Seq<Seq<char>> {
    Seq::new(
        (shown_end(app, height) - first_shown(app, height)) as nat,
        |k: int|
            terminal_line(
                app.terminals@[first_shown(app, height) + k],
                first_shown(app, height) + k == app.selected,
                tab_column(width),
                activity_column(width),
            ),
    )
}

/// What is said of the terminals below those that are shown.
pub open spec fn more_line(more: nat) -> Seq<char> {
    DIM@ + "   \u{2026} "@ + number::decimal(more) + " more terminal"@ + (if more == 1 {
        ""@
    } else {
        "s"@
    }) + " below (scroll or use \u{2193})"@ + RESET@
}

/// The list of the terminals, or what is said in its place.
pub open spec fn table_lines(app: App, height: int, width: int) -> Seq<Seq<char>> {
    if app.ghostty is None {
        seq!["Ghostty is not running, or its process is not visible."@]
    } else if app.terminals@.len() == 0 {
        seq!["No Ghostty terminal processes found."@]
    } else {
        let listed = seq![header_text(width, app.sort, app.descending, HEADINGS as int)]
            + terminal_lines(app, height, width);
        let more = app.terminals@.len() - shown_end(app, height);
        if more > 0 {
            listed.push(more_line(more as nat))
        } else {
            listed
        }
    }
}

/// The row of a process.
pub open spec fn process_line(process: Process, width: int) -> Seq<char> {
    let room = if width > 29 + 12 {
        width - 29
    } else {
        12
    };
    "  "@ + number::pad_left(number::signed_decimal(process.pid as int), 6) + "  "@ + YELLOW@
        + number::pad_left(process.cpu.text@, 6) + "%"@ + RESET@ + "  "@ + CYAN@ + number::pad_left(
        measure::bytes_text(process.rss_kib as nat),
        8,
    ) + RESET@ + "   "@ + columns::truncated_text(process.command@, room)
}

/// What is said of a terminal under an alert.
pub open spec fn leak_line(terminal: Terminal) -> Seq<char> {
    BOLD@ + RED@ + "\u{26a0} Potential memory leak: "@ + measure::signed_bytes_text(
        terminal.memory_growth_kib as int,
    ) + " since tracking began ("@ + measure::signed_bytes_text(
        terminal.memory_slope_kib_per_min as int,
    ) + "/min)"@ + RESET@
}

/// What stands above the processes of a terminal.
pub open spec fn detail_head(terminal: Terminal) -> Seq<Seq<char>> {
    let title = BOLD@ + "Processes in "@ + terminal.tty@ + RESET@ + "  "@ + DIM@
        + "(click the selected row to collapse)"@ + RESET@;
    let headings = DIM@ + UNDERLINE@ + "     PID     CPU       RAM   COMMAND"@ + RESET@;
    if terminal.leak_suspected {
        seq![""@, title, leak_line(terminal), headings]
    } else {
        seq![""@, title, headings]
    }
}

/// How many processes there is room for below so many lines.
pub open spec fn process_room(height: int, lines: int, processes: nat) -> int {
    let room = if height > lines + 2 {
        height - (lines + 2)
    } else {
        0
    };
    if room < processes {
        room
    } else {
        processes as int
    }
}

/// The processes of the selected terminal, where they are asked for, below so
/// many lines.
pub open spec fn detail_lines(app: App, height: int, width: int, lines: int) -> Seq<Seq<char>> {
    if app.expanded && app.selected < app.terminals@.len() {
        let terminal = app.terminals@[app.selected as int];
        let head = detail_head(terminal);
        head + Seq::new(
            process_room(height, lines + head.len(), terminal.processes@.len()) as nat,
            |k: int| process_line(terminal.processes@[k], width),
        )
    } else {
        seq![]
    }
}

/// What is said of a sample that failed.
pub open spec fn error_lines(error: Option<String>) -> Seq<Seq<char>> {
    match error {
        Some(error) => seq!["\x1b[31mSampling error: "@ + error@ + RESET@],
        None => seq![],
    }
}

/// The hints at the bottom of the monitor.
pub open spec fn monitor_hints() -> Seq<(&'static str, Option<ClickAction>)> {
    seq![
        ("\u{2191} up", Some(ClickAction::SelectPrevious)),
        ("\u{2193} down", Some(ClickAction::SelectNext)),
        ("enter expand", Some(ClickAction::ToggleExpand)),
        ("u usage", Some(ClickAction::ShowUsage)),
        ("q quit", Some(ClickAction::Quit)),
    ]
}

/// The lines of the monitor above its hints.
pub open spec fn monitor_body(app: App, terminal_cpu: Seq<char>, height: int, width: int) -> Seq<
    Seq<char>,
> {
    let head = seq![monitor_title(app), monitor_summary(app, terminal_cpu), ""@];
    let listed = head + table_lines(app, height, width);
    let detailed = listed + detail_lines(app, height, width, listed.len() as int);
    (detailed + error_lines(app.last_error)).push(""@)
}

/// The lines of the monitor.
pub open spec fn monitor_lines(app: App, terminal_cpu: Seq<char>, height: int, width: int) -> Seq<
    Seq<char>,
> {
    monitor_body(app, terminal_cpu, height, width).push(screen::hint_text(monitor_hints()))
}

/// The click targets of the monitor.
pub open spec fn monitor_zones(app: App, terminal_cpu: Seq<char>, height: int, width: int) -> Seq<
    ClickZone,
> {
    let headings = if lists_terminals(app) {
        header_zones(4, width)
    } else {
        seq![]
    };
    let row = monitor_body(app, terminal_cpu, height, width).len() + 1;
    headings + screen::hint_zones(monitor_hints(), row as usize, 5)
}

/// Whether so many lines can be counted.
pub open spec fn has_room(app: App, height: int) -> bool {
    app.terminals@.len() + height + 20 <= usize::MAX
}

fn row_room(app: &App, height: usize) -> (rows: usize)
    ensures
        rows == row_limit(*app, height as int),
{
    let taken: usize = if app.expanded {
        15
    } else {
        8
    };
    let mut room: usize = height.saturating_sub(taken);
    if room < 3 {
        room = 3;
    }
    if room < app.terminals.len() {
        room
    } else {
        app.terminals.len()
    }
}

fn push_table(app: &App, height: usize, width: usize, lines: &mut Vec<String>, layout: &mut Layout)
    requires
        can_list(*app, height as int),
        has_room(*app, height as int),
        width < usize::MAX,
        old(lines)@.len() == 3,
        old(layout).shown_start == 0,
        old(layout).shown_count == 0,
        old(layout).zones@.len() == 0,
    ensures
        text::texts(final(lines)@) == text::texts(old(lines)@) + table_lines(
            *app,
            height as int,
            width as int,
        ),
        final(lines)@.len() <= 5 + app.terminals@.len(),
        final(layout).terminal_start_row == old(layout).terminal_start_row,
        final(layout).calendar_cells == old(layout).calendar_cells,
        lists_terminals(*app) ==> final(layout).shown_start == first_shown(*app, height as int)
            && final(layout).shown_count == shown_end(*app, height as int) - first_shown(
            *app,
            height as int,
        ) && final(layout).zones@ == header_zones(4, width as int),
        !lists_terminals(*app) ==> *final(layout) == *old(layout),
{
    let ghost before = text::texts(lines@);
    if app.ghostty.is_none() {
        push_line(
            lines,
            "Ghostty is not running, or its process is not visible.".to_owned(),
        );
        assert(text::texts(lines@) =~= before + table_lines(*app, height as int, width as int));
        return;
    }
    if app.terminals.len() == 0 {
        push_line(lines, "No Ghostty terminal processes found.".to_owned());
        assert(text::texts(lines@) =~= before + table_lines(*app, height as int, width as int));
        return;
    }
    let (header, zones) = monitor_header(lines.len() + 1, width, app);
    layout.zones = zones;
    push_line(lines, header);
    let max_rows: usize = row_room(app, height);
    let start: usize = if app.selected >= max_rows {
        app.selected - (max_rows - 1)
    } else {
        0
    };
    let end: usize = if max_rows < app.terminals.len() - start {
        start + max_rows
    } else {
        app.terminals.len()
    };
    layout.shown_start = start;
    layout.shown_count = end - start;
    let (tab_width, activity_width) = monitor_flex_widths(width);
    let ghost head = text::texts(lines@);
    let ghost rows = terminal_lines(*app, height as int, width as int);
    let mut index: usize = start;
    assert(head + rows.take(0) =~= head);
    while index < end
        invariant
            start <= index <= end <= app.terminals@.len(),
            start == first_shown(*app, height as int),
            end == shown_end(*app, height as int),
            tab_width == tab_column(width as int),
            activity_width == activity_column(width as int),
            rows == terminal_lines(*app, height as int, width as int),
            lines@.len() == 4 + index - start,
            text::texts(lines@) == head + rows.take(index - start),
        decreases end - index,
    {
        let line = write_row(
            &app.terminals[index],
            index == app.selected,
            tab_width,
            activity_width,
        );
        push_line(lines, line);
        proof {
            assert(rows[index - start] == line@);
            assert(rows.take(index - start + 1) =~= rows.take(index - start).push(line@));
            assert(head + rows.take(index - start).push(line@) =~= (head + rows.take(index - start)).push(
                line@,
            ));
        }
        index += 1;
    }
    assert(rows.take(rows.len() as int) =~= rows);
    let ghost listed = text::texts(lines@);
    assert(listed =~= before + (seq![header@] + rows));
    if end < app.terminals.len() {
        let more: usize = app.terminals.len() - end;
        let mut line = DIM.to_owned();
        line.append("   \u{2026} ");
        line.append(write_decimal(more as u64).as_str());
        line.append(" more terminal");
        line.append(
            if more == 1 {
                ""
            } else {
                "s"
            },
        );
        line.append(" below (scroll or use \u{2193})");
        line.append(RESET);
        push_line(lines, line);
        assert(text::texts(lines@) =~= before + (seq![header@] + rows).push(more_line(more as nat)));
    }
}

fn write_process(process: &Process, width: usize) -> (line: String)
    ensures
        line@ == process_line(*process, width as int),
{
    let mut room: usize = width.saturating_sub(29);
    if room < 12 {
        room = 12;
    }
    let mut line = "  ".to_owned();
    line.append(align_right(write_signed(process.pid as i64).as_str(), 6).as_str());
    line.append("  ");
    line.append(YELLOW);
    line.append(align_right(process.cpu.text.as_str(), 6).as_str());
    line.append("%");
    line.append(RESET);
    line.append("  ");
    line.append(CYAN);
    line.append(align_right(human_bytes(process.rss_kib).as_str(), 8).as_str());
    line.append(RESET);
    line.append("   ");
    line.append(truncate(process.command.as_str(), room).as_str());
    line
}

fn push_detail(app: &App, height: usize, width: usize, lines: &mut Vec<String>)
    requires
        has_room(*app, height as int),
        old(lines)@.len() <= 5 + app.terminals@.len(),
    ensures
        text::texts(final(lines)@) == text::texts(old(lines)@) + detail_lines(
            *app,
            height as int,
            width as int,
            old(lines)@.len() as int,
        ),
        final(lines)@.len() <= 9 + app.terminals@.len() + height,
{
    let ghost before = text::texts(lines@);
    let ghost count = lines@.len() as int;
    if !app.expanded || app.selected >= app.terminals.len() {
        assert(before + detail_lines(*app, height as int, width as int, count) =~= before);
        return;
    }
    let terminal = &app.terminals[app.selected];
    push_line(lines, "".to_owned());
    let mut title = BOLD.to_owned();
    title.append("Processes in ");
    title.append(terminal.tty.as_str());
    title.append(RESET);
    title.append("  ");
    title.append(DIM);
    title.append("(click the selected row to collapse)");
    title.append(RESET);
    push_line(lines, title);
    if terminal.leak_suspected {
        let mut alert = BOLD.to_owned();
        alert.append(RED);
        alert.append("\u{26a0} Potential memory leak: ");
        alert.append(signed_human_kib(terminal.memory_growth_kib).as_str());
        alert.append(" since tracking began (");
        alert.append(signed_human_kib(terminal.memory_slope_kib_per_min).as_str());
        alert.append("/min)");
        alert.append(RESET);
        push_line(lines, alert);
    }
    let mut headings = DIM.to_owned();
    headings.append(UNDERLINE);
    headings.append("     PID     CPU       RAM   COMMAND");
    headings.append(RESET);
    push_line(lines, headings);
    let ghost head = detail_head(*terminal);
    assert(text::texts(lines@) =~= before + head);
    let room: usize = height.saturating_sub(lines.len() + 2);
    let shown: usize = if room < terminal.processes.len() {
        room
    } else {
        terminal.processes.len()
    };
    let ghost rows = Seq::new(
        process_room(height as int, count + head.len(), terminal.processes@.len()) as nat,
        |k: int| process_line(terminal.processes@[k], width as int),
    );
    let mut i: usize = 0;
    assert(before + head + rows.take(0) =~= before + head);
    while i < shown
        invariant
            i <= shown <= terminal.processes@.len(),
            shown <= height,
            rows.len() == shown,
            forall|k: int|
                0 <= k < shown ==> rows[k] == process_line(terminal.processes@[k], width as int),
            lines@.len() == count + head.len() + i,
            text::texts(lines@) == before + head + rows.take(i as int),
        decreases shown - i,
    {
        let line = write_process(&terminal.processes[i], width);
        push_line(lines, line);
        proof {
            assert(rows.take(i + 1) =~= rows.take(i as int).push(line@));
            assert(before + head + rows.take(i as int).push(line@) =~= (before + head + rows.take(
                i as int,
            )).push(line@));
        }
        i += 1;
    }
    assert(rows.take(rows.len() as int) =~= rows);
    assert(text::texts(lines@) =~= before + (head + rows));
}

/// Builds the monitor frame and its click targets. `terminal_cpu` is the share of
/// processor time that the terminals take together.
pub fn render_monitor(app: &App, terminal_cpu: &str, height: usize, width: usize) -> (frame: (
    Vec<String>,
    Layout,
))
    requires
        terminals_memory(app.terminals@) <= u64::MAX,
        can_list(*app, height as int),
        has_room(*app, height as int),
        width < usize::MAX,
    ensures
        text::texts(frame.0@) == screen::fitted_lines(
            monitor_lines(*app, terminal_cpu@, height as int, width as int),
            width as int,
        ),
        frame.1.terminal_start_row == 5,
        frame.1.shown_start == (if lists_terminals(*app) {
            first_shown(*app, height as int)
        } else {
            0
        }),
        frame.1.shown_count == (if lists_terminals(*app) {
            shown_end(*app, height as int) - first_shown(*app, height as int)
        } else {
            0
        }),
        frame.1.calendar_cells@.len() == 0,
        frame.1.zones@ == screen::zones_within(
            monitor_zones(*app, terminal_cpu@, height as int, width as int),
            width,
        ),
{
    let mut lines: Vec<String> = Vec::new();
    push_line(&mut lines, write_title(app));
    push_line(&mut lines, write_summary(app, terminal_cpu));
    push_line(&mut lines, "".to_owned());
    let ghost head = seq![monitor_title(*app), monitor_summary(*app, terminal_cpu@), ""@];
    assert(text::texts(lines@) =~= head);
    let mut layout = Layout {
        terminal_start_row: 5,
        shown_start: 0,
        shown_count: 0,
        calendar_cells: Vec::new(),
        zones: Vec::new(),
    };
    push_table(app, height, width, &mut lines, &mut layout);
    let ghost listed = text::texts(lines@);
    push_detail(app, height, width, &mut lines);
    let ghost detailed = text::texts(lines@);
    match &app.last_error {
        Some(error) => {
            let mut line = "\x1b[31mSampling error: ".to_owned();
            line.append(error.as_str());
            line.append(RESET);
            push_line(&mut lines, line);
            assert(text::texts(lines@) =~= detailed + error_lines(app.last_error));
        },
        None => {
            assert(text::texts(lines@) =~= detailed + error_lines(app.last_error));
        },
    }
    push_line(&mut lines, "".to_owned());
    assert(text::texts(lines@) == monitor_body(
        *app,
        terminal_cpu@,
        height as int,
        width as int,
    ));
    let segments: Vec<(&str, Option<ClickAction>)> = vec![
        ("\u{2191} up", Some(ClickAction::SelectPrevious)),
        ("\u{2193} down", Some(ClickAction::SelectNext)),
        ("enter expand", Some(ClickAction::ToggleExpand)),
        ("u usage", Some(ClickAction::ShowUsage)),
        ("q quit", Some(ClickAction::Quit)),
    ];
    assert(segments@ =~= monitor_hints());
    proof {
        lemma_monitor_hints();
    }
    let (hint, mut zones) = hint_line(lines.len() + 1, segments.as_slice());
    let ghost headings = layout.zones@;
    layout.zones.append(&mut zones);
    push_line(&mut lines, hint);
    assert(layout.zones@ =~= monitor_zones(*app, terminal_cpu@, height as int, width as int));
    assert(screen::cells_of(layout.calendar_cells@) =~= seq![]);
    fit_targets(&mut layout, width);
    assert(screen::cells_of(layout.calendar_cells@).len() == 0);
    (fit_lines(&lines, width), layout)
}

proof fn lemma_monitor_hints()
    ensures
        monitor_hints().len() == 5,
        screen::hint_end(monitor_hints(), 5) <= 100,
        screen::are_plain(monitor_hints()),
        forall|i: int| 0 <= i < 5 ==> (#[trigger] monitor_hints()[i]).0@.len() > 0,
{
    reveal_strlit("  \u{b7}  ");
    reveal_strlit("\u{2191} up");
    reveal_strlit("\u{2193} down");
    reveal_strlit("enter expand");
    reveal_strlit("u usage");
    reveal_strlit("q quit");
    reveal_with_fuel(screen::hint_column, 6);
    let hints = monitor_hints();
    assert forall|i: int| 0 <= i < hints.len() implies columns::is_plain((#[trigger] hints[i]).0@) by {
        let label = hints[i].0@;
        assert forall|k: int| 0 <= k < label.len() implies #[trigger] label[k] != ESCAPE by {}
    }
}

/// Every click target of the monitor lies on its frame, where it can be reached.
pub proof fn law_monitor_targets_are_on_frame(
    app: App,
    terminal_cpu: Seq<char>,
    height: int,
    width: usize,
    i: int,
)
    requires
        width < usize::MAX,
        monitor_lines(app, terminal_cpu, height, width as int).len() <= usize::MAX,
        0 <= i < screen::zones_within(
            monitor_zones(app, terminal_cpu, height, width as int),
            width,
        ).len(),
    ensures
        ({
            let zone = screen::zones_within(
                monitor_zones(app, terminal_cpu, height, width as int),
                width,
            )[i];
            screen::is_on_frame(
                zone.row,
                zone.start_column,
                zone.end_column,
                monitor_lines(app, terminal_cpu, height, width as int).len() as int,
                width as int,
            )
        }),
{
    let zones = monitor_zones(app, terminal_cpu, height, width as int);
    let body = monitor_body(app, terminal_cpu, height, width as int);
    let rows = body.len() + 1;
    lemma_monitor_hints();
    lemma_heading_columns(width as int);
    let headings = if lists_terminals(app) {
        header_zones(4, width as int)
    } else {
        seq![]
    };
    let hints = screen::hint_zones(monitor_hints(), rows as usize, 5);
    assert(body.len() >= 4) by {
        assert(table_lines(app, height, width as int).len() >= 1);
    }
    assert forall|k: int| 0 <= k < zones.len() implies screen::is_drawn(
        (#[trigger] zones[k]).row,
        zones[k].start_column,
        zones[k].end_column,
        rows as int,
    ) by {
        if k < headings.len() {
            assert(zones[k] == headings[k]);
            assert(headings[k] == heading_zone(4, width as int, k));
        } else {
            assert(zones[k] == hints[k - headings.len()]);
            let n = screen::lemma_zone_of_segment(
                monitor_hints(),
                rows as usize,
                5,
                k - headings.len(),
            );
            screen::lemma_hint_columns(monitor_hints(), n, 4);
            assert(monitor_hints()[n].0@.len() > 0);
            screen::lemma_segment_ends(monitor_hints(), n, 5);
        }
    }
    screen::law_fitted_zones_are_on_frame(zones, rows as int, width);
}

/// Where the selection is one of the terminals, they can be listed, and the
/// selected one is among those that are shown.
pub proof fn law_selection_is_shown(app: App, height: int)
    requires
        state::is_selection(app),
    ensures
        can_list(app, height),
        lists_terminals(app) ==> first_shown(app, height) <= app.selected < shown_end(app, height)
            <= app.terminals@.len(),
{
}

/// The number of alerts is the number of terminals whose alert is on.
pub proof fn law_alerts_are_counted(terminals: Seq<Terminal>)
    ensures
        alert_count(terminals) == terminals.filter(
            |terminal: Terminal| terminal.leak_suspected,
        ).len(),
    decreases terminals.len(),
{
    reveal(Seq::filter);
    if terminals.len() > 0 {
        law_alerts_are_counted(terminals.drop_last());
    }
}

/// The title warns of an outdated tracker before anything else, then of as many
/// leaks as there are, and of nothing where there is none.
pub proof fn law_title_warns(app: App)
    ensures
        app.tracker_outdated ==> alert_text(app) == "  "@ + BOLD@ + RED@
            + "\u{26a0} background tracker is an old build \u{2014} rerun --install-tracker"@
            + RESET@,
        !app.tracker_outdated && (forall|i: int|
            0 <= i < app.terminals@.len() ==> !(#[trigger] app.terminals@[i]).leak_suspected)
            ==> alert_text(app) == ""@,
        !app.tracker_outdated && (exists|i: int|
            0 <= i < app.terminals@.len() && (#[trigger] app.terminals@[i]).leak_suspected)
            ==> alert_text(app) == "  "@ + BOLD@ + RED@ + "\u{26a0} "@ + number::decimal(
            app.terminals@.filter(|terminal: Terminal| terminal.leak_suspected).len(),
        ) + " potential leak alert(s)"@ + RESET@,
        text::finishes_with(monitor_title(app), alert_text(app)),
{
    let chosen = |terminal: Terminal| terminal.leak_suspected;
    let alarmed = app.terminals@.filter(chosen);
    law_alerts_are_counted(app.terminals@);
    if alarmed.len() > 0 {
        lists::lemma_filter_members(app.terminals@, chosen, alarmed[0]);
        assert(alarmed.contains(alarmed[0]));
        let k = app.terminals@.index_of(alarmed[0]);
        assert(app.terminals@[k].leak_suspected);
    }
    if exists|i: int| 0 <= i < app.terminals@.len() && (#[trigger] app.terminals@[i]).leak_suspected {
        let i = choose|i: int|
            0 <= i < app.terminals@.len() && (#[trigger] app.terminals@[i]).leak_suspected;
        lists::lemma_filter_members(app.terminals@, chosen, app.terminals@[i]);
        assert(alarmed.len() > 0);
    }
    let title = monitor_title(app);
    assert(title.skip(title.len() - alert_text(app).len()) =~= alert_text(app));
}

/// The title tells today's focused time, where there is any.
pub proof fn law_title_tells_today(app: App, tracker: UsageTracker)
    requires
        app.usage_tracker == Some(tracker),
        report::total_on(tracker.store.days@, tracker.current_day@) > 0,
    ensures
        text::begins_with(
            monitor_title(app),
            BOLD@ + GREEN@ + "ghostty-top"@ + RESET@ + "  "@ + DIM@ + "\u{b7}"@ + RESET@ + "  "@
                + BOLD@ + measure::duration_text(
                report::total_on(tracker.store.days@, tracker.current_day@) as int,
            ) + RESET@ + " "@ + DIM@ + "in Ghostty today"@,
        ),
{
    let title = monitor_title(app);
    reveal_strlit("in Ghostty today");
    reveal_strlit("in Ghostty today \u{b7} press");
    let front = BOLD@ + GREEN@ + "ghostty-top"@ + RESET@ + "  "@ + DIM@ + "\u{b7}"@ + RESET@ + "  "@
        + BOLD@ + measure::duration_text(
        report::total_on(tracker.store.days@, tracker.current_day@) as int,
    ) + RESET@ + " "@ + DIM@ + "in Ghostty today"@;
    assert("in Ghostty today \u{b7} press"@.take(16) =~= "in Ghostty today"@);
    assert("in Ghostty today \u{b7} press"@ =~= "in Ghostty today"@
        + "in Ghostty today \u{b7} press"@.skip(16));
    assert(title.take(front.len() as int) =~= front);
}

/// The memory of all terminals is that of each of them added up.
pub proof fn law_terminals_memory_adds_up(terminal: Terminal, a: Seq<Terminal>, b: Seq<Terminal>)
    ensures
        terminals_memory(seq![terminal]) == terminal.rss_kib,
        terminals_memory(a + b) == terminals_memory(a) + terminals_memory(b),
{
    let size = |terminal: Terminal| terminal.rss_kib;
    assert(seq![terminal].map_values(size) =~= seq![terminal.rss_kib]);
    assert((a + b).map_values(size) =~= a.map_values(size) + b.map_values(size));
    chart::law_total(terminal.rss_kib, a.map_values(size), b.map_values(size));
}

/// The mark in front of a trend: a warning just for an alert, an arrow up or down
/// just for memory that grew or shrank, and neither before there are two samples.
pub proof fn law_trend_marks(terminal: Terminal)
    ensures
        ({
            let words = trend_words(terminal);
            let change = measure::compact_text(terminal.memory_growth_kib as int);
            &&& words.len() > 2
            &&& terminal.memory_samples < 2 <==> words == "\u{b7} sampling"@
            &&& words[0] == '\u{26a0}' <==> terminal.memory_samples >= 2 && terminal.leak_suspected
            &&& words[0] == '\u{2191}' <==> terminal.memory_samples >= 2 && !terminal.leak_suspected
                && terminal.memory_growth_kib > 0
            &&& words[0] == '\u{2193}' <==> terminal.memory_samples >= 2 && !terminal.leak_suspected
                && terminal.memory_growth_kib < 0
            &&& terminal.memory_samples >= 2 && (terminal.leak_suspected
                || terminal.memory_growth_kib != 0) ==> words.skip(2) == change
            &&& terminal.memory_samples >= 2 && !terminal.leak_suspected
                && terminal.memory_growth_kib == 0 ==> words == "\u{2192} stable"@
        }),
{
    reveal_strlit("\u{b7} sampling");
    reveal_strlit("\u{26a0} ");
    reveal_strlit("\u{2191} ");
    reveal_strlit("\u{2193} ");
    reveal_strlit("\u{2192} stable");
    reveal_strlit("+");
    reveal_strlit("-");
    let words = trend_words(terminal);
    let change = measure::compact_text(terminal.memory_growth_kib as int);
    assert(change.len() > 0);
    if terminal.memory_samples >= 2 && (terminal.leak_suspected || terminal.memory_growth_kib != 0) {
        assert(words.skip(2) =~= change);
    }
    if words == "\u{b7} sampling"@ {
        assert(words[0] == '\u{b7}');
    }
}

/// A row stands out just where its terminal is selected, or under an alert.
pub proof fn law_rows_stand_out(
    terminal: Terminal,
    selected: bool,
    tab_width: int,
    activity_width: int,
)
    ensures
        ({
            let row = terminal_line(terminal, selected, tab_width, activity_width);
            &&& row.len() > 0
            &&& selected ==> text::begins_with(row, "\x1b[48;5;236m\u{203a}  "@)
            &&& !selected && terminal.leak_suspected ==> text::begins_with(
                row,
                "\x1b[48;5;52m\x1b[38;5;231m   "@,
            )
            &&& !selected && !terminal.leak_suspected ==> text::begins_with(row, "   "@)
        }),
{
    let style = row_style(selected, terminal.leak_suspected);
    let marker = if selected {
        "\u{203a}"@
    } else {
        " "@
    };
    let front = style + marker + "  "@;
    assert(text::begins_with(front, front)) by {
        assert(front.take(front.len() as int) =~= front);
    }
    let r0 = front;
    let r1 = r0 + number::pad_right(columns::truncated_text(terminal.label@, tab_width), tab_width);
    lemma_still_begins(r0, number::pad_right(columns::truncated_text(terminal.label@, tab_width), tab_width), front);
    let r2 = r1 + " "@;
    lemma_still_begins(r1, " "@, front);
    let r3 = r2 + YELLOW@;
    lemma_still_begins(r2, YELLOW@, front);
    let r4 = r3 + number::pad_left(terminal.cpu.text@, 6);
    lemma_still_begins(r3, number::pad_left(terminal.cpu.text@, 6), front);
    let r5 = r4 + "%"@;
    lemma_still_begins(r4, "%"@, front);
    let r6 = r5 + RESET@;
    lemma_still_begins(r5, RESET@, front);
    let r7 = r6 + style;
    lemma_still_begins(r6, style, front);
    let r8 = r7 + " "@;
    lemma_still_begins(r7, " "@, front);
    let r9 = r8 + CYAN@;
    lemma_still_begins(r8, CYAN@, front);
    let r10 = r9 + number::pad_left(measure::bytes_text(terminal.rss_kib as nat), 9);
    lemma_still_begins(r9, number::pad_left(measure::bytes_text(terminal.rss_kib as nat), 9), front);
    let r11 = r10 + RESET@;
    lemma_still_begins(r10, RESET@, front);
    let r12 = r11 + style;
    lemma_still_begins(r11, style, front);
    let r13 = r12 + " "@;
    lemma_still_begins(r12, " "@, front);
    let r14 = r13 + trend_text(terminal);
    lemma_still_begins(r13, trend_text(terminal), front);
    let r15 = r14 + style;
    lemma_still_begins(r14, style, front);
    let r16 = r15 + " "@;
    lemma_still_begins(r15, " "@, front);
    let r17 = r16 + number::pad_left(number::decimal(terminal.processes@.len()), 7);
    lemma_still_begins(r16, number::pad_left(number::decimal(terminal.processes@.len()), 7), front);
    let r18 = r17 + " "@;
    lemma_still_begins(r17, " "@, front);
    let r19 = r18 + number::pad_left(terminal.elapsed@, 11);
    lemma_still_begins(r18, number::pad_left(terminal.elapsed@, 11), front);
    let r20 = r19 + " "@;
    lemma_still_begins(r19, " "@, front);
    let r21 = r20 + columns::truncated_text(terminal.activity@, activity_width);
    lemma_still_begins(r20, columns::truncated_text(terminal.activity@, activity_width), front);
    lemma_still_begins(r21, RESET@, front);
    assert(text::begins_with(
        terminal_line(terminal, selected, tab_width, activity_width),
        front,
    ));
    lemma_row_fronts(selected, terminal.leak_suspected);
}

/// What follows a text does not change what it begins with.
proof fn lemma_still_begins(a: Seq<char>, b: Seq<char>, front: Seq<char>)
    requires
        text::begins_with(a, front),
    ensures
        text::begins_with(a + b, front),
{
    assert((a + b).take(front.len() as int) =~= a.take(front.len() as int));
}

/// What rows begin with.
proof fn lemma_row_fronts(selected: bool, leak_suspected: bool)
    ensures
        row_style(selected, leak_suspected) + (if selected {
            "\u{203a}"@
        } else {
            " "@
        }) + "  "@ == (if selected {
            "\x1b[48;5;236m\u{203a}  "@
        } else if leak_suspected {
            "\x1b[48;5;52m\x1b[38;5;231m   "@
        } else {
            "   "@
        }),
        "   "@.len() == 3,
        "\x1b[48;5;236m\u{203a}  "@.len() == 14,
        "\x1b[48;5;52m\x1b[38;5;231m   "@.len() > 0,
{
    reveal_strlit("\x1b[48;5;236m\u{203a}  ");
    reveal_strlit("\x1b[48;5;236m");
    reveal_strlit("\x1b[48;5;52m\x1b[38;5;231m   ");
    reveal_strlit("\x1b[48;5;52m\x1b[38;5;231m");
    reveal_strlit("   ");
    reveal_strlit("  ");
    reveal_strlit(" ");
    reveal_strlit("");
    reveal_strlit("\u{203a}");
    assert(""@ + " "@ + "  "@ =~= "   "@);
    assert("\x1b[48;5;236m"@ + "\u{203a}"@ + "  "@ =~= "\x1b[48;5;236m\u{203a}  "@);
    assert("\x1b[48;5;52m\x1b[38;5;231m"@ + " "@ + "  "@
        =~= "\x1b[48;5;52m\x1b[38;5;231m   "@);
}

/// As many terminals are listed as there is room for: all of them where the screen
/// has eight rows more, fifteen where one is expanded, but three at least.
pub proof fn law_rows_fill_the_screen(app: App, height: int)
    requires
        state::is_selection(app),
        app.terminals@.len() > 0,
    ensures
        ({
            let taken = if app.expanded {
                15int
            } else {
                8
            };
            let shown = shown_end(app, height) - first_shown(app, height);
            &&& shown <= app.terminals@.len()
            &&& app.terminals@.len() <= 3 ==> shown == app.terminals@.len()
            &&& app.terminals@.len() <= height - taken ==> shown == app.terminals@.len()
            &&& shown < app.terminals@.len() ==> shown == (if height - taken > 3 {
                height - taken
            } else {
                3
            })
            &&& first_shown(app, height) > 0 ==> shown_end(app, height) == app.selected + 1
        }),
{
}

/// The frame from the top: title, summary, headings, and then the terminals in
/// their order from the first one shown, the selected one marked as such.
pub proof fn law_monitor_frame(
    app: App,
    terminal_cpu: Seq<char>,
    height: int,
    width: int,
    i: int,
)
    requires
        state::is_selection(app),
        app.ghostty is Some,
        first_shown(app, height) <= i < shown_end(app, height),
        app.terminals@.len() > 0,
    ensures
        ({
            let lines = monitor_lines(app, terminal_cpu, height, width);
            &&& lines[0] == monitor_title(app)
            &&& lines[1] == monitor_summary(app, terminal_cpu)
            &&& lines[3] == header_text(width, app.sort, app.descending, 7)
            &&& 4 + i - first_shown(app, height) < lines.len()
            &&& lines[4 + i - first_shown(app, height)] == terminal_line(
                app.terminals@[i],
                i == app.selected,
                tab_column(width),
                activity_column(width),
            )
            &&& lines.last() == screen::hint_text(monitor_hints())
        }),
{
    let lines = monitor_lines(app, terminal_cpu, height, width);
    let tail = lemma_frame_tail(app, terminal_cpu, height, width);
    let head = seq![monitor_title(app), monitor_summary(app, terminal_cpu), ""@];
    let table = table_lines(app, height, width);
    let k = i - first_shown(app, height);
    lemma_table_row(app, height, width, k);
    assert(lines[0] == head[0]);
    assert(lines[1] == head[1]);
    assert(lines[3] == table[0]);
    assert(lines[3 + 1 + k] == table[1 + k]);
}

/// The table follows the first three lines.
proof fn lemma_frame_tail(app: App, terminal_cpu: Seq<char>, height: int, width: int) -> (tail: Seq<
    Seq<char>,
>)
    ensures
        monitor_lines(app, terminal_cpu, height, width) == seq![
            monitor_title(app),
            monitor_summary(app, terminal_cpu),
            ""@,
        ] + table_lines(app, height, width) + tail,
        monitor_lines(app, terminal_cpu, height, width).last() == screen::hint_text(
            monitor_hints(),
        ),
{
    let listed = seq![monitor_title(app), monitor_summary(app, terminal_cpu), ""@] + table_lines(
        app,
        height,
        width,
    );
    let detail = detail_lines(app, height, width, listed.len() as int);
    let tail = detail + error_lines(app.last_error) + seq![
        ""@,
        screen::hint_text(monitor_hints()),
    ];
    assert(monitor_lines(app, terminal_cpu, height, width) =~= listed + tail);
    tail
}

proof fn lemma_table_row(app: App, height: int, width: int, k: int)
    requires
        app.ghostty is Some,
        app.terminals@.len() > 0,
        0 <= k < shown_end(app, height) - first_shown(app, height),
    ensures
        table_lines(app, height, width).len() > 1 + k,
        table_lines(app, height, width)[0] == header_text(width, app.sort, app.descending, 7),
        table_lines(app, height, width)[1 + k] == terminal_line(
            app.terminals@[first_shown(app, height) + k],
            first_shown(app, height) + k == app.selected,
            tab_column(width),
            activity_column(width),
        ),
{
    let rows = terminal_lines(app, height, width);
    let listed = seq![header_text(width, app.sort, app.descending, HEADINGS as int)] + rows;
    assert(listed[1 + k] == rows[k]);
}

/// The expanded terminal is the selected one: below the table come its tty and its
/// processes in their order, each with its pid and its command.
pub proof fn law_detail_lists_the_processes(app: App, height: int, width: int, lines: int, k: int)
    requires
        app.expanded,
        app.selected < app.terminals@.len(),
        0 <= k,
        k < detail_lines(app, height, width, lines).len() - detail_head(
            app.terminals@[app.selected as int],
        ).len(),
    ensures
        ({
            let terminal = app.terminals@[app.selected as int];
            let shown = detail_lines(app, height, width, lines);
            let head = if terminal.leak_suspected {
                4int
            } else {
                3
            };
            let row = shown[head + k];
            let process = terminal.processes@[k];
            &&& k < terminal.processes@.len()
            &&& shown.len() - head <= terminal.processes@.len()
            &&& shown.len() - head < terminal.processes@.len() ==> lines + shown.len() + 2
                >= height
            &&& shown.len() > head ==> lines + shown.len() + 2 <= height
            &&& shown[1] == BOLD@ + "Processes in "@ + terminal.tty@ + RESET@ + "  "@ + DIM@
                + "(click the selected row to collapse)"@ + RESET@
            &&& terminal.leak_suspected ==> shown[2] == leak_line(terminal)
            &&& number::signed_decimal(process.pid as int).len() <= 6 ==> row.take(8) == "  "@
                + number::pad_left(number::signed_decimal(process.pid as int), 6)
            &&& process.command@.len() <= 12 ==> text::finishes_with(
                row,
                "   "@ + process.command@,
            )
        }),
{
    let terminal = app.terminals@[app.selected as int];
    let head = detail_head(terminal);
    let shown = detail_lines(app, height, width, lines);
    let process = terminal.processes@[k];
    let row = process_line(process, width);
    assert(shown[head.len() + k] == row);
    assert forall|n: int| 0 <= n < head.len() implies #[trigger] shown[n] == head[n] by {}
    reveal_strlit("  ");
    reveal_strlit("   ");
    let pid = number::pad_left(number::signed_decimal(process.pid as int), 6);
    if number::signed_decimal(process.pid as int).len() <= 6 {
        assert(row.take(8) =~= "  "@ + pid);
    }
    if process.command@.len() <= 12 {
        let end = "   "@ + process.command@;
        assert(row.skip(row.len() - end.len()) =~= end);
    }
}

/// The row of the table says what it says of its own terminal: nothing in it
/// depends on the others, and more terminals than fit are counted below it.
pub proof fn law_more_terminals_are_counted(app: App, height: int, width: int)
    requires
        state::is_selection(app),
        app.ghostty is Some,
        app.terminals@.len() > 0,
    ensures
        ({
            let table = table_lines(app, height, width);
            let shown = shown_end(app, height) - first_shown(app, height);
            let more = app.terminals@.len() - shown_end(app, height);
            &&& more == 0 ==> table.len() == 1 + shown
            &&& more > 0 ==> table.len() == 2 + shown && text::begins_with(
                table.last(),
                "\x1b[2m   \u{2026} "@ + number::decimal(more as nat) + " more terminal"@,
            )
        }),
{
    let table = table_lines(app, height, width);
    let more = app.terminals@.len() - shown_end(app, height);
    if more > 0 {
        reveal_strlit("\x1b[2m   \u{2026} ");
        reveal_strlit("\x1b[2m");
        reveal_strlit("   \u{2026} ");
        let front = "\x1b[2m   \u{2026} "@ + number::decimal(more as nat) + " more terminal"@;
        assert("\x1b[2m   \u{2026} "@ =~= "\x1b[2m"@ + "   \u{2026} "@);
        assert(table.last().take(front.len() as int) =~= front);
    }
}

/// The two flexible columns share what the others leave: three fifths for the tab,
/// within its bounds, and the rest for the activity.
pub proof fn law_columns_share_the_width(width: int)
    ensures
        10 <= tab_column(width) <= 36,
        8 <= activity_column(width),
        width >= 73 ==> tab_column(width) + activity_column(width) == width - 55 || activity_column(
            width,
        ) == 8,
        72 <= width <= 115 ==> 5 * tab_column(width) <= 3 * (width - 55) < 5 * tab_column(width) + 5,
        width >= 115 ==> tab_column(width) == 36,
{
}

/// A click on a heading sorts by what the heading names.
pub proof fn law_headings_sort_by_their_name(row: usize, width: int, i: int)
    requires
        0 <= i < 7,
    ensures
        header_zones(row, width).len() == 7,
        header_zones(row, width)[i].row == row,
        header_zones(row, width)[i].action == ClickAction::Sort(
            if heading_label(i) == "TAB"@ {
                SortBy::Tab
            } else if heading_label(i) == "CPU"@ {
                SortBy::Cpu
            } else if heading_label(i) == "RAM"@ {
                SortBy::Memory
            } else if heading_label(i) == "TREND"@ {
                SortBy::Trend
            } else if heading_label(i) == "PROCS"@ {
                SortBy::Processes
            } else if heading_label(i) == "AGE"@ {
                SortBy::Age
            } else {
                SortBy::Activity
            },
        ),
        i < 6 <==> heading_label(i) != "ACTIVITY"@,
{
    reveal_strlit("TAB");
    reveal_strlit("CPU");
    reveal_strlit("RAM");
    reveal_strlit("TREND");
    reveal_strlit("PROCS");
    reveal_strlit("AGE");
    reveal_strlit("ACTIVITY");
    let letters = heading_label(i);
    assert(letters.len() == 3 || letters.len() == 5 || letters.len() == 8);
    assert("TAB"@[0] == 'T' && "CPU"@[0] == 'C' && "RAM"@[0] == 'R' && "AGE"@[0] == 'A');
    assert("TREND"@[0] == 'T' && "PROCS"@[0] == 'P');
}

/// The heading that the terminals are sorted by carries an arrow, downwards where
/// the most comes first, and no other heading does.
pub proof fn law_the_arrow_marks_the_order(label: Seq<char>, active: bool, descending: bool)
    ensures
        !active ==> heading_text(label, active, descending) == label,
        active ==> heading_text(label, active, descending).len() == label.len() + 2,
        active ==> heading_text(label, active, descending).take(label.len() as int) == label,
        active ==> heading_text(label, active, descending).last() == (if descending {
            '\u{2193}'
        } else {
            '\u{2191}'
        }),
{
    reveal_strlit(" ");
    reveal_strlit("\u{2193}");
    reveal_strlit("\u{2191}");
    if active {
        assert(heading_text(label, active, descending).take(label.len() as int) =~= label);
    }
}

/// The summary tells what Ghostty itself uses, how many terminals there are, and
/// what they use together.
pub proof fn law_monitor_summary(app: App, terminal_cpu: Seq<char>, ghostty: Process)
    requires
        app.ghostty == Some(ghostty),
    ensures
        text::begins_with(
            monitor_summary(app, terminal_cpu),
            "Ghostty  "@ + YELLOW@ + ghostty.cpu.text@ + "%"@ + RESET@ + " CPU "@ + DIM@ + "\u{b7}"@
                + RESET@ + " "@ + CYAN@ + measure::bytes_text(ghostty.rss_kib as nat) + RESET@
                + "    "@ + number::decimal(app.terminals@.len()) + " terminals  "@,
        ),
        text::finishes_with(
            monitor_summary(app, terminal_cpu),
            CYAN@ + measure::bytes_text(terminals_memory(app.terminals@)) + RESET@,
        ),
{
    let front = "Ghostty  "@ + YELLOW@ + ghostty.cpu.text@ + "%"@ + RESET@ + " CPU "@ + DIM@
        + "\u{b7}"@ + RESET@ + " "@ + CYAN@ + measure::bytes_text(ghostty.rss_kib as nat) + RESET@
        + "    "@ + number::decimal(app.terminals@.len()) + " terminals  "@;
    let memory = measure::bytes_text(terminals_memory(app.terminals@));
    assert(front.take(front.len() as int) =~= front);
    lemma_still_begins(front, YELLOW@, front);
    let a = front + YELLOW@;
    lemma_still_begins(a, terminal_cpu, front);
    let b = a + terminal_cpu;
    lemma_still_begins(b, "%"@, front);
    let c = b + "%"@;
    lemma_still_begins(c, RESET@, front);
    let d = c + RESET@;
    lemma_still_begins(d, " CPU "@, front);
    let e = d + " CPU "@;
    lemma_still_begins(e, DIM@, front);
    let f = e + DIM@;
    lemma_still_begins(f, "\u{b7}"@, front);
    let g = f + "\u{b7}"@;
    lemma_still_begins(g, RESET@, front);
    let h = g + RESET@;
    lemma_still_begins(h, " "@, front);
    let j = h + " "@;
    lemma_still_begins(j, CYAN@, front);
    let k = j + CYAN@;
    lemma_still_begins(k, memory, front);
    let l = k + memory;
    lemma_still_begins(l, RESET@, front);
    let row = l + RESET@;
    assert(row == monitor_summary(app, terminal_cpu));
    let end = CYAN@ + memory + RESET@;
    assert(row =~= j + end);
    assert(row.skip(row.len() - end.len()) =~= end);
}

/// The targets of the monitor are in the rows that show them: the headings in the
/// fourth row, which is that of the headings, the hints in the last.
pub proof fn law_monitor_targets_are_in_their_rows(
    app: App,
    terminal_cpu: Seq<char>,
    height: int,
    width: int,
    k: int,
)
    requires
        monitor_lines(app, terminal_cpu, height, width).len() <= usize::MAX,
        0 <= k < monitor_zones(app, terminal_cpu, height, width).len(),
    ensures
        ({
            let lines = monitor_lines(app, terminal_cpu, height, width);
            let zone = monitor_zones(app, terminal_cpu, height, width)[k];
            let headings = app.ghostty is Some && app.terminals@.len() > 0;
            &&& headings && k < 7 ==> zone.row == 4 && lines[3] == header_text(
                width,
                app.sort,
                app.descending,
                7,
            )
            &&& !headings || k >= 7 ==> zone.row == lines.len() && lines[zone.row - 1]
                == screen::hint_text(monitor_hints())
        }),
{
    let lines = monitor_lines(app, terminal_cpu, height, width);
    let zones = monitor_zones(app, terminal_cpu, height, width);
    let hints = screen::hint_zones(monitor_hints(), lines.len() as usize, 5);
    let tail = lemma_frame_tail(app, terminal_cpu, height, width);
    let table = table_lines(app, height, width);
    if lists_terminals(app) {
        let headings = header_zones(4, width);
        if k < 7 {
            assert(zones[k] == headings[k]);
            assert(lines[3] == table[0]);
        } else {
            assert(zones[k] == hints[k - 7]);
            screen::law_hints_share_their_row(monitor_hints(), lines.len() as usize, 5, k - 7);
        }
    } else {
        assert(zones[k] == hints[k]);
        screen::law_hints_share_their_row(monitor_hints(), lines.len() as usize, 5, k);
    }
}

} // verus!
