//! The rows of the terminals stand under their headings.
use vstd::prelude::*;
use vstd::string::*;
use crate::columns;
use crate::columns::{ESCAPE, RESET};
use crate::measure;
use crate::monitor_view;
use crate::number;
use crate::screen;
use crate::screen::{BOLD, CYAN, DIM, RED, SELECTED, WARNING, YELLOW};
use crate::terminals::Terminal;

verus! {

/// What stands under a heading in the row of a terminal.
pub open spec fn cell_text(terminal: Terminal, index: int, width: int) -> Seq<char> {
    if index == 0 {
        number::pad_right(
            columns::truncated_text(terminal.label@, monitor_view::tab_column(width)),
            monitor_view::tab_column(width),
        )
    } else if index == 1 {
        number::pad_left(terminal.cpu.text@, 6) + "%"@
    } else if index == 2 {
        number::pad_left(measure::bytes_text(terminal.rss_kib as nat), 9)
    } else if index == 3 {
        number::pad_left(columns::truncated_text(monitor_view::trend_words(terminal), 12), 12)
    } else if index == 4 {
        number::pad_left(number::decimal(terminal.processes@.len()), 7)
    } else if index == 5 {
        number::pad_left(terminal.elapsed@, 11)
    } else {
        columns::truncated_text(terminal.activity@, monitor_view::activity_column(width))
    }
}

/// Whether the values of a terminal fit their columns and hold no escapes.
pub open spec fn fits_columns(terminal: Terminal) -> bool {
    &&& columns::is_plain(terminal.label@)
    &&& columns::is_plain(terminal.cpu.text@)
    &&& terminal.cpu.text@.len() <= 6
    &&& measure::bytes_text(terminal.rss_kib as nat).len() <= 9
    &&& number::decimal(terminal.processes@.len()).len() <= 7
    &&& columns::is_plain(terminal.elapsed@)
    &&& terminal.elapsed@.len() <= 11
    &&& columns::is_plain(terminal.activity@)
}

/// What is seen of the first `n` cells of a row.
spec fn cells_seen(terminal: Terminal, selected: bool, width: int, n: int) -> Seq<char>
    decreases n,
{
    if n <= 0 {
        (if selected {
            "\u{203a}"@
        } else {
            " "@
        }) + "  "@
    } else if n == 1 {
        cells_seen(terminal, selected, width, 0) + cell_text(terminal, 0, width)
    } else {
        cells_seen(terminal, selected, width, n - 1) + " "@ + cell_text(terminal, n - 1, width)
    }
}

proof fn lemma_plain_add(a: Seq<char>, b: Seq<char>)
    requires
        columns::is_plain(a),
        columns::is_plain(b),
    ensures
        columns::is_plain(a + b),
{
    let whole = a + b;
    assert forall|i: int| 0 <= i < whole.len() implies #[trigger] whole[i] != ESCAPE by {
        if i < a.len() {
            assert(whole[i] == a[i]);
        } else {
            assert(whole[i] == b[i - a.len()]);
        }
    }
}

proof fn lemma_digits_are_plain(n: nat)
    ensures
        columns::is_plain(number::decimal(n)),
{
    number::lemma_decimal(n);
    let digits = number::decimal(n);
    assert forall|i: int| 0 <= i < digits.len() implies #[trigger] digits[i] != ESCAPE by {
        assert(number::is_digit(digits[i]));
    }
}

proof fn lemma_tenths_are_plain(n: nat)
    ensures
        columns::is_plain(measure::tenths_text(n)),
{
    reveal_strlit(".");
    lemma_digits_are_plain(n / 10);
    lemma_digits_are_plain(n % 10);
    lemma_plain_add(number::decimal(n / 10), "."@);
    lemma_plain_add(number::decimal(n / 10) + "."@, number::decimal(n % 10));
}

proof fn lemma_sizes_are_plain(kib: nat)
    ensures
        columns::is_plain(measure::bytes_text(kib)),
{
    reveal_strlit(" GiB");
    reveal_strlit(" MiB");
    reveal_strlit(" KiB");
    let size = measure::as_double(kib);
    let gib = measure::nearest_even(size * 10, 0x10_0000);
    let mib = measure::nearest_even(size * 10, 0x400);
    lemma_tenths_are_plain(gib);
    lemma_tenths_are_plain(mib);
    lemma_digits_are_plain(size);
    lemma_plain_add(measure::tenths_text(gib), " GiB"@);
    lemma_plain_add(measure::tenths_text(mib), " MiB"@);
    lemma_plain_add(number::decimal(size), " KiB"@);
}

proof fn lemma_changes_are_plain(kib: int)
    ensures
        columns::is_plain(measure::compact_text(kib)),
{
    reveal_strlit("+");
    reveal_strlit("-");
    reveal_strlit("GiB");
    reveal_strlit("MiB");
    reveal_strlit("KiB");
    let sign = measure::sign_text(kib);
    let size = measure::as_double(measure::size_of_change(kib));
    let gib = measure::nearest_even(size * 10, 0x10_0000);
    let mib = measure::nearest_even(size, 0x400);
    lemma_tenths_are_plain(gib);
    lemma_digits_are_plain(mib);
    lemma_digits_are_plain(size);
    lemma_plain_add(sign, measure::tenths_text(gib));
    lemma_plain_add(sign + measure::tenths_text(gib), "GiB"@);
    lemma_plain_add(sign, number::decimal(mib));
    lemma_plain_add(sign + number::decimal(mib), "MiB"@);
    lemma_plain_add(sign, number::decimal(size));
    lemma_plain_add(sign + number::decimal(size), "KiB"@);
}

proof fn lemma_trend_is_plain(terminal: Terminal)
    ensures
        columns::is_plain(monitor_view::trend_words(terminal)),
{
    reveal_strlit("\u{b7} sampling");
    reveal_strlit("\u{26a0} ");
    reveal_strlit("\u{2191} ");
    reveal_strlit("\u{2193} ");
    reveal_strlit("\u{2192} stable");
    let change = measure::compact_text(terminal.memory_growth_kib as int);
    lemma_changes_are_plain(terminal.memory_growth_kib as int);
    lemma_plain_add("\u{26a0} "@, change);
    lemma_plain_add("\u{2191} "@, change);
    lemma_plain_add("\u{2193} "@, change);
    let words = monitor_view::trend_words(terminal);
    assert forall|i: int| 0 <= i < words.len() implies #[trigger] words[i] != ESCAPE by {}
}

proof fn lemma_cut_is_plain(s: Seq<char>, most: int)
    requires
        columns::is_plain(s),
        most >= 1,
    ensures
        columns::is_plain(columns::truncated_text(s, most)),
        columns::truncated_text(s, most).len() <= most,
{
    reveal_strlit("\u{2026}");
    columns::law_truncated_length(s, most);
    let cut = columns::truncated_text(s, most);
    assert forall|i: int| 0 <= i < cut.len() implies #[trigger] cut[i] != ESCAPE by {
        if s.len() <= most || i < most - 1 {
            assert(cut[i] == s[i]);
        }
    }
}

/// A value that fits its column is as wide as the column once it is padded.
proof fn lemma_padded(s: Seq<char>, width: int)
    requires
        columns::is_plain(s),
        s.len() <= width,
    ensures
        columns::is_plain(number::pad_left(s, width)),
        columns::is_plain(number::pad_right(s, width)),
        number::pad_left(s, width).len() == width,
        number::pad_right(s, width).len() == width,
{
    let blanks = number::repeated(' ', width - s.len());
    lemma_plain_add(blanks, s);
    lemma_plain_add(s, blanks);
}

/// A cell is as wide as its heading, the last one aside.
proof fn lemma_cell(terminal: Terminal, index: int, width: int)
    requires
        fits_columns(terminal),
        0 <= index < 7,
    ensures
        columns::is_plain(cell_text(terminal, index, width)),
        index < 6 ==> cell_text(terminal, index, width).len() == monitor_view::heading_width(
            index,
            width,
        ),
{
    reveal_strlit("%");
    let tab = monitor_view::tab_column(width);
    if index == 0 {
        lemma_cut_is_plain(terminal.label@, tab);
        lemma_padded(columns::truncated_text(terminal.label@, tab), tab);
    } else if index == 1 {
        lemma_padded(terminal.cpu.text@, 6);
        lemma_plain_add(number::pad_left(terminal.cpu.text@, 6), "%"@);
    } else if index == 2 {
        lemma_sizes_are_plain(terminal.rss_kib as nat);
        lemma_padded(measure::bytes_text(terminal.rss_kib as nat), 9);
    } else if index == 3 {
        lemma_trend_is_plain(terminal);
        lemma_cut_is_plain(monitor_view::trend_words(terminal), 12);
        lemma_padded(columns::truncated_text(monitor_view::trend_words(terminal), 12), 12);
    } else if index == 4 {
        lemma_digits_are_plain(terminal.processes@.len());
        lemma_padded(number::decimal(terminal.processes@.len()), 7);
    } else if index == 5 {
        lemma_padded(terminal.elapsed@, 11);
    } else {
        lemma_cut_is_plain(terminal.activity@, monitor_view::activity_column(width));
    }
}

/// Whether just `seen` is seen of a line, and more can follow it.
spec fn shows(line: Seq<char>, seen: Seq<char>) -> bool {
    columns::is_complete(line) && columns::visible(line) == seen
}

proof fn lemma_then(line: Seq<char>, seen: Seq<char>, more: Seq<char>, more_seen: Seq<char>)
    requires
        shows(line, seen),
        shows(more, more_seen),
    ensures
        shows(line + more, seen + more_seen),
{
    columns::lemma_visible_add(line, more);
}

proof fn lemma_then_style(line: Seq<char>, seen: Seq<char>, style: Seq<char>)
    requires
        shows(line, seen),
        shows(style, Seq::empty()),
    ensures
        shows(line + style, seen),
{
    lemma_then(line, seen, style, Seq::empty());
    assert(seen + Seq::<char>::empty() =~= seen);
}

proof fn lemma_then_plain(line: Seq<char>, seen: Seq<char>, text: Seq<char>)
    requires
        shows(line, seen),
        columns::is_plain(text),
    ensures
        shows(line + text, seen + text),
{
    columns::lemma_plain(text);
    lemma_then(line, seen, text, text);
}

/// The styles of a row put nothing on the screen.
proof fn lemma_row_styles(selected: bool, leak_suspected: bool)
    ensures
        shows(monitor_view::row_style(selected, leak_suspected), Seq::empty()),
        shows(YELLOW@, Seq::empty()),
        shows(CYAN@, Seq::empty()),
        shows(RED@, Seq::empty()),
        shows(BOLD@, Seq::empty()),
        shows(DIM@, Seq::empty()),
        shows(RESET@, Seq::empty()),
{
    reveal_strlit("\x1b[48;5;236m");
    reveal_strlit("\x1b[38;5;221m");
    reveal_strlit("\x1b[38;5;81m");
    reveal_strlit("\x1b[38;5;203m");
    reveal_strlit("\x1b[48;5;52m\x1b[38;5;231m");
    reveal_strlit("\x1b[48;5;52m");
    reveal_strlit("\x1b[38;5;231m");
    reveal_strlit("");
    screen::lemma_styles();
    columns::lemma_one_escape(SELECTED@);
    columns::lemma_one_escape(YELLOW@);
    columns::lemma_one_escape(CYAN@);
    columns::lemma_one_escape(RED@);
    let ground = "\x1b[48;5;52m"@;
    let ink = "\x1b[38;5;231m"@;
    columns::lemma_one_escape(ground);
    columns::lemma_one_escape(ink);
    columns::lemma_visible_add(ground, ink);
    assert(WARNING@ =~= ground + ink);
    assert(columns::visible(WARNING@) =~= Seq::<char>::empty());
    columns::lemma_plain(""@);
    assert(""@ =~= Seq::<char>::empty());
}

/// What is seen of the trend is the cell under its heading.
proof fn lemma_trend_seen(terminal: Terminal, width: int)
    requires
        fits_columns(terminal),
    ensures
        shows(monitor_view::trend_text(terminal), cell_text(terminal, 3, width)),
{
    let cell = cell_text(terminal, 3, width);
    lemma_cell(terminal, 3, width);
    lemma_row_styles(false, false);
    let style = if terminal.leak_suspected {
        BOLD@ + RED@
    } else {
        DIM@
    };
    lemma_then_style(BOLD@, Seq::empty(), RED@);
    lemma_then_plain(style, Seq::empty(), cell);
    lemma_then_style(style + cell, Seq::empty() + cell, RESET@);
    assert(Seq::<char>::empty() + cell =~= cell);
}

/// What the processor share adds to what is seen of a row.
proof fn lemma_share_seen(line: Seq<char>, seen: Seq<char>, style: Seq<char>, share: Seq<char>)
    requires
        shows(line, seen),
        shows(style, Seq::empty()),
        columns::is_plain(share),
    ensures
        shows(
            line + YELLOW@ + share + "%"@ + RESET@ + style + " "@,
            seen + (share + "%"@) + " "@,
        ),
{
    reveal_strlit(" ");
    reveal_strlit("%");
    lemma_row_styles(false, false);
    lemma_then_style(line, seen, YELLOW@);
    lemma_then_plain(line + YELLOW@, seen, share);
    let l1 = line + YELLOW@ + share;
    lemma_then_plain(l1, seen + share, "%"@);
    assert(seen + share + "%"@ =~= seen + (share + "%"@));
    let s1 = seen + (share + "%"@);
    lemma_then_style(l1 + "%"@, s1, RESET@);
    lemma_then_style(l1 + "%"@ + RESET@, s1, style);
    lemma_then_plain(l1 + "%"@ + RESET@ + style, s1, " "@);
}

/// What the memory adds to what is seen of a row.
proof fn lemma_size_seen(line: Seq<char>, seen: Seq<char>, style: Seq<char>, size: Seq<char>)
    requires
        shows(line, seen),
        shows(style, Seq::empty()),
        columns::is_plain(size),
    ensures
        shows(line + CYAN@ + size + RESET@ + style + " "@, seen + size + " "@),
{
    reveal_strlit(" ");
    lemma_row_styles(false, false);
    lemma_then_style(line, seen, CYAN@);
    lemma_then_plain(line + CYAN@, seen, size);
    lemma_then_style(line + CYAN@ + size, seen + size, RESET@);
    lemma_then_style(line + CYAN@ + size + RESET@, seen + size, style);
    lemma_then_plain(line + CYAN@ + size + RESET@ + style, seen + size, " "@);
}

/// What the last cells add to what is seen of a row.
proof fn lemma_rest_seen(
    line: Seq<char>,
    seen: Seq<char>,
    count: Seq<char>,
    age: Seq<char>,
    activity: Seq<char>,
)
    requires
        shows(line, seen),
        columns::is_plain(count),
        columns::is_plain(age),
        columns::is_plain(activity),
    ensures
        shows(
            line + count + " "@ + age + " "@ + activity,
            seen + count + " "@ + age + " "@ + activity,
        ),
{
    reveal_strlit(" ");
    lemma_then_plain(line, seen, count);
    lemma_then_plain(line + count, seen + count, " "@);
    lemma_then_plain(line + count + " "@, seen + count + " "@, age);
    lemma_then_plain(line + count + " "@ + age, seen + count + " "@ + age, " "@);
    lemma_then_plain(
        line + count + " "@ + age + " "@,
        seen + count + " "@ + age + " "@,
        activity,
    );
}

/// What the marker and the tab name put on the screen.
proof fn lemma_front_seen(style: Seq<char>, marker: Seq<char>, tab: Seq<char>)
    requires
        shows(style, Seq::empty()),
        columns::is_plain(marker),
        columns::is_plain(tab),
    ensures
        shows(style + marker + "  "@ + tab + " "@, marker + "  "@ + tab + " "@),
{
    reveal_strlit(" ");
    reveal_strlit("  ");
    lemma_then_plain(style, Seq::empty(), marker);
    assert(Seq::<char>::empty() + marker =~= marker);
    lemma_then_plain(style + marker, marker, "  "@);
    lemma_then_plain(style + marker + "  "@, marker + "  "@, tab);
    lemma_then_plain(style + marker + "  "@ + tab, marker + "  "@ + tab, " "@);
}

proof fn lemma_row_seen(terminal: Terminal, selected: bool, width: int)
    requires
        fits_columns(terminal),
    ensures
        columns::visible(
            monitor_view::terminal_line(
                terminal,
                selected,
                monitor_view::tab_column(width),
                monitor_view::activity_column(width),
            ),
        ) == cells_seen(terminal, selected, width, 7),
{
    reveal_strlit(" ");
    reveal_strlit("\u{203a}");
    let style = monitor_view::row_style(selected, terminal.leak_suspected);
    let marker = if selected {
        "\u{203a}"@
    } else {
        " "@
    };
    lemma_row_styles(selected, terminal.leak_suspected);
    lemma_trend_seen(terminal, width);
    let tab = cell_text(terminal, 0, width);
    let share = number::pad_left(terminal.cpu.text@, 6);
    let size = cell_text(terminal, 2, width);
    let trend = cell_text(terminal, 3, width);
    let count = cell_text(terminal, 4, width);
    let age = cell_text(terminal, 5, width);
    let activity = cell_text(terminal, 6, width);
    lemma_cell(terminal, 0, width);
    lemma_padded(terminal.cpu.text@, 6);
    lemma_cell(terminal, 2, width);
    lemma_cell(terminal, 4, width);
    lemma_cell(terminal, 5, width);
    lemma_cell(terminal, 6, width);
    let l1 = style + marker + "  "@ + tab + " "@;
    let s1 = marker + "  "@ + tab + " "@;
    lemma_front_seen(style, marker, tab);
    let l2 = l1 + YELLOW@ + share + "%"@ + RESET@ + style + " "@;
    let s2 = s1 + (share + "%"@) + " "@;
    lemma_share_seen(l1, s1, style, share);
    let l3 = l2 + CYAN@ + size + RESET@ + style + " "@;
    let s3 = s2 + size + " "@;
    lemma_size_seen(l2, s2, style, size);
    let drawn = monitor_view::trend_text(terminal);
    let l4 = l3 + drawn + style + " "@;
    let s4 = s3 + trend + " "@;
    lemma_then(l3, s3, drawn, trend);
    lemma_then_style(l3 + drawn, s3 + trend, style);
    lemma_then_plain(l3 + drawn + style, s3 + trend, " "@);
    let l5 = l4 + count + " "@ + age + " "@ + activity;
    let s5 = s4 + count + " "@ + age + " "@ + activity;
    lemma_rest_seen(l4, s4, count, age, activity);
    lemma_then_style(l5, s5, RESET@);
    lemma_row_text(terminal, selected, width, l5);
    lemma_all_cells(terminal, selected, width);
}

/// A row in its parts.
proof fn lemma_row_text(terminal: Terminal, selected: bool, width: int, row: Seq<char>)
    requires
        row == ({
            let style = monitor_view::row_style(selected, terminal.leak_suspected);
            let marker = if selected {
                "\u{203a}"@
            } else {
                " "@
            };
            style + marker + "  "@ + cell_text(terminal, 0, width) + " "@ + YELLOW@
                + number::pad_left(terminal.cpu.text@, 6) + "%"@ + RESET@ + style + " "@ + CYAN@
                + cell_text(terminal, 2, width) + RESET@ + style + " "@ + monitor_view::trend_text(
                terminal,
            ) + style + " "@ + cell_text(terminal, 4, width) + " "@ + cell_text(terminal, 5, width)
                + " "@ + cell_text(terminal, 6, width)
        }),
    ensures
        monitor_view::terminal_line(
            terminal,
            selected,
            monitor_view::tab_column(width),
            monitor_view::activity_column(width),
        ) == (if selected || terminal.leak_suspected {
            row + RESET@
        } else {
            row
        }),
{
}

/// What is seen of a row, cell by cell.
proof fn lemma_all_cells(terminal: Terminal, selected: bool, width: int)
    ensures
        cells_seen(terminal, selected, width, 7) == ({
            let marker = if selected {
                "\u{203a}"@
            } else {
                " "@
            };
            marker + "  "@ + cell_text(terminal, 0, width) + " "@ + (number::pad_left(
                terminal.cpu.text@,
                6,
            ) + "%"@) + " "@ + cell_text(terminal, 2, width) + " "@ + cell_text(terminal, 3, width)
                + " "@ + cell_text(terminal, 4, width) + " "@ + cell_text(terminal, 5, width) + " "@
                + cell_text(terminal, 6, width)
        }),
{
    assert(cells_seen(terminal, selected, width, 1) == cells_seen(terminal, selected, width, 0)
        + cell_text(terminal, 0, width));
    assert(cells_seen(terminal, selected, width, 2) == cells_seen(terminal, selected, width, 1)
        + " "@ + cell_text(terminal, 1, width));
    assert(cells_seen(terminal, selected, width, 3) == cells_seen(terminal, selected, width, 2)
        + " "@ + cell_text(terminal, 2, width));
    assert(cells_seen(terminal, selected, width, 4) == cells_seen(terminal, selected, width, 3)
        + " "@ + cell_text(terminal, 3, width));
    assert(cells_seen(terminal, selected, width, 5) == cells_seen(terminal, selected, width, 4)
        + " "@ + cell_text(terminal, 4, width));
    assert(cells_seen(terminal, selected, width, 6) == cells_seen(terminal, selected, width, 5)
        + " "@ + cell_text(terminal, 5, width));
}

proof fn lemma_cell_place(terminal: Terminal, selected: bool, width: int, n: int)
    requires
        fits_columns(terminal),
        0 <= n <= 7,
    ensures
        n < 7 ==> cells_seen(terminal, selected, width, n).len() + (if n > 0 {
            1int
        } else {
            0
        }) == monitor_view::heading_column(width, n) - 1,
        forall|i: int|
            0 <= i < n ==> cells_seen(terminal, selected, width, n).subrange(
                monitor_view::heading_column(width, i) - 1,
                monitor_view::heading_column(width, i) - 1 + (#[trigger] cell_text(
                    terminal,
                    i,
                    width,
                )).len(),
            ) == cell_text(terminal, i, width),
        n > 0 ==> cells_seen(terminal, selected, width, n).len() == monitor_view::heading_column(
            width,
            n - 1,
        ) - 1 + cell_text(terminal, n - 1, width).len(),
    decreases n,
{
    reveal_strlit(" ");
    reveal_strlit("  ");
    reveal_strlit("\u{203a}");
    if n > 0 {
        lemma_cell_place(terminal, selected, width, n - 1);
        lemma_cell(terminal, n - 1, width);
        let before = cells_seen(terminal, selected, width, n - 1);
        let now = cells_seen(terminal, selected, width, n);
        let start = monitor_view::heading_column(width, n - 1) - 1;
        let cell = cell_text(terminal, n - 1, width);
        assert(now.subrange(start, start + cell.len()) =~= cell);
        assert forall|i: int| 0 <= i < n implies now.subrange(
            monitor_view::heading_column(width, i) - 1,
            monitor_view::heading_column(width, i) - 1 + (#[trigger] cell_text(
                terminal,
                i,
                width,
            )).len(),
        ) == cell_text(terminal, i, width) by {
            if i < n - 1 {
                let from = monitor_view::heading_column(width, i) - 1;
                let to = from + cell_text(terminal, i, width).len();
                lemma_earlier_cell(terminal, selected, width, n - 1, i);
                assert(now.subrange(from, to) =~= before.subrange(from, to));
            }
        }
    }
}

/// A cell ends before what follows it begins.
proof fn lemma_earlier_cell(terminal: Terminal, selected: bool, width: int, n: int, i: int)
    requires
        fits_columns(terminal),
        0 <= i < n <= 7,
    ensures
        0 <= monitor_view::heading_column(width, i) - 1,
        monitor_view::heading_column(width, i) - 1 + cell_text(terminal, i, width).len()
            <= cells_seen(terminal, selected, width, n).len(),
    decreases n,
{
    reveal_strlit(" ");
    reveal_strlit("  ");
    reveal_strlit("\u{203a}");
    lemma_columns_positive(width, i);
    if i < n - 1 {
        lemma_earlier_cell(terminal, selected, width, n - 1, i);
    } else {
        lemma_cell_place(terminal, selected, width, n - 1);
    }
}

proof fn lemma_columns_positive(width: int, n: int)
    ensures
        monitor_view::heading_column(width, n) >= 1,
    decreases n,
{
    if n > 0 {
        lemma_columns_positive(width, n - 1);
    }
}

/// The rows keep step with the headings: whatever the width of the terminal, the
/// values of a row that fit their columns are seen under their headings.
pub proof fn law_rows_keep_step(terminal: Terminal, selected: bool, width: int, i: int)
    requires
        fits_columns(terminal),
        0 <= i < 7,
    ensures
        ({
            let seen = columns::visible(
                monitor_view::terminal_line(
                    terminal,
                    selected,
                    monitor_view::tab_column(width),
                    monitor_view::activity_column(width),
                ),
            );
            let start = monitor_view::heading_column(width, i) - 1;
            let cell = cell_text(terminal, i, width);
            &&& 0 <= start <= start + cell.len() <= seen.len()
            &&& seen.subrange(start, start + cell.len()) == cell
            &&& i < 6 ==> cell.len() == monitor_view::heading_width(i, width)
        }),
{
    lemma_row_seen(terminal, selected, width);
    lemma_cell_place(terminal, selected, width, 7);
    lemma_earlier_cell(terminal, selected, width, 7, i);
    lemma_cell(terminal, i, width);
}

} // verus!
