//! One sample of the terminals as plain text.
use vstd::prelude::*;
use vstd::string::*;
use crate::columns;
use crate::columns::truncate;
use crate::measure;
use crate::measure::{compact_signed_kib, human_bytes};
use crate::number;
use crate::number::{align_left, align_right, write_decimal};
use crate::process::Process;
use crate::screen::push_line;
use crate::state::App;
use crate::terminals::Terminal;
use crate::text;

verus! {

/// What Ghostty itself uses.
pub open spec fn shared_line(ghostty: Process) -> Seq<char> {
    "Ghostty shared: "@ + number::pad_left(ghostty.cpu.text@, 6) + "% CPU  "@ + number::pad_left(
        measure::bytes_text(ghostty.rss_kib as nat),
        8,
    ) + " RAM"@
}

/// The headings of the terminals.
pub open spec fn heading_line() -> Seq<char> {
    number::pad_right("TAB"@, 24) + " "@ + number::pad_left("CPU"@, 7) + "  "@ + number::pad_left(
        "RAM"@,
        9,
    ) + "  "@ + number::pad_left("TREND"@, 11) + "  "@ + number::pad_left("PROCS"@, 5) + "  "@
        + number::pad_left("AGE"@, 11) + "  ACTIVITY"@
}

/// The row of a terminal.
pub open spec fn snapshot_line(terminal: Terminal) -> Seq<char> {
    let trend = if terminal.memory_samples < 2 {
        "sampling"@
    } else {
        measure::compact_text(terminal.memory_growth_kib as int)
    };
    let alert = if terminal.leak_suspected {
        "  POTENTIAL LEAK"@
    } else {
        ""@
    };
    number::pad_right(columns::truncated_text(terminal.label@, 24), 24) + " "@ + number::pad_left(
        terminal.cpu.text@,
        6,
    ) + "%  "@ + number::pad_left(measure::bytes_text(terminal.rss_kib as nat), 9) + "  "@
        + number::pad_left(trend, 11) + "  "@ + number::pad_left(
        number::decimal(terminal.processes@.len()),
        5,
    ) + "  "@ + number::pad_left(terminal.elapsed@, 11) + "  "@ + terminal.activity@ + alert
}

/// The lines of a snapshot.
pub open spec fn snapshot_lines(app: App) -> Seq<Seq<char>> {
    match app.ghostty {
        None => seq!["Ghostty is not running."@],
        Some(ghostty) => seq![shared_line(ghostty), heading_line()] + app.terminals@.map_values(
            |terminal: Terminal| snapshot_line(terminal),
        ),
    }
}

fn write_shared(ghostty: &Process) -> (line: String)
    ensures
        line@ == shared_line(*ghostty),
{
    let mut line = "Ghostty shared: ".to_owned();
    line.append(align_right(ghostty.cpu.text.as_str(), 6).as_str());
    line.append("% CPU  ");
    line.append(align_right(human_bytes(ghostty.rss_kib).as_str(), 8).as_str());
    line.append(" RAM");
    line
}

fn write_headings() -> (line: String)
    ensures
        line@ == heading_line(),
{
    let mut line = align_left("TAB", 24);
    line.append(" ");
    line.append(align_right("CPU", 7).as_str());
    line.append("  ");
    line.append(align_right("RAM", 9).as_str());
    line.append("  ");
    line.append(align_right("TREND", 11).as_str());
    line.append("  ");
    line.append(align_right("PROCS", 5).as_str());
    line.append("  ");
    line.append(align_right("AGE", 11).as_str());
    line.append("  ACTIVITY");
    line
}

fn write_terminal_line(terminal: &Terminal) -> (line: String)
    ensures
        line@ == snapshot_line(*terminal),
{
    let trend = if terminal.memory_samples < 2 {
        "sampling".to_owned()
    } else {
        compact_signed_kib(terminal.memory_growth_kib)
    };
    let mut line = align_left(truncate(terminal.label.as_str(), 24).as_str(), 24);
    line.append(" ");
    line.append(align_right(terminal.cpu.text.as_str(), 6).as_str());
    line.append("%  ");
    line.append(align_right(human_bytes(terminal.rss_kib).as_str(), 9).as_str());
    line.append("  ");
    line.append(align_right(trend.as_str(), 11).as_str());
    line.append("  ");
    line.append(align_right(write_decimal(terminal.processes.len() as u64).as_str(), 5).as_str());
    line.append("  ");
    line.append(align_right(terminal.elapsed.as_str(), 11).as_str());
    line.append("  ");
    line.append(terminal.activity.as_str());
    line.append(
        if terminal.leak_suspected {
            "  POTENTIAL LEAK"
        } else {
            ""
        },
    );
    line
}

/// Writes one sample of the terminals as plain text, or gives the error that the
/// sample met.
pub fn print_snapshot(app: &App) -> (lines: Result<Vec<String>, String>)
    ensures
        lines is Err <==> app.last_error is Some,
        lines matches Err(error) ==> Some(error) == app.last_error,
        lines matches Ok(list) ==> text::texts(list@) == snapshot_lines(*app),
{
    match &app.last_error {
        Some(error) => {
            return Err(error.clone());
        },
        None => {},
    }
    let mut lines: Vec<String> = Vec::new();
    match &app.ghostty {
        None => {
            push_line(&mut lines, "Ghostty is not running.".to_owned());
            assert(text::texts(lines@) =~= snapshot_lines(*app));
        },
        Some(ghostty) => {
            push_line(&mut lines, write_shared(ghostty));
            push_line(&mut lines, write_headings());
            let ghost head = seq![shared_line(*ghostty), heading_line()];
            let ghost rows = app.terminals@.map_values(
                |terminal: Terminal| snapshot_line(terminal),
            );
            assert(text::texts(lines@) =~= head + rows.take(0));
            let mut i: usize = 0;
            while i < app.terminals.len()
                invariant
                    i <= app.terminals@.len(),
                    rows == app.terminals@.map_values(|terminal: Terminal| snapshot_line(terminal)),
                    text::texts(lines@) == head + rows.take(i as int),
                decreases app.terminals@.len() - i,
            {
                let line = write_terminal_line(&app.terminals[i]);
                push_line(&mut lines, line);
                proof {
                    assert(rows.take(i + 1) =~= rows.take(i as int).push(line@));
                    assert(head + rows.take(i as int).push(line@) =~= (head + rows.take(i as int)).push(
                        line@,
                    ));
                }
                i += 1;
            }
            assert(rows.take(rows.len() as int) =~= rows);
        },
    }
    Ok(lines)
}

/// A row is marked just where the leak alert of its terminal is on: two terminals
/// that differ in nothing else have rows that differ in the mark at the end, and
/// without an alert the row ends with what the terminal is busy with.
pub proof fn law_leaks_are_marked(calm: Terminal, alarmed: Terminal)
    requires
        !calm.leak_suspected,
        alarmed == (Terminal { leak_suspected: true, ..calm }),
    ensures
        snapshot_line(alarmed) == snapshot_line(calm) + "  POTENTIAL LEAK"@,
        text::finishes_with(snapshot_line(calm), "  "@ + calm.activity@),
{
    reveal_strlit("");
    reveal_strlit("  ");
    let row = snapshot_line(calm);
    assert(""@ =~= Seq::<char>::empty());
    assert(snapshot_line(alarmed) =~= row + "  POTENTIAL LEAK"@);
    let end = "  "@ + calm.activity@;
    assert(row.skip(row.len() - end.len()) =~= end);
}

/// Every value of a row stands in its column, as far as it fits there: the name of
/// the tab, the share of processor time, the memory, the growth since sampling
/// began, the number of processes, the age, and what the terminal is busy with.
pub proof fn law_values_stand_in_their_columns(terminal: Terminal)
    requires
        terminal.cpu.text@.len() <= 6,
        measure::bytes_text(terminal.rss_kib as nat).len() <= 9,
        measure::compact_text(terminal.memory_growth_kib as int).len() <= 11,
        number::decimal(terminal.processes@.len()).len() <= 5,
        terminal.elapsed@.len() <= 11,
    ensures
        ({
            let row = snapshot_line(terminal);
            &&& row.len() >= 78 + terminal.activity@.len()
            &&& row.take(24) == number::pad_right(columns::truncated_text(terminal.label@, 24), 24)
            &&& row.subrange(25, 31) == number::pad_left(terminal.cpu.text@, 6)
            &&& row[31] == '%'
            &&& row.subrange(34, 43) == number::pad_left(
                measure::bytes_text(terminal.rss_kib as nat),
                9,
            )
            &&& terminal.memory_samples < 2 ==> row.subrange(45, 56) == "   sampling"@
            &&& terminal.memory_samples >= 2 ==> row.subrange(45, 56) == number::pad_left(
                measure::compact_text(terminal.memory_growth_kib as int),
                11,
            )
            &&& row.subrange(58, 63) == number::pad_left(
                number::decimal(terminal.processes@.len()),
                5,
            )
            &&& row.subrange(65, 76) == number::pad_left(terminal.elapsed@, 11)
            &&& row.subrange(78, 78 + terminal.activity@.len() as int) == terminal.activity@
        }),
{
    reveal_strlit(" ");
    reveal_strlit("  ");
    reveal_strlit("%  ");
    reveal_strlit("sampling");
    reveal_strlit("   sampling");
    columns::law_truncated_length(terminal.label@, 24);
    let row = snapshot_line(terminal);
    let label = number::pad_right(columns::truncated_text(terminal.label@, 24), 24);
    let cpu = number::pad_left(terminal.cpu.text@, 6);
    let memory = number::pad_left(measure::bytes_text(terminal.rss_kib as nat), 9);
    let trend = if terminal.memory_samples < 2 {
        number::pad_left("sampling"@, 11)
    } else {
        number::pad_left(measure::compact_text(terminal.memory_growth_kib as int), 11)
    };
    let count = number::pad_left(number::decimal(terminal.processes@.len()), 5);
    let age = number::pad_left(terminal.elapsed@, 11);
    assert(number::pad_left("sampling"@, 11) =~= "   sampling"@);
    assert(row.take(24) =~= label);
    assert(row.subrange(25, 31) =~= cpu);
    assert(row.subrange(34, 43) =~= memory);
    assert(row.subrange(45, 56) =~= trend);
    assert(row.subrange(58, 63) =~= count);
    assert(row.subrange(65, 76) =~= age);
    assert(row.subrange(78, 78 + terminal.activity@.len() as int) =~= terminal.activity@);
}

/// A snapshot tells of Ghostty itself, names the columns, and then has one row for
/// each terminal, in their order; without Ghostty it just says so.
pub proof fn law_snapshot_has_a_row_for_each_terminal(app: App)
    ensures
        app.ghostty is None ==> snapshot_lines(app) == seq!["Ghostty is not running."@],
        app.ghostty is Some ==> {
            let lines = snapshot_lines(app);
            &&& lines.len() == 2 + app.terminals@.len()
            &&& text::begins_with(lines[0], "Ghostty shared: "@)
            &&& forall|i: int|
                0 <= i < app.terminals@.len() ==> #[trigger] lines[2 + i] == snapshot_line(
                    app.terminals@[i],
                )
        },
{
    if app.ghostty is Some {
        let lines = snapshot_lines(app);
        assert(lines[0].take("Ghostty shared: "@.len() as int) =~= "Ghostty shared: "@);
    }
}

/// The headings stand over their columns: those of numbers end where the numbers
/// do, the others begin where the texts begin.
pub proof fn law_headings_stand_over_their_columns()
    ensures
        ({
            let row = heading_line();
            &&& row.len() == 86
            &&& row.take(3) == "TAB"@
            &&& row.subrange(29, 32) == "CPU"@
            &&& row.subrange(40, 43) == "RAM"@
            &&& row.subrange(51, 56) == "TREND"@
            &&& row.subrange(58, 63) == "PROCS"@
            &&& row.subrange(73, 76) == "AGE"@
            &&& row.skip(78) == "ACTIVITY"@
        }),
{
    reveal_strlit("TAB");
    reveal_strlit("CPU");
    reveal_strlit("RAM");
    reveal_strlit("TREND");
    reveal_strlit("PROCS");
    reveal_strlit("AGE");
    reveal_strlit("ACTIVITY");
    reveal_strlit("  ACTIVITY");
    reveal_strlit(" ");
    reveal_strlit("  ");
    let row = heading_line();
    assert(row.take(3) =~= "TAB"@);
    assert(row.subrange(29, 32) =~= "CPU"@);
    assert(row.subrange(40, 43) =~= "RAM"@);
    assert(row.subrange(51, 56) =~= "TREND"@);
    assert(row.subrange(58, 63) =~= "PROCS"@);
    assert(row.subrange(73, 76) =~= "AGE"@);
    assert(row.skip(78) =~= "ACTIVITY"@);
}

/// What Ghostty itself uses: its share of the processor in six columns, and its
/// memory in eight.
pub proof fn law_shared_use_is_told(ghostty: Process)
    requires
        ghostty.cpu.text@.len() <= 6,
        measure::bytes_text(ghostty.rss_kib as nat).len() <= 8,
    ensures
        ({
            let row = shared_line(ghostty);
            &&& row.len() == 41
            &&& row.take(16) == "Ghostty shared: "@
            &&& row.subrange(16, 22) == number::pad_left(ghostty.cpu.text@, 6)
            &&& row.subrange(22, 29) == "% CPU  "@
            &&& row.subrange(29, 37) == number::pad_left(
                measure::bytes_text(ghostty.rss_kib as nat),
                8,
            )
            &&& row.skip(37) == " RAM"@
        }),
{
    reveal_strlit("Ghostty shared: ");
    reveal_strlit("% CPU  ");
    reveal_strlit(" RAM");
    let row = shared_line(ghostty);
    assert(row.take(16) =~= "Ghostty shared: "@);
    assert(row.subrange(16, 22) =~= number::pad_left(ghostty.cpu.text@, 6));
    assert(row.subrange(22, 29) =~= "% CPU  "@);
    assert(row.subrange(29, 37) =~= number::pad_left(
        measure::bytes_text(ghostty.rss_kib as nat),
        8,
    ));
    assert(row.skip(37) =~= " RAM"@);
}

} // verus!
