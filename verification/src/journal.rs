//! Rows of the history files other than the usage history.
use vstd::prelude::*;
use vstd::string::*;
use crate::memory;
use crate::number;
use crate::number::{write_decimal, write_signed};
use crate::presence::{SECOND, USAGE_POLL_INTERVAL};
use crate::process;
use crate::process::{Process, command_name, executable_path};
use crate::tabs;
use crate::tabs::{Surface, TabObservation};
use crate::terminals::Terminal;
use crate::text;
use crate::tracker::{INVENTORY_POLL_INTERVAL, RESOURCE_HISTORY_INTERVAL};
use crate::usage;
use crate::usage::clean_field;

verus! {

/// Version of the history files' layout.
pub const HISTORY_SCHEMA_VERSION: &'static str = "1";

/// First line of the tab history.
pub const TAB_HISTORY_HEADER: &'static str = "timestamp\tday\trecord\tapp_frontmost\twindow_id\twindow_name\ttab_id\ttab_name\ttab_index\tselected\tterminal_count\tterminal_id\tterminal_name\tworking_directory\tterminal_focused";

/// First line of the resource history.
pub const RESOURCE_HISTORY_HEADER: &'static str = "timestamp\tday\tkind\tid\tcpu_percent\trss_kib\tprocesses\tage_seconds\tactivity\tmemory_growth_kib\tleak_suspected";

/// First line of the process history.
pub const PROCESS_HISTORY_HEADER: &'static str = "timestamp\tday\tkind\tterminal_tty\tterminal_root_pid\tpid\tppid\tcpu_percent\trss_kib\tage_seconds\tstarted_at\texecutable_name\texecutable_path";

/// First line of the record of tracker starts.
pub const TRACKER_EVENT_HEADER: &'static str = "timestamp\tevent\tschema_version\tapp_version\tpid\tos\tarchitecture\tfocus_interval_seconds\tinventory_interval_seconds\tresource_interval_seconds";

/// Fields with tabs between them.
pub open spec fn tabbed(fields: Seq<Seq<char>>) -> Seq<char>
    decreases fields.len(),
{
    if fields.len() == 0 {
        seq![]
    } else if fields.len() == 1 {
        fields[0]
    } else {
        tabbed(fields.drop_last()) + "\t"@ + fields.last()
    }
}

/// Writes fields with tabs between them.
fn join_fields(fields: &Vec<String>) -> (row: String)
    ensures
        row@ == tabbed(text::texts(fields@)),
{
    let ghost all = text::texts(fields@);
    let mut row = String::new();
    let mut i: usize = 0;
    assert(all.take(0) =~= seq![]);
    while i < fields.len()
        invariant
            i <= fields@.len(),
            all == text::texts(fields@),
            row@ == tabbed(all.take(i as int)),
        decreases fields@.len() - i,
    {
        proof {
            let grown = all.take(i + 1);
            assert(grown.drop_last() =~= all.take(i as int));
            assert(grown.last() == fields@[i as int]@);
            if i == 0 {
                assert(row@ =~= seq![]);
                assert(tabbed(grown) =~= row@ + fields@[0]@);
            }
        }
        if i > 0 {
            row.append("\t");
        }
        row.append(fields[i].as_str());
        i += 1;
    }
    assert(all.take(all.len() as int) =~= all);
    row
}

/// A field behind others is the last piece at the tabs.
proof fn lemma_last_piece(s: Seq<char>, field: Seq<char>)
    requires
        forall|i: int| 0 <= i < field.len() ==> field[i] != '\t',
    ensures
        text::pieces(s + seq!['\t'] + field, '\t') == text::pieces(s, '\t').push(field),
        text::pieces(field, '\t') == seq![field],
    decreases s.len(),
{
    text::lemma_find_is(field, '\t', field.len() as int);
    assert(text::pieces(field, '\t') =~= seq![field]);
    text::lemma_find(s, '\t');
    let whole = s + seq!['\t'] + field;
    let at = text::find(s, '\t');
    assert forall|i: int| 0 <= i < at implies whole[i] != '\t' by {
        assert(whole[i] == s[i]);
    }
    assert(whole[at] == '\t');
    text::lemma_find_is(whole, '\t', at);
    assert(whole.take(at) =~= s.take(at));
    assert(text::pieces(whole, '\t') =~= seq![whole.take(at)] + text::pieces(
        whole.skip(at + 1),
        '\t',
    ));
    if at < s.len() {
        let tail = s.skip(at + 1);
        lemma_last_piece(tail, field);
        assert(whole.skip(at + 1) =~= tail + seq!['\t'] + field);
        let first = seq![s.take(at)];
        assert(first + text::pieces(tail, '\t').push(field) =~= (first + text::pieces(tail, '\t')).push(
            field,
        ));
    } else {
        assert(whole.skip(at + 1) =~= field);
        assert(s.take(at) =~= s);
        assert(text::pieces(s, '\t') =~= seq![s]);
        assert(seq![s] + seq![field] =~= seq![s].push(field));
    }
}

/// Splitting a row at its tabs gives back its fields, where none has a tab.
pub proof fn law_fields_come_back(fields: Seq<Seq<char>>)
    requires
        fields.len() > 0,
        forall|k: int| 0 <= k < fields.len() ==> usage::is_clean(#[trigger] fields[k]),
    ensures
        text::pieces(tabbed(fields), '\t') == fields,
    decreases fields.len(),
{
    reveal_strlit("\t");
    assert("\t"@ =~= seq!['\t']);
    if fields.len() == 1 {
        lemma_last_piece(seq![], fields[0]);
        assert(fields =~= seq![fields[0]]);
    } else {
        let before = fields.drop_last();
        assert forall|k: int| 0 <= k < before.len() implies usage::is_clean(#[trigger] before[k]) by {
            assert(before[k] == fields[k]);
        }
        law_fields_come_back(before);
        assert(usage::is_clean(fields[fields.len() - 1]));
        lemma_last_piece(tabbed(before), fields.last());
        assert(before.push(fields.last()) =~= fields);
    }
}

/// `true` or `false`.
pub open spec fn truth_text(value: bool) -> Seq<char> {
    if value {
        "true"@
    } else {
        "false"@
    }
}

fn truth(value: bool) -> (text: String)
    ensures
        text@ == truth_text(value),
{
    if value {
        "true".to_owned()
    } else {
        "false".to_owned()
    }
}

/// What is written to a history file: the rows, after the header where the file
/// is new.
pub open spec fn written(header: Seq<char>, is_new: bool, rows: Seq<char>) -> Seq<char> {
    if is_new {
        header + "\n"@ + rows
    } else {
        rows
    }
}

/// What is to be appended to a history file: the rows, after the header where
/// the file is new.
pub fn open_history_file(header: &str, is_new: bool, rows: &str) -> (text: String)
    ensures
        text@ == written(header@, is_new, rows@),
{
    let mut text = String::new();
    if is_new {
        text.append(header);
        text.append("\n");
    }
    text.append(rows);
    assert(text@ =~= written(header@, is_new, rows@));
    text
}

/// The seconds since the beginning of 1970 that a wall clock in nanoseconds
/// shows; none before that.
pub fn unix_timestamp(wall: i128) -> (seconds: u64)
    ensures
        seconds == (if wall < 0 {
            0
        } else if wall / 1_000_000_000 > u64::MAX {
            u64::MAX as int
        } else {
            wall / 1_000_000_000
        }),
{
    if wall < 0 {
        return 0;
    }
    let seconds: i128 = wall / 1_000_000_000;
    if seconds > u64::MAX as i128 {
        u64::MAX
    } else {
        seconds as u64
    }
}

/// One row of the tab history.
pub open spec fn surface_row(timestamp: u64, day: Seq<char>, surface: Surface) -> Seq<char> {
    tabbed(
        seq![
            number::decimal(timestamp as nat),
            usage::cleaned(day),
            "snapshot"@,
            truth_text(surface.app_frontmost),
            usage::cleaned(surface.window_id),
            usage::cleaned(surface.window_name),
            usage::cleaned(surface.tab_id),
            usage::cleaned(surface.tab_name),
            number::decimal(surface.tab_index as nat),
            truth_text(surface.selected),
            number::decimal(surface.terminal_count as nat),
            usage::cleaned(surface.terminal_id),
            usage::cleaned(surface.terminal_name),
            usage::cleaned(surface.working_directory),
            truth_text(surface.terminal_focused),
        ],
    )
}

/// The rows that record some surfaces.
pub open spec fn surface_rows(timestamp: u64, day: Seq<char>, surfaces: Seq<Surface>) -> Seq<char>
    decreases surfaces.len(),
{
    if surfaces.len() == 0 {
        seq![]
    } else {
        surface_rows(timestamp, day, surfaces.drop_last()) + surface_row(
            timestamp,
            day,
            surfaces.last(),
        ) + "\n"@
    }
}

/// The rows that record an inventory of tabs.
pub open spec fn inventory_rows(timestamp: u64, day: Seq<char>, surfaces: Seq<Surface>) -> Seq<char> {
    if surfaces.len() == 0 {
        tabbed(seq![number::decimal(timestamp as nat), usage::cleaned(day), "app_closed"@]) + "\n"@
    } else {
        surface_rows(timestamp, day, surfaces)
    }
}

fn write_surface(timestamp: u64, day: &str, value: &TabObservation) -> (row: String)
    ensures
        row@ == surface_row(timestamp, day@, value@),
{
    let fields = vec![
        write_decimal(timestamp),
        clean_field(day),
        "snapshot".to_owned(),
        truth(value.app_frontmost),
        clean_field(value.window_id.as_str()),
        clean_field(value.window_name.as_str()),
        clean_field(value.tab_id.as_str()),
        clean_field(value.tab_name.as_str()),
        write_decimal(value.tab_index as u64),
        truth(value.selected),
        write_decimal(value.terminal_count as u64),
        clean_field(value.terminal_id.as_str()),
        clean_field(value.terminal_name.as_str()),
        clean_field(value.working_directory.as_str()),
        truth(value.terminal_focused),
    ];
    let row = join_fields(&fields);
    proof {
        let surface = value@;
        assert(text::texts(fields@) =~= seq![
            number::decimal(timestamp as nat),
            usage::cleaned(day@),
            "snapshot"@,
            truth_text(surface.app_frontmost),
            usage::cleaned(surface.window_id),
            usage::cleaned(surface.window_name),
            usage::cleaned(surface.tab_id),
            usage::cleaned(surface.tab_name),
            number::decimal(surface.tab_index as nat),
            truth_text(surface.selected),
            number::decimal(surface.terminal_count as nat),
            usage::cleaned(surface.terminal_id),
            usage::cleaned(surface.terminal_name),
            usage::cleaned(surface.working_directory),
            truth_text(surface.terminal_focused),
        ]);
    }
    row
}

/// The rows that record an inventory of tabs. Without any, the application is
/// recorded as closed.
pub fn append_tab_inventory(timestamp: u64, day: &str, observations: &Vec<TabObservation>) -> (rows:
    String)
    ensures
        rows@ == inventory_rows(timestamp, day@, tabs::surfaces_of(observations@)),
{
    if observations.len() == 0 {
        let fields = vec![write_decimal(timestamp), clean_field(day), "app_closed".to_owned()];
        let mut rows = join_fields(&fields);
        assert(text::texts(fields@) =~= seq![
            number::decimal(timestamp as nat),
            usage::cleaned(day@),
            "app_closed"@,
        ]);
        rows.append("\n");
        return rows;
    }
    let ghost all = tabs::surfaces_of(observations@);
    let mut rows = String::new();
    let mut i: usize = 0;
    assert(all.take(0) =~= seq![]);
    while i < observations.len()
        invariant
            i <= observations@.len(),
            all == tabs::surfaces_of(observations@),
            rows@ == surface_rows(timestamp, day@, all.take(i as int)),
        decreases observations@.len() - i,
    {
        proof {
            assert(all.take(i + 1).drop_last() =~= all.take(i as int));
            assert(all.take(i + 1).last() == observations@[i as int]@);
        }
        rows.append(write_surface(timestamp, day, &observations[i]).as_str());
        rows.append("\n");
        i += 1;
    }
    assert(all.take(all.len() as int) =~= all);
    rows
}

/// One row of the process history. Of the command, only the executable is told.
pub open spec fn process_row(
    timestamp: u64,
    day: Seq<char>,
    kind: Seq<char>,
    terminal_tty: Seq<char>,
    terminal_root_pid: i32,
    process: Process,
) -> Seq<char> {
    tabbed(
        seq![
            number::decimal(timestamp as nat),
            usage::cleaned(day),
            usage::cleaned(kind),
            usage::cleaned(terminal_tty),
            number::signed_decimal(terminal_root_pid as int),
            number::signed_decimal(process.pid as int),
            number::signed_decimal(process.ppid as int),
            process.cpu.text@,
            number::decimal(process.rss_kib as nat),
            number::decimal(process.age_seconds as nat),
            number::decimal(memory::time_between(process.age_seconds, timestamp) as nat),
            usage::cleaned(process::program(process.command@)),
            usage::cleaned(process::first_word(process.command@)),
        ],
    )
}

/// One row of the process history: who the process is, without the arguments of
/// its command.
pub fn process_history_row(
    timestamp: u64,
    day: &str,
    kind: &str,
    terminal_tty: &str,
    terminal_root_pid: i32,
    process: &Process,
) -> (row: String)
    ensures
        row@ == process_row(timestamp, day@, kind@, terminal_tty@, terminal_root_pid, *process),
{
    let fields = vec![
        write_decimal(timestamp),
        clean_field(day),
        clean_field(kind),
        clean_field(terminal_tty),
        write_signed(terminal_root_pid as i64),
        write_signed(process.pid as i64),
        write_signed(process.ppid as i64),
        process.cpu.text.clone(),
        write_decimal(process.rss_kib),
        write_decimal(process.age_seconds),
        write_decimal(timestamp.saturating_sub(process.age_seconds)),
        clean_field(command_name(process.command.as_str()).as_str()),
        clean_field(executable_path(process.command.as_str()).as_str()),
    ];
    let row = join_fields(&fields);
    assert(text::texts(fields@) =~= seq![
        number::decimal(timestamp as nat),
        usage::cleaned(day@),
        usage::cleaned(kind@),
        usage::cleaned(terminal_tty@),
        number::signed_decimal(terminal_root_pid as int),
        number::signed_decimal(process.pid as int),
        number::signed_decimal(process.ppid as int),
        process.cpu.text@,
        number::decimal(process.rss_kib as nat),
        number::decimal(process.age_seconds as nat),
        number::decimal(memory::time_between(process.age_seconds, timestamp) as nat),
        usage::cleaned(process::program(process.command@)),
        usage::cleaned(process::first_word(process.command@)),
    ]);
    row
}

/// The arguments of a command are not recorded: a process that differs in them
/// alone gives the same row.
pub proof fn law_arguments_stay_private(
    timestamp: u64,
    day: Seq<char>,
    kind: Seq<char>,
    terminal_tty: Seq<char>,
    terminal_root_pid: i32,
    one: Process,
    other: Process,
)
    requires
        process::first_word(one.command@) == process::first_word(other.command@),
        other == (Process { command: other.command, ..one }),
    ensures
        process_row(timestamp, day, kind, terminal_tty, terminal_root_pid, one) == process_row(
            timestamp,
            day,
            kind,
            terminal_tty,
            terminal_root_pid,
            other,
        ),
{
}

/// The rows of the processes of one terminal.
pub open spec fn member_rows(
    timestamp: u64,
    day: Seq<char>,
    terminal: Terminal,
    processes: Seq<Process>,
) -> Seq<char>
    decreases processes.len(),
{
    if processes.len() == 0 {
        seq![]
    } else {
        member_rows(timestamp, day, terminal, processes.drop_last()) + process_row(
            timestamp,
            day,
            "terminal"@,
            terminal.tty@,
            terminal.root_pid,
            processes.last(),
        ) + "\n"@
    }
}

/// The rows of the processes of some terminals.
pub open spec fn terminals_member_rows(
    timestamp: u64,
    day: Seq<char>,
    terminals: Seq<Terminal>,
) -> Seq<char>
    decreases terminals.len(),
{
    if terminals.len() == 0 {
        seq![]
    } else {
        terminals_member_rows(timestamp, day, terminals.drop_last()) + member_rows(
            timestamp,
            day,
            terminals.last(),
            terminals.last().processes@,
        )
    }
}

/// The rows of the process history: Ghostty itself, then the processes of every
/// terminal.
pub open spec fn process_rows(
    timestamp: u64,
    day: Seq<char>,
    terminals: Seq<Terminal>,
    ghostty: Option<&Process>,
) -> Seq<char> {
    let first = match ghostty {
        Some(process) => process_row(timestamp, day, "app"@, seq![], 0, *process) + "\n"@,
        None => seq![],
    };
    first + terminals_member_rows(timestamp, day, terminals)
}

fn append_members(rows: &mut String, timestamp: u64, day: &str, terminal: &Terminal)
    ensures
        final(rows)@ == old(rows)@ + member_rows(timestamp, day@, *terminal, terminal.processes@),
{
    let ghost before = rows@;
    let ghost all = terminal.processes@;
    let mut i: usize = 0;
    assert(all.take(0) =~= seq![]);
    assert(before + member_rows(timestamp, day@, *terminal, all.take(0)) =~= before);
    while i < terminal.processes.len()
        invariant
            i <= terminal.processes@.len(),
            all == terminal.processes@,
            rows@ == before + member_rows(timestamp, day@, *terminal, all.take(i as int)),
        decreases terminal.processes@.len() - i,
    {
        let ghost written = rows@;
        let row = process_history_row(
            timestamp,
            day,
            "terminal",
            terminal.tty.as_str(),
            terminal.root_pid,
            &terminal.processes[i],
        );
        rows.append(row.as_str());
        rows.append("\n");
        proof {
            assert(all.take(i + 1).drop_last() =~= all.take(i as int));
            assert(rows@ =~= before + (member_rows(timestamp, day@, *terminal, all.take(i as int))
                + row@ + "\n"@));
        }
        i += 1;
    }
    assert(all.take(all.len() as int) =~= all);
}

/// The rows of the process history: Ghostty itself, then the processes of every
/// terminal.
pub fn append_process_history(
    timestamp: u64,
    day: &str,
    terminals: &Vec<Terminal>,
    ghostty: Option<&Process>,
) -> (rows: String)
    ensures
        rows@ == process_rows(timestamp, day@, terminals@, ghostty),
{
    let mut rows = String::new();
    match ghostty {
        Some(process) => {
            assert(""@ =~= seq![]) by {
                reveal_strlit("");
            }
            rows.append(process_history_row(timestamp, day, "app", "", 0, process).as_str());
            rows.append("\n");
        },
        None => {},
    }
    let ghost first = rows@;
    let ghost all = terminals@;
    let mut i: usize = 0;
    assert(all.take(0) =~= seq![]);
    assert(first + terminals_member_rows(timestamp, day@, all.take(0)) =~= first);
    while i < terminals.len()
        invariant
            i <= terminals@.len(),
            all == terminals@,
            rows@ == first + terminals_member_rows(timestamp, day@, all.take(i as int)),
        decreases terminals@.len() - i,
    {
        append_members(&mut rows, timestamp, day, &terminals[i]);
        proof {
            assert(all.take(i + 1).drop_last() =~= all.take(i as int));
            assert(rows@ =~= first + terminals_member_rows(timestamp, day@, all.take(i + 1)));
        }
        i += 1;
    }
    assert(all.take(all.len() as int) =~= all);
    proof {
        if ghostty is Some {
            assert(first =~= process_row(timestamp, day@, "app"@, seq![], 0, *ghostty.unwrap())
                + "\n"@);
        }
    }
    rows
}

/// The row of Ghostty itself in the resource history.
pub open spec fn app_row(timestamp: u64, day: Seq<char>, process: Process) -> Seq<char> {
    tabbed(
        seq![
            number::decimal(timestamp as nat),
            usage::cleaned(day),
            "app"@,
            "ghostty"@,
            process.cpu.text@,
            number::decimal(process.rss_kib as nat),
            "1"@,
            number::decimal(process.age_seconds as nat),
            "ghostty"@,
            "0"@,
            "false"@,
        ],
    )
}

/// The row of a terminal in the resource history.
pub open spec fn terminal_row(timestamp: u64, day: Seq<char>, terminal: Terminal) -> Seq<char> {
    tabbed(
        seq![
            number::decimal(timestamp as nat),
            usage::cleaned(day),
            "terminal"@,
            usage::cleaned(terminal.tty@),
            terminal.cpu.text@,
            number::decimal(terminal.rss_kib as nat),
            number::decimal(terminal.processes@.len()),
            number::decimal(terminal.age_seconds as nat),
            usage::cleaned(terminal.activity@),
            number::signed_decimal(terminal.memory_growth_kib as int),
            truth_text(terminal.leak_suspected),
        ],
    )
}

/// The rows of some terminals in the resource history.
pub open spec fn terminal_rows(timestamp: u64, day: Seq<char>, terminals: Seq<Terminal>) -> Seq<char>
    decreases terminals.len(),
{
    if terminals.len() == 0 {
        seq![]
    } else {
        terminal_rows(timestamp, day, terminals.drop_last()) + terminal_row(
            timestamp,
            day,
            terminals.last(),
        ) + "\n"@
    }
}

/// The rows of the resource history: Ghostty itself, then every terminal.
pub open spec fn resource_rows(
    timestamp: u64,
    day: Seq<char>,
    terminals: Seq<Terminal>,
    ghostty: Option<&Process>,
) -> Seq<char> {
    let first = match ghostty {
        Some(process) => app_row(timestamp, day, *process) + "\n"@,
        None => seq![],
    };
    first + terminal_rows(timestamp, day, terminals)
}

fn write_app(timestamp: u64, day: &str, process: &Process) -> (row: String)
    ensures
        row@ == app_row(timestamp, day@, *process),
{
    let fields = vec![
        write_decimal(timestamp),
        clean_field(day),
        "app".to_owned(),
        "ghostty".to_owned(),
        process.cpu.text.clone(),
        write_decimal(process.rss_kib),
        "1".to_owned(),
        write_decimal(process.age_seconds),
        "ghostty".to_owned(),
        "0".to_owned(),
        "false".to_owned(),
    ];
    let row = join_fields(&fields);
    assert(text::texts(fields@) =~= seq![
        number::decimal(timestamp as nat),
        usage::cleaned(day@),
        "app"@,
        "ghostty"@,
        process.cpu.text@,
        number::decimal(process.rss_kib as nat),
        "1"@,
        number::decimal(process.age_seconds as nat),
        "ghostty"@,
        "0"@,
        "false"@,
    ]);
    row
}

fn write_terminal(timestamp: u64, day: &str, terminal: &Terminal) -> (row: String)
    ensures
        row@ == terminal_row(timestamp, day@, *terminal),
{
    let fields = vec![
        write_decimal(timestamp),
        clean_field(day),
        "terminal".to_owned(),
        clean_field(terminal.tty.as_str()),
        terminal.cpu.text.clone(),
        write_decimal(terminal.rss_kib),
        write_decimal(terminal.processes.len() as u64),
        write_decimal(terminal.age_seconds),
        clean_field(terminal.activity.as_str()),
        write_signed(terminal.memory_growth_kib),
        truth(terminal.leak_suspected),
    ];
    let row = join_fields(&fields);
    assert(text::texts(fields@) =~= seq![
        number::decimal(timestamp as nat),
        usage::cleaned(day@),
        "terminal"@,
        usage::cleaned(terminal.tty@),
        terminal.cpu.text@,
        number::decimal(terminal.rss_kib as nat),
        number::decimal(terminal.processes@.len()),
        number::decimal(terminal.age_seconds as nat),
        usage::cleaned(terminal.activity@),
        number::signed_decimal(terminal.memory_growth_kib as int),
        truth_text(terminal.leak_suspected),
    ]);
    row
}

/// What is recorded of the terminals: rows of the resource history and of the
/// process history.
pub struct ResourceRows {
    pub resources: String,
    pub processes: String,
}

/// Records what Ghostty and its terminals use.
pub fn append_resource_history(
    timestamp: u64,
    day: &str,
    terminals: &Vec<Terminal>,
    ghostty: Option<&Process>,
) -> (rows: ResourceRows)
    ensures
        rows.resources@ == resource_rows(timestamp, day@, terminals@, ghostty),
        rows.processes@ == process_rows(timestamp, day@, terminals@, ghostty),
{
    let mut rows = String::new();
    match ghostty {
        Some(process) => {
            rows.append(write_app(timestamp, day, process).as_str());
            rows.append("\n");
        },
        None => {},
    }
    let ghost first = rows@;
    let ghost all = terminals@;
    let mut i: usize = 0;
    assert(all.take(0) =~= seq![]);
    assert(first + terminal_rows(timestamp, day@, all.take(0)) =~= first);
    while i < terminals.len()
        invariant
            i <= terminals@.len(),
            all == terminals@,
            rows@ == first + terminal_rows(timestamp, day@, all.take(i as int)),
        decreases terminals@.len() - i,
    {
        let row = write_terminal(timestamp, day, &terminals[i]);
        rows.append(row.as_str());
        rows.append("\n");
        proof {
            assert(all.take(i + 1).drop_last() =~= all.take(i as int));
            assert(rows@ =~= first + (terminal_rows(timestamp, day@, all.take(i as int)) + row@
                + "\n"@));
        }
        i += 1;
    }
    assert(all.take(all.len() as int) =~= all);
    proof {
        if ghostty is Some {
            assert(first =~= app_row(timestamp, day@, *ghostty.unwrap()) + "\n"@);
        }
    }
    ResourceRows {
        resources: rows,
        processes: append_process_history(timestamp, day, terminals, ghostty),
    }
}

/// The row that records an event of the tracker, with what it runs on and the
/// seconds between its looks at the focus, at the tabs and at the terminals.
pub open spec fn event_row(
    timestamp: u64,
    event: Seq<char>,
    version: Seq<char>,
    pid: u32,
    os: Seq<char>,
    architecture: Seq<char>,
) -> Seq<char> {
    tabbed(
        seq![
            number::decimal(timestamp as nat),
            usage::cleaned(event),
            HISTORY_SCHEMA_VERSION@,
            version,
            number::decimal(pid as nat),
            os,
            architecture,
            number::decimal((USAGE_POLL_INTERVAL / SECOND) as nat),
            number::decimal((INVENTORY_POLL_INTERVAL / SECOND) as nat),
            number::decimal((RESOURCE_HISTORY_INTERVAL / SECOND) as nat),
        ],
    )
}

/// The row that records an event of the tracker.
pub fn append_tracker_event(
    timestamp: u64,
    event: &str,
    version: &str,
    pid: u32,
    os: &str,
    architecture: &str,
) -> (row: String)
    ensures
        row@ == event_row(timestamp, event@, version@, pid, os@, architecture@) + "\n"@,
{
    let fields = vec![
        write_decimal(timestamp),
        clean_field(event),
        HISTORY_SCHEMA_VERSION.to_owned(),
        version.to_owned(),
        write_decimal(pid as u64),
        os.to_owned(),
        architecture.to_owned(),
        write_decimal(USAGE_POLL_INTERVAL / SECOND),
        write_decimal(INVENTORY_POLL_INTERVAL / SECOND),
        write_decimal(RESOURCE_HISTORY_INTERVAL / SECOND),
    ];
    let mut row = join_fields(&fields);
    assert(text::texts(fields@) =~= seq![
        number::decimal(timestamp as nat),
        usage::cleaned(event@),
        HISTORY_SCHEMA_VERSION@,
        version@,
        number::decimal(pid as nat),
        os@,
        architecture@,
        number::decimal((USAGE_POLL_INTERVAL / SECOND) as nat),
        number::decimal((INVENTORY_POLL_INTERVAL / SECOND) as nat),
        number::decimal((RESOURCE_HISTORY_INTERVAL / SECOND) as nat),
    ]);
    row.append("\n");
    row
}

/// Whether two processes differ in the arguments of their commands alone.
pub open spec fn differ_in_arguments(one: Process, other: Process) -> bool {
    &&& other == (Process { command: other.command, ..one })
    &&& process::first_word(one.command@) == process::first_word(other.command@)
}

/// Whether two terminals differ in the arguments of their processes alone.
pub open spec fn run_the_same(one: Terminal, other: Terminal) -> bool {
    &&& other == (Terminal { processes: other.processes, ..one })
    &&& other.processes@.len() == one.processes@.len()
    &&& forall|i: int|
        0 <= i < one.processes@.len() ==> differ_in_arguments(
            #[trigger] one.processes@[i],
            other.processes@[i],
        )
}

proof fn lemma_same_member_rows(
    timestamp: u64,
    day: Seq<char>,
    one: Terminal,
    other: Terminal,
    n: int,
)
    requires
        run_the_same(one, other),
        0 <= n <= one.processes@.len(),
    ensures
        member_rows(timestamp, day, one, one.processes@.take(n)) == member_rows(
            timestamp,
            day,
            other,
            other.processes@.take(n),
        ),
    decreases n,
{
    if n > 0 {
        lemma_same_member_rows(timestamp, day, one, other, n - 1);
        assert(one.processes@.take(n).drop_last() =~= one.processes@.take(n - 1));
        assert(other.processes@.take(n).drop_last() =~= other.processes@.take(n - 1));
        assert(differ_in_arguments(one.processes@[n - 1], other.processes@[n - 1]));
    }
}

proof fn lemma_same_rows_of_terminals(
    timestamp: u64,
    day: Seq<char>,
    one: Seq<Terminal>,
    other: Seq<Terminal>,
    n: int,
)
    requires
        one.len() == other.len(),
        forall|i: int| 0 <= i < one.len() ==> run_the_same(#[trigger] one[i], other[i]),
        0 <= n <= one.len(),
    ensures
        terminals_member_rows(timestamp, day, one.take(n)) == terminals_member_rows(
            timestamp,
            day,
            other.take(n),
        ),
        terminal_rows(timestamp, day, one.take(n)) == terminal_rows(timestamp, day, other.take(n)),
    decreases n,
{
    if n > 0 {
        lemma_same_rows_of_terminals(timestamp, day, one, other, n - 1);
        assert(one.take(n).drop_last() =~= one.take(n - 1));
        assert(other.take(n).drop_last() =~= other.take(n - 1));
        let left = one[n - 1];
        let right = other[n - 1];
        assert(run_the_same(left, right));
        let count = left.processes@.len() as int;
        lemma_same_member_rows(timestamp, day, left, right, count);
        assert(left.processes@.take(count) =~= left.processes@);
        assert(right.processes@.take(count) =~= right.processes@);
    }
}

/// What is recorded of the terminals holds no arguments: terminals that differ in
/// them alone give the same rows.
pub proof fn law_journals_hold_no_arguments(
    timestamp: u64,
    day: Seq<char>,
    one: Seq<Terminal>,
    other: Seq<Terminal>,
    ghostty: Option<&Process>,
)
    requires
        one.len() == other.len(),
        forall|i: int| 0 <= i < one.len() ==> run_the_same(#[trigger] one[i], other[i]),
    ensures
        process_rows(timestamp, day, one, ghostty) == process_rows(timestamp, day, other, ghostty),
        resource_rows(timestamp, day, one, ghostty) == resource_rows(
            timestamp,
            day,
            other,
            ghostty,
        ),
{
    lemma_same_rows_of_terminals(timestamp, day, one, other, one.len() as int);
    assert(one.take(one.len() as int) =~= one);
    assert(other.take(other.len() as int) =~= other);
}

/// The columns of a terminal's row: when, the day, the tty, the share of processor
/// time, the memory, the number of processes, the age, the activity, the growth,
/// and whether a leak is suspected.
pub proof fn law_columns_of_a_terminal(timestamp: u64, day: Seq<char>, terminal: Terminal)
    requires
        usage::is_clean(terminal.cpu.text@),
    ensures
        ({
            let fields = text::pieces(terminal_row(timestamp, day, terminal), '\t');
            &&& fields.len() == 11
            &&& fields[0] == number::decimal(timestamp as nat)
            &&& fields[1] == usage::cleaned(day)
            &&& fields[2] == "terminal"@
            &&& fields[3] == usage::cleaned(terminal.tty@)
            &&& fields[4] == terminal.cpu.text@
            &&& fields[5] == number::decimal(terminal.rss_kib as nat)
            &&& fields[6] == number::decimal(terminal.processes@.len())
            &&& fields[7] == number::decimal(terminal.age_seconds as nat)
            &&& fields[8] == usage::cleaned(terminal.activity@)
            &&& fields[9] == number::signed_decimal(terminal.memory_growth_kib as int)
            &&& fields[10] == (if terminal.leak_suspected {
                "true"@
            } else {
                "false"@
            })
        }),
{
    let fields = seq![
        number::decimal(timestamp as nat),
        usage::cleaned(day),
        "terminal"@,
        usage::cleaned(terminal.tty@),
        terminal.cpu.text@,
        number::decimal(terminal.rss_kib as nat),
        number::decimal(terminal.processes@.len()),
        number::decimal(terminal.age_seconds as nat),
        usage::cleaned(terminal.activity@),
        number::signed_decimal(terminal.memory_growth_kib as int),
        truth_text(terminal.leak_suspected),
    ];
    lemma_clean_words();
    lemma_clean_number(timestamp as int);
    lemma_clean_number(terminal.rss_kib as int);
    lemma_clean_number(terminal.processes@.len() as int);
    lemma_clean_number(terminal.age_seconds as int);
    lemma_clean_number(terminal.memory_growth_kib as int);
    usage::law_cleaned(day);
    usage::law_cleaned(terminal.tty@);
    usage::law_cleaned(terminal.activity@);
    assert forall|k: int| 0 <= k < fields.len() implies usage::is_clean(#[trigger] fields[k]) by {}
    law_fields_come_back(fields);
}

/// The columns of a process's row: when, the day, what it belongs to, its terminal,
/// its pid and its parent's, what it uses, its age, when it began, and its program
/// with the path, but none of its arguments.
pub proof fn law_columns_of_a_process_row(
    timestamp: u64,
    day: Seq<char>,
    kind: Seq<char>,
    terminal_tty: Seq<char>,
    terminal_root_pid: i32,
    process: Process,
)
    requires
        usage::is_clean(process.cpu.text@),
    ensures
        ({
            let fields = text::pieces(
                process_row(timestamp, day, kind, terminal_tty, terminal_root_pid, process),
                '\t',
            );
            &&& fields.len() == 13
            &&& fields[0] == number::decimal(timestamp as nat)
            &&& fields[1] == usage::cleaned(day)
            &&& fields[2] == usage::cleaned(kind)
            &&& fields[3] == usage::cleaned(terminal_tty)
            &&& fields[4] == number::signed_decimal(terminal_root_pid as int)
            &&& fields[5] == number::signed_decimal(process.pid as int)
            &&& fields[6] == number::signed_decimal(process.ppid as int)
            &&& fields[7] == process.cpu.text@
            &&& fields[8] == number::decimal(process.rss_kib as nat)
            &&& fields[9] == number::decimal(process.age_seconds as nat)
            &&& process.age_seconds <= timestamp ==> fields[10] == number::decimal(
                (timestamp - process.age_seconds) as nat,
            )
            &&& fields[11] == usage::cleaned(process::program(process.command@))
            &&& fields[12] == usage::cleaned(process::first_word(process.command@))
        }),
{
    let started = memory::time_between(process.age_seconds, timestamp);
    let fields = seq![
        number::decimal(timestamp as nat),
        usage::cleaned(day),
        usage::cleaned(kind),
        usage::cleaned(terminal_tty),
        number::signed_decimal(terminal_root_pid as int),
        number::signed_decimal(process.pid as int),
        number::signed_decimal(process.ppid as int),
        process.cpu.text@,
        number::decimal(process.rss_kib as nat),
        number::decimal(process.age_seconds as nat),
        number::decimal(started as nat),
        usage::cleaned(process::program(process.command@)),
        usage::cleaned(process::first_word(process.command@)),
    ];
    lemma_clean_number(timestamp as int);
    lemma_clean_number(terminal_root_pid as int);
    lemma_clean_number(process.pid as int);
    lemma_clean_number(process.ppid as int);
    lemma_clean_number(process.rss_kib as int);
    lemma_clean_number(process.age_seconds as int);
    lemma_clean_number(started as int);
    usage::law_cleaned(day);
    usage::law_cleaned(kind);
    usage::law_cleaned(terminal_tty);
    usage::law_cleaned(process::program(process.command@));
    usage::law_cleaned(process::first_word(process.command@));
    assert forall|k: int| 0 <= k < fields.len() implies usage::is_clean(#[trigger] fields[k]) by {}
    law_fields_come_back(fields);
}

/// The columns of a surface's row.
pub proof fn law_columns_of_a_surface(timestamp: u64, day: Seq<char>, surface: Surface)
    ensures
        ({
            let fields = text::pieces(surface_row(timestamp, day, surface), '\t');
            &&& fields.len() == 15
            &&& fields[0] == number::decimal(timestamp as nat)
            &&& fields[1] == usage::cleaned(day)
            &&& fields[2] == "snapshot"@
            &&& fields[3] == (if surface.app_frontmost {
                "true"@
            } else {
                "false"@
            })
            &&& fields[4] == usage::cleaned(surface.window_id)
            &&& fields[5] == usage::cleaned(surface.window_name)
            &&& fields[6] == usage::cleaned(surface.tab_id)
            &&& fields[7] == usage::cleaned(surface.tab_name)
            &&& fields[8] == number::decimal(surface.tab_index as nat)
            &&& fields[9] == (if surface.selected {
                "true"@
            } else {
                "false"@
            })
            &&& fields[10] == number::decimal(surface.terminal_count as nat)
            &&& fields[11] == usage::cleaned(surface.terminal_id)
            &&& fields[12] == usage::cleaned(surface.terminal_name)
            &&& fields[13] == usage::cleaned(surface.working_directory)
            &&& fields[14] == (if surface.terminal_focused {
                "true"@
            } else {
                "false"@
            })
        }),
{
    let fields = seq![
        number::decimal(timestamp as nat),
        usage::cleaned(day),
        "snapshot"@,
        truth_text(surface.app_frontmost),
        usage::cleaned(surface.window_id),
        usage::cleaned(surface.window_name),
        usage::cleaned(surface.tab_id),
        usage::cleaned(surface.tab_name),
        number::decimal(surface.tab_index as nat),
        truth_text(surface.selected),
        number::decimal(surface.terminal_count as nat),
        usage::cleaned(surface.terminal_id),
        usage::cleaned(surface.terminal_name),
        usage::cleaned(surface.working_directory),
        truth_text(surface.terminal_focused),
    ];
    lemma_clean_words();
    lemma_clean_number(timestamp as int);
    lemma_clean_number(surface.tab_index as int);
    lemma_clean_number(surface.terminal_count as int);
    usage::law_cleaned(day);
    usage::law_cleaned(surface.window_id);
    usage::law_cleaned(surface.window_name);
    usage::law_cleaned(surface.tab_id);
    usage::law_cleaned(surface.tab_name);
    usage::law_cleaned(surface.terminal_id);
    usage::law_cleaned(surface.terminal_name);
    usage::law_cleaned(surface.working_directory);
    assert forall|k: int| 0 <= k < fields.len() implies usage::is_clean(#[trigger] fields[k]) by {}
    law_fields_come_back(fields);
}

proof fn lemma_clean_words()
    ensures
        usage::is_clean("terminal"@),
        usage::is_clean("snapshot"@),
        usage::is_clean("true"@),
        usage::is_clean("false"@),
        "true"@ != "false"@,
{
    reveal_strlit("terminal");
    reveal_strlit("snapshot");
    reveal_strlit("true");
    reveal_strlit("false");
}

proof fn lemma_clean_number(n: int)
    ensures
        usage::is_clean(number::signed_decimal(n)),
        n >= 0 ==> usage::is_clean(number::decimal(n as nat)),
{
    let size = if n < 0 {
        (-n) as nat
    } else {
        n as nat
    };
    number::lemma_decimal(size);
    let digits = number::decimal(size);
    assert forall|i: int| 0 <= i < digits.len() implies #[trigger] digits[i] != '\t' && digits[i]
        != '\n' && digits[i] != '\r' by {
        assert(number::is_digit(digits[i]));
    }
    let written = number::signed_decimal(n);
    if n < 0 {
        assert forall|i: int| 0 <= i < written.len() implies #[trigger] written[i] != '\t'
            && written[i] != '\n' && written[i] != '\r' by {
            if i > 0 {
                assert(written[i] == digits[i - 1]);
            }
        }
    }
}

/// A journal has one row for each terminal, and one for each of their processes,
/// in their order; the rows of more terminals follow those of the first.
pub proof fn law_journals_have_every_row(
    timestamp: u64,
    day: Seq<char>,
    terminals: Seq<Terminal>,
    terminal: Terminal,
    processes: Seq<Process>,
    process: Process,
    surfaces: Seq<Surface>,
    surface: Surface,
)
    ensures
        terminal_rows(timestamp, day, terminals.push(terminal)) == terminal_rows(
            timestamp,
            day,
            terminals,
        ) + terminal_row(timestamp, day, terminal) + "\n"@,
        terminals_member_rows(timestamp, day, terminals.push(terminal)) == terminals_member_rows(
            timestamp,
            day,
            terminals,
        ) + member_rows(timestamp, day, terminal, terminal.processes@),
        member_rows(timestamp, day, terminal, processes.push(process)) == member_rows(
            timestamp,
            day,
            terminal,
            processes,
        ) + process_row(timestamp, day, "terminal"@, terminal.tty@, terminal.root_pid, process)
            + "\n"@,
        inventory_rows(timestamp, day, seq![surface]) == surface_row(timestamp, day, surface)
            + "\n"@,
        surfaces.len() > 0 ==> inventory_rows(timestamp, day, surfaces.push(surface))
            == inventory_rows(timestamp, day, surfaces) + surface_row(timestamp, day, surface)
            + "\n"@,
{
    assert(terminals.push(terminal).drop_last() =~= terminals);
    assert(processes.push(process).drop_last() =~= processes);
    assert(surfaces.push(surface).drop_last() =~= surfaces);
    assert(seq![surface].drop_last() =~= Seq::<Surface>::empty());
    assert(surface_rows(timestamp, day, Seq::<Surface>::empty()) =~= Seq::<char>::empty());
    assert(inventory_rows(timestamp, day, seq![surface]) =~= surface_row(timestamp, day, surface)
        + "\n"@);
}

/// A file that is begun has its header on the first line; one that is continued
/// does not get it again.
pub proof fn law_header_comes_first(header: Seq<char>, rows: Seq<char>)
    requires
        !header.contains('\n'),
        !(header.len() > 0 && header.last() == '\r'),
    ensures
        text::lines_of(written(header, true, rows)) == seq![header] + text::lines_of(rows),
        written(header, false, rows) == rows,
{
    reveal_strlit("\n");
    assert("\n"@ =~= seq!['\n']);
    text::law_lines(header, rows);
}

} // verus!
