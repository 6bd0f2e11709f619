//! Processes as `ps` lists them.
use vstd::prelude::*;
use vstd::string::*;
use crate::number;
use crate::number::{parse_i32, parse_u64};
use crate::text;
use crate::text::{chars_of, ends_with, find_from, same_text, split, split_lines, split_words, starts_with, text_between, trim_end};

verus! {

/// The platforms that differ in how Ghostty starts its terminals and in what it
/// tells of its tabs.
#[derive(Clone, Copy, Debug, PartialEq, Eq, Structural)]
pub enum Platform {
    MacOs,
    Linux,
}

/// A share of processor time: its place among all such shares, and how it is
/// written with one decimal.
#[derive(Debug)]
pub struct CpuShare {
    pub rank: i64,
    pub text: String,
}

impl Clone for CpuShare {
    fn clone(&self) -> (copy: Self)
        ensures
            copy == *self,
    {
        CpuShare { rank: self.rank, text: self.text.clone() }
    }
}

impl Default for CpuShare {
    fn default() -> (share: Self)
        ensures
            share.rank == 0,
            share.text@ == "0.0"@,
    {
        CpuShare { rank: 0, text: "0.0".to_owned() }
    }
}

/// One process.
#[derive(Debug)]
pub struct Process {
    pub pid: i32,
    pub ppid: i32,
    pub tty: String,
    pub cpu: CpuShare,
    pub rss_kib: u64,
    pub elapsed: String,
    pub age_seconds: u64,
    pub command: String,
}

impl Clone for Process {
    fn clone(&self) -> (copy: Self)
        ensures
            copy == *self,
    {
        Process {
            pid: self.pid,
            ppid: self.ppid,
            tty: self.tty.clone(),
            cpu: self.cpu.clone(),
            rss_kib: self.rss_kib,
            elapsed: self.elapsed.clone(),
            age_seconds: self.age_seconds,
            command: self.command.clone(),
        }
    }
}

/// Whether a process is attached to a terminal. `ps` writes no tty as `??` on
/// macOS and as `?` on Linux.
pub open spec fn names_tty(tty: Seq<char>) -> bool {
    tty.len() > 0 && tty != "??"@ && tty != "?"@
}

/// Whether a process is attached to a terminal, on either platform.
pub fn has_tty(tty: &str) -> (attached: bool)
    ensures
        attached == names_tty(tty@),
{
    !tty.is_empty() && !same_text(tty, "??") && !same_text(tty, "?")
}

/// Whether a command is Ghostty itself.
pub open spec fn is_ghostty(command: Seq<char>) -> bool {
    let command = text::without_trailing_space(command);
    text::finishes_with(command, "/ghostty"@) || command == "ghostty"@
}

/// Whether a command is Ghostty itself: known by its executable, whatever the
/// directory it lies in.
pub fn is_ghostty_app(command: &str) -> (found: bool)
    ensures
        found == is_ghostty(command@),
{
    let command = trim_end(command);
    ends_with(command.as_str(), "/ghostty") || same_text(command.as_str(), "ghostty")
}

/// Whether Ghostty is among the commands that `ps` lists, one to a line.
pub fn ghostty_is_running(listing: &str) -> (running: bool)
    ensures
        running == exists|i: int|
            0 <= i < text::lines_of(listing@).len() && is_ghostty(
                #[trigger] text::lines_of(listing@)[i],
            ),
{
    let lines = split_lines(listing);
    let ghost all = text::texts(lines@);
    let mut i: usize = 0;
    while i < lines.len()
        invariant
            i <= lines@.len(),
            all == text::texts(lines@),
            all == text::lines_of(listing@),
            forall|k: int| 0 <= k < i ==> !is_ghostty(#[trigger] all[k]),
        decreases lines@.len() - i,
    {
        assert(all[i as int] == lines@[i as int]@);
        if is_ghostty_app(lines[i].as_str()) {
            return true;
        }
        i += 1;
    }
    false
}

/// Whether a command is the login program.
pub open spec fn is_login(command: Seq<char>) -> bool {
    text::begins_with(command, "/usr/bin/login "@) || command == "/usr/bin/login"@
}

/// Whether a command is the login program that macOS starts shells through.
pub fn is_login_process(command: &str) -> (found: bool)
    ensures
        found == is_login(command@),
{
    starts_with(command, "/usr/bin/login ") || same_text(command, "/usr/bin/login")
}

/// The first word of a command, or `?` where it has none.
pub open spec fn first_word(command: Seq<char>) -> Seq<char> {
    if text::words(command).len() > 0 {
        text::words(command)[0]
    } else {
        "?"@
    }
}

/// The part of a path behind its last slash.
pub open spec fn last_component(path: Seq<char>) -> Seq<char>
    decreases path.len(),
{
    if path.len() == 0 || path.last() == '/' {
        seq![]
    } else {
        last_component(path.drop_last()).push(path.last())
    }
}

/// Text without the dashes that it begins with.
pub open spec fn without_dashes(s: Seq<char>) -> Seq<char>
    decreases s.len(),
{
    if s.len() > 0 && s[0] == '-' {
        without_dashes(s.skip(1))
    } else {
        s
    }
}

/// The name of the program that a command runs.
pub open spec fn program(command: Seq<char>) -> Seq<char> {
    without_dashes(last_component(first_word(command)))
}

/// The first word of a command, or `?` where it has none.
pub fn executable_path(command: &str) -> (path: String)
    ensures
        path@ == first_word(command@),
{
    let words = split_words(command);
    if words.len() > 0 {
        assert(text::texts(words@)[0] == words@[0]@);
        words[0].clone()
    } else {
        "?".to_owned()
    }
}

/// The name of the program that a command runs, without its directory, its
/// arguments and the dash of a login shell.
pub fn command_name(command: &str) -> (name: String)
    ensures
        name@ == program(command@),
{
    let first = executable_path(command);
    let chars = chars_of(first.as_str());
    let mut from: usize = chars.len();
    assert(chars@.take(from as int) =~= chars@);
    assert(chars@ =~= chars@ + chars@.skip(from as int));
    assert(last_component(chars@) =~= last_component(chars@) + chars@.skip(from as int));
    while from > 0 && chars[from - 1] != '/'
        invariant
            from <= chars@.len(),
            last_component(chars@) == last_component(chars@.take(from as int)) + chars@.skip(
                from as int,
            ),
        decreases from,
    {
        proof {
            let head = chars@.take(from as int);
            assert(head.drop_last() =~= chars@.take(from - 1));
            assert(chars@.skip(from - 1) =~= seq![chars@[from - 1]] + chars@.skip(from as int));
            assert(last_component(chars@) =~= last_component(chars@.take(from - 1)) + chars@.skip(
                from - 1,
            ));
        }
        from -= 1;
    }
    assert(last_component(chars@.take(from as int)) =~= seq![]);
    let ghost component = chars@.skip(from as int);
    assert(last_component(chars@) =~= component);
    while from < chars.len() && chars[from] == '-'
        invariant
            from <= chars@.len(),
            without_dashes(chars@.skip(from as int)) == without_dashes(component),
        decreases chars@.len() - from,
    {
        assert(chars@.skip(from as int).skip(1) =~= chars@.skip(from + 1));
        from += 1;
    }
    assert(chars@.subrange(from as int, chars@.len() as int) =~= chars@.skip(from as int));
    text_between(&chars, from, chars.len())
}

/// Whether a program is an interactive shell.
pub open spec fn is_shell_name(name: Seq<char>) -> bool {
    name == "zsh"@ || name == "bash"@ || name == "fish"@ || name == "sh"@ || name == "nu"@
}

/// Whether a command runs an interactive shell.
pub fn is_shell(command: &str) -> (found: bool)
    ensures
        found == is_shell_name(program(command@)),
{
    let name = command_name(command);
    let name = name.as_str();
    same_text(name, "zsh") || same_text(name, "bash") || same_text(name, "fish") || same_text(
        name,
        "sh",
    ) || same_text(name, "nu")
}

/// The numbers that the parts of a clock reading stand for, where all are numbers.
pub open spec fn clock_fields(parts: Seq<Seq<char>>) -> Option<Seq<u64>>
    decreases parts.len(),
{
    if parts.len() == 0 {
        Some(seq![])
    } else {
        match (clock_fields(parts.drop_last()), number::u64_of(parts.last())) {
            (Some(before), Some(n)) => Some(before.push(n)),
            _ => None,
        }
    }
}

/// The seconds that a clock reading stands for: minutes and seconds, perhaps
/// after hours.
pub open spec fn clock_seconds(clock: Seq<char>) -> Option<int> {
    match clock_fields(text::pieces(clock, ':')) {
        Some(parts) => if parts.len() == 2 {
            Some(parts[0] * 60 + parts[1])
        } else if parts.len() == 3 {
            Some(parts[0] * 3_600 + parts[1] * 60 + parts[2])
        } else {
            None
        },
        None => None,
    }
}

/// The seconds that an elapsed time stands for: a clock reading, perhaps after
/// a number of days and a dash. More than a `u64` holds is no elapsed time.
pub open spec fn elapsed_seconds(value: Seq<char>) -> Option<u64> {
    let at = text::find(value, '-');
    let days = if at < value.len() {
        number::u64_of(value.take(at))
    } else {
        Some(0)
    };
    let clock = if at < value.len() {
        value.skip(at + 1)
    } else {
        value
    };
    match (days, clock_seconds(clock)) {
        (Some(days), Some(seconds)) => if days * 86_400 + seconds <= u64::MAX {
            Some((days * 86_400 + seconds) as u64)
        } else {
            None
        },
        _ => None,
    }
}

fn read_clock_fields(clock: &str) -> (fields: Option<Vec<u64>>)
    ensures
        fields is Some <==> clock_fields(text::pieces(clock@, ':')) is Some,
        fields matches Some(found) ==> Some(found@) == clock_fields(text::pieces(clock@, ':')),
{
    let parts = split(clock, ':');
    let ghost all = text::texts(parts@);
    let mut fields: Vec<u64> = Vec::new();
    let mut i: usize = 0;
    assert(all.take(0) =~= seq![]);
    while i < parts.len()
        invariant
            i <= parts@.len(),
            all == text::texts(parts@),
            all == text::pieces(clock@, ':'),
            clock_fields(all.take(i as int)) == Some(fields@),
        decreases parts@.len() - i,
    {
        proof {
            assert(all.take(i + 1).drop_last() =~= all.take(i as int));
            assert(all.take(i + 1).last() == parts@[i as int]@);
        }
        match parse_u64(parts[i].as_str()) {
            Some(n) => {
                fields.push(n);
            },
            None => {
                proof {
                    assert(clock_fields(all.take(i + 1)) is None);
                    lemma_clock_fields_stay_unread(all, i + 1);
                }
                return None;
            },
        }
        i += 1;
    }
    assert(all.take(all.len() as int) =~= all);
    Some(fields)
}

proof fn lemma_clock_fields_stay_unread(parts: Seq<Seq<char>>, n: int)
    requires
        0 <= n <= parts.len(),
        clock_fields(parts.take(n)) is None,
    ensures
        clock_fields(parts) is None,
    decreases parts.len() - n,
{
    if n < parts.len() {
        assert(parts.take(n + 1).drop_last() =~= parts.take(n));
        lemma_clock_fields_stay_unread(parts, n + 1);
    } else {
        assert(parts.take(n) =~= parts);
    }
}

/// Reads the elapsed time that `ps` gives, such as `3-02:05:30`.
pub fn parse_elapsed(value: &str) -> (seconds: Option<u64>)
    ensures
        seconds == elapsed_seconds(value@),
{
    let chars = chars_of(value);
    let at: usize = find_from(&chars, '-', 0);
    assert(chars@.skip(0) =~= value@);
    let mut days: u64 = 0;
    let clock = if at < chars.len() {
        let head = text_between(&chars, 0, at);
        assert(head@ =~= value@.take(at as int));
        match parse_u64(head.as_str()) {
            Some(n) => {
                days = n;
            },
            None => {
                return None;
            },
        }
        let rest = text_between(&chars, at + 1, chars.len());
        assert(rest@ =~= value@.skip(at + 1));
        rest
    } else {
        value.to_owned()
    };
    let fields = match read_clock_fields(clock.as_str()) {
        Some(fields) => fields,
        None => {
            return None;
        },
    };
    let seconds: u128 = if fields.len() == 2 {
        fields[0] as u128 * 60 + fields[1] as u128
    } else if fields.len() == 3 {
        fields[0] as u128 * 3_600 + fields[1] as u128 * 60 + fields[2] as u128
    } else {
        return None;
    };
    let total: u128 = days as u128 * 86_400 + seconds;
    if total <= u64::MAX as u128 {
        Some(total as u64)
    } else {
        None
    }
}

/// The columns of a row that `ps` prints: the words of the row.
pub open spec fn column(line: Seq<char>, index: int) -> Seq<char> {
    text::words(line)[index]
}

/// The words from one index on, joined by blanks.
pub open spec fn joined(words: Seq<Seq<char>>) -> Seq<char>
    decreases words.len(),
{
    if words.len() == 0 {
        seq![]
    } else if words.len() == 1 {
        words[0]
    } else {
        joined(words.drop_last()) + " "@ + words.last()
    }
}

/// Text with points in place of commas.
pub open spec fn with_points(s: Seq<char>) -> Seq<char> {
    s.map_values(
        |c: char|
            if c == ',' {
                '.'
            } else {
                c
            },
    )
}

/// The text of the processor share in a row of `ps`.
pub open spec fn cpu_text(line: Seq<char>) -> Option<Seq<char>> {
    if text::words(line).len() > 3 {
        Some(with_points(column(line, 3)))
    } else {
        None
    }
}

/// The processor share in a row of `ps`, its decimal sign a point. What number
/// it stands for is the caller's to say.
pub fn cpu_field(line: &str) -> (field: Option<String>)
    ensures
        field is Some <==> cpu_text(line@) is Some,
        field matches Some(found) ==> Some(found@) == cpu_text(line@),
{
    let words = split_words(line);
    if words.len() > 3 {
        assert(text::texts(words@)[3] == words@[3]@);
        let ghost source = words@[3]@;
        let share = words[3].as_str();
        let mut field = String::new();
        for c in it: share.chars()
            invariant
                it.seq() == source,
                field@ == with_points(source.take(it.index())),
        {
            if c == ',' {
                field.push('.');
            } else {
                field.push(c);
            }
            assert(field@ =~= with_points(source.take(it.index() + 1)));
        }
        assert(source.take(source.len() as int) =~= source);
        Some(field)
    } else {
        None
    }
}

/// Whether a row of `ps` lists a process, given whether its processor share is
/// a number: six columns that read as they should, and whatever follows.
pub open spec fn lists_process(line: Seq<char>, has_share: bool) -> bool {
    &&& text::words(line).len() >= 6
    &&& number::i32_of(column(line, 0)) is Some
    &&& number::i32_of(column(line, 1)) is Some
    &&& has_share
    &&& number::u64_of(column(line, 4)) is Some
    &&& elapsed_seconds(column(line, 5)) is Some
}

/// Whether a process is the one that a row of `ps` lists.
pub open spec fn is_listed(line: Seq<char>, cpu: CpuShare, process: Process) -> bool {
    &&& Some(process.pid) == number::i32_of(column(line, 0))
    &&& Some(process.ppid) == number::i32_of(column(line, 1))
    &&& process.tty@ == column(line, 2)
    &&& process.cpu == cpu
    &&& Some(process.rss_kib) == number::u64_of(column(line, 4))
    &&& process.elapsed@ == column(line, 5)
    &&& Some(process.age_seconds) == elapsed_seconds(column(line, 5))
    &&& process.command@ == joined(text::words(line).skip(6))
}

/// Reads a row of `ps`, given the processor share that its `cpu_field` stands
/// for.
pub fn parse_process(line: &str, cpu: Option<CpuShare>) -> (process: Option<Process>)
    ensures
        process is Some <==> lists_process(line@, cpu is Some),
        process matches Some(found) ==> is_listed(line@, cpu.unwrap(), found),
{
    let words = split_words(line);
    let ghost all = text::texts(words@);
    assert(all.len() == words@.len());
    if words.len() < 6 {
        return None;
    }
    proof {
        assert(all[0] == words@[0]@ && all[1] == words@[1]@ && all[2] == words@[2]@);
        assert(all[4] == words@[4]@ && all[5] == words@[5]@);
    }
    let command = join_from(&words, 6);
    match (
        parse_i32(words[0].as_str()),
        parse_i32(words[1].as_str()),
        cpu,
        parse_u64(words[4].as_str()),
        parse_elapsed(words[5].as_str()),
    ) {
        (Some(pid), Some(ppid), Some(cpu), Some(rss_kib), Some(age_seconds)) => Some(
            Process {
                pid,
                ppid,
                tty: words[2].clone(),
                cpu,
                rss_kib,
                elapsed: words[5].clone(),
                age_seconds,
                command,
            },
        ),
        _ => None,
    }
}

/// The words from index `from` on, joined by blanks.
fn join_from(words: &Vec<String>, from: usize) -> (text: String)
    requires
        from <= words@.len(),
    ensures
        text@ == joined(text::texts(words@).skip(from as int)),
{
    let ghost all = text::texts(words@).skip(from as int);
    let mut text = String::new();
    let mut i: usize = from;
    assert(all.take(0) =~= seq![]);
    while i < words.len()
        invariant
            from <= i <= words@.len(),
            all == text::texts(words@).skip(from as int),
            text@ == joined(all.take(i - from)),
        decreases words@.len() - i,
    {
        proof {
            let grown = all.take(i - from + 1);
            assert(grown.drop_last() =~= all.take(i - from));
            assert(grown.last() == words@[i as int]@);
            if i == from {
                assert(text@ =~= seq![]);
                assert(joined(grown) =~= text@ + words@[i as int]@);
            }
        }
        if i > from {
            text.append(" ");
        }
        text.append(words[i].as_str());
        i += 1;
    }
    assert(all.take(all.len() as int) =~= all);
    text
}

/// Whether some processes are those that rows of `ps` list, in the same order.
pub open spec fn are_listed(
    lines: Seq<Seq<char>>,
    shares: Seq<Option<CpuShare>>,
    processes: Seq<Process>,
) -> bool
    decreases lines.len(),
{
    if lines.len() == 0 {
        processes.len() == 0
    } else {
        let share = shares[lines.len() - 1];
        if lists_process(lines.last(), share is Some) {
            &&& processes.len() > 0
            &&& is_listed(lines.last(), share.unwrap(), processes.last())
            &&& are_listed(lines.drop_last(), shares, processes.drop_last())
        } else {
            are_listed(lines.drop_last(), shares, processes)
        }
    }
}

/// Reads what `ps` prints, given the processor share of each of its lines. Lines
/// that list no process are passed over.
pub fn sample_processes(listing: &str, shares: &Vec<Option<CpuShare>>) -> (processes: Vec<Process>)
    requires
        shares@.len() >= text::lines_of(listing@).len(),
    ensures
        are_listed(text::lines_of(listing@), shares@, processes@),
{
    let lines = split_lines(listing);
    let ghost all = text::texts(lines@);
    let mut processes: Vec<Process> = Vec::new();
    let mut i: usize = 0;
    assert(all.take(0) =~= seq![]);
    while i < lines.len()
        invariant
            i <= lines@.len() <= shares@.len(),
            all == text::texts(lines@),
            are_listed(all.take(i as int), shares@, processes@),
        decreases lines@.len() - i,
    {
        proof {
            assert(all.take(i + 1).drop_last() =~= all.take(i as int));
            assert(all.take(i + 1).last() == lines@[i as int]@);
        }
        let share = match &shares[i] {
            Some(share) => Some(share.clone()),
            None => None,
        };
        let ghost before = processes@;
        match parse_process(lines[i].as_str(), share) {
            Some(process) => {
                processes.push(process);
                assert(processes@.drop_last() =~= before);
            },
            None => {},
        }
        i += 1;
    }
    assert(all.take(all.len() as int) =~= all);
    processes
}

/// The program of a command is the last part of its path, whatever directory it is
/// in and whatever arguments follow; a login shell's dash is no part of it.
pub proof fn law_program_name(directory: Seq<char>, name: Seq<char>, arguments: Seq<char>)
    requires
        name.len() > 0,
        name[0] != '-',
        !name.contains('/'),
        forall|i: int| 0 <= i < name.len() ==> !text::is_space(#[trigger] name[i]),
        forall|i: int| 0 <= i < directory.len() ==> !text::is_space(#[trigger] directory[i]),
    ensures
        program(name) == name,
        program(seq!['-'] + name) == name,
        program(directory + seq!['/'] + name) == name,
        program(directory + seq!['/'] + name + seq![' '] + arguments) == name,
        program(name + seq![' '] + arguments) == name,
        program(Seq::empty()) == "?"@,
{
    reveal_strlit("?");
    let path = directory + seq!['/'] + name;
    let dashed = seq!['-'] + name;
    assert forall|i: int| 0 <= i < path.len() implies !text::is_space(#[trigger] path[i]) by {
        if i < directory.len() {
            assert(path[i] == directory[i]);
        } else if i > directory.len() {
            assert(path[i] == name[i - directory.len() - 1]);
        }
    }
    assert forall|i: int| 0 <= i < dashed.len() implies !text::is_space(#[trigger] dashed[i]) by {
        if i > 0 {
            assert(dashed[i] == name[i - 1]);
        }
    }
    text::law_words(name, ' ', arguments);
    text::law_words(path, ' ', arguments);
    text::law_words(dashed, ' ', arguments);
    lemma_last_part(Seq::empty(), name);
    lemma_last_part(directory + seq!['/'], name);
    assert(Seq::<char>::empty() + name =~= name);
    lemma_dash_is_last_part(name);
    assert(dashed.skip(1) =~= name);
    assert(without_dashes(name) == name);
    assert(without_dashes(dashed) == without_dashes(name));
    assert(text::words(path + seq![' '] + arguments)[0] == path);
    assert(text::words(name + seq![' '] + arguments)[0] == name);
    assert(last_component("?"@) =~= "?"@) by {
        lemma_last_part(Seq::empty(), "?"@);
        assert(Seq::<char>::empty() + "?"@ =~= "?"@);
    }
}

proof fn lemma_last_part(front: Seq<char>, name: Seq<char>)
    requires
        front.len() == 0 || front.last() == '/',
        !name.contains('/'),
    ensures
        last_component(front + name) == name,
    decreases name.len(),
{
    let whole = front + name;
    if name.len() == 0 {
        assert(whole =~= front);
        assert(last_component(whole) =~= name);
    } else {
        let shorter = name.drop_last();
        assert forall|i: int| 0 <= i < shorter.len() implies shorter[i] != '/' by {
            assert(shorter[i] == name[i]);
            assert(name.contains(name[i]));
        }
        assert(!shorter.contains('/'));
        lemma_last_part(front, shorter);
        assert(whole.drop_last() =~= front + shorter);
        assert(name.contains(name.last()));
        assert(shorter.push(name.last()) =~= name);
    }
}

proof fn lemma_dash_is_last_part(name: Seq<char>)
    requires
        !name.contains('/'),
    ensures
        last_component(seq!['-'] + name) == seq!['-'] + name,
{
    let dashed = seq!['-'] + name;
    assert forall|i: int| 0 <= i < dashed.len() implies dashed[i] != '/' by {
        if i > 0 {
            assert(dashed[i] == name[i - 1]);
            assert(name.contains(name[i - 1]));
        }
    }
    assert(!dashed.contains('/'));
    lemma_last_part(Seq::empty(), dashed);
    assert(Seq::<char>::empty() + dashed =~= dashed);
}

/// Ghostty is known by its executable, wherever it lies, if it has no arguments.
pub proof fn law_ghostty_is_known(directory: Seq<char>)
    ensures
        is_ghostty("ghostty"@),
        is_ghostty(directory + "/ghostty"@),
        !is_ghostty(directory + "/ghostty --version"@),
        !is_ghostty(directory + "/ghostty-top"@),
{
    reveal_strlit("ghostty");
    reveal_strlit("/ghostty");
    reveal_strlit("/ghostty --version");
    reveal_strlit("/ghostty-top");
    let one = directory + "/ghostty"@;
    assert(one.skip(one.len() - 8) =~= "/ghostty"@);
    assert(one.last() == 'y');
    assert(text::without_trailing_space(one) == one);
    assert("ghostty"@.last() == 'y');
    assert(text::without_trailing_space("ghostty"@) == "ghostty"@);
    let other = directory + "/ghostty --version"@;
    assert(other.last() == 'n');
    assert(text::without_trailing_space(other) == other);
    if text::finishes_with(other, "/ghostty"@) {
        assert(other.skip(other.len() - 8).last() == 'y');
    }
    let third = directory + "/ghostty-top"@;
    assert(third.last() == 'p');
    assert(text::without_trailing_space(third) == third);
    if text::finishes_with(third, "/ghostty"@) {
        assert(third.skip(third.len() - 8).last() == 'y');
    }
}

/// The login program is known by its path, with arguments or without.
pub proof fn law_login_is_known(arguments: Seq<char>)
    ensures
        is_login("/usr/bin/login"@),
        is_login("/usr/bin/login "@ + arguments),
        !is_login("/usr/bin/loginx"@ + arguments),
        !is_login("/bin/zsh"@ + arguments),
{
    lemma_login_with_arguments(arguments);
    lemma_no_login("/usr/bin/loginx"@ + arguments, 14);
    lemma_no_login("/bin/zsh"@ + arguments, 1);
}

proof fn lemma_login_with_arguments(arguments: Seq<char>)
    ensures
        is_login("/usr/bin/login "@ + arguments),
        ("/usr/bin/loginx"@ + arguments)[14] == 'x',
        ("/usr/bin/loginx"@ + arguments).len() > 14,
        ("/bin/zsh"@ + arguments)[1] == 'b',
{
    reveal_strlit("/usr/bin/login ");
    reveal_strlit("/usr/bin/loginx");
    reveal_strlit("/bin/zsh");
    let one = "/usr/bin/login "@ + arguments;
    assert(one.take(15) =~= "/usr/bin/login "@);
}

/// A command is no login where one of its characters is not that of the path.
proof fn lemma_no_login(command: Seq<char>, at: int)
    requires
        at == 1 && command[1] == 'b' || at == 14 && command[14] == 'x' && command.len() > 14,
    ensures
        !is_login(command),
{
    reveal_strlit("/usr/bin/login");
    reveal_strlit("/usr/bin/login ");
    assert("/usr/bin/login "@[1] == 'u' && "/usr/bin/login"@[1] == 'u');
    assert("/usr/bin/login "@[14] == ' ' && "/usr/bin/login"@.len() == 14);
    if text::begins_with(command, "/usr/bin/login "@) {
        assert(command.take(15)[at] == command[at]);
    }
}

/// Minutes and seconds are read as such.
proof fn lemma_short_clock(minutes: nat, seconds: nat)
    requires
        minutes <= u64::MAX,
        seconds <= u64::MAX,
    ensures
        ({
            let short = number::decimal(minutes) + seq![':'] + number::decimal(seconds);
            &&& text::pieces(short, ':') == seq![number::decimal(minutes), number::decimal(seconds)]
            &&& clock_seconds(short) == Some((minutes * 60 + seconds) as int)
            &&& text::find(short, '-') == short.len()
        }),
        clock_seconds(number::decimal(seconds)) is None,
{
    let m = number::decimal(minutes);
    let s = number::decimal(seconds);
    let short = m + seq![':'] + s;
    lemma_count_is_read(minutes);
    lemma_count_is_read(seconds);
    lemma_digits_only(minutes);
    lemma_digits_only(seconds);
    text::law_pieces(s, ':', seq![], 0);
    text::law_pieces(m, ':', s, 0);
    assert(text::pieces(short, ':') =~= seq![m, s]);
    assert(seq![m, s].drop_last() =~= seq![m]);
    assert(seq![m].drop_last() =~= Seq::<Seq<char>>::empty());
    assert(seq![s].drop_last() =~= Seq::<Seq<char>>::empty());
    assert(clock_fields(Seq::<Seq<char>>::empty()) == Some(Seq::<u64>::empty()));
    assert(clock_fields(seq![m]) == Some(Seq::<u64>::empty().push(minutes as u64)));
    assert(clock_fields(seq![s]) == Some(Seq::<u64>::empty().push(seconds as u64)));
    assert(clock_fields(seq![m, s]) == Some(
        Seq::<u64>::empty().push(minutes as u64).push(seconds as u64),
    ));
    lemma_short_clock_has_no_dash(minutes, seconds);
}

proof fn lemma_count_is_read(n: nat)
    requires
        n <= u64::MAX,
    ensures
        number::u64_of(number::decimal(n)) == Some(n as u64),
{
    number::law_numbers_come_back(n, 0);
}

proof fn lemma_short_clock_has_no_dash(minutes: nat, seconds: nat)
    ensures
        ({
            let short = number::decimal(minutes) + seq![':'] + number::decimal(seconds);
            text::find(short, '-') == short.len()
        }),
{
    let m = number::decimal(minutes);
    let s = number::decimal(seconds);
    let short = m + seq![':'] + s;
    lemma_digits_only(minutes);
    lemma_digits_only(seconds);
    assert forall|i: int| 0 <= i < short.len() implies short[i] != '-' by {
        if i < m.len() {
            assert(short[i] == m[i]);
        } else if i > m.len() {
            assert(short[i] == s[i - m.len() - 1]);
        }
    }
    text::lemma_find_is(short, '-', short.len() as int);
}

/// Hours, minutes and seconds are read as such.
proof fn lemma_long_clock(hours: nat, minutes: nat, seconds: nat)
    requires
        hours <= u64::MAX,
        minutes <= u64::MAX,
        seconds <= u64::MAX,
    ensures
        ({
            let long = number::decimal(hours) + seq![':'] + number::decimal(minutes) + seq![':']
                + number::decimal(seconds);
            &&& clock_seconds(long) == Some((hours * 3_600 + minutes * 60 + seconds) as int)
            &&& text::find(long, '-') == long.len()
        }),
{
    let h = number::decimal(hours);
    let m = number::decimal(minutes);
    let s = number::decimal(seconds);
    let short = m + seq![':'] + s;
    let long = h + seq![':'] + m + seq![':'] + s;
    lemma_short_clock(minutes, seconds);
    lemma_count_is_read(hours);
    lemma_count_is_read(minutes);
    lemma_count_is_read(seconds);
    lemma_digits_only(hours);
    text::law_pieces(h, ':', short, 0);
    assert(long =~= h + seq![':'] + short);
    assert(text::pieces(long, ':') =~= seq![h, m, s]);
    assert(seq![h, m, s].drop_last() =~= seq![h, m]);
    assert(seq![h, m].drop_last() =~= seq![h]);
    assert(seq![h].drop_last() =~= Seq::<Seq<char>>::empty());
    assert(clock_fields(Seq::<Seq<char>>::empty()) == Some(Seq::<u64>::empty()));
    assert(clock_fields(seq![h]) == Some(Seq::<u64>::empty().push(hours as u64)));
    assert(clock_fields(seq![h, m]) == Some(
        Seq::<u64>::empty().push(hours as u64).push(minutes as u64),
    ));
    assert(clock_fields(seq![h, m, s]) == Some(
        Seq::<u64>::empty().push(hours as u64).push(minutes as u64).push(seconds as u64),
    ));
    assert forall|i: int| 0 <= i < long.len() implies long[i] != '-' by {
        lemma_clock_has_no_dash(hours, minutes, seconds, i);
    }
    text::lemma_find_is(long, '-', long.len() as int);
}

/// An elapsed time counts its days, hours, minutes and seconds.
pub proof fn law_elapsed_time(days: nat, hours: nat, minutes: nat, seconds: nat)
    requires
        days * 86_400 + hours * 3_600 + minutes * 60 + seconds <= u64::MAX,
    ensures
        elapsed_seconds(
            number::decimal(days) + seq!['-'] + number::decimal(hours) + seq![':']
                + number::decimal(minutes) + seq![':'] + number::decimal(seconds),
        ) == Some((days * 86_400 + hours * 3_600 + minutes * 60 + seconds) as u64),
        elapsed_seconds(
            number::decimal(hours) + seq![':'] + number::decimal(minutes) + seq![':']
                + number::decimal(seconds),
        ) == Some((hours * 3_600 + minutes * 60 + seconds) as u64),
        elapsed_seconds(number::decimal(minutes) + seq![':'] + number::decimal(seconds)) == Some(
            (minutes * 60 + seconds) as u64,
        ),
        elapsed_seconds(number::decimal(seconds)) is None,
{
    let d = number::decimal(days);
    let s = number::decimal(seconds);
    let long = number::decimal(hours) + seq![':'] + number::decimal(minutes) + seq![':']
        + number::decimal(seconds);
    let whole = d + seq!['-'] + number::decimal(hours) + seq![':'] + number::decimal(minutes) + seq![
        ':',
    ] + number::decimal(seconds);
    lemma_short_clock(minutes, seconds);
    lemma_long_clock(hours, minutes, seconds);
    number::law_numbers_come_back(days, 0);
    lemma_digits_only(days);
    lemma_digits_only(seconds);
    text::lemma_find_is(s, '-', s.len() as int);
    assert(whole =~= d + seq!['-'] + long);
    assert forall|i: int| 0 <= i < d.len() implies whole[i] != '-' by {
        assert(whole[i] == d[i]);
    }
    text::lemma_find_is(whole, '-', d.len() as int);
    assert(whole.take(d.len() as int) =~= d);
    assert(whole.skip(d.len() as int + 1) =~= long);
}

proof fn lemma_digits_only(n: nat)
    ensures
        !number::decimal(n).contains(':'),
        !number::decimal(n).contains('-'),
        number::decimal(n).len() > 0,
        forall|i: int|
            0 <= i < number::decimal(n).len() ==> #[trigger] number::decimal(n)[i] != '-',
{
    number::lemma_decimal(n);
}

proof fn lemma_clock_has_no_dash(hours: nat, minutes: nat, seconds: nat, i: int)
    requires
        0 <= i < (number::decimal(hours) + seq![':'] + number::decimal(minutes) + seq![':']
            + number::decimal(seconds)).len(),
    ensures
        (number::decimal(hours) + seq![':'] + number::decimal(minutes) + seq![':']
            + number::decimal(seconds))[i] != '-',
{
    let h = number::decimal(hours);
    let m = number::decimal(minutes);
    let s = number::decimal(seconds);
    lemma_digits_only(hours);
    lemma_digits_only(minutes);
    lemma_digits_only(seconds);
    let whole = h + seq![':'] + m + seq![':'] + s;
    if i < h.len() {
        assert(whole[i] == h[i]);
    } else if h.len() < i < h.len() + 1 + m.len() {
        assert(whole[i] == m[i - h.len() - 1]);
    } else if i > h.len() + 1 + m.len() {
        assert(whole[i] == s[i - h.len() - m.len() - 2]);
    }
}

/// A line of the listing is taken apart by its columns: pid, parent, tty, share of
/// processor time, memory, elapsed time, and the command with its arguments.
pub proof fn law_columns_of_a_process(line: Seq<char>, cpu: CpuShare, process: Process)
    requires
        is_listed(line, cpu, process),
    ensures
        ({
            let words = text::words(line);
            &&& number::i32_of(words[0]) == Some(process.pid)
            &&& number::i32_of(words[1]) == Some(process.ppid)
            &&& process.tty@ == words[2]
            &&& process.cpu == cpu
            &&& number::u64_of(words[4]) == Some(process.rss_kib)
            &&& process.elapsed@ == words[5]
            &&& elapsed_seconds(words[5]) == Some(process.age_seconds)
            &&& words.len() == 7 ==> process.command@ == words[6]
            &&& words.len() == 8 ==> process.command@ == words[6] + " "@ + words[7]
        }),
{
    let words = text::words(line);
    if words.len() == 7 {
        assert(words.skip(6) =~= seq![words[6]]);
    }
    if words.len() == 8 {
        let rest = words.skip(6);
        assert(rest =~= seq![words[6], words[7]]);
        assert(rest.drop_last() =~= seq![words[6]]);
        assert(joined(seq![words[6]]) == words[6]);
    }
}

/// A process is at a terminal unless its tty is written as one or two question
/// marks, or not at all.
pub proof fn law_terminals_are_named(tty: Seq<char>)
    ensures
        tty.len() >= 3 ==> names_tty(tty),
        tty.len() == 1 || tty.len() == 2 ==> (names_tty(tty) <==> exists|i: int|
            0 <= i < tty.len() && #[trigger] tty[i] != '?'),
        tty.len() == 0 ==> !names_tty(tty),
{
    reveal_strlit("?");
    reveal_strlit("??");
    if 0 < tty.len() <= 2 {
        if forall|i: int| 0 <= i < tty.len() ==> #[trigger] tty[i] == '?' {
            if tty.len() == 1 {
                assert(tty =~= "?"@);
            } else {
                assert(tty =~= "??"@);
            }
        } else {
            let i = choose|i: int| 0 <= i < tty.len() && #[trigger] tty[i] != '?';
            assert("?"@[0] == '?' && "??"@[0] == '?' && "??"@[1] == '?');
        }
    }
}

/// The shells are known by name, wherever they lie, as login shells too, and with
/// arguments; any other program of five letters or more is none.
pub proof fn law_shells_are_known(directory: Seq<char>, name: Seq<char>, arguments: Seq<char>)
    requires
        name.len() > 0,
        name[0] != '-',
        !name.contains('/'),
        forall|i: int| 0 <= i < name.len() ==> !text::is_space(#[trigger] name[i]),
        forall|i: int| 0 <= i < directory.len() ==> !text::is_space(#[trigger] directory[i]),
    ensures
        ({
            let known = name == "zsh"@ || name == "bash"@ || name == "fish"@ || name == "sh"@ || name
                == "nu"@;
            &&& is_shell_name(program(seq!['-'] + name)) == known
            &&& is_shell_name(program(directory + seq!['/'] + name)) == known
            &&& is_shell_name(program(directory + seq!['/'] + name + seq![' '] + arguments))
                == known
            &&& name.len() >= 5 ==> !known
        }),
{
    law_program_name(directory, name, arguments);
    reveal_strlit("zsh");
    reveal_strlit("bash");
    reveal_strlit("fish");
    reveal_strlit("sh");
    reveal_strlit("nu");
}

/// A line lists a process where its numbers can be read, and its elapsed time; a
/// line of fewer than six columns lists none.
pub proof fn law_lines_of_processes(
    line: Seq<char>,
    pid: i32,
    ppid: i32,
    rss: u64,
    minutes: nat,
    seconds: nat,
)
    requires
        minutes * 60 + seconds <= u64::MAX,
    ensures
        ({
            let words = text::words(line);
            &&& words.len() < 6 ==> !lists_process(line, true)
            &&& words.len() >= 6 && words[0] == number::signed_decimal(pid as int) && words[1]
                == number::signed_decimal(ppid as int) && words[4] == number::decimal(rss as nat)
                && words[5] == number::decimal(minutes) + seq![':'] + number::decimal(seconds)
                ==> lists_process(line, true)
            &&& words.len() >= 6 && words[0].len() == 0 ==> !lists_process(line, true)
            &&& !lists_process(line, false)
        }),
{
    number::law_numbers_come_back(rss as nat, pid as int);
    number::law_numbers_come_back(rss as nat, ppid as int);
    law_elapsed_time(0, 0, minutes, seconds);
}

} // verus!
