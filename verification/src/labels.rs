//! Names for terminals that a human recognises.
use vstd::prelude::*;
use vstd::string::*;
use crate::lists;
use crate::number;
use crate::number::{parse_i32, write_signed};
use crate::process;
use crate::process::{Process, is_shell};
use crate::terminals::Terminal;
use crate::text;
use crate::text::{chars_of, contains_char, find_from, is_blank, same_text, split, split_lines, strip_prefix, text_between, trim, trim_end};
use crate::text_map::TextMap;
use std::collections::HashMap;

verus! {

broadcast use vstd::std_specs::hash::group_hash_axioms;

/// How long tab names are good for, in nanoseconds.
pub const TAB_LABEL_REFRESH: u64 = 15_000_000_000;

/// What has come of a search for tab names.
pub enum LabelReply {
    /// It is still running.
    Waiting,
    /// It found these names, by tty.
    Found(TextMap<String>),
    /// It ended without an answer.
    Lost,
}

/// Tab names by tty. Finding them takes long, so it is done elsewhere.
pub struct LabelCache {
    pub by_tty: TextMap<String>,
    /// Whether a search for tab names is running.
    pub pending: bool,
    pub next_refresh: Option<u64>,
}

impl Default for LabelCache {
    fn default() -> (cache: Self)
        ensures
            cache.by_tty@ == Map::<Seq<char>, Seq<char>>::empty(),
            !cache.pending,
            cache.next_refresh is None,
    {
        LabelCache { by_tty: TextMap::new(), pending: false, next_refresh: None }
    }
}

/// The name of a terminal: that of its tab, else its tty.
pub open spec fn label_of(labels: Map<Seq<char>, Seq<char>>, tty: Seq<char>) -> Seq<char> {
    if labels.dom().contains(tty) {
        labels[tty]
    } else {
        tty
    }
}

/// Whether it is time to search for tab names.
pub open spec fn is_stale(next_refresh: Option<u64>, now: u64) -> bool {
    match next_refresh {
        Some(next) => now >= next,
        None => true,
    }
}

impl LabelCache {
    /// Takes in what has come of the running search, and tells whether the next
    /// one is to be started. A search that was lost leaves the names as they were.
    pub fn poll(&mut self, now: u64, has_shells: bool, reply: LabelReply) -> (start: bool)
        requires
            now + TAB_LABEL_REFRESH <= u64::MAX,
        ensures
            ({
                let waits = old(self).pending && reply is Waiting;
                let ended = old(self).pending && !(reply is Waiting);
                &&& final(self).by_tty@ == (match reply {
                    LabelReply::Found(labels) if old(self).pending => labels@,
                    _ => old(self).by_tty@,
                })
                &&& final(self).next_refresh == (if ended {
                    Some((now + TAB_LABEL_REFRESH) as u64)
                } else {
                    old(self).next_refresh
                })
                &&& start == (!waits && has_shells && is_stale(final(self).next_refresh, now))
                &&& final(self).pending == (waits || start)
            }),
    {
        if self.pending {
            match reply {
                LabelReply::Waiting => {
                    return false;
                },
                LabelReply::Found(labels) => {
                    self.by_tty = labels;
                },
                LabelReply::Lost => {},
            }
            self.pending = false;
            self.next_refresh = Some(now + TAB_LABEL_REFRESH);
        }
        let stale: bool = match self.next_refresh {
            Some(next) => now >= next,
            None => true,
        };
        if !has_shells || !stale {
            return false;
        }
        self.pending = true;
        true
    }

    /// The name of the terminal at `tty`.
    pub fn label_for(&self, tty: &str) -> (label: String)
        ensures
            label@ == label_of(self.by_tty@, tty@),
    {
        match self.by_tty.get(tty) {
            Some(label) => label.clone(),
            None => tty.to_owned(),
        }
    }
}

/// The pid of the first process that `root` has started and that is chosen.
pub open spec fn first_child(
    processes: Seq<Process>,
    root: i32,
    chosen: spec_fn(Process) -> bool,
) -> Option<i32>
    decreases processes.len(),
{
    if processes.len() == 0 {
        None
    } else if processes[0].ppid == root && chosen(processes[0]) {
        Some(processes[0].pid)
    } else {
        first_child(processes.skip(1), root, chosen)
    }
}

/// The pid of the interactive shell of a terminal: the first shell that its root
/// has started, else the first process, else the root itself.
pub open spec fn shell_of(terminal: Terminal) -> i32 {
    let root = terminal.root_pid;
    let processes = terminal.processes@;
    match first_child(
        processes,
        root,
        |process: Process| process::is_shell_name(process::program(process.command@)),
    ) {
        Some(pid) => pid,
        None => match first_child(processes, root, |process: Process| true) {
            Some(pid) => pid,
            None => root,
        },
    }
}

fn find_child(processes: &Vec<Process>, root: i32, only_shells: bool) -> (found: Option<i32>)
    ensures
        only_shells ==> found == first_child(
            processes@,
            root,
            |process: Process| process::is_shell_name(process::program(process.command@)),
        ),
        !only_shells ==> found == first_child(processes@, root, |process: Process| true),
{
    let ghost chosen = if only_shells {
        |process: Process| process::is_shell_name(process::program(process.command@))
    } else {
        |process: Process| true
    };
    let mut i: usize = 0;
    assert(processes@.skip(0) =~= processes@);
    while i < processes.len()
        invariant
            i <= processes@.len(),
            only_shells ==> chosen == (|process: Process|
                process::is_shell_name(process::program(process.command@))),
            !only_shells ==> chosen == (|process: Process| true),
            first_child(processes@, root, chosen) == first_child(
                processes@.skip(i as int),
                root,
                chosen,
            ),
        decreases processes@.len() - i,
    {
        assert(processes@.skip(i as int).skip(1) =~= processes@.skip(i + 1));
        if processes[i].ppid == root && (!only_shells || is_shell(processes[i].command.as_str())) {
            return Some(processes[i].pid);
        }
        i += 1;
    }
    None
}

/// The interactive shell of a terminal, whose working directory is the one that
/// Ghostty reports for the matching surface.
pub fn shell_pid(terminal: &Terminal) -> (pid: i32)
    ensures
        pid == shell_of(*terminal),
{
    match find_child(&terminal.processes, terminal.root_pid, true) {
        Some(pid) => pid,
        None => match find_child(&terminal.processes, terminal.root_pid, false) {
            Some(pid) => pid,
            None => terminal.root_pid,
        },
    }
}

/// A tab name without the user and host that shells put in front of the path. A
/// name that is not of that form stays as it is.
pub open spec fn tab_name(name: Seq<char>) -> Seq<char> {
    let at = text::find(name, ':');
    if at < name.len() && name.take(at).contains('@') && text::trimmed(name.skip(at + 1)).len() > 0 {
        text::trimmed(name.skip(at + 1))
    } else {
        name
    }
}

/// Reduces a generated title such as `user@host:~/path` to its path. Anything
/// the user named themselves is kept verbatim.
pub fn clean_tab_name(name: &str) -> (label: String)
    ensures
        label@ == tab_name(name@),
{
    let chars = chars_of(name);
    let at: usize = find_from(&chars, ':', 0);
    assert(chars@.skip(0) =~= name@);
    if at < chars.len() {
        let owner = text_between(&chars, 0, at);
        let path = text_between(&chars, at + 1, chars.len());
        assert(owner@ =~= name@.take(at as int));
        assert(path@ =~= name@.skip(at + 1));
        if contains_char(owner.as_str(), '@') && !is_blank(path.as_str()) {
            return trim(path.as_str());
        }
    }
    name.to_owned()
}

/// A path with `~` for the home directory.
pub open spec fn short_path(path: Seq<char>, home: Option<Seq<char>>) -> Seq<char> {
    match home {
        None => path,
        Some(home) => if !text::begins_with(path, home) {
            path
        } else {
            let rest = path.skip(home.len() as int);
            if rest.len() == 0 {
                "~"@
            } else if rest[0] == '/' {
                "~"@ + rest
            } else {
                path
            }
        },
    }
}

/// The text in an optional string.
pub open spec fn text_in(s: Option<&str>) -> Option<Seq<char>> {
    match s {
        Some(s) => Some(s@),
        None => None,
    }
}

/// A path with `~` for the home directory, where that is known.
pub fn shorten_path(path: &str, home: Option<&str>) -> (short: String)
    ensures
        short@ == short_path(path@, text_in(home)),
{
    match home {
        None => path.to_owned(),
        Some(home) => match strip_prefix(path, home) {
            None => path.to_owned(),
            Some(rest) => {
                if rest.as_str().is_empty() {
                    "~".to_owned()
                } else if rest.as_str().get_char(0) == '/' {
                    let mut short = "~".to_owned();
                    short.append(rest.as_str());
                    short
                } else {
                    path.to_owned()
                }
            },
        },
    }
}

/// Pairs of texts as plain values.
pub open spec fn pairs_of(list: Seq<(String, String)>) -> Seq<(Seq<char>, Seq<char>)> {
    list.map_values(|pair: (String, String)| (pair.0@, pair.1@))
}

/// The records that have two fields, as pairs.
pub open spec fn tab_pairs(records: Seq<Seq<char>>) -> Seq<(Seq<char>, Seq<char>)>
    decreases records.len(),
{
    if records.len() == 0 {
        seq![]
    } else {
        let before = tab_pairs(records.drop_last());
        let record = records.last();
        let at = text::find(record, '\u{1f}');
        if at < record.len() {
            before.push((record.take(at), record.skip(at + 1)))
        } else {
            before
        }
    }
}

/// Reads the tab names and working directories that Ghostty has told of its
/// surfaces. Records without both are passed over.
pub fn query_tab_names(reply: &str) -> (tabs: Vec<(String, String)>)
    ensures
        pairs_of(tabs@) == tab_pairs(
            text::pieces(text::without_trailing_space(reply@), '\u{1e}'),
        ),
{
    let body = trim_end(reply);
    let records = split(body.as_str(), '\u{1e}');
    let ghost all = text::texts(records@);
    let mut tabs: Vec<(String, String)> = Vec::new();
    let mut i: usize = 0;
    assert(all.take(0) =~= seq![]);
    while i < records.len()
        invariant
            i <= records@.len(),
            all == text::texts(records@),
            pairs_of(tabs@) == tab_pairs(all.take(i as int)),
        decreases records@.len() - i,
    {
        let chars = chars_of(records[i].as_str());
        let at: usize = find_from(&chars, '\u{1f}', 0);
        let ghost before = pairs_of(tabs@);
        proof {
            assert(all.take(i + 1).drop_last() =~= all.take(i as int));
            assert(all.take(i + 1).last() == records@[i as int]@);
            assert(chars@.skip(0) =~= records@[i as int]@);
        }
        if at < chars.len() {
            let name = text_between(&chars, 0, at);
            let directory = text_between(&chars, at + 1, chars.len());
            assert(name@ =~= chars@.take(at as int));
            assert(directory@ =~= chars@.skip(at + 1));
            tabs.push((name, directory));
            assert(pairs_of(tabs@) =~= before.push((name@, directory@)));
        }
        i += 1;
    }
    assert(all.take(all.len() as int) =~= all);
    tabs
}

/// Which surfaces work in a directory.
pub open spec fn works_in(directory: Seq<char>) -> spec_fn((Seq<char>, Seq<char>)) -> bool {
    |tab: (Seq<char>, Seq<char>)| tab.1 == directory
}

/// The surfaces that work in a directory.
pub open spec fn surfaces_in(
    tabs: Seq<(Seq<char>, Seq<char>)>,
    directory: Seq<char>,
) -> Seq<(Seq<char>, Seq<char>)> {
    tabs.filter(works_in(directory))
}

/// The label of a terminal that works in a directory: the name of the tab there,
/// where just one surface works in it and has a name, and else the directory.
pub open spec fn directory_label(
    tabs: Seq<(Seq<char>, Seq<char>)>,
    directory: Seq<char>,
    home: Option<Seq<char>>,
) -> Seq<char> {
    let found = surfaces_in(tabs, directory);
    if found.len() == 1 && text::trimmed(found[0].0).len() > 0 {
        tab_name(text::trimmed(found[0].0))
    } else {
        short_path(directory, home)
    }
}

/// A tab name is used only where one surface owns the directory.
pub proof fn law_shared_directory_is_shown(
    tabs: Seq<(Seq<char>, Seq<char>)>,
    directory: Seq<char>,
    home: Option<Seq<char>>,
)
    requires
        surfaces_in(tabs, directory).len() != 1,
    ensures
        directory_label(tabs, directory, home) == short_path(directory, home),
{
}

/// The label of a terminal that works in a directory. With several surfaces in
/// it nothing tells them apart, and the directory is shown rather than a guess.
pub fn label_in(tabs: &Vec<(String, String)>, directory: &str, home: Option<&str>) -> (label: String)
    ensures
        label@ == directory_label(pairs_of(tabs@), directory@, text_in(home)),
{
    let ghost all = pairs_of(tabs@);
    let ghost chosen = works_in(directory@);
    let mut count: usize = 0;
    let mut last: usize = 0;
    let mut i: usize = 0;
    proof {
        lists::lemma_filter_none(all, chosen);
    }
    while i < tabs.len()
        invariant
            i <= tabs@.len(),
            all == pairs_of(tabs@),
            chosen == works_in(directory@),
            count <= i,
            count == all.take(i as int).filter(chosen).len(),
            count > 0 ==> last < tabs@.len() && all[last as int] == all.take(i as int).filter(
                chosen,
            ).last(),
        decreases tabs@.len() - i,
    {
        proof {
            lists::lemma_filter_next(all, i as int, chosen);
            assert(all[i as int] == (tabs@[i as int].0@, tabs@[i as int].1@));
        }
        if same_text(tabs[i].1.as_str(), directory) {
            count += 1;
            last = i;
        }
        i += 1;
    }
    proof {
        lists::lemma_filter_none(all, chosen);
    }
    if count == 1 {
        let only = trim(tabs[last].0.as_str());
        if !only.as_str().is_empty() {
            return clean_tab_name(only.as_str());
        }
    }
    shorten_path(directory, home)
}

/// Texts by pid as plain values.
pub open spec fn texts_by_pid(map: Map<i32, String>) -> Map<i32, Seq<char>> {
    map.map_values(|text: String| text@)
}

/// The labels of some terminals, given the working directories of their shells.
/// A terminal whose directory is not known has none.
pub open spec fn labels_for(
    shells: Seq<(Seq<char>, i32)>,
    directories: Map<i32, Seq<char>>,
    tabs: Seq<(Seq<char>, Seq<char>)>,
    home: Option<Seq<char>>,
) -> Map<Seq<char>, Seq<char>>
    decreases shells.len(),
{
    if shells.len() == 0 {
        Map::empty()
    } else {
        let before = labels_for(shells.drop_last(), directories, tabs, home);
        let (tty, pid) = shells.last();
        if directories.dom().contains(pid) && directory_label(tabs, directories[pid], home).len()
            > 0 {
            before.insert(tty, directory_label(tabs, directories[pid], home))
        } else {
            before
        }
    }
}

/// The ttys and shell pids as plain values.
pub open spec fn shells_of(shells: Seq<(String, i32)>) -> Seq<(Seq<char>, i32)> {
    shells.map_values(|shell: (String, i32)| (shell.0@, shell.1))
}

/// Resolves each terminal's tty to a name a human recognises. Ghostty does not
/// tell the tty of a surface, so surfaces are matched by working directory.
pub fn resolve_tab_labels(
    shells: &Vec<(String, i32)>,
    directories: &HashMap<i32, String>,
    tabs: &Vec<(String, String)>,
    home: Option<&str>,
) -> (labels: TextMap<String>)
    ensures
        labels@ == labels_for(
            shells_of(shells@),
            texts_by_pid(directories@),
            pairs_of(tabs@),
            text_in(home),
        ),
{
    let ghost all = shells_of(shells@);
    let mut labels: TextMap<String> = TextMap::new();
    let mut i: usize = 0;
    assert(all.take(0) =~= seq![]);
    while i < shells.len()
        invariant
            i <= shells@.len(),
            all == shells_of(shells@),
            labels@ == labels_for(
                all.take(i as int),
                texts_by_pid(directories@),
                pairs_of(tabs@),
                text_in(home),
            ),
        decreases shells@.len() - i,
    {
        proof {
            assert(all.take(i + 1).drop_last() =~= all.take(i as int));
            assert(all.take(i + 1).last() == (shells@[i as int].0@, shells@[i as int].1));
        }
        match directories.get(&shells[i].1) {
            Some(directory) => {
                let label = label_in(tabs, directory.as_str(), home);
                if !label.as_str().is_empty() {
                    labels.insert(shells[i].0.clone(), label);
                }
            },
            None => {},
        }
        i += 1;
    }
    assert(all.take(all.len() as int) =~= all);
    labels
}

/// What the lines of `lsof -Fpn` tell: the pid that the next paths belong to,
/// and the directory of each pid so far. A line that begins with `p` names a
/// pid, one that begins with `n` a path.
pub open spec fn directories_in(lines: Seq<Seq<char>>) -> (Option<i32>, Map<i32, Seq<char>>)
    decreases lines.len(),
{
    if lines.len() == 0 {
        (None, Map::empty())
    } else {
        let (current, found) = directories_in(lines.drop_last());
        let line = lines.last();
        if line.len() > 0 && line[0] == 'p' {
            (number::i32_of(line.skip(1)), found)
        } else if line.len() > 0 && line[0] == 'n' {
            match current {
                Some(pid) => (current, found.insert(pid, line.skip(1))),
                None => (current, found),
            }
        } else {
            (current, found)
        }
    }
}

/// Reads the working directories that `lsof -Fpn` prints.
pub fn shell_working_directories(listing: &str) -> (directories: HashMap<i32, String>)
    ensures
        texts_by_pid(directories@) == directories_in(text::lines_of(listing@)).1,
{
    let lines = split_lines(listing);
    let ghost all = text::texts(lines@);
    let mut directories: HashMap<i32, String> = HashMap::new();
    let mut current: Option<i32> = None;
    let mut i: usize = 0;
    assert(all.take(0) =~= seq![]);
    assert(texts_by_pid(directories@) =~= Map::empty());
    proof {
        reveal_strlit("p");
        reveal_strlit("n");
    }
    while i < lines.len()
        invariant
            i <= lines@.len(),
            all == text::texts(lines@),
            "p"@ == seq!['p'],
            "n"@ == seq!['n'],
            current == directories_in(all.take(i as int)).0,
            texts_by_pid(directories@) == directories_in(all.take(i as int)).1,
        decreases lines@.len() - i,
    {
        let ghost line = lines@[i as int]@;
        proof {
            assert(all.take(i + 1).drop_last() =~= all.take(i as int));
            assert(all.take(i + 1).last() == line);
            if line.len() > 0 {
                assert(line.take(1) =~= seq![line[0]]);
                assert(seq![line[0]][0] == line[0]);
                assert(seq!['p'][0] == 'p' && seq!['n'][0] == 'n');
            }
        }
        let ghost before = directories@;
        match strip_prefix(lines[i].as_str(), "p") {
            Some(pid) => {
                current = parse_i32(pid.as_str());
            },
            None => match strip_prefix(lines[i].as_str(), "n") {
                Some(path) => {
                    match current {
                        Some(pid) => {
                            directories.insert(pid, path);
                            assert(texts_by_pid(directories@) =~= texts_by_pid(before).insert(
                                pid,
                                path@,
                            ));
                        },
                        None => {},
                    }
                },
                None => {},
            },
        }
        i += 1;
    }
    assert(all.take(all.len() as int) =~= all);
    directories
}

/// Some pids, separated by commas.
pub open spec fn listed_pids(pids: Seq<i32>) -> Seq<char>
    decreases pids.len(),
{
    if pids.len() == 0 {
        seq![]
    } else if pids.len() == 1 {
        number::signed_decimal(pids[0] as int)
    } else {
        listed_pids(pids.drop_last()) + ","@ + number::signed_decimal(pids.last() as int)
    }
}

/// Writes some pids for `lsof`, separated by commas.
pub fn pid_list(pids: &Vec<i32>) -> (list: String)
    ensures
        list@ == listed_pids(pids@),
{
    let mut list = String::new();
    let mut i: usize = 0;
    assert(pids@.take(0) =~= seq![]);
    while i < pids.len()
        invariant
            i <= pids@.len(),
            list@ == listed_pids(pids@.take(i as int)),
        decreases pids@.len() - i,
    {
        proof {
            let grown = pids@.take(i + 1);
            assert(grown.drop_last() =~= pids@.take(i as int));
            if i == 0 {
                assert(list@ =~= seq![]);
                assert(listed_pids(grown) =~= list@ + number::signed_decimal(pids@[0] as int));
            }
        }
        if i > 0 {
            list.append(",");
        }
        list.append(write_signed(pids[i] as i64).as_str());
        i += 1;
    }
    assert(pids@.take(pids@.len() as int) =~= pids@);
    list
}

/// A title that a shell made, with a user and a host in front of the path, is
/// reduced to the path; any other title stays as it is.
pub proof fn law_titles(owner: Seq<char>, path: Seq<char>, name: Seq<char>)
    requires
        !owner.contains(':'),
    ensures
        owner.contains('@') && text::trimmed(path).len() > 0 ==> tab_name(owner + seq![':'] + path)
            == text::trimmed(path),
        !owner.contains('@') || text::trimmed(path).len() == 0 ==> tab_name(
            owner + seq![':'] + path,
        ) == owner + seq![':'] + path,
        !name.contains(':') ==> tab_name(name) == name,
{
    let whole = owner + seq![':'] + path;
    assert forall|i: int| 0 <= i < owner.len() implies whole[i] != ':' by {
        assert(whole[i] == owner[i]);
        assert(owner.contains(owner[i]));
    }
    text::lemma_find_is(whole, ':', owner.len() as int);
    assert(whole.take(owner.len() as int) =~= owner);
    assert(whole.skip(owner.len() as int + 1) =~= path);
    text::lemma_find(name, ':');
}

/// A directory at or below the home directory is written from `~` on; any other
/// one in full, even where its name begins like the home directory.
pub proof fn law_home_is_shortened(home: Seq<char>, rest: Seq<char>, path: Seq<char>)
    ensures
        short_path(home, Some(home)) == "~"@,
        short_path(home + seq!['/'] + rest, Some(home)) == "~/"@ + rest,
        rest.len() > 0 && rest[0] != '/' ==> short_path(home + rest, Some(home)) == home + rest,
        !text::begins_with(path, home) ==> short_path(path, Some(home)) == path,
        short_path(path, None) == path,
{
    reveal_strlit("~");
    reveal_strlit("~/");
    let below = home + seq!['/'] + rest;
    assert(home.take(home.len() as int) =~= home);
    assert(below.take(home.len() as int) =~= home);
    assert(below.skip(home.len() as int) =~= seq!['/'] + rest);
    assert("~"@ + (seq!['/'] + rest) =~= "~/"@ + rest);
    let beside = home + rest;
    assert(beside.take(home.len() as int) =~= home);
    assert(beside.skip(home.len() as int) =~= rest);
}

/// Where one surface works in a directory and has a name, that is the label of the
/// terminal there; without a name it is the directory.
pub proof fn law_a_surface_of_its_own_names_the_terminal(
    tabs: Seq<(Seq<char>, Seq<char>)>,
    k: int,
    home: Option<Seq<char>>,
)
    requires
        0 <= k < tabs.len(),
        forall|i: int| 0 <= i < tabs.len() && i != k ==> (#[trigger] tabs[i]).1 != tabs[k].1,
    ensures
        text::trimmed(tabs[k].0).len() > 0 ==> directory_label(tabs, tabs[k].1, home) == tab_name(
            text::trimmed(tabs[k].0),
        ),
        text::trimmed(tabs[k].0).len() == 0 ==> directory_label(tabs, tabs[k].1, home)
            == short_path(tabs[k].1, home),
{
    let directory = tabs[k].1;
    lemma_one_surface(tabs, k, tabs.len() as int, directory);
    assert(tabs.take(tabs.len() as int) =~= tabs);
}

proof fn lemma_one_surface(
    tabs: Seq<(Seq<char>, Seq<char>)>,
    k: int,
    n: int,
    directory: Seq<char>,
)
    requires
        0 <= k < tabs.len(),
        0 <= n <= tabs.len(),
        directory == tabs[k].1,
        forall|i: int| 0 <= i < tabs.len() && i != k ==> (#[trigger] tabs[i]).1 != tabs[k].1,
    ensures
        surfaces_in(tabs.take(n), directory) == (if k < n {
            seq![tabs[k]]
        } else {
            seq![]
        }),
    decreases n,
{
    let chosen = works_in(directory);
    lists::lemma_filter_none(tabs, chosen);
    if n > 0 {
        lemma_one_surface(tabs, k, n - 1, directory);
        lists::lemma_filter_next(tabs, n - 1, chosen);
        let before = surfaces_in(tabs.take(n - 1), directory);
        if n - 1 == k {
            assert(surfaces_in(tabs.take(n), directory) =~= seq![tabs[k]]);
        } else {
            assert(tabs[n - 1].1 != directory);
            assert(surfaces_in(tabs.take(n), directory) =~= before);
        }
    }
}

/// Two surfaces in one directory cannot be told apart: the directory is shown.
pub proof fn law_two_surfaces_show_the_directory(
    tabs: Seq<(Seq<char>, Seq<char>)>,
    i: int,
    j: int,
    home: Option<Seq<char>>,
)
    requires
        0 <= i < j < tabs.len(),
        tabs[i].1 == tabs[j].1,
    ensures
        directory_label(tabs, tabs[i].1, home) == short_path(tabs[i].1, home),
{
    let directory = tabs[i].1;
    let chosen = works_in(directory);
    assert(tabs =~= tabs.take(j) + tabs.skip(j));
    Seq::filter_distributes_over_add(tabs.take(j), tabs.skip(j), chosen);
    lists::lemma_filter_members(tabs.take(j), chosen, tabs[i]);
    assert(tabs.take(j)[i] == tabs[i]);
    lists::lemma_filter_members(tabs.skip(j), chosen, tabs[j]);
    assert(tabs.skip(j)[0] == tabs[j]);
    assert(surfaces_in(tabs, directory).len() >= 2);
}

/// Each terminal is labelled by the directory of its own shell, where that is
/// known; later terminals do not change it.
pub proof fn law_labels_go_by_the_shell(
    shells: Seq<(Seq<char>, i32)>,
    directories: Map<i32, Seq<char>>,
    tabs: Seq<(Seq<char>, Seq<char>)>,
    home: Option<Seq<char>>,
    k: int,
)
    requires
        0 <= k < shells.len(),
        forall|i: int| 0 <= i < shells.len() && i != k ==> (#[trigger] shells[i]).0 != shells[k].0,
    ensures
        ({
            let labels = labels_for(shells, directories, tabs, home);
            let (tty, pid) = shells[k];
            let label = directory_label(tabs, directories[pid], home);
            &&& labels.dom().contains(tty) <==> directories.dom().contains(pid) && label.len() > 0
            &&& labels.dom().contains(tty) ==> labels[tty] == label
        }),
{
    lemma_labels(shells, directories, tabs, home, k, shells.len() as int);
    assert(shells.take(shells.len() as int) =~= shells);
}

proof fn lemma_labels(
    shells: Seq<(Seq<char>, i32)>,
    directories: Map<i32, Seq<char>>,
    tabs: Seq<(Seq<char>, Seq<char>)>,
    home: Option<Seq<char>>,
    k: int,
    n: int,
)
    requires
        0 <= k < shells.len(),
        0 <= n <= shells.len(),
        forall|i: int| 0 <= i < shells.len() && i != k ==> (#[trigger] shells[i]).0 != shells[k].0,
    ensures
        ({
            let labels = labels_for(shells.take(n), directories, tabs, home);
            let (tty, pid) = shells[k];
            let label = directory_label(tabs, directories[pid], home);
            &&& labels.dom().contains(tty) <==> k < n && directories.dom().contains(pid)
                && label.len() > 0
            &&& labels.dom().contains(tty) ==> labels[tty] == label
        }),
    decreases n,
{
    if n > 0 {
        lemma_labels(shells, directories, tabs, home, k, n - 1);
        assert(shells.take(n).drop_last() =~= shells.take(n - 1));
        assert(shells.take(n).last() == shells[n - 1]);
    }
}

/// The name of a terminal is the label found for its tty, and the tty where none
/// was found.
pub proof fn law_names(labels: Map<Seq<char>, Seq<char>>, tty: Seq<char>, label: Seq<char>)
    ensures
        label_of(labels.insert(tty, label), tty) == label,
        label_of(labels.remove(tty), tty) == tty,
{
}

/// In a listing of open files a process is followed by its working directory.
pub proof fn law_directories_follow_their_process(
    lines: Seq<Seq<char>>,
    pid: i32,
    path: Seq<char>,
)
    ensures
        directories_in(
            lines.push(seq!['p'] + number::signed_decimal(pid as int)).push(seq!['n'] + path),
        ).1 == directories_in(lines).1.insert(pid, path),
        directories_in(Seq::empty()).1 == Map::<i32, Seq<char>>::empty(),
{
    let first = seq!['p'] + number::signed_decimal(pid as int);
    let second = seq!['n'] + path;
    let some = lines.push(first);
    let all = some.push(second);
    number::law_numbers_come_back(0, pid as int);
    assert(first.skip(1) =~= number::signed_decimal(pid as int));
    assert(second.skip(1) =~= path);
    assert(some.drop_last() =~= lines);
    assert(all.drop_last() =~= some);
    assert(some.last() == first && all.last() == second);
    assert(directories_in(some) == (Some(pid), directories_in(lines).1));
}

/// A record of a surface is the name of its tab and its working directory.
pub proof fn law_surface_records(
    records: Seq<Seq<char>>,
    name: Seq<char>,
    directory: Seq<char>,
    other: Seq<char>,
)
    requires
        !name.contains('\u{1f}'),
        !other.contains('\u{1f}'),
    ensures
        tab_pairs(records.push(name + seq!['\u{1f}'] + directory)) == tab_pairs(records).push(
            (name, directory),
        ),
        tab_pairs(records.push(other)) == tab_pairs(records),
        tab_pairs(Seq::empty()) == Seq::<(Seq<char>, Seq<char>)>::empty(),
{
    let record = name + seq!['\u{1f}'] + directory;
    assert forall|i: int| 0 <= i < name.len() implies record[i] != '\u{1f}' by {
        assert(record[i] == name[i]);
        assert(name.contains(name[i]));
    }
    text::lemma_find_is(record, '\u{1f}', name.len() as int);
    assert(record.take(name.len() as int) =~= name);
    assert(record.skip(name.len() as int + 1) =~= directory);
    assert(records.push(record).drop_last() =~= records);
    assert(records.push(other).drop_last() =~= records);
    text::lemma_find(other, '\u{1f}');
}

/// The shell of a terminal is a child of its root: the first that is a shell, else
/// the first there is; without children it is the root.
pub proof fn law_shell_of_a_terminal(terminal: Terminal, k: int)
    requires
        0 <= k < terminal.processes@.len(),
        terminal.processes@[k].ppid == terminal.root_pid,
    ensures
        process::is_shell_name(process::program(terminal.processes@[k].command@)) && (forall|i: int|
            0 <= i < k && (#[trigger] terminal.processes@[i]).ppid == terminal.root_pid
                ==> !process::is_shell_name(process::program(terminal.processes@[i].command@)))
            ==> shell_of(terminal) == terminal.processes@[k].pid,
        (forall|i: int| 0 <= i < k ==> (#[trigger] terminal.processes@[i]).ppid != terminal.root_pid)
            && (forall|i: int|
            0 <= i < terminal.processes@.len() && (#[trigger] terminal.processes@[i]).ppid
                == terminal.root_pid ==> !process::is_shell_name(
                process::program(terminal.processes@[i].command@),
            )) ==> shell_of(terminal) == terminal.processes@[k].pid,
{
    let shell = |process: Process| process::is_shell_name(process::program(process.command@));
    let any = |process: Process| true;
    let list = terminal.processes@;
    let root = terminal.root_pid;
    if shell(list[k]) && (forall|i: int|
        0 <= i < k && (#[trigger] list[i]).ppid == root ==> !shell(list[i])) {
        lemma_first_child(list, root, shell, k);
    }
    if (forall|i: int| 0 <= i < k ==> (#[trigger] list[i]).ppid != root) && (forall|i: int|
        0 <= i < list.len() && (#[trigger] list[i]).ppid == root ==> !shell(list[i])) {
        lemma_no_child(list, root, shell);
        lemma_first_child(list, root, any, k);
    }
}

proof fn lemma_first_child(
    processes: Seq<Process>,
    root: i32,
    chosen: spec_fn(Process) -> bool,
    k: int,
)
    requires
        0 <= k < processes.len(),
        processes[k].ppid == root,
        chosen(processes[k]),
        forall|i: int|
            0 <= i < k && (#[trigger] processes[i]).ppid == root ==> !chosen(processes[i]),
    ensures
        first_child(processes, root, chosen) == Some(processes[k].pid),
    decreases k,
{
    if k > 0 {
        let rest = processes.skip(1);
        assert forall|i: int|
            0 <= i < k - 1 && (#[trigger] rest[i]).ppid == root implies !chosen(rest[i]) by {
            assert(rest[i] == processes[i + 1]);
        }
        assert(!(processes[0].ppid == root && chosen(processes[0])));
        lemma_first_child(rest, root, chosen, k - 1);
    }
}

proof fn lemma_no_child(processes: Seq<Process>, root: i32, chosen: spec_fn(Process) -> bool)
    requires
        forall|i: int|
            0 <= i < processes.len() && (#[trigger] processes[i]).ppid == root ==> !chosen(
                processes[i],
            ),
    ensures
        first_child(processes, root, chosen) is None,
    decreases processes.len(),
{
    if processes.len() > 0 {
        let rest = processes.skip(1);
        assert forall|i: int|
            0 <= i < rest.len() && (#[trigger] rest[i]).ppid == root implies !chosen(rest[i]) by {
            assert(rest[i] == processes[i + 1]);
        }
        assert(!(processes[0].ppid == root && chosen(processes[0])));
        lemma_no_child(rest, root, chosen);
    }
}

/// A terminal whose processes are none of its root's children has no shell but the
/// root.
pub proof fn law_without_children_the_root_is_the_shell(terminal: Terminal)
    requires
        forall|i: int|
            0 <= i < terminal.processes@.len() ==> (#[trigger] terminal.processes@[i]).ppid
                != terminal.root_pid,
    ensures
        shell_of(terminal) == terminal.root_pid,
{
    let shell = |process: Process| process::is_shell_name(process::program(process.command@));
    lemma_no_child(terminal.processes@, terminal.root_pid, shell);
    lemma_no_child(terminal.processes@, terminal.root_pid, |process: Process| true);
}

/// Labels that were found are looked for again fifteen seconds later, and not
/// before; where none were ever looked for, at once.
pub proof fn law_labels_are_renewed(found: u64, now: u64)
    requires
        found + TAB_LABEL_REFRESH <= u64::MAX,
    ensures
        is_stale(Some((found + TAB_LABEL_REFRESH) as u64), now) <==> now - found >= 15_000_000_000,
        is_stale(None, now),
{
}

} // verus!
