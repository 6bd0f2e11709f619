use ghostty_top::journal::{
    append_process_history, append_resource_history, append_tab_inventory, append_tracker_event,
    open_history_file, process_history_row, unix_timestamp, TAB_HISTORY_HEADER,
};
use ghostty_top::labels::{
    clean_tab_name, label_in, pid_list, query_tab_names, resolve_tab_labels, shell_pid,
    shell_working_directories, shorten_path, LabelCache, LabelReply, TAB_LABEL_REFRESH,
};
use ghostty_top::presence::{
    away_reason, credited_time, hid_idle_time, ioreg_value, lid_is_closed, Away, MAX_IDLE,
    USAGE_POLL_INTERVAL,
};
use ghostty_top::process::{CpuShare, Platform, Process};
use ghostty_top::tabs::{
    parse_tab_inventory, query_focused_tab, query_step, query_tab_inventory, same_inventory,
    QueryProgress, QueryStep, USAGE_SAMPLE_TIMEOUT,
};
use ghostty_top::terminals::Terminal;
use ghostty_top::text_map::TextMap;
use ghostty_top::tracker::{FocusReply, FocusUpdate, InventoryReply, UsageTracker};
use ghostty_top::usage::FocusedTab;
use std::collections::HashMap;

const SECOND: u64 = 1_000_000_000;

fn p(pid: i32, ppid: i32, tty: &str, share: &str, rss: u64, command: &str) -> Process {
    Process {
        pid,
        ppid,
        tty: tty.into(),
        cpu: CpuShare {
            rank: 0,
            text: share.into(),
        },
        rss_kib: rss,
        elapsed: "01:00".into(),
        age_seconds: 60,
        command: command.into(),
    }
}

#[test]
fn sleep_and_stalls_are_not_counted_as_focused_time() {
    let start = 1_000 * SECOND;
    let wall = 5_000 * SECOND as i128;
    let step = 5 * SECOND;
    assert_eq!(
        credited_time((start, wall), (start + step, wall + step as i128)),
        Some(step)
    );

    // Both clocks stalled together: a suspended process, not real use.
    let gap = 3_600 * SECOND;
    assert_eq!(
        credited_time((start, wall), (start + gap, wall + gap as i128)),
        None
    );
    // Monotonic clock froze through a sleep but the wall clock kept going.
    assert_eq!(
        credited_time((start, wall), (start + step, wall + gap as i128)),
        None
    );
    // Wall clock jumped backwards.
    assert_eq!(
        credited_time((start, wall + gap as i128), (start + step, wall)),
        None
    );
}

#[test]
fn generated_shell_titles_are_reduced_to_their_path() {
    assert_eq!(clean_tab_name("me@host:~/src/app"), "~/src/app");
    assert_eq!(clean_tab_name("2nd brain"), "2nd brain");
    // A colon in a hand-written title is not a host prefix.
    assert_eq!(clean_tab_name("build: release"), "build: release");
}

#[test]
fn titles_of_the_user_are_kept_verbatim() {
    assert_eq!(clean_tab_name(" my notes "), " my notes ");
    assert_eq!(clean_tab_name("\tbuild: release "), "\tbuild: release ");
    // Without a path there is nothing to reduce the title to.
    assert_eq!(clean_tab_name(" me@host: "), " me@host: ");
    // A path loses the blanks around it.
    assert_eq!(clean_tab_name(" me@host: ~/src "), "~/src");
}

#[test]
fn a_tab_name_is_used_only_when_one_surface_owns_the_directory() {
    let surfaces = vec![
        ("api server".to_string(), "/work/api".to_string()),
        ("Recruting".to_string(), "/work/web".to_string()),
        ("user@host:~/work/web".to_string(), "/work/web".to_string()),
    ];
    let pick = |directory: &str| label_in(&surfaces, directory, None);
    assert_eq!(pick("/work/api"), "api server");
    // Two surfaces share this directory, so neither may claim the name.
    assert_eq!(pick("/work/web"), "/work/web");
}

#[test]
fn home_is_shortened() {
    assert_eq!(shorten_path("/home/me/src", Some("/home/me")), "~/src");
    assert_eq!(shorten_path("/home/me", Some("/home/me")), "~");
    assert_eq!(shorten_path("/srv/app", Some("/home/me")), "/srv/app");
    assert_eq!(shorten_path("/home/me/src", None), "/home/me/src");
}

#[test]
fn labels_are_found_by_working_directory() {
    let directories = shell_working_directories("p21\nfcwd\nn/work/api\np31\nfcwd\nn/srv\n");
    assert_eq!(directories[&21], "/work/api");
    assert_eq!(directories[&31], "/srv");
    let tabs = query_tab_names("api server\u{1f}/work/api\u{1e}\u{1f}/srv\u{1e}");
    let shells = vec![("ttys001".to_string(), 21), ("ttys002".to_string(), 31)];
    let labels = resolve_tab_labels(&shells, &directories, &tabs, None);
    assert_eq!(labels.get("ttys001").map(String::as_str), Some("api server"));
    assert_eq!(labels.get("ttys002").map(String::as_str), Some("/srv"));
    assert_eq!(pid_list(&vec![21, 31]), "21,31");
    let unknown = resolve_tab_labels(&shells, &HashMap::new(), &tabs, None);
    assert_eq!(unknown.len(), 0);
}

#[test]
fn labels_refresh_once_in_a_while() {
    let mut cache = LabelCache::default();
    assert_eq!(cache.label_for("ttys001"), "ttys001");
    assert!(!cache.poll(0, false, LabelReply::Waiting));
    assert!(cache.poll(0, true, LabelReply::Waiting));
    assert!(cache.pending);
    assert!(!cache.poll(SECOND, true, LabelReply::Waiting));
    let mut found = TextMap::new();
    found.insert("ttys001".to_string(), "editor".to_string());
    assert!(!cache.poll(2 * SECOND, true, LabelReply::Found(found)));
    assert_eq!(cache.label_for("ttys001"), "editor");
    assert!(cache.poll(2 * SECOND + TAB_LABEL_REFRESH, true, LabelReply::Waiting));
    assert!(!cache.poll(3 * SECOND + TAB_LABEL_REFRESH, true, LabelReply::Lost));
    assert_eq!(cache.label_for("ttys001"), "editor");
}

#[test]
fn the_shell_of_a_terminal_is_found() {
    let terminal = Terminal {
        root_pid: 20,
        processes: vec![
            p(20, 10, "ttys001", "0.0", 1, "/usr/bin/login -flp me"),
            p(21, 20, "ttys001", "0.0", 1, "-zsh"),
            p(22, 21, "ttys001", "0.0", 1, "node"),
        ],
        ..Terminal::default()
    };
    assert_eq!(shell_pid(&terminal), 21);
    assert_eq!(shell_pid(&Terminal { root_pid: 7, ..Terminal::default() }), 7);
}

#[test]
fn presence_is_read_from_the_registry() {
    let dump = "  | \"AppleClamshellState\" = Yes\n  | \"HIDIdleTime\" = 4000000000\n";
    assert_eq!(ioreg_value(dump, "HIDIdleTime").as_deref(), Some("4000000000"));
    assert_eq!(ioreg_value(dump, "Missing"), None);
    assert!(lid_is_closed(dump));
    assert!(!lid_is_closed("\"AppleClamshellState\" = No\n"));
    assert_eq!(hid_idle_time(dump), Some(4_000_000_000));
    assert_eq!(hid_idle_time(""), None);
    assert_eq!(away_reason(Platform::MacOs, true, None), Some(Away::LidClosed));
    assert_eq!(away_reason(Platform::MacOs, false, Some(MAX_IDLE + 1)), Some(Away::Idle));
    assert_eq!(away_reason(Platform::MacOs, false, Some(MAX_IDLE)), None);
    assert_eq!(away_reason(Platform::Linux, true, Some(MAX_IDLE + 1)), None);
    assert_eq!(Away::Idle.reason(), "you stepped away");
}

#[test]
fn the_focused_tab_is_read() {
    let tab = query_focused_tab("tab-1\tProject\tterm-1\tzsh\twith tab\n").unwrap().unwrap();
    assert_eq!(tab.tab_id, "tab-1");
    assert_eq!(tab.tab_name, "Project");
    assert_eq!(tab.terminal_id, "term-1");
    assert_eq!(tab.terminal_name, "zsh\twith tab");
    assert!(query_focused_tab(" \n").unwrap().is_none());
    assert_eq!(
        query_focused_tab("a\tb").err().unwrap(),
        "Ghostty returned an unexpected focus response"
    );
}

fn record(window: &str, index: &str, terminal: &str) -> String {
    [
        "true",
        window,
        "Main",
        "tab-1",
        "Project",
        index,
        "true",
        "1",
        terminal,
        "zsh",
        "/Users/test/project",
        "true",
    ]
    .join("\x1f")
        + "\x1e"
}

#[test]
fn parses_versioned_tab_inventory_records() {
    let record = [
        "true",
        "window-1",
        "Main",
        "tab-1",
        "Project",
        "2",
        "true",
        "1",
        "terminal-1",
        "zsh",
        "/Users/test/project",
        "true",
    ]
    .join("\x1f")
        + "\x1e";
    let inventory = parse_tab_inventory(&record).unwrap();
    assert_eq!(inventory.len(), 1);
    assert_eq!(inventory[0].tab_name, "Project");
    assert_eq!(inventory[0].tab_index, 2);
    assert_eq!(inventory[0].working_directory, "/Users/test/project");
    assert!(inventory[0].app_frontmost);
    assert!(inventory[0].terminal_focused);
}

#[test]
fn an_inventory_is_ordered_and_whole() {
    let reply = record("w2", "1", "a") + &record("w1", "2", "b") + &record("w1", "1", "c");
    let inventory = parse_tab_inventory(&reply).unwrap();
    let order: Vec<(&str, u32)> = inventory
        .iter()
        .map(|tab| (tab.window_id.as_str(), tab.tab_index))
        .collect();
    assert_eq!(order, [("w1", 2), ("w1", 1), ("w2", 1)]);
    assert_eq!(
        parse_tab_inventory("true\x1fw1\x1e").err().unwrap(),
        "Ghostty returned an unexpected tab inventory"
    );
    assert!(parse_tab_inventory("\n").unwrap().is_empty());
    let again = query_tab_inventory(Some(Ok(reply))).unwrap();
    assert!(same_inventory(&inventory, &again));
    assert!(!same_inventory(&inventory, &Vec::new()));
    assert!(query_tab_inventory(None).unwrap().is_empty());
    assert_eq!(query_tab_inventory(Some(Err("denied".into()))).err().unwrap(), "denied");
}

fn sample(tab: &str, seconds: u64) -> FocusReply {
    FocusReply::Update(FocusUpdate::Sample {
        focus: Some(FocusedTab {
            tab_id: tab.into(),
            tab_name: tab.into(),
            terminal_id: "t".into(),
            terminal_name: "zsh".into(),
        }),
        at: seconds * SECOND,
        wall: seconds as i128 * SECOND as i128,
    })
}

fn seconds_on(tracker: &UsageTracker, day: &str, tab: &str) -> u64 {
    tracker
        .store
        .days
        .get(day)
        .and_then(|tabs| tabs.get(tab))
        .map_or(0, |usage| usage.seconds)
}

#[test]
fn focus_earns_the_time_between_two_looks() {
    let mut tracker = UsageTracker::load(0, None, Some("2026-08-06"), None);
    let step = |tracker: &mut UsageTracker, now: u64, reply: FocusReply| {
        tracker.tick(Platform::MacOs, now * SECOND, None, reply, InventoryReply::Waiting, true)
    };
    assert!(step(&mut tracker, 0, FocusReply::Waiting).query_focus);
    assert!(!step(&mut tracker, 1, sample("a", 1)).changed);
    assert!(step(&mut tracker, 6, FocusReply::Waiting).query_focus);
    assert!(step(&mut tracker, 6, sample("a", 6)).changed);
    assert_eq!(seconds_on(&tracker, "2026-08-06", "a"), 5);
    // Another tab, and a pause, earn nothing.
    assert!(step(&mut tracker, 11, FocusReply::Waiting).query_focus);
    assert!(!step(&mut tracker, 11, sample("b", 11)).changed);
    assert!(step(&mut tracker, 16, FocusReply::Waiting).query_focus);
    assert!(!step(&mut tracker, 16, FocusReply::Update(FocusUpdate::Away(Away::Idle))).changed);
    assert_eq!(tracker.away, Some(Away::Idle));
    assert!(step(&mut tracker, 21, FocusReply::Waiting).query_focus);
    assert!(!step(&mut tracker, 21, sample("b", 21)).changed);
    assert_eq!(tracker.away, None);
    assert!(step(&mut tracker, 26, FocusReply::Waiting).query_focus);
    step(&mut tracker, 26, FocusReply::Failed("no access".into()));
    assert_eq!(tracker.last_error.as_deref(), Some("no access"));
    assert_eq!(seconds_on(&tracker, "2026-08-06", "b"), 0);
    assert_eq!(USAGE_POLL_INTERVAL, 5 * SECOND);
}

#[test]
fn nothing_is_tracked_where_ghostty_cannot_tell() {
    let mut tracker = UsageTracker::load(0, None, Some("2026-08-06"), None);
    let outcome = tracker.tick(
        Platform::Linux,
        100 * SECOND,
        Some("2026-08-07".into()),
        FocusReply::Waiting,
        InventoryReply::Waiting,
        true,
    );
    assert!(!outcome.changed && !outcome.query_focus && !outcome.query_inventory);
    assert_eq!(tracker.current_day, "2026-08-06");
}

#[test]
fn the_day_changes_and_the_history_is_flushed() {
    let contents = "2026-08-06\ta\t5\tA\n";
    let mut tracker = UsageTracker::load(0, Some(contents), None, Some("could not save"));
    assert_eq!(tracker.current_day, "unknown");
    assert_eq!(
        tracker.last_error.as_deref(),
        Some("could not save tracker event: could not save")
    );
    assert!(!tracker.date_is_due(59 * SECOND));
    assert!(tracker.date_is_due(60 * SECOND));
    tracker.store.dirty = true;
    let outcome = tracker.tick(
        Platform::MacOs,
        3_600 * SECOND,
        Some("2026-08-07".into()),
        FocusReply::Waiting,
        InventoryReply::Waiting,
        true,
    );
    assert_eq!(tracker.current_day, "2026-08-07");
    assert_eq!(outcome.contents.as_deref(), Some(contents));
    assert!(outcome.query_inventory);
    tracker.save_failed("disk full");
    assert_eq!(tracker.last_error.as_deref(), Some("could not save usage: disk full"));
    tracker.inventory_failed("disk full");
    assert_eq!(tracker.last_error.as_deref(), Some("could not save tab history: disk full"));
    tracker.resources_failed("disk full");
    assert_eq!(tracker.last_error.as_deref(), Some("could not save resource history: disk full"));
}

#[test]
fn an_inventory_is_recorded_when_it_changes() {
    let mut tracker = UsageTracker::load(0, None, Some("2026-08-06"), None);
    let found = || InventoryReply::Found(parse_tab_inventory(&record("w1", "1", "c")).unwrap());
    assert!(tracker.poll_inventory(0, InventoryReply::Waiting).start);
    let step = tracker.poll_inventory(SECOND, found());
    assert!(step.append);
    assert_eq!(tracker.last_inventory.len(), 1);
    let later = tracker.next_inventory;
    assert!(tracker.poll_inventory(later, InventoryReply::Waiting).start);
    assert!(!tracker.poll_inventory(later + SECOND, found()).append);
}

#[test]
fn process_history_keeps_identity_without_command_arguments() {
    let process = p(
        42,
        7,
        "ttys001",
        "12.5",
        4096,
        "/usr/bin/python3 server.py --token secret",
    );
    let row = process_history_row(1_000, "2026-08-06", "terminal", "ttys001", 7, &process);
    assert!(row.contains("\t42\t7\t12.5\t4096\t"));
    assert!(row.ends_with("\tpython3\t/usr/bin/python3"));
    assert!(!row.contains("server.py"));
    assert!(!row.contains("secret"));
}

#[test]
fn journals_hold_one_row_for_each_thing() {
    let terminals = vec![Terminal {
        root_pid: 20,
        tty: "ttys001".into(),
        activity: "node".into(),
        processes: vec![p(20, 10, "ttys001", "0.0", 1, "login"), p(21, 20, "ttys001", "0.0", 1, "-zsh")],
        ..Terminal::default()
    }];
    let ghostty = p(10, 1, "??", "2.0", 100, "/usr/bin/ghostty");
    let rows = append_resource_history(1_000, "2026-08-06", &terminals, Some(&ghostty));
    assert_eq!(rows.resources.lines().count(), 2);
    assert_eq!(rows.processes.lines().count(), 3);
    assert_eq!(
        rows.processes,
        append_process_history(1_000, "2026-08-06", &terminals, Some(&ghostty))
    );
    assert!(rows.resources.lines().all(|row| row.split('\t').count() == 11));
    assert!(rows.processes.lines().all(|row| row.split('\t').count() == 13));
    let inventory = parse_tab_inventory(&record("w1", "1", "c")).unwrap();
    let tabs = append_tab_inventory(1_000, "2026-08-06", &inventory);
    assert!(tabs.lines().all(|row| row.split('\t').count() == TAB_HISTORY_HEADER.split('\t').count()));
    assert_eq!(
        append_tracker_event(1_000, "start", "0.1.0", 7, "linux", "x86_64"),
        "1000\tstart\t1\t0.1.0\t7\tlinux\tx86_64\t5\t60\t300\n"
    );
    assert_eq!(unix_timestamp(1_500_000_000), 1);
    assert_eq!(unix_timestamp(-1), 0);
    assert_eq!(open_history_file("a\tb", true, "1\t2\n"), "a\tb\n1\t2\n");
    assert_eq!(open_history_file("a\tb", false, "1\t2\n"), "1\t2\n");
}

#[test]
fn a_look_that_finds_ghostty_behind_others_breaks_the_run() {
    let mut tracker = UsageTracker::load(0, Some("2026-08-05\ta\t5\tA\n"), Some("2026-08-06"), None);
    let hidden = |seconds: u64| {
        FocusReply::Update(FocusUpdate::Sample {
            focus: None,
            at: seconds * SECOND,
            wall: seconds as i128 * SECOND as i128,
        })
    };
    assert!(tracker.poll_focus(0, FocusReply::Waiting).1);
    assert!(!tracker.poll_focus(SECOND, sample("a", 1)).0);
    assert!(tracker.poll_focus(6 * SECOND, FocusReply::Waiting).1);
    assert!(!tracker.poll_focus(6 * SECOND, hidden(6)).0);
    assert!(tracker.poll_focus(11 * SECOND, FocusReply::Waiting).1);
    assert!(!tracker.poll_focus(11 * SECOND, sample("a", 11)).0);
    assert!(tracker.poll_focus(16 * SECOND, FocusReply::Waiting).1);
    assert!(tracker.poll_focus(16 * SECOND, sample("a", 16)).0);
    assert_eq!(seconds_on(&tracker, "2026-08-06", "a"), 5);
    // What was recorded before is still there.
    assert_eq!(seconds_on(&tracker, "2026-08-05", "a"), 5);
}

#[test]
fn journals_hold_no_arguments() {
    let terminal = |command: &str| Terminal {
        root_pid: 20,
        tty: "ttys001".into(),
        processes: vec![p(21, 20, "ttys001", "0.0", 1, command)],
        ..Terminal::default()
    };
    let rows = |command: &str| {
        let rows = append_resource_history(1_000, "2026-08-06", &vec![terminal(command)], None);
        (rows.resources, rows.processes)
    };
    assert_eq!(rows("/bin/mysql --password=one"), rows("/bin/mysql --password=two"));
    assert_ne!(rows("/bin/mysql"), rows("/bin/psql"));
}

#[test]
fn a_query_is_awaited_until_its_deadline() {
    let deadline = USAGE_SAMPLE_TIMEOUT;
    assert_eq!(query_step(QueryProgress::Running, deadline - 1, deadline), QueryStep::Wait);
    assert_eq!(query_step(QueryProgress::Running, deadline, deadline), QueryStep::TimedOut);
    for now in [0, deadline, u64::MAX] {
        assert_eq!(query_step(QueryProgress::Succeeded, now, deadline), QueryStep::Read);
        assert_eq!(query_step(QueryProgress::Failed, now, deadline), QueryStep::Refused);
    }
}
