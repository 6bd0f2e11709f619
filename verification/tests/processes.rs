use ghostty_top::grouping::{
    aggregate, is_terminal_root, memory_fits, memory_fits_by_terminal, terminal_of,
};
use ghostty_top::process::{
    command_name, cpu_field, executable_path, ghostty_is_running, has_tty, is_ghostty_app,
    is_login_process, is_shell, parse_elapsed, parse_process, sample_processes, CpuShare, Platform,
    Process,
};
use ghostty_top::terminals::{natural_tty, sort_terminals, tab_precedes, SortBy, Terminal};
use ghostty_top::tree::{assign_descendants, assign_owners, child_map};
use std::collections::HashMap;

fn cpu(share: f64) -> CpuShare {
    let bits = share.to_bits() as i64;
    CpuShare {
        rank: bits ^ ((((bits >> 63) as u64) >> 1) as i64),
        text: format!("{share:.1}"),
    }
}

fn sum(processes: &Vec<Process>) -> CpuShare {
    cpu(processes
        .iter()
        .map(|process| process.cpu.text.parse::<f64>().unwrap())
        .sum())
}

fn p(pid: i32, ppid: i32, tty: &str, share: f64, rss: u64, command: &str) -> Process {
    Process {
        pid,
        ppid,
        tty: tty.into(),
        cpu: cpu(share),
        rss_kib: rss,
        elapsed: "01:00".into(),
        age_seconds: 60,
        command: command.into(),
    }
}

const GHOSTTY: &str = "/Applications/Ghostty.app/Contents/MacOS/ghostty";
const LOGIN: &str = "/usr/bin/login -flp me /bin/zsh";

#[test]
fn parses_ps_rows_with_spaced_commands() {
    let line = "  42  1 ttys002  3.5  1024  01:20 node app.js --flag";
    let process = parse_process(line, Some(cpu(3.5))).unwrap();
    assert_eq!(process.pid, 42);
    assert_eq!(process.tty, "ttys002");
    assert_eq!(process.command, "node app.js --flag");
    assert_eq!(process.age_seconds, 80);
}

#[test]
fn a_row_is_read_field_by_field() {
    let line = "  42  1 ttys002  3.5  1024  01:20 node app.js --flag";
    assert_eq!(cpu_field(line).as_deref(), Some("3.5"));
    let process = parse_process(line, Some(cpu(3.5))).unwrap();
    assert_eq!(process.ppid, 1);
    assert_eq!(process.rss_kib, 1024);
    assert_eq!(process.elapsed, "01:20");
    assert_eq!(process.cpu.text, "3.5");
    // A share that is no number, a pid that is none, and a row that ends too soon.
    assert!(parse_process(line, None).is_none());
    assert!(parse_process("x 1 ttys002 3.5 1024 01:20 node", Some(cpu(3.5))).is_none());
    assert!(parse_process("42 1 ttys002 3.5 1024", Some(cpu(3.5))).is_none());
    assert!(parse_process("42 1 ttys002 3.5 1024 01:20", Some(cpu(3.5))).is_some());
    assert!(parse_process("42 1 ttys002 3.5 -4 01:20 node", Some(cpu(3.5))).is_none());
    assert_eq!(cpu_field("42 1 ttys002"), None);
    // Some languages write a comma.
    assert_eq!(cpu_field("42 1 ttys002 3,5 1024 01:20 node").as_deref(), Some("3.5"));
}

#[test]
fn a_listing_keeps_the_rows_that_can_be_read() {
    let listing = "1 0 ?? 0.5 10 01:00 launchd\nrubbish\n2 1 ttys001 1.5 20 02:00 zsh -l\n";
    let shares: Vec<Option<CpuShare>> = listing
        .lines()
        .map(|line| cpu_field(line).and_then(|field| field.parse().ok()).map(cpu))
        .collect();
    let processes = sample_processes(listing, &shares);
    assert_eq!(processes.len(), 2);
    assert_eq!(processes[0].command, "launchd");
    assert_eq!(processes[1].command, "zsh -l");
    assert_eq!(processes[1].cpu.text, "1.5");
}

#[test]
fn parses_process_age_formats() {
    assert_eq!(parse_elapsed("05:30"), Some(330));
    assert_eq!(parse_elapsed("02:05:30"), Some(7_530));
    assert_eq!(parse_elapsed("3-02:05:30"), Some(266_730));
}

#[test]
fn ages_that_are_none_are_refused() {
    assert_eq!(parse_elapsed(""), None);
    assert_eq!(parse_elapsed("30"), None);
    assert_eq!(parse_elapsed("1:2:3:4"), None);
    assert_eq!(parse_elapsed("x-02:05:30"), None);
    assert_eq!(parse_elapsed("02:xx"), None);
    assert_eq!(parse_elapsed("18446744073709551615-00:00:01"), None);
}

#[test]
fn groups_descendants_under_ghostty_terminals() {
    let processes = vec![
        p(10, 1, "??", 2.0, 100, GHOSTTY),
        p(20, 10, "ttys001", 0.0, 10, LOGIN),
        p(21, 20, "ttys001", 0.0, 20, "-/bin/zsh"),
        p(22, 21, "ttys001", 7.5, 30, "node server.js"),
        p(30, 10, "ttys002", 0.0, 11, LOGIN),
        p(31, 30, "ttys002", 1.0, 21, "python worker.py"),
    ];
    let (_, terminals) = aggregate(&processes, 999, Platform::MacOs, sum);
    assert_eq!(terminals.len(), 2);
    assert_eq!(terminals[0].rss_kib, 60);
    assert_eq!(terminals[0].activity, "node");
    assert_eq!(terminals[1].cpu.text, "1.0");
}

#[test]
fn every_process_of_a_terminal_is_kept_once() {
    let processes = vec![
        p(10, 1, "??", 2.0, 100, GHOSTTY),
        p(20, 10, "ttys001", 0.0, 10, LOGIN),
        p(21, 20, "ttys001", 0.0, 20, "-/bin/zsh"),
        p(22, 21, "ttys001", 7.5, 30, "node server.js"),
        p(23, 22, "??", 0.5, 5, "helper"),
        p(40, 1, "ttys009", 9.0, 50, "vim"),
    ];
    assert!(memory_fits_by_terminal(&processes, 999, Platform::MacOs));
    let (ghostty, terminals) = aggregate(&processes, 999, Platform::MacOs, sum);
    assert_eq!(ghostty.unwrap().pid, 10);
    assert_eq!(terminals.len(), 1);
    let mut pids: Vec<i32> = terminals[0].processes.iter().map(|process| process.pid).collect();
    pids.sort();
    assert_eq!(pids, [20, 21, 22, 23]);
    assert_eq!(terminals[0].root_pid, 20);
    assert_eq!(terminals[0].rss_kib, 65);
    assert_eq!(terminals[0].cpu.text, "8.0");
    assert_eq!(terminals[0].tty, "ttys001");
}

#[test]
fn the_monitor_itself_is_no_activity() {
    let processes = vec![
        p(10, 1, "??", 2.0, 100, GHOSTTY),
        p(20, 10, "ttys001", 0.0, 10, LOGIN),
        p(21, 20, "ttys001", 0.0, 20, "-zsh"),
        p(22, 21, "ttys001", 7.5, 30, "ghostty-top"),
    ];
    let (_, terminals) = aggregate(&processes, 22, Platform::MacOs, sum);
    assert_ne!(terminals[0].activity, "ghostty-top");
    let (_, terminals) = aggregate(&processes, 999, Platform::MacOs, sum);
    assert_eq!(terminals[0].activity, "ghostty-top");
}

#[test]
fn nothing_is_grouped_without_ghostty() {
    let processes = vec![p(20, 10, "ttys001", 0.0, 10, LOGIN)];
    let (ghostty, terminals) = aggregate(&processes, 999, Platform::MacOs, sum);
    assert!(ghostty.is_none());
    assert!(terminals.is_empty());
}

#[test]
fn surfaces_start_through_login_on_macos_and_directly_on_linux() {
    let shell = p(21, 10, "pts/3", 0.0, 20, "/bin/bash");
    let login = p(20, 10, "ttys001", 0.0, 10, LOGIN);
    assert!(is_terminal_root(&login, Platform::MacOs));
    assert!(!is_terminal_root(&shell, Platform::MacOs));
    assert!(is_terminal_root(&shell, Platform::Linux));
    let processes = vec![
        p(10, 1, "?", 0.0, 100, "/usr/bin/ghostty"),
        p(21, 10, "pts/3", 0.0, 20, "/bin/bash"),
        p(22, 10, "?", 0.0, 10, "/bin/bash"),
    ];
    let (_, terminals) = aggregate(&processes, 999, Platform::Linux, sum);
    assert_eq!(order(&terminals), ["pts/3"]);
    assert_eq!(terminals[0].activity, "shell");
}

#[test]
fn memory_beyond_the_counter_is_noticed() {
    let processes = vec![
        p(1, 0, "ttys001", 0.0, u64::MAX, "a"),
        p(2, 1, "ttys001", 0.0, 1, "b"),
    ];
    assert!(!memory_fits(&processes));
    assert!(memory_fits(&processes[1..]));
}

#[test]
fn memory_is_counted_for_each_terminal_alone() {
    let mut processes = vec![
        p(10, 1, "??", 2.0, u64::MAX, GHOSTTY),
        p(20, 10, "ttys001", 0.0, u64::MAX, LOGIN),
        p(30, 10, "ttys002", 0.0, u64::MAX - 1, LOGIN),
        p(40, 1, "ttys009", 9.0, u64::MAX, "vim"),
    ];
    assert!(!memory_fits(&processes));
    assert!(memory_fits_by_terminal(&processes, 999, Platform::MacOs));
    let (_, terminals) = aggregate(&processes, 999, Platform::MacOs, sum);
    assert_eq!(terminals[0].rss_kib, u64::MAX);
    assert_eq!(terminals[1].rss_kib, u64::MAX - 1);
    processes.push(p(31, 30, "ttys002", 0.0, 2, "-/bin/zsh"));
    assert!(!memory_fits_by_terminal(&processes, 999, Platform::MacOs));
    // Without Ghostty there is no terminal to count for.
    assert!(memory_fits_by_terminal(&processes[1..], 999, Platform::MacOs));
}

#[test]
fn a_terminal_is_described_by_its_root_and_its_busiest_process() {
    let root = p(20, 10, "ttys001", 0.0, 10, LOGIN);
    let members = vec![
        p(20, 10, "ttys001", 0.0, 10, LOGIN),
        p(21, 20, "ttys001", 1.0, 20, "-zsh"),
        p(22, 21, "ttys001", 7.5, 30, "/usr/local/bin/node server.js"),
        p(23, 21, "ttys001", 3.0, 40, "tail -f log"),
    ];
    let terminal = terminal_of(&root, members, cpu(11.5));
    assert_eq!(terminal.root_pid, 20);
    assert_eq!(terminal.tty, "ttys001");
    assert_eq!(terminal.activity, "node");
    assert_eq!(terminal.rss_kib, 100);
    assert_eq!(terminal.cpu.text, "11.5");
    assert_eq!(terminal.processes.len(), 4);
}

#[test]
fn descendants_belong_to_the_nearest_root() {
    let processes = vec![
        p(1, 0, "", 0.0, 0, "a"),
        p(2, 1, "", 0.0, 0, "b"),
        p(3, 2, "", 0.0, 0, "c"),
        p(4, 1, "", 0.0, 0, "d"),
        p(9, 8, "", 0.0, 0, "e"),
    ];
    let children = child_map(&processes);
    assert_eq!(children[&1], [2, 4]);
    let mut owner = HashMap::new();
    assign_descendants(1, 1, &children, &mut owner);
    let mut owned: Vec<i32> = owner.keys().copied().collect();
    owned.sort();
    assert_eq!(owned, [2, 3, 4]);
    assert!(owner.values().all(|root| *root == 1));
    let owners = assign_owners(&vec![1, 8], &children);
    assert_eq!(owners[&3], 1);
    assert_eq!(owners[&9], 8);
    assert_eq!(owners[&8], 8);
}

#[test]
fn a_loop_among_processes_is_walked_once() {
    let processes = vec![p(5, 6, "", 0.0, 0, "a"), p(6, 5, "", 0.0, 0, "b")];
    let owners = assign_owners(&vec![5], &child_map(&processes));
    assert_eq!(owners.len(), 2);
    assert_eq!(owners[&6], 5);
}

#[test]
fn ghostty_is_recognised_by_path_not_by_pgrep_name() {
    assert!(is_ghostty_app(
        "/Applications/Ghostty.app/Contents/MacOS/ghostty"
    ));
    assert!(is_ghostty_app("ghostty"));
    assert!(!is_ghostty_app("/Users/me/.cargo/bin/ghostty-top"));
    assert!(!is_ghostty_app("ghostty-top"));
}

#[test]
fn ghostty_is_found_among_commands() {
    assert!(ghostty_is_running("/sbin/launchd\n  /usr/bin/ghostty\nzsh\n"));
    assert!(!ghostty_is_running("/sbin/launchd\nghostty-top\n"));
    assert!(!ghostty_is_running(""));
}

#[test]
fn a_process_without_a_terminal_is_recognised_on_either_platform() {
    assert!(has_tty("ttys001"));
    assert!(has_tty("pts/3"));
    // macOS writes no tty as `??`, Linux as `?`.
    assert!(!has_tty("??"));
    assert!(!has_tty("?"));
    assert!(!has_tty(""));
}

#[test]
fn commands_are_told_apart_by_their_executable() {
    assert_eq!(executable_path("/usr/bin/python3 server.py"), "/usr/bin/python3");
    assert_eq!(command_name("/usr/bin/python3 server.py"), "python3");
    assert_eq!(command_name("-/bin/zsh"), "zsh");
    assert!(is_login_process(LOGIN));
    assert!(!is_login_process("node login.js"));
    assert!(is_shell("-/bin/zsh"));
    assert!(is_shell("bash -l"));
    assert!(!is_shell("node server.js"));
}

fn terminal(tty: &str, label: &str, rss: u64, share: f64, age: u64, activity: &str) -> Terminal {
    Terminal {
        tty: tty.into(),
        label: label.into(),
        rss_kib: rss,
        cpu: cpu(share),
        age_seconds: age,
        activity: activity.into(),
        ..Terminal::default()
    }
}

fn order(terminals: &[Terminal]) -> Vec<&str> {
    terminals.iter().map(|terminal| terminal.tty.as_str()).collect()
}

#[test]
fn terminals_sort_by_each_column() {
    let mut terminals = vec![
        terminal("ttys010", "beta", 30, 1.0, 5, "vim"),
        terminal("ttys002", "Alpha", 10, 9.5, 7, "node"),
        terminal("ttys001", "gamma", 20, 10.5, 6, "Bash"),
    ];
    sort_terminals(&mut terminals, SortBy::Memory, true);
    assert_eq!(order(&terminals), ["ttys010", "ttys001", "ttys002"]);
    sort_terminals(&mut terminals, SortBy::Cpu, true);
    assert_eq!(order(&terminals), ["ttys001", "ttys002", "ttys010"]);
    sort_terminals(&mut terminals, SortBy::Cpu, false);
    assert_eq!(order(&terminals), ["ttys010", "ttys002", "ttys001"]);
    sort_terminals(&mut terminals, SortBy::Age, false);
    assert_eq!(order(&terminals), ["ttys010", "ttys001", "ttys002"]);
}

#[test]
fn names_sort_whatever_their_case() {
    let mut terminals = vec![
        terminal("ttys001", "beta", 0, 0.0, 0, "vim"),
        terminal("ttys002", "Alpha", 0, 0.0, 0, "Node"),
        terminal("ttys003", "GAMMA", 0, 0.0, 0, "awk"),
        terminal("ttys004", "\u{c4}RGER", 0, 0.0, 0, "zsh"),
        terminal("ttys005", "\u{e4}rger", 0, 0.0, 0, "zsh"),
    ];
    sort_terminals(&mut terminals, SortBy::Tab, false);
    assert_eq!(
        order(&terminals),
        ["ttys002", "ttys001", "ttys003", "ttys004", "ttys005"]
    );
    sort_terminals(&mut terminals, SortBy::Activity, false);
    assert_eq!(
        order(&terminals),
        ["ttys003", "ttys002", "ttys001", "ttys004", "ttys005"]
    );
}

#[test]
fn ttys_are_numbered_by_what_follows_their_prefix() {
    assert_eq!(natural_tty("ttys012"), 12);
    assert_eq!(natural_tty("pts/3"), u32::MAX);
    assert_eq!(natural_tty("console"), u32::MAX);
}

#[test]
fn tabs_are_ordered_by_name_and_then_by_tty() {
    assert!(tab_precedes("api", "ttys010", "web", "ttys002"));
    assert!(!tab_precedes("web", "ttys002", "api", "ttys010"));
    assert!(tab_precedes("web", "ttys2", "web", "ttys10"));
    assert!(!tab_precedes("web", "ttys10", "web", "ttys2"));
    assert!(!tab_precedes("web", "ttys2", "web", "ttys002"));
}
