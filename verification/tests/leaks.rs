use ghostty_top::memory::{
    apply_trend, edges, is_suspicious, record_memory, update_leak_state, LeakEvidence,
    MemoryHistory, MemoryTrend, HISTORY_WINDOW, LEAK_CLEAR_WINDOWS, LEAK_CONFIRMATION_WINDOWS,
    MIN_LEAK_DURATION, MIN_LEAK_SAMPLES,
};
use ghostty_top::process::{CpuShare, Process};
use ghostty_top::state::App;
use ghostty_top::terminals::Terminal;
use std::collections::VecDeque;

const SECOND: u64 = 1_000_000_000;

fn p(pid: i32, ppid: i32, tty: &str, rss: u64, command: &str) -> Process {
    Process {
        pid,
        ppid,
        tty: tty.into(),
        cpu: CpuShare::default(),
        rss_kib: rss,
        elapsed: "01:00".into(),
        age_seconds: 60,
        command: command.into(),
    }
}

fn quiet(_: &VecDeque<(u64, u64)>) -> MemoryTrend {
    MemoryTrend {
        growth_kib: 0,
        slope_kib_per_min: 0,
        suspected: false,
    }
}

fn alarmed(_: &VecDeque<(u64, u64)>) -> MemoryTrend {
    MemoryTrend {
        growth_kib: 70_000,
        slope_kib_per_min: 900,
        suspected: true,
    }
}

#[test]
fn leak_alert_requires_confirmation_and_clears_slowly() {
    let mut history = MemoryHistory::default();
    assert!(!update_leak_state(&mut history, true));
    assert!(!update_leak_state(&mut history, true));
    assert!(update_leak_state(&mut history, true));
    for _ in 0..LEAK_CLEAR_WINDOWS - 1 {
        assert!(update_leak_state(&mut history, false));
    }
    assert!(!update_leak_state(&mut history, false));
}

#[test]
fn one_quiet_window_takes_the_confirmation_back() {
    let mut history = MemoryHistory::default();
    assert!(!update_leak_state(&mut history, true));
    assert!(!update_leak_state(&mut history, true));
    assert!(!update_leak_state(&mut history, false));
    assert!(!update_leak_state(&mut history, true));
    assert!(!update_leak_state(&mut history, true));
    assert!(update_leak_state(&mut history, true));
}

#[test]
fn process_tree_changes_reset_leak_evidence() {
    let start = 5 * SECOND;
    let mut app = App::new(SECOND);
    let mut terminals = vec![Terminal {
        root_pid: 10,
        tty: "ttys001".into(),
        rss_kib: 100 * 1024,
        processes: vec![p(10, 1, "ttys001", 100 * 1024, "zsh")],
        ..Terminal::default()
    }];
    app.update_memory_trends(&mut terminals, start, quiet);
    let history = app.memory_history.get_mut(&10).unwrap();
    history.alert_active = true;
    history.suspicious_windows = LEAK_CONFIRMATION_WINDOWS;

    terminals[0]
        .processes
        .push(p(11, 10, "ttys001", 80 * 1024, "node server.js"));
    terminals[0].rss_kib = 180 * 1024;
    app.update_memory_trends(&mut terminals, start + SECOND, quiet);

    let history = &app.memory_history[&10];
    assert_eq!(history.samples.len(), 1);
    assert!(!history.alert_active);
    assert!(!terminals[0].leak_suspected);
}

#[test]
fn a_terminal_shows_the_trend_of_its_history() {
    let mut app = App::new(SECOND);
    let mut terminals = vec![Terminal {
        root_pid: 10,
        rss_kib: 100,
        processes: vec![p(10, 1, "ttys001", 100, "zsh")],
        ..Terminal::default()
    }];
    for round in 1..=LEAK_CONFIRMATION_WINDOWS as u64 {
        app.update_memory_trends(&mut terminals, round * SECOND, alarmed);
        assert_eq!(terminals[0].memory_samples, round as usize);
        assert_eq!(terminals[0].memory_growth_kib, 70_000);
        assert_eq!(terminals[0].memory_slope_kib_per_min, 900);
        assert_eq!(
            terminals[0].leak_suspected,
            round == LEAK_CONFIRMATION_WINDOWS as u64
        );
    }
    // What is gone is forgotten.
    app.update_memory_trends(&mut Vec::new(), 9 * SECOND, quiet);
    assert!(app.memory_history.is_empty());
}

#[test]
fn samples_leave_the_history_when_they_are_too_old() {
    let terminal = Terminal {
        root_pid: 10,
        rss_kib: 7,
        processes: vec![p(10, 1, "ttys001", 7, "zsh")],
        ..Terminal::default()
    };
    let mut history = MemoryHistory::default();
    record_memory(&mut history, &terminal, SECOND);
    record_memory(&mut history, &terminal, 2 * SECOND);
    assert_eq!(history.samples.len(), 2);
    record_memory(&mut history, &terminal, HISTORY_WINDOW + 2 * SECOND + 1);
    assert_eq!(history.samples.len(), 1);
    assert_eq!(history.samples[0], (HISTORY_WINDOW + 2 * SECOND + 1, 7));
}

#[test]
fn a_trend_is_applied_to_its_terminal() {
    let mut history = MemoryHistory::default();
    history.samples.push_back((1, 2));
    let mut terminal = Terminal::default();
    let trend = quiet(&history.samples);
    apply_trend(&mut history, &mut terminal, MemoryTrend { growth_kib: -3, ..trend });
    assert_eq!(terminal.memory_growth_kib, -3);
    assert_eq!(terminal.memory_samples, 1);
    assert!(!terminal.leak_suspected);
}

#[test]
fn the_ends_of_a_history_are_a_fifth_of_it() {
    let samples: VecDeque<(u64, u64)> = (0..=12)
        .map(|index| (index * 20 * SECOND, (100 + index * 8) * 1024))
        .collect();
    let ends = edges(&samples).unwrap();
    assert_eq!(ends.count, 2);
    assert_eq!(ends.baseline, (100 + 108) * 1024);
    assert_eq!(ends.recent, (196 + 188) * 1024);
    assert_eq!(ends.duration, 240 * SECOND);
    assert!(edges(&VecDeque::new()).is_none());
    assert!(edges(&VecDeque::from([(1, 1)])).is_none());
    let long: VecDeque<(u64, u64)> = (0..100).map(|index| (index, 1)).collect();
    assert_eq!(edges(&long).unwrap().count, 10);
    let short = VecDeque::from([(0, 100), (5, 160)]);
    assert_eq!(edges(&short).unwrap().count, 1);
}

#[test]
fn all_the_evidence_is_needed() {
    let all = LeakEvidence {
        grown: true,
        grown_in_proportion: true,
        steep: true,
        even: true,
        lasting: true,
        upward: true,
    };
    assert!(is_suspicious(MIN_LEAK_SAMPLES, MIN_LEAK_DURATION, all));
    assert!(!is_suspicious(MIN_LEAK_SAMPLES - 1, MIN_LEAK_DURATION, all));
    assert!(!is_suspicious(MIN_LEAK_SAMPLES, MIN_LEAK_DURATION - 1, all));
    for missing in [
        LeakEvidence { grown: false, ..all },
        LeakEvidence { grown_in_proportion: false, ..all },
        LeakEvidence { steep: false, ..all },
        LeakEvidence { even: false, ..all },
        LeakEvidence { lasting: false, ..all },
        LeakEvidence { upward: false, ..all },
    ] {
        assert!(!is_suspicious(MIN_LEAK_SAMPLES, MIN_LEAK_DURATION, missing));
    }
}

#[test]
fn an_alert_is_a_confirmed_growth_that_was_not_cleared() {
    // Every run of looks of this length, one bit for each.
    for looks in 0u32..1 << 15 {
        let mut history = MemoryHistory::default();
        let mut windows: Vec<bool> = Vec::new();
        for look in 0..15 {
            let suspicious = looks >> look & 1 == 1;
            windows.push(suspicious);
            let alert = update_leak_state(&mut history, suspicious);
            let confirmed = (0..windows.len().saturating_sub(2)).any(|start| {
                windows[start..start + 3].iter().all(|suspicious| *suspicious)
                    && !windows[start + 3..]
                        .windows(10)
                        .any(|run| run.iter().all(|suspicious| !*suspicious))
            });
            assert_eq!(alert, confirmed);
        }
    }
}
