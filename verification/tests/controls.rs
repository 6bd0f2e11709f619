use ghostty_top::chart::UsageScale;
use ghostty_top::input::{InputDecoder, InputEvent, Key, MouseEvent};
use ghostty_top::process::{CpuShare, Platform, Process};
use ghostty_top::memory::MemoryTrend;
use ghostty_top::command_line::{DemoHistoryAction, Options, ServiceAction, DEFAULT_INTERVAL};
use ghostty_top::screen::{CalendarCell, ClickAction, ClickZone, Layout};
use ghostty_top::session::{
    choose_task, tracking_notice, tracking_refresh, Notice, Task, Watch, TRACKING_REFRESH,
};
use ghostty_top::state::{App, Effect, Screen};
use ghostty_top::terminals::{SortBy, Terminal};
use ghostty_top::tracker::UsageTracker;
use std::collections::VecDeque;

const SECOND: u64 = 1_000_000_000;

fn click(column: usize, row: usize) -> MouseEvent {
    MouseEvent {
        button: 0,
        column,
        row,
        pressed: true,
    }
}

fn app_with(count: usize) -> App {
    let mut app = App::new(SECOND);
    for index in 0..count {
        app.terminals.push(Terminal {
            root_pid: index as i32,
            rss_kib: index as u64,
            ..Terminal::default()
        });
    }
    app
}

#[test]
fn decodes_arrow_and_mouse_input() {
    let mut decoder = InputDecoder::default();
    let events = decoder.push(b"\x1b[A\x1b[<0;18;7M");
    assert_eq!(events[0], InputEvent::Key(Key::Up));
    assert_eq!(
        events[1],
        InputEvent::Mouse(MouseEvent {
            button: 0,
            column: 18,
            row: 7,
            pressed: true,
        })
    );
}

#[test]
fn keeps_partial_mouse_input_until_complete() {
    let mut decoder = InputDecoder::default();
    assert!(decoder.push(b"\x1b[<0;12").is_empty());
    assert_eq!(
        decoder.push(b";5M"),
        vec![InputEvent::Mouse(MouseEvent {
            button: 0,
            column: 12,
            row: 5,
            pressed: true,
        })]
    );
}

#[test]
fn input_in_pieces_is_input_in_one() {
    let bytes = b"q\x1b[B\x1b[<35;2;3m\x1b[H\x1bOFx";
    let mut whole = InputDecoder::default();
    let expected = whole.push(bytes);
    let mut pieces = InputDecoder::default();
    let mut events = Vec::new();
    for byte in bytes {
        events.extend(pieces.push(&[*byte]));
    }
    assert!(expected.contains(&InputEvent::Key(Key::Char(b'q'))));
    assert!(expected.contains(&InputEvent::Key(Key::Down)));
    assert!(expected.contains(&InputEvent::Key(Key::Home)));
    assert!(expected.contains(&InputEvent::Mouse(MouseEvent {
        button: 35,
        column: 2,
        row: 3,
        pressed: false,
    })));
    assert_eq!(events, expected);
}

#[test]
fn clicking_a_row_selects_then_expands_it() {
    let mut app = App::new(SECOND);
    app.terminals = vec![Terminal::default(), Terminal::default()];
    let layout = Layout {
        terminal_start_row: 5,
        shown_count: 2,
        ..Layout::default()
    };
    let click = click(8, 6);
    assert!(app.handle_mouse(click, &layout));
    assert_eq!(app.selected, 1);
    assert!(!app.expanded);
    assert!(app.handle_mouse(click, &layout));
    assert!(app.expanded);
}

#[test]
fn clicking_calendar_day_selects_it() {
    let mut app = App::new(SECOND);
    app.view = Screen::Usage;
    let layout = Layout {
        calendar_cells: vec![CalendarCell {
            start_column: 5,
            end_column: 9,
            row: 6,
            day: "2026-08-06".into(),
        }],
        ..Layout::default()
    };
    let click = click(7, 6);
    assert!(app.handle_mouse(click, &layout));
    assert_eq!(app.hovered_day.as_deref(), Some("2026-08-06"));
    assert_eq!(app.selected_day.as_deref(), Some("2026-08-06"));
}

#[test]
fn the_mouse_hovers_without_selecting() {
    let mut app = App::new(SECOND);
    app.view = Screen::Usage;
    let layout = Layout {
        calendar_cells: vec![CalendarCell {
            start_column: 5,
            end_column: 6,
            row: 6,
            day: "2026-08-06".into(),
        }],
        ..Layout::default()
    };
    let motion = MouseEvent {
        button: 35,
        column: 5,
        row: 6,
        pressed: true,
    };
    assert!(app.handle_mouse(motion, &layout));
    assert_eq!(app.hovered_day.as_deref(), Some("2026-08-06"));
    assert_eq!(app.selected_day, None);
    let away = MouseEvent { column: 50, ..motion };
    assert!(app.handle_mouse(away, &layout));
    assert_eq!(app.hovered_day, None);
}

#[test]
fn calendar_keys_do_not_disturb_the_monitor_sort() {
    let mut app = App::new(SECOND);
    app.view = Screen::Usage;
    assert!(app.handle_key(Key::Char(b'c')));
    assert_eq!(app.usage_scale, UsageScale::Cumulative);
    assert_eq!(app.sort, SortBy::Memory);

    app.view = Screen::Monitor;
    assert!(app.handle_key(Key::Char(b'c')));
    assert_eq!(app.sort, SortBy::Cpu);
}

#[test]
fn keys_move_and_sort() {
    let mut app = app_with(3);
    assert!(app.handle_key(Key::Down));
    assert_eq!(app.selected, 1);
    assert!(app.handle_key(Key::Char(b'j')));
    assert!(app.handle_key(Key::Down));
    assert_eq!(app.selected, 2);
    assert!(app.handle_key(Key::Up));
    assert_eq!(app.selected, 1);
    assert!(app.handle_key(Key::Home));
    assert_eq!(app.selected, 0);
    assert!(app.handle_key(Key::End));
    assert_eq!(app.selected, 2);
    assert!(app.handle_key(Key::Char(b'u')));
    assert_eq!(app.view, Screen::Usage);
    assert!(app.handle_key(Key::Char(b'u')));
    assert_eq!(app.view, Screen::Monitor);
    assert!(!app.handle_key(Key::Char(b'q')));
}

#[test]
fn sorting_by_the_same_column_again_turns_it_round() {
    let mut app = app_with(3);
    app.set_sort(SortBy::Memory);
    let turned: Vec<u64> = app.terminals.iter().map(|terminal| terminal.rss_kib).collect();
    app.set_sort(SortBy::Memory);
    let back: Vec<u64> = app.terminals.iter().map(|terminal| terminal.rss_kib).collect();
    assert_ne!(turned, back);
    assert_eq!(app.sort, SortBy::Memory);
}

#[test]
fn the_selection_stays_within_the_terminals() {
    let mut app = app_with(3);
    app.move_selection(-1);
    assert_eq!(app.selected, 0);
    app.move_selection(isize::MAX);
    assert_eq!(app.selected, 2);
    app.move_selection(isize::MIN);
    assert_eq!(app.selected, 0);
    let mut empty = App::new(SECOND);
    empty.move_selection(1);
    assert_eq!(empty.selected, 0);
}

#[test]
fn clicks_act_on_what_is_drawn_there() {
    let mut app = app_with(2);
    let layout = Layout {
        zones: vec![
            ClickZone {
                start_column: 1,
                end_column: 4,
                row: 4,
                action: ClickAction::Sort(SortBy::Age),
            },
            ClickZone {
                start_column: 6,
                end_column: 9,
                row: 4,
                action: ClickAction::ShowUsage,
            },
        ],
        ..Layout::default()
    };
    assert!(layout.zones[0].contains(&click(4, 4)));
    assert!(!layout.zones[0].contains(&click(5, 4)));
    assert!(app.handle_mouse(click(2, 4), &layout));
    assert_eq!(app.sort, SortBy::Age);
    assert!(app.handle_mouse(click(9, 4), &layout));
    assert_eq!(app.view, Screen::Usage);
    assert!(!app.apply(ClickAction::Quit));
    assert!(app.perform(Effect::SetScale(UsageScale::Weekly)));
    assert_eq!(app.usage_scale, UsageScale::Weekly);
}

fn p(pid: i32, ppid: i32, tty: &str, command: &str) -> Process {
    Process {
        pid,
        ppid,
        tty: tty.into(),
        cpu: CpuShare::default(),
        rss_kib: 10,
        elapsed: "01:00".into(),
        age_seconds: 60,
        command: command.into(),
    }
}

fn idle(_: &Vec<Process>) -> CpuShare {
    CpuShare::default()
}

fn steady(_: &VecDeque<(u64, u64)>) -> MemoryTrend {
    MemoryTrend {
        growth_kib: 0,
        slope_kib_per_min: 0,
        suspected: false,
    }
}

#[test]
fn a_refresh_takes_the_new_sample_or_tells_why_there_is_none() {
    let mut app = App::new(SECOND);
    let sample = vec![
        p(10, 1, "??", "/usr/bin/ghostty"),
        p(20, 10, "ttys001", "/usr/bin/login -flp me"),
        p(21, 20, "ttys001", "-zsh"),
    ];
    assert!(!app.refresh(Ok(sample), 99, Platform::MacOs, idle, SECOND, steady));
    assert_eq!(app.ghostty.as_ref().unwrap().pid, 10);
    assert_eq!(app.terminals.len(), 1);
    assert_eq!(app.terminals[0].label, "ttys001");
    assert_eq!(app.last_error, None);
    app.refresh(Err("ps failed".into()), 99, Platform::MacOs, idle, 2 * SECOND, steady);
    assert_eq!(app.last_error.as_deref(), Some("ps failed"));
    assert_eq!(app.terminals.len(), 1);
    app.selected = 7;
    app.refresh(Ok(Vec::new()), 99, Platform::MacOs, idle, 3 * SECOND, steady);
    assert_eq!(app.last_error, None);
    assert!(app.terminals.is_empty());
    assert_eq!(app.selected, 0);
}

#[test]
fn resources_are_recorded_once_in_a_while() {
    let mut app = App::new(SECOND);
    app.enable_usage_tracking(UsageTracker::load(0, None, Some("2026-08-06"), None));
    let mut recorded = 0;
    for second in 0..=600 {
        let sample = vec![p(10, 1, "??", "/usr/bin/ghostty")];
        if app.refresh(Ok(sample), 99, Platform::MacOs, idle, second * SECOND, steady) {
            recorded += 1;
        }
    }
    assert_eq!(recorded, 3);
    assert!(app.flush_usage(true).is_none());
}

#[test]
fn a_batch_of_input_stops_at_the_event_that_ends_the_program() {
    let mut app = app_with(5);
    let layout = Layout::default();
    let down = InputEvent::Key(Key::Down);
    assert!(app.handle_events(&vec![down, down], &layout));
    assert_eq!(app.selected, 2);
    let quit = InputEvent::Key(Key::Char(b'q'));
    assert!(!app.handle_events(&vec![down, quit, down], &layout));
    assert_eq!(app.selected, 3);
    assert!(app.handle_events(&Vec::new(), &layout));
    let wheel = InputEvent::Mouse(MouseEvent { button: 64, ..click(1, 1) });
    assert!(app.handle_events(&vec![wheel, wheel], &layout));
    assert_eq!(app.selected, 0);
}

#[test]
fn options_choose_one_task() {
    let plain = Options {
        once: false,
        track_only: false,
        service_action: None,
        demo_history_action: None,
        interval: DEFAULT_INTERVAL,
    };
    let service = Some(ServiceAction::Status);
    let demo = Some(DemoHistoryAction::Seed);
    let all = Options {
        once: true,
        track_only: true,
        service_action: service,
        demo_history_action: demo,
        ..plain
    };
    assert_eq!(choose_task(plain, Platform::Linux), Task::Watch);
    assert_eq!(choose_task(all, Platform::Linux), Task::Service(ServiceAction::Status));
    let without_service = Options { service_action: None, ..all };
    assert_eq!(
        choose_task(without_service, Platform::MacOs),
        Task::DemoHistory(DemoHistoryAction::Seed)
    );
    let once = Options { demo_history_action: None, ..without_service };
    assert_eq!(choose_task(once, Platform::MacOs), Task::Snapshot);
    let track = Options { once: false, ..once };
    assert_eq!(choose_task(track, Platform::MacOs), Task::Track);
    assert_eq!(choose_task(track, Platform::Linux), Task::NoTracking);
}

#[test]
fn a_warning_is_told_once() {
    let wrong = Some("no access".to_string());
    assert_eq!(tracking_notice(&None, &None), Notice::Quiet);
    assert_eq!(tracking_notice(&None, &wrong), Notice::Warning);
    assert_eq!(tracking_notice(&wrong, &wrong.clone()), Notice::Quiet);
    assert_eq!(tracking_notice(&wrong, &Some("disk full".to_string())), Notice::Warning);
    assert_eq!(tracking_notice(&wrong, &None), Notice::Recovered);
}

#[test]
fn the_screen_is_drawn_when_something_changed() {
    let mut watch = Watch::new(2 * SECOND, 10 * SECOND);
    assert!(watch.draw());
    assert!(!watch.draw());
    watch.note(false);
    assert!(!watch.draw());
    watch.note(true);
    watch.note(false);
    assert!(watch.draw());
    assert!(!watch.sample_due(12 * SECOND - 1));
    assert!(watch.sample_due(12 * SECOND));
    watch.sampled(13 * SECOND);
    assert_eq!(watch.next_sample, 15 * SECOND);
    assert!(watch.draw());
}

#[test]
fn tracking_samples_once_a_minute() {
    assert_eq!(tracking_refresh(5 * SECOND, 5 * SECOND), (true, 65 * SECOND));
    assert_eq!(tracking_refresh(64 * SECOND, 65 * SECOND), (false, 65 * SECOND));
    assert_eq!(tracking_refresh(70 * SECOND, 65 * SECOND), (true, 70 * SECOND + TRACKING_REFRESH));
}

#[test]
fn the_mouse_needs_no_terminal_rows_in_the_calendar() {
    let layout = Layout {
        terminal_start_row: usize::MAX,
        shown_start: usize::MAX,
        shown_count: 1,
        ..Layout::default()
    };
    let mut app = app_with(1);
    app.view = Screen::Usage;
    assert!(app.handle_mouse(click(1, 1), &layout));
    assert_eq!(app.selected, 0);
}
