use ghostty_top::calendar::{date_to_day_number, day_number_to_date, sunday_index};
use ghostty_top::chart::UsageScale;
use ghostty_top::columns::{fit_to_width, truncate};
use ghostty_top::input::MouseEvent;
use ghostty_top::monitor_view::{
    header_cell, monitor_flex_widths, monitor_header, render_monitor, terminals_memory_fits,
    trend_cell, MONITOR_FIXED_WIDTH,
};
use ghostty_top::presence::Away;
use ghostty_top::process::{CpuShare, Platform, Process};
use ghostty_top::screen::{
    fit_targets, hint_line, terminal_size, CalendarCell, ClickAction, ClickZone, Layout,
};
use ghostty_top::snapshot::print_snapshot;
use ghostty_top::state::{App, Screen};
use ghostty_top::terminals::{SortBy, Terminal};
use ghostty_top::text_map::TextMap;
use ghostty_top::tracker::UsageTracker;
use ghostty_top::usage::TabUsage;
use ghostty_top::usage_view::{calendar_span, legend_line, render_usage, scale_selector};

const SECOND: u64 = 1_000_000_000;

fn cpu(share: f64) -> CpuShare {
    let bits = share.to_bits() as i64;
    CpuShare {
        rank: bits ^ ((((bits >> 63) as u64) >> 1) as i64),
        text: format!("{share:.1}"),
    }
}

fn p(pid: i32, ppid: i32, tty: &str, share: f64, rss: u64, command: &str) -> Process {
    Process {
        pid,
        ppid,
        tty: tty.into(),
        cpu: cpu(share),
        rss_kib: rss,
        elapsed: "01:00".into(),
        age_seconds: 60,
        command: command.into(),
    }
}

fn tracker_with(days: TextMap<TextMap<TabUsage>>, today: &str) -> UsageTracker {
    let mut tracker = UsageTracker::load(0, None, Some(today), None);
    tracker.store.days = days;
    tracker
}

/// Drops SGR sequences so a rendered line can be measured in visible columns.
fn strip_ansi(value: &str) -> String {
    let mut plain = String::new();
    let mut characters = value.chars();
    while let Some(character) = characters.next() {
        if character != '\x1b' {
            plain.push(character);
            continue;
        }
        for escape in characters.by_ref() {
            if escape.is_ascii_alphabetic() {
                break;
            }
        }
    }
    plain
}

fn text_at(line: &str, zone: &ClickZone) -> String {
    let plain = strip_ansi(line);
    let end = zone.end_column.min(plain.chars().count());
    plain
        .chars()
        .skip(zone.start_column - 1)
        .take((end + 1).saturating_sub(zone.start_column))
        .collect()
}

fn monitor(app: &App, height: usize, width: usize) -> (Vec<String>, Layout) {
    let share: f64 = app
        .terminals
        .iter()
        .map(|terminal| terminal.cpu.text.parse::<f64>().unwrap())
        .sum();
    assert!(terminals_memory_fits(&app.terminals));
    render_monitor(app, &format!("{share:.1}"), height, width)
}

fn usage(app: &App, height: usize, width: usize) -> (Vec<String>, Layout) {
    assert!(calendar_span(app, Some("2026-08-06"), width).is_some());
    render_usage(app, Platform::MacOs, Some("2026-08-06"), height, width)
}

#[test]
fn monitor_headings_line_up_with_their_click_targets() {
    let app = App::new(SECOND);
    let (line, zones) = monitor_header(4, 100, &app);
    let labels = ["TAB", "CPU", "RAM", "TREND", "PROCS", "AGE", "ACTIVITY"];
    assert_eq!(zones.len(), labels.len());
    for (zone, label) in zones.iter().zip(labels) {
        // The sorted column carries a direction arrow inside its own width.
        assert!(text_at(&line, zone).trim().starts_with(label));
        assert_eq!(zone.row, 4);
    }
}

#[test]
fn the_sort_arrow_marks_the_active_column_without_widening_it() {
    let mut app = App::new(SECOND);
    let plain = |app: &App| strip_ansi(&monitor_header(4, 100, app).0);
    let unsorted_width = plain(&app).chars().count();

    app.sort = SortBy::Cpu;
    app.descending = true;
    assert!(plain(&app).contains("CPU ↓"));
    app.descending = false;
    assert!(plain(&app).contains("CPU ↑"));
    assert!(!plain(&app).contains("RAM ↑"));
    assert_eq!(plain(&app).chars().count(), unsorted_width);

    // The widest heading plus an arrow must still not shift the layout.
    app.sort = SortBy::Activity;
    assert_eq!(plain(&app).chars().count(), unsorted_width);
    app.sort = SortBy::Tab;
    assert_eq!(plain(&app).chars().count(), unsorted_width);
}

#[test]
fn headings_keep_step_with_the_rows_beneath_them() {
    // The heading row and the data rows derive their widths from the same
    // split, so the columns cannot drift apart as the terminal resizes.
    for width in [80, 100, 140, 220] {
        let (tab, activity) = monitor_flex_widths(width);
        let app = App::new(SECOND);
        let (line, _) = monitor_header(4, width, &app);
        let plain = strip_ansi(&line);
        let expected = MONITOR_FIXED_WIDTH + tab + activity;
        assert_eq!(plain.chars().count(), expected, "width {width}");
        assert!(plain.trim_start().starts_with("TAB"));
    }
}

#[test]
fn values_stand_under_their_headings() {
    let app = populated_app(UsageScale::Daily);
    for width in [80, 100, 140, 220] {
        let (lines, layout) = monitor(&app, 40, width);
        let headings = &layout.zones[..7];
        let row = &lines[layout.terminal_start_row - 1 + 3];
        let under = |index: usize| text_at(row, &headings[index]).trim().to_string();
        assert!(under(0).starts_with("a tab name"), "width {width}");
        assert_eq!(under(1), "22.5%", "width {width}");
        assert_eq!(under(2), "16.0 MiB", "width {width}");
        assert_eq!(under(3), "↑ +1MiB", "width {width}");
        assert_eq!(under(4), "1", "width {width}");
        assert_eq!(under(5), "01:02:03", "width {width}");
        assert_eq!(under(6), "node", "width {width}");
    }
}

#[test]
fn a_heading_is_cut_to_its_column() {
    let mut app = App::new(SECOND);
    app.sort = SortBy::Age;
    app.descending = true;
    assert_eq!(
        header_cell("CPU", 7, SortBy::Cpu, true, &app),
        "\x1b[2m\x1b[4m    CPU\x1b[0m"
    );
    assert_eq!(
        header_cell("AGE", 4, SortBy::Age, false, &app),
        "\x1b[1;38;5;232;48;5;114mAGE…\x1b[0m"
    );
}

#[test]
fn a_trend_is_told_in_few_columns() {
    let trend = |samples: usize, growth: i64, leak: bool| {
        strip_ansi(&trend_cell(&Terminal {
            memory_samples: samples,
            memory_growth_kib: growth,
            leak_suspected: leak,
            ..Terminal::default()
        }))
    };
    assert_eq!(trend(1, 5, false), "  · sampling");
    assert_eq!(trend(2, 2048, false), "     ↑ +2MiB");
    assert_eq!(trend(2, -5, false), "     ↓ -5KiB");
    assert_eq!(trend(2, 0, false), "    → stable");
    assert_eq!(trend(2, 2048, true), "     ⚠ +2MiB");
}

#[test]
fn hint_segments_are_clickable_where_they_are_drawn() {
    // A leading multi-byte segment: columns must be counted in characters,
    // not bytes, or every zone after it lands short of its own text.
    let segments = [
        ("↑↓ select", None),
        ("u usage", Some(ClickAction::ShowUsage)),
        ("q quit", Some(ClickAction::Quit)),
    ];
    let (line, zones) = hint_line(20, &segments);
    let clickable: Vec<&str> = segments
        .iter()
        .filter(|(_, action)| action.is_some())
        .map(|(label, _)| *label)
        .collect();
    assert_eq!(zones.len(), clickable.len());
    for (zone, label) in zones.iter().zip(clickable) {
        assert_eq!(text_at(&line, zone), label);
    }

    let mut app = App::new(SECOND);
    let layout = Layout {
        zones,
        ..Layout::default()
    };
    let quit = MouseEvent {
        button: 0,
        column: layout.zones[1].start_column,
        row: 20,
        pressed: true,
    };
    assert!(!app.handle_mouse(quit, &layout));
}

#[test]
fn chart_columns_cover_whole_weeks_and_grid_cells_single_days() {
    let today = "2026-08-06";
    let today_number = date_to_day_number(today).unwrap();
    let mut days = TextMap::new();
    for offset in 0..30_i64 {
        let mut tabs = TextMap::new();
        tabs.insert(
            "tab".to_string(),
            TabUsage {
                name: "editor".into(),
                seconds: 600 + offset as u64 * 60,
            },
        );
        days.insert(day_number_to_date(today_number - offset), tabs);
    }

    let mut app = App::new(SECOND);
    app.view = Screen::Usage;
    app.usage_tracker = Some(tracker_with(days, today));

    app.usage_scale = UsageScale::Weekly;
    let (_, chart) = usage(&app, 40, 100);
    assert!(!chart.calendar_cells.is_empty());
    for cell in &chart.calendar_cells {
        let number = date_to_day_number(&cell.day).unwrap();
        assert_eq!(sunday_index(number), 0, "columns anchor on a week start");
    }

    // Clicking a column selects the week it stands for.
    let column = &chart.calendar_cells[0];
    let click = MouseEvent {
        button: 0,
        column: column.start_column,
        row: column.row,
        pressed: true,
    };
    assert!(app.handle_mouse(click, &chart));
    assert_eq!(app.selected_day.as_deref(), Some(column.day.as_str()));

    app.usage_scale = UsageScale::Daily;
    let (_, grid) = usage(&app, 40, 100);
    let anchors: Vec<i64> = grid
        .calendar_cells
        .iter()
        .filter_map(|cell| date_to_day_number(&cell.day))
        .map(sunday_index)
        .collect();
    assert!(
        anchors.iter().any(|index| *index != 0),
        "grid cells are days"
    );
}

#[test]
fn clicking_a_shading_mode_switches_it() {
    let (line, zones) = scale_selector(9, UsageScale::Daily);
    for (zone, scale) in zones.iter().zip(UsageScale::all()) {
        assert_eq!(text_at(&line, zone), scale.label());
    }

    let mut app = App::new(SECOND);
    app.view = Screen::Usage;
    let column = zones[2].start_column;
    let layout = Layout {
        zones,
        ..Layout::default()
    };
    let click = MouseEvent {
        button: 0,
        column,
        row: 9,
        pressed: true,
    };
    assert!(app.handle_mouse(click, &layout));
    assert_eq!(app.usage_scale, UsageScale::Cumulative);
}

fn populated_app(scale: UsageScale) -> App {
    let today = "2026-08-06";
    let today_number = date_to_day_number(today).unwrap();
    let mut days = TextMap::new();
    for offset in 0..400_i64 {
        let mut tabs = TextMap::new();
        for index in 0..3 {
            tabs.insert(
                format!("tab-{index}"),
                TabUsage {
                    name: format!("a rather long tab name number {index}"),
                    seconds: (offset as u64 * 37 + index * 900) % 20_000,
                },
            );
        }
        days.insert(day_number_to_date(today_number - offset), tabs);
    }
    let mut app = App::new(SECOND);
    app.usage_scale = scale;
    app.usage_tracker = Some(tracker_with(days, today));
    app.ghostty = Some(p(
        1,
        0,
        "??",
        5.0,
        100_000,
        "/Applications/Ghostty.app/Contents/MacOS/ghostty",
    ));
    for index in 0..12 {
        app.terminals.push(Terminal {
            root_pid: 100 + index,
            tty: format!("ttys{index:03}"),
            label: format!("a tab name that is quite long {index}"),
            cpu: cpu(index as f64 * 7.5),
            rss_kib: 4096 * (index as u64 + 1),
            processes: vec![p(
                200 + index,
                100 + index,
                "ttys000",
                1.0,
                4096,
                "node server.js --flag",
            )],
            activity: "node".into(),
            elapsed: "01:02:03".into(),
            age_seconds: 3_723,
            memory_growth_kib: 1024,
            memory_slope_kib_per_min: 12,
            memory_samples: 20,
            leak_suspected: index % 4 == 0,
        });
    }
    app
}

/// Renders every view at every plausible geometry, including degenerate
/// ones, so a size-dependent slice or subtraction cannot panic in the wild.
#[test]
fn every_view_renders_at_any_terminal_size() {
    for scale in UsageScale::all() {
        let mut full = populated_app(scale);
        let mut empty = App::new(SECOND);
        empty.usage_scale = scale;

        for app in [&mut full, &mut empty] {
            for (selected, hovered) in [
                (None, None),
                (
                    Some("2026-08-02".to_string()),
                    Some("2026-07-19".to_string()),
                ),
                // A selection outside the drawn range, and a malformed one.
                (
                    Some("1999-01-01".to_string()),
                    Some("not-a-date".to_string()),
                ),
            ] {
                app.selected_day = selected;
                app.hovered_day = hovered;
                for expanded in [false, true] {
                    app.expanded = expanded;
                    for height in [0, 1, 2, 3, 5, 8, 12, 20, 24, 40, 60, 200] {
                        for width in [0, 1, 2, 3, 5, 10, 20, 40, 60, 80, 100, 140, 300] {
                            let (monitor, _) = monitor(app, height, width);
                            let (usage, _) = usage(app, height, width);
                            assert!(!monitor.is_empty());
                            assert!(!usage.is_empty());
                        }
                    }
                }
            }
        }
    }
}

/// A line wider than the terminal wraps and tears the layout apart, so no
/// frame may exceed the width it was drawn for.
#[test]
fn no_rendered_line_is_wider_than_the_terminal() {
    for scale in UsageScale::all() {
        let mut app = populated_app(scale);
        app.selected_day = Some("2026-08-02".to_string());
        app.hovered_day = Some("2026-08-02".to_string());
        for expanded in [false, true] {
            app.expanded = expanded;
            for width in [40, 60, 80, 100, 120, 160, 200] {
                for height in [10, 24, 40, 60] {
                    for (name, frame) in [
                        ("monitor", monitor(&app, height, width).0),
                        ("usage", usage(&app, height, width).0),
                    ] {
                        for line in frame {
                            let visible = strip_ansi(&line).chars().count();
                            assert!(
                                visible <= width,
                                "{name} line of {visible} columns at width {width}: {:?}",
                                strip_ansi(&line)
                            );
                        }
                    }
                }
            }
        }
    }
}

/// Click targets must land on the frame they were built for; a zone off the
/// end of a line is a target the user can never hit.
#[test]
fn every_click_target_lands_on_its_own_frame() {
    for scale in UsageScale::all() {
        let app = populated_app(scale);
        for width in [60, 80, 100, 140] {
            for (frame, layout) in [monitor(&app, 40, width), usage(&app, 40, width)] {
                let targets = layout
                    .zones
                    .iter()
                    .map(|zone| (zone.row, zone.start_column, zone.end_column))
                    .chain(
                        layout
                            .calendar_cells
                            .iter()
                            .map(|cell| (cell.row, cell.start_column, cell.end_column)),
                    );
                for (row, start, end) in targets {
                    assert!(row >= 1 && row <= frame.len(), "row {row} is off the frame");
                    assert!(start <= end, "empty target at row {row}");
                    // The last monitor column deliberately runs to the edge.
                    assert!(start <= width, "target starts past the terminal edge");
                }
            }
        }
    }
}

#[test]
fn the_monitor_shows_ghostty_and_its_terminals() {
    let mut app = populated_app(UsageScale::Daily);
    app.expanded = true;
    let (lines, layout) = monitor(&app, 40, 120);
    let plain: Vec<String> = lines.iter().map(|line| strip_ansi(line)).collect();
    assert!(plain[0].starts_with("ghostty-top  ·  45m in Ghostty today · press u for the calendar"));
    assert!(plain[0].ends_with("⚠ 3 potential leak alert(s)"));
    assert_eq!(
        plain[1],
        "Ghostty  5.0% CPU · 97.7 MiB    12 terminals  495.0% CPU · 312.0 MiB"
    );
    assert_eq!(plain[2], "");
    assert_eq!(layout.terminal_start_row, 5);
    assert_eq!(layout.shown_start, 0);
    assert_eq!(layout.shown_count, 12);
    assert!(plain[4].contains("a tab name that is quite long 0"));
    let detail = plain.iter().position(|line| line.starts_with("Processes in ttys000")).unwrap();
    assert_eq!(
        plain[detail + 1],
        "⚠ Potential memory leak: +1.0 MiB since tracking began (+12 KiB/min)"
    );
    assert_eq!(plain[detail + 2], "     PID     CPU       RAM   COMMAND");
    assert_eq!(plain[detail + 3], "     200     1.0%   4.0 MiB   node server.js --flag");
    assert_eq!(
        plain.last().unwrap(),
        "↑ up  ·  ↓ down  ·  enter expand  ·  u usage  ·  q quit"
    );
}

#[test]
fn the_monitor_scrolls_with_the_selection() {
    let mut app = populated_app(UsageScale::Daily);
    app.selected = 11;
    let (lines, layout) = monitor(&app, 14, 120);
    assert_eq!(layout.shown_start + layout.shown_count, 12);
    assert!(lines.iter().any(|line| strip_ansi(line).contains("quite long 11")));
}

#[test]
fn the_monitor_tells_what_is_wrong() {
    let mut app = App::new(SECOND);
    app.last_error = Some("ps failed".into());
    app.tracker_outdated = true;
    let (lines, layout) = monitor(&app, 24, 120);
    let plain: Vec<String> = lines.iter().map(|line| strip_ansi(line)).collect();
    assert!(plain[0].ends_with("⚠ background tracker is an old build — rerun --install-tracker"));
    assert!(plain.iter().any(|line| line == "Sampling error: ps failed"));
    assert_eq!(layout.shown_count, 0);
}

#[test]
fn the_calendar_shows_its_days() {
    let mut app = populated_app(UsageScale::Daily);
    app.selected_day = Some("2026-08-02".into());
    app.hovered_day = Some("2026-08-06".into());
    let (lines, layout) = usage(&app, 60, 40);
    let plain: Vec<String> = lines.iter().map(|line| strip_ansi(line)).collect();
    assert_eq!(plain[1], "Last 17 weeks  •  296h 59m total  •  bus");
    assert!(plain[5].starts_with(" Su ■ ■ "));
    assert!(plain[11].starts_with(" Sa ■ ■ "));
    // Friday and Saturday of this week are still to come.
    assert_eq!(layout.calendar_cells.len(), 17 * 7 - 2);
    assert_eq!(plain[13], "    Less ■ ■ ■ ■ ■ More");
    assert_eq!(plain[14], "    daily · weekly · cumulative");
    assert_eq!(plain[16], "Thu, Aug 6, 2026  •  45m");
    assert_eq!(plain[18], "Sun, Aug 2, 2026 breakdown  •  52m");
    let wide = usage(&app, 60, 100).0;
    let rows: Vec<String> = wide.iter().map(|line| strip_ansi(line)).collect();
    assert_eq!(rows[19], "  TAB                                      TIME      SHARE");
    assert_eq!(rows[20], "  a rather long tab name number 2               32m    62.0%");
    assert_eq!(rows.last().unwrap(), "u back to monitor  ·  q quit");
    let today = layout.calendar_cells.iter().find(|cell| cell.day == "2026-08-06").unwrap();
    let square: Vec<char> = plain[today.row - 1].chars().collect();
    assert_eq!(square[today.start_column - 1], '■');
    assert!(lines[9].contains("\x1b[1;38;5;159m■"));
    assert!(lines[5].contains("\x1b[1;38;5;231m■"));
}

#[test]
fn the_chart_stands_on_its_baseline() {
    let mut app = populated_app(UsageScale::Weekly);
    let (lines, layout) = usage(&app, 24, 60);
    let plain: Vec<String> = lines.iter().map(|line| strip_ansi(line)).collect();
    assert!(plain[5].starts_with("max "));
    assert!(plain[12].starts_with("  0 █"));
    assert!(plain[14].starts_with("    Each column = 1 week  ·  tallest "));
    assert_eq!(layout.calendar_cells.len(), 8 * 27);
    app.usage_scale = UsageScale::Cumulative;
    let (lines, _) = usage(&app, 24, 60);
    assert!(strip_ansi(&lines[14]).starts_with("    Running total  ·  top "));
    assert_eq!(strip_ansi(&lines[17]), "Hover a column for its total; click it for the tab breakdown");
}

#[test]
fn the_calendar_tells_whether_it_records() {
    let mut app = App::new(SECOND);
    let status = |app: &App, platform: Platform| {
        strip_ansi(&render_usage(app, platform, Some("2026-08-06"), 30, 200).0[2])
    };
    assert_eq!(
        status(&app, Platform::MacOs),
        "Counting only while Ghostty is frontmost and you are at the machine."
    );
    assert!(status(&app, Platform::Linux).starts_with("Not recording: tracking which tab"));
    app.usage_tracker = Some(tracker_with(TextMap::new(), "2026-08-06"));
    app.usage_tracker.as_mut().unwrap().away = Some(Away::LidClosed);
    assert_eq!(status(&app, Platform::MacOs), "Paused while the lid is closed.");
    app.usage_tracker.as_mut().unwrap().last_error = Some("no access".into());
    assert_eq!(status(&app, Platform::MacOs), "Tracking paused: no access");
    app.selected_day = Some("2026-08-05".into());
    let frame = render_usage(&app, Platform::MacOs, None, 30, 200).0;
    let rows: Vec<String> = frame.iter().map(|line| strip_ansi(line)).collect();
    assert!(rows.iter().any(|row| row.starts_with("Nothing recorded yet.")));
    assert!(rows.iter().any(|row| row == "  No focused Ghostty usage recorded for this day."));
}

#[test]
fn a_calendar_beyond_the_last_day_number_is_refused() {
    let mut app = App::new(SECOND);
    // The last day there is, a Thursday, has no Saturday after it.
    let last = day_number_to_date(i64::MAX);
    assert_eq!(date_to_day_number(&last), Some(i64::MAX));
    app.usage_tracker = Some(tracker_with(TextMap::new(), &last));
    assert!(calendar_span(&app, None, 100).is_none());
    let saturday = day_number_to_date(i64::MAX - 5);
    app.usage_tracker = Some(tracker_with(TextMap::new(), &saturday));
    let span = calendar_span(&app, None, 100).unwrap();
    assert_eq!(span.today, i64::MAX - 5);
    assert_eq!(span.start, i64::MAX - 5 - 47 * 7 + 1);
    assert!(!render_usage(&app, Platform::MacOs, None, 30, 100).0.is_empty());
    assert!(calendar_span(&App::new(SECOND), None, 100).is_some());
}

#[test]
fn shades_are_explained() {
    assert_eq!(strip_ansi(&legend_line()), "    Less ■ ■ ■ ■ ■ More");
    assert!(legend_line().contains("\x1b[38;5;237m■"));
}

#[test]
fn a_snapshot_is_plain_text() {
    let app = populated_app(UsageScale::Daily);
    let lines = print_snapshot(&app).unwrap();
    assert_eq!(lines[0], "Ghostty shared:    5.0% CPU  97.7 MiB RAM");
    assert_eq!(
        lines[1],
        format!(
            "{:<24} {:>7}  {:>9}  {:>11}  {:>5}  {:>11}  ACTIVITY",
            "TAB", "CPU", "RAM", "TREND", "PROCS", "AGE"
        )
    );
    assert_eq!(
        lines[2],
        format!(
            "{:<24} {:>6.1}%  {:>9}  {:>11}  {:>5}  {:>11}  {}{}",
            "a tab name that is quit…", 0.0, "4.0 MiB", "+1MiB", 1, "01:02:03", "node", "  POTENTIAL LEAK"
        )
    );
    assert_eq!(lines.len(), 14);
    assert_eq!(print_snapshot(&App::new(SECOND)).unwrap(), ["Ghostty is not running."]);
    let mut failed = App::new(SECOND);
    failed.last_error = Some("ps failed".into());
    assert!(print_snapshot(&failed).is_err());
}

#[test]
fn lines_are_cut_without_tearing_escapes() {
    assert_eq!(fit_to_width("\x1b[2mabcdef\x1b[0m", 3), "\x1b[2mabc\x1b[0m");
    assert_eq!(fit_to_width("\x1b[2mabc\x1b[0m", 3), "\x1b[2mabc\x1b[0m");
    assert_eq!(fit_to_width("日本語", 2), "日本\x1b[0m");
    assert_eq!(truncate("abcdef", 4), "abc…");
    assert_eq!(truncate("abcd", 4), "abcd");
    assert_eq!(truncate("abcd", 0), "…");
}

#[test]
fn targets_are_cut_at_the_edge() {
    let zone = |start: usize, end: usize| ClickZone {
        start_column: start,
        end_column: end,
        row: 1,
        action: ClickAction::Quit,
    };
    let cell = |start: usize, end: usize| CalendarCell {
        start_column: start,
        end_column: end,
        row: 2,
        day: "2026-08-06".into(),
    };
    let mut layout = Layout {
        zones: vec![zone(1, 4), zone(9, 14), zone(11, 12)],
        calendar_cells: vec![cell(10, 11), cell(11, 12)],
        ..Layout::default()
    };
    fit_targets(&mut layout, 10);
    assert_eq!(layout.zones, [zone(1, 4), zone(9, 10)]);
    assert_eq!(layout.calendar_cells.len(), 1);
    assert_eq!(layout.calendar_cells[0].end_column, 10);
}

#[test]
fn the_terminal_has_a_size_even_when_it_is_not_told() {
    assert_eq!(terminal_size(Some("50 120\n")), (50, 120));
    assert_eq!(terminal_size(Some("speed 50")), (50, 100));
    assert_eq!(terminal_size(Some("")), (24, 100));
    assert_eq!(terminal_size(None), (24, 100));
}
