use ghostty_top::calendar::{date_to_day_number, day_number_to_date};
use ghostty_top::chart::UsageScale;
use ghostty_top::demo::{
    clear_demo_history_at, seed_demo_history, seed_demo_history_at, DemoHistoryError,
};
use ghostty_top::process::Platform;
use ghostty_top::report::{
    daily_totals, usage_breakdown, usage_total_for_day, usage_total_for_days,
};
use ghostty_top::state::App;
use ghostty_top::text_map::TextMap;
use ghostty_top::tracker::UsageTracker;
use ghostty_top::usage::{
    clean_field, display_tab_name, set_usage, FocusedTab, TabUsage, UsageStore, MAX_DAILY_SECONDS,
};
use ghostty_top::usage_view::render_usage;

const SECOND: u64 = 1_000_000_000;

fn focus(tab_id: &str, tab_name: &str) -> FocusedTab {
    FocusedTab {
        tab_id: tab_id.into(),
        tab_name: tab_name.into(),
        terminal_id: "terminal-456".into(),
        terminal_name: "zsh".into(),
    }
}

fn used<'a>(store: &'a UsageStore, day: &str, tab_id: &str) -> &'a TabUsage {
    store.days.get(day).unwrap().get(tab_id).unwrap()
}

fn tracker_with(days: TextMap<TextMap<TabUsage>>, today: &str) -> UsageTracker {
    let mut tracker = UsageTracker::load(0, None, Some(today), None);
    tracker.store.days = days;
    tracker
}

fn strip_ansi(value: &str) -> String {
    let mut plain = String::new();
    let mut characters = value.chars();
    while let Some(character) = characters.next() {
        if character != '\x1b' {
            plain.push(character);
            continue;
        }
        for escape in characters.by_ref() {
            if escape.is_ascii_alphabetic() {
                break;
            }
        }
    }
    plain
}

#[test]
fn saves_and_loads_daily_tab_usage() {
    let mut store = UsageStore::load(None);
    store.add("2026-08-06", &focus("tab-123", "project shell"), 25);
    let contents = store.save(true).unwrap();

    let loaded = UsageStore::load(Some(&contents));
    assert_eq!(used(&loaded, "2026-08-06", "tab-123").seconds, 25);
    assert_eq!(used(&loaded, "2026-08-06", "tab-123").name, "project shell");
}

#[test]
fn nothing_is_written_that_the_file_already_holds() {
    let mut store = UsageStore::load(None);
    assert!(store.save(true).is_none());
    store.add("2026-08-06", &focus("tab", "name"), 25);
    assert!(store.dirty);
    assert!(store.save(false).is_none());
    store.dirty = true;
    let contents = store.save(true).unwrap();
    assert_eq!(contents, store.contents());
    store.saved();
    assert!(!store.dirty);
    assert!(store.save(true).is_none());
}

#[test]
fn a_row_has_day_tab_seconds_and_name() {
    let mut store = UsageStore::default();
    store.add("2026-08-06", &focus("tab\t1", "two\nlines"), 25);
    store.add("2026-08-05", &focus("b", "other"), 5);
    assert_eq!(
        store.contents(),
        "2026-08-05\tb\t5\tother\n2026-08-06\ttab 1\t25\ttwo lines\n"
    );
    assert_eq!(clean_field("a\tb\nc\rd"), "a b c d");
}

#[test]
fn time_adds_up_and_the_latest_name_stays() {
    let mut store = UsageStore::default();
    store.add("2026-08-06", &focus("tab", "before"), 25);
    store.add("2026-08-06", &focus("tab", "after"), 10);
    store.add("2026-08-06", &focus("tab", "ignored"), 0);
    assert_eq!(used(&store, "2026-08-06", "tab").seconds, 35);
    assert_eq!(used(&store, "2026-08-06", "tab").name, "after");
    assert_eq!(display_tab_name(&focus("t", "")), "zsh");
    assert_eq!(display_tab_name(&focus("t", "mine")), "mine");
}

#[test]
fn no_tab_has_more_than_a_day() {
    let mut store = UsageStore::default();
    store.add("2026-08-06", &focus("tab", "name"), u64::MAX);
    store.add("2026-08-06", &focus("tab", "name"), u64::MAX);
    let row = format!("2026-08-05\thuge\t{}\tBig", u64::MAX);
    let loaded = UsageStore::load(Some(&row));
    assert_eq!(used(&loaded, "2026-08-05", "huge").seconds, MAX_DAILY_SECONDS);
    assert_eq!(used(&store, "2026-08-06", "tab").seconds, MAX_DAILY_SECONDS);
}

#[test]
fn demo_history_is_varied_removable_and_preserves_real_usage() {
    let mut original = UsageStore::load(None);
    let real = TabUsage {
        name: "Real work".into(),
        seconds: 321,
    };
    set_usage(&mut original.days, "2026-08-01", "real-tab".into(), real);
    original.dirty = true;
    let contents = original.save(true).unwrap();

    let seeding = seed_demo_history_at(true, Some(&contents), "2026-08-06").unwrap();
    assert_eq!(seeding.days, 40);
    let contents = seeding.contents.unwrap();
    let seeded = UsageStore::load(Some(&contents));
    assert!(!seeded.days.contains_key("2026-08-06"));
    assert_eq!(used(&seeded, "2026-08-01", "real-tab").seconds, 321);
    assert!((0..seeded.days.len()).any(|day| {
        let tabs = seeded.days.value_at(day);
        (0..tabs.len())
            .filter(|tab| tabs.key_at(*tab).starts_with("demo:"))
            .count()
            > 1
    }));

    let clearing = clear_demo_history_at(true, Some(&contents));
    assert_eq!(clearing.days, 40);
    let cleared = UsageStore::load(Some(&clearing.contents.unwrap()));
    assert_eq!(cleared.days.len(), 1);
    assert_eq!(used(&cleared, "2026-08-01", "real-tab").seconds, 321);
}

#[test]
fn seeding_twice_is_seeding_once() {
    let once = seed_demo_history_at(true, None, "2026-08-06").unwrap().contents.unwrap();
    let twice = seed_demo_history_at(true, Some(&once), "2026-08-06").unwrap();
    assert_eq!(twice.days, 40);
    assert_eq!(UsageStore::load(Some(&twice.contents.unwrap())).contents(), once);
}

#[test]
fn seeding_needs_a_date() {
    let refused = seed_demo_history_at(true, None, "not-a-date");
    assert!(matches!(refused, Err(DemoHistoryError::InvalidCurrentDate)));
    assert!(!DemoHistoryError::InvalidCurrentDate.message().is_empty());
    // Without a clock the first day there is stands in.
    assert_eq!(seed_demo_history(true, None, None).unwrap().days, 40);
}

#[test]
fn clearing_nothing_writes_nothing_new() {
    let done = clear_demo_history_at(true, Some("2026-08-01\ttab\t60\tName\n"));
    assert_eq!(done.days, 0);
    let kept = UsageStore::load(done.contents.as_deref().or(Some("2026-08-01\ttab\t60\tName\n")));
    assert_eq!(used(&kept, "2026-08-01", "tab").seconds, 60);
}

/// The history file is plain text on disk and can be edited, truncated, or
/// corrupted. Nothing in it may crash the tool or the renderer.
#[test]
fn malformed_history_is_survivable() {
    let rubbish = [
        "",
        "\t\t\t",
        "not-a-date\ttab\t60\tName",
        "2026-08-06\ttab\tnot-a-number\tName",
        "2026-08-06",
        "2026-08-06\ttab",
        "2026-08-06\ttab\t60",
        "2026-08-06\ttab-ok\t60\tGood",
        // Out-of-range and overflowing date fields.
        "9999-99-99\ttab\t60\tName",
        "-4000-01-01\ttab\t60\tName",
        "999999999999999-01-01\ttab\t60\tName",
        "0000-00-00\ttab\t60\tName",
        // Extremes and unusual text.
        &format!("2026-08-05\thuge\t{}\tBig", u64::MAX),
        "2026-08-04\temoji\t60\t🐈‍⬛ 日本語 tab",
        "2026-08-03\tlong\t60\txxxxxxxxxxxxxxxxxxxxxxxxxxxxxxxxxxxxxxxxxxxxxxxxxxxxxxxxxxxxxxxxxxxxxxxxxxxxxxxx",
        "2026-08-02\tansi\t60\tname\x1b[31mwith escape",
    ]
    .join("\n");

    let store = UsageStore::load(Some(&rubbish));
    assert_eq!(used(&store, "2026-08-06", "tab-ok").seconds, 60);

    let mut app = App::new(SECOND);
    let kept = UsageStore::load(Some(&rubbish)).days;
    app.usage_tracker = Some(tracker_with(kept, "2026-08-06"));
    for scale in UsageScale::all() {
        app.usage_scale = scale;
        for index in 0..store.days.len() {
            let day = store.days.key_at(index);
            app.selected_day = Some(day.clone());
            app.hovered_day = Some(day.clone());
            for width in [40, 100, 200] {
                let (lines, _) = render_usage(&app, Platform::MacOs, None, 30, width);
                for line in lines {
                    assert!(strip_ansi(&line).chars().count() <= width);
                }
            }
        }
    }

    // Rewriting must not lose or mangle the rows that did parse.
    let mut reloaded = UsageStore::load(Some(&rubbish));
    reloaded.dirty = true;
    let rewritten = reloaded.save(true).unwrap();
    let again = UsageStore::load(Some(&rewritten));
    assert_eq!(used(&again, "2026-08-06", "tab-ok").seconds, 60);
    assert_eq!(used(&again, "2026-08-04", "emoji").name, "🐈‍⬛ 日本語 tab");
}

#[test]
fn rewriting_settles() {
    let first = UsageStore::load(Some("2026-08-06\tb\t7\tB\n2026-08-06\ta\t5\tA\r\nrubbish\n"));
    let written = first.contents();
    assert_eq!(written, "2026-08-06\ta\t5\tA\n2026-08-06\tb\t7\tB\n");
    assert_eq!(UsageStore::load(Some(&written)).contents(), written);
}

fn recorded() -> UsageTracker {
    let mut store = UsageStore::default();
    store.add("2026-08-05", &focus("a", "editor"), 100);
    store.add("2026-08-05", &focus("b", "shell"), 40);
    store.add("2026-08-06", &focus("c", "shell"), 80);
    store.add("2026-08-06", &focus("d", "browser"), 100);
    tracker_with(store.days, "2026-08-06")
}

#[test]
fn totals_add_up_by_day() {
    let tracker = recorded();
    assert_eq!(usage_total_for_day(Some(&tracker), "2026-08-05"), 140);
    assert_eq!(usage_total_for_day(Some(&tracker), "2026-08-07"), 0);
    assert_eq!(usage_total_for_day(None, "2026-08-05"), 0);
    let days = vec!["2026-08-05".to_string(), "2026-08-06".to_string()];
    assert_eq!(usage_total_for_days(Some(&tracker), &days), 320);
}

#[test]
fn a_breakdown_merges_names_and_puts_the_busiest_first() {
    let tracker = recorded();
    let days = vec!["2026-08-05".to_string(), "2026-08-06".to_string()];
    let rows = usage_breakdown(Some(&tracker), &days);
    let expected = [("shell", 120), ("browser", 100), ("editor", 100)];
    assert_eq!(rows.len(), 3);
    for (row, (name, seconds)) in rows.iter().zip(expected) {
        assert_eq!((row.0.as_str(), row.1), (name, seconds));
    }
    assert_eq!(
        rows.iter().map(|row| row.1).sum::<u64>(),
        usage_total_for_days(Some(&tracker), &days)
    );
    assert!(usage_breakdown(None, &days).is_empty());
}

#[test]
fn days_to_come_count_nothing() {
    let tracker = recorded();
    let today = date_to_day_number("2026-08-05").unwrap();
    let start = date_to_day_number("2026-08-02").unwrap();
    let totals = daily_totals(Some(&tracker), start, 1, today);
    assert_eq!(totals, [0, 0, 0, 140, 0, 0, 0]);
    let tomorrow = daily_totals(Some(&tracker), start, 1, today + 1);
    assert_eq!(tomorrow, [0, 0, 0, 140, 180, 0, 0]);
    assert_eq!(day_number_to_date(start), "2026-08-02");
}

#[test]
fn a_text_map_keeps_its_keys_in_order() {
    let mut map: TextMap<u64> = TextMap::new();
    map.insert("b".into(), 2);
    map.insert("a".into(), 1);
    map.insert("c".into(), 3);
    map.insert("b".into(), 20);
    assert_eq!(map.len(), 3);
    assert_eq!(map.key_at(0), "a");
    assert_eq!(*map.value_at(1), 20);
    assert_eq!(map.get("c"), Some(&3));
    assert!(!map.contains_key("d"));
    assert_eq!(map.remove("a"), Some(1));
    assert_eq!(map.remove("a"), None);
    let entries = map.into_entries();
    assert_eq!(entries, [("b".to_string(), 20), ("c".to_string(), 3)]);
}

#[test]
fn demo_data_comes_and_goes() {
    // The last of these has some of its demo days before the year 0.
    for today in ["2026-08-06", "2024-03-01", "0000-01-10"] {
        let contents = "2026-08-01\treal\t321\tReal work\n";
        let seeding = seed_demo_history_at(true, Some(contents), today).unwrap();
        let clearing = clear_demo_history_at(true, Some(&seeding.contents.unwrap()));
        assert_eq!(clearing.days, seeding.days);
        let left = clearing.contents.unwrap();
        assert_eq!(left, contents);
        let again = clear_demo_history_at(true, Some(&left));
        assert_eq!(again.days, 0);
        assert!(again.contents.is_none());
    }
}

#[test]
fn totals_and_breakdowns_stop_at_the_same_number() {
    let mut days = TextMap::new();
    for (day, tab, name, seconds) in [
        ("2026-08-05", "a", "editor", u64::MAX - 5),
        ("2026-08-05", "b", "shell", 3),
        ("2026-08-06", "a", "editor", 4),
    ] {
        let usage = TabUsage { name: name.into(), seconds };
        set_usage(&mut days, day, tab.into(), usage);
    }
    let tracker = tracker_with(days, "2026-08-06");
    let selected = vec!["2026-08-05".to_string(), "2026-08-06".to_string()];
    assert_eq!(usage_total_for_days(Some(&tracker), &selected), u64::MAX);
    let rows = usage_breakdown(Some(&tracker), &selected);
    assert_eq!(rows, [("editor".to_string(), u64::MAX - 1), ("shell".to_string(), 3)]);
    let sum = rows.iter().fold(0u64, |sum, row| sum.saturating_add(row.1));
    assert_eq!(sum, u64::MAX);
}
