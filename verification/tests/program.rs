use ghostty_top::command_line::{
    read_arguments, DemoHistoryAction, Invocation, Options, ServiceAction, DEFAULT_INTERVAL, USAGE,
};
use ghostty_top::measure::{
    compact_signed_kib, human_bytes, human_duration, share, signed_human_kib,
};
use ghostty_top::number::{
    align_left, align_right, parse_i32, parse_i64, parse_u16, parse_u32, parse_u64, parse_usize,
    write_decimal, write_signed, write_zero_padded,
};
use ghostty_top::places::{
    default_data_dir, default_usage_path, launch_agent_path, Base, Place,
};
use ghostty_top::process::Platform;
use ghostty_top::service::{
    install_login_tracker, launch_agent, launchd_domain, launchd_service, tracker_is_outdated,
    tracker_status, uninstall_login_tracker, xml_escape, LAUNCH_AGENT_LABEL,
};
use ghostty_top::text::{
    after_first, contains_char, ends_with, same_text, space, split, split_lines, split_up_to,
    split_words, starts_with, strip_prefix, text_precedes, trim, trim_end,
};

#[test]
fn escapes_launch_agent_paths() {
    assert_eq!(
        xml_escape("A & B <tracker> \"path\""),
        "A &amp; B &lt;tracker&gt; &quot;path&quot;"
    );
}

#[test]
fn no_two_texts_are_escaped_alike() {
    let texts = ["", "&", "&amp;", "amp;", "'", "&apos;", "<", "&lt;", "a"];
    for (index, one) in texts.iter().enumerate() {
        for other in &texts[index + 1..] {
            assert_ne!(xml_escape(one), xml_escape(other));
        }
    }
    assert_eq!(xml_escape("it's"), "it&apos;s");
}

#[test]
fn the_launch_agent_names_its_files() {
    let plist = launch_agent("/a&b/ghostty-top", "/log", "/error");
    assert!(plist.contains("<string>/a&amp;b/ghostty-top</string>"));
    assert!(plist.contains("<string>--track</string>"));
    assert!(plist.contains(LAUNCH_AGENT_LABEL));
    assert_eq!(
        install_login_tracker(Platform::MacOs, "/a&b/ghostty-top", "/log", "/error").unwrap(),
        plist
    );
    assert!(install_login_tracker(Platform::Linux, "/a", "/log", "/error").is_err());
    assert!(uninstall_login_tracker(Platform::Linux, Some("/home/me")).is_err());
    assert!(tracker_status(Platform::MacOs, true).is_ok());
    assert!(tracker_status(Platform::MacOs, false).is_err());
    assert!(tracker_status(Platform::Linux, true).is_err());
    assert_eq!(launchd_domain(501), "gui/501");
    assert_eq!(launchd_service(501), format!("gui/501/{LAUNCH_AGENT_LABEL}"));
}

#[test]
fn an_old_tracker_is_noticed() {
    let old = vec![1, 2, 3];
    let new = vec![1, 2, 4];
    assert!(tracker_is_outdated(Platform::MacOs, Some(&old), Some(&new)));
    assert!(!tracker_is_outdated(Platform::MacOs, Some(&new), Some(&new)));
    assert!(!tracker_is_outdated(Platform::MacOs, None, Some(&new)));
    assert!(!tracker_is_outdated(Platform::Linux, Some(&old), Some(&new)));
}

fn read(args: &[&str]) -> Invocation {
    let args: Vec<String> = args.iter().map(|arg| arg.to_string()).collect();
    let intervals: Vec<Option<u64>> = args
        .iter()
        .map(|arg| {
            arg.parse::<f64>()
                .ok()
                .filter(|seconds| (0.2..=60.0).contains(seconds))
                .map(|seconds| (seconds * 1e9) as u64)
        })
        .collect();
    read_arguments(&args, &intervals)
}

#[test]
fn arguments_choose_what_is_done() {
    let plain = Options {
        once: false,
        track_only: false,
        service_action: None,
        demo_history_action: None,
        interval: DEFAULT_INTERVAL,
    };
    assert_eq!(read(&[]), Invocation::Run(plain));
    assert_eq!(read(&["--once"]), Invocation::Run(Options { once: true, ..plain }));
    assert_eq!(read(&["--track"]), Invocation::Run(Options { track_only: true, ..plain }));
    for (argument, action) in [
        ("--install-tracker", ServiceAction::Install),
        ("--uninstall-tracker", ServiceAction::Uninstall),
        ("--tracker-status", ServiceAction::Status),
    ] {
        let options = Options { service_action: Some(action), ..plain };
        assert_eq!(read(&[argument]), Invocation::Run(options));
    }
    for (argument, action) in [
        ("--seed-demo-history", DemoHistoryAction::Seed),
        ("--clear-demo-history", DemoHistoryAction::Clear),
    ] {
        let options = Options { demo_history_action: Some(action), ..plain };
        assert_eq!(read(&[argument]), Invocation::Run(options));
    }
    assert_eq!(
        read(&["--interval", "2.5", "--once"]),
        Invocation::Run(Options { once: true, interval: 2_500_000_000, ..plain })
    );
    assert_eq!(read(&["--version"]), Invocation::Version);
    assert_eq!(read(&["-V"]), Invocation::Version);
    assert_eq!(read(&["--help"]), Invocation::Help);
    assert_eq!(read(&["-h"]), Invocation::Help);
    assert_eq!(read(&["--interval", "0.1"]), Invocation::Misuse);
    assert_eq!(read(&["--interval"]), Invocation::Misuse);
    assert_eq!(read(&["--unknown"]), Invocation::Misuse);
    assert!(USAGE.starts_with("Usage: ghostty-top [OPTIONS]"));
}

fn parts(place: &Place) -> String {
    place.parts.join("/")
}

#[test]
fn files_are_kept_where_the_platform_keeps_them() {
    let mac = default_data_dir(Platform::MacOs, Some("/Users/me"), Some("/data")).unwrap();
    assert_eq!(mac.base, Base::Home);
    assert_eq!(parts(&mac), "Library/Application Support/ghostty-top");
    let linux = default_usage_path(Platform::Linux, Some("/home/me"), Some("/data")).unwrap();
    assert_eq!(linux.base, Base::DataHome);
    assert_eq!(parts(&linux), "ghostty-top/usage.tsv");
    let unset = default_usage_path(Platform::Linux, Some("/home/me"), Some("")).unwrap();
    assert_eq!(unset.base, Base::Home);
    assert_eq!(parts(&unset), ".local/share/ghostty-top/usage.tsv");
    assert!(default_usage_path(Platform::Linux, None, None).is_none());
    assert!(default_data_dir(Platform::MacOs, None, Some("/data")).is_none());
    let agent = launch_agent_path(Some("/Users/me")).unwrap();
    assert_eq!(
        parts(&agent),
        format!("Library/LaunchAgents/{LAUNCH_AGENT_LABEL}.plist")
    );
    assert!(launch_agent_path(None).is_none());
}

fn bytes_as_floats(kib: u64) -> String {
    let bytes = kib as f64 * 1024.0;
    if bytes >= 1024.0 * 1024.0 * 1024.0 {
        format!("{:.1} GiB", bytes / (1024.0 * 1024.0 * 1024.0))
    } else if bytes >= 1024.0 * 1024.0 {
        format!("{:.1} MiB", bytes / (1024.0 * 1024.0))
    } else {
        format!("{:.0} KiB", bytes / 1024.0)
    }
}

fn compact_as_floats(kib: i64) -> String {
    let absolute = kib.unsigned_abs() as f64;
    let sign = if kib >= 0 { "+" } else { "-" };
    if absolute >= 1024.0 * 1024.0 {
        format!("{sign}{:.1}GiB", absolute / (1024.0 * 1024.0))
    } else if absolute >= 1024.0 {
        format!("{sign}{:.0}MiB", absolute / 1024.0)
    } else {
        format!("{sign}{absolute:.0}KiB")
    }
}

/// Numbers spread over all magnitudes.
fn spread() -> Vec<u64> {
    let mut numbers = vec![0, 1, u64::MAX, u64::MAX - 1];
    let mut state = 0x9e37_79b9_7f4a_7c15_u64;
    for bits in 1..64 {
        let power = 1_u64 << bits;
        numbers.extend([power - 1, power, power + 1, power + power / 2]);
        for _ in 0..200 {
            state ^= state << 13;
            state ^= state >> 7;
            state ^= state << 17;
            numbers.push(state >> (63 - bits));
        }
    }
    numbers
}

#[test]
fn sizes_read_as_floating_point_writes_them() {
    assert_eq!(human_bytes(512), "512 KiB");
    assert_eq!(human_bytes(1536), "1.5 MiB");
    assert_eq!(human_bytes(3 * 1024 * 1024), "3.0 GiB");
    for kib in spread() {
        assert_eq!(human_bytes(kib), bytes_as_floats(kib), "{kib}");
        let change = kib as i64;
        assert_eq!(compact_signed_kib(change), compact_as_floats(change), "{change}");
        let sign = if change >= 0 { "+" } else { "-" };
        assert_eq!(
            signed_human_kib(change),
            format!("{sign}{}", bytes_as_floats(change.unsigned_abs()))
        );
    }
    for kib in 0..20_000 {
        assert_eq!(human_bytes(kib), bytes_as_floats(kib), "{kib}");
        assert_eq!(compact_signed_kib(-(kib as i64)), compact_as_floats(-(kib as i64)), "{kib}");
    }
}

#[test]
fn shares_read_as_floating_point_writes_them() {
    assert_eq!(share(1, 8), "12.5");
    assert_eq!(share(0, 0), "0.0");
    assert_eq!(share(7, 7), "100.0");
    for whole in 1..300_u64 {
        for part in 0..=whole {
            let float = part as f64 / whole as f64 * 100.0;
            assert_eq!(share(part, whole), format!("{float:.1}"), "{part} of {whole}");
        }
    }
    let numbers = spread();
    for pair in numbers.windows(2) {
        let (part, whole) = (pair[0].min(pair[1]), pair[0].max(pair[1]));
        if whole > 0 {
            let float = part as f64 / whole as f64 * 100.0;
            assert_eq!(share(part, whole), format!("{float:.1}"), "{part} of {whole}");
        }
    }
}

#[test]
fn durations_are_told_in_hours_and_minutes() {
    assert_eq!(human_duration(0), "0m");
    assert_eq!(human_duration(45), "<1m");
    assert_eq!(human_duration(60), "1m");
    assert_eq!(human_duration(3_600), "1h 00m");
    assert_eq!(human_duration(9_000), "2h 30m");
}

#[test]
fn blanks_are_the_blanks_of_the_language() {
    for code in 0..=0x10_ffff_u32 {
        if let Some(character) = char::from_u32(code) {
            assert_eq!(space(character), character.is_whitespace(), "{code:x}");
        }
    }
}

#[test]
fn text_is_taken_apart() {
    for text in ["", "a", "a,b", ",a,,b,", "日,本"] {
        assert_eq!(split(text, ','), text.split(',').collect::<Vec<_>>());
        assert_eq!(split_up_to(text, ',', 2), text.splitn(2, ',').collect::<Vec<_>>());
    }
    for text in ["", "a", "a\n", "a\nb", "a\r\nb\r", "\n\n", "\ra\n"] {
        assert_eq!(split_lines(text), text.lines().collect::<Vec<_>>(), "{text:?}");
    }
    for text in ["", " ", " a ", "a\u{2003}b c", "\u{85}x\n"] {
        assert_eq!(split_words(text), text.split_whitespace().collect::<Vec<_>>());
        assert_eq!(trim(text), text.trim());
        assert_eq!(trim_end(text), text.trim_end());
    }
    assert_eq!(strip_prefix("abc", "ab").as_deref(), Some("c"));
    assert_eq!(strip_prefix("abc", "b"), None);
    assert_eq!(after_first("key = value = x", " = ").as_deref(), Some("value = x"));
    assert!(starts_with("abc", "ab") && !starts_with("abc", "bc"));
    assert!(ends_with("abc", "bc") && !ends_with("abc", "ab"));
    assert!(contains_char("abc", 'b') && !contains_char("abc", 'd'));
    let words = ["", "a", "ab", "b", "\u{e9}", "日"];
    for left in words {
        for right in words {
            assert_eq!(same_text(left, right), left == right);
            assert_eq!(text_precedes(left, right), left < right);
        }
    }
}

#[test]
fn numbers_are_read_as_the_language_reads_them() {
    for text in [
        "", "0", "7", "+7", "-7", "-0", "007", "+", "-", "1 ", " 1", "1_0", "65535", "65536",
        "2147483647", "2147483648", "-2147483648", "-2147483649", "4294967295", "4294967296",
        "9223372036854775807", "9223372036854775808", "-9223372036854775808",
        "-9223372036854775809", "18446744073709551615", "18446744073709551616", "٣",
    ] {
        assert_eq!(parse_u64(text), text.parse().ok(), "{text}");
        assert_eq!(parse_u32(text), text.parse().ok(), "{text}");
        assert_eq!(parse_u16(text), text.parse().ok(), "{text}");
        assert_eq!(parse_usize(text), text.parse().ok(), "{text}");
        assert_eq!(parse_i64(text), text.parse().ok(), "{text}");
        assert_eq!(parse_i32(text), text.parse().ok(), "{text}");
    }
    assert_eq!(write_decimal(u64::MAX), u64::MAX.to_string());
    assert_eq!(write_signed(i64::MIN), i64::MIN.to_string());
    assert_eq!(write_zero_padded(7, 2), "07");
    assert_eq!(write_zero_padded(-7, 4), format!("{:04}", -7));
    assert_eq!(align_right("日本", 4), "  日本");
    assert_eq!(align_left("日本", 4), "日本  ");
    assert_eq!(align_left("long", 2), "long");
}

#[test]
fn uninstalling_removes_the_service_and_keeps_the_history() {
    let files = uninstall_login_tracker(Platform::MacOs, Some("/Users/me")).unwrap();
    let paths: Vec<String> = files.iter().map(|place| place.parts.join("/")).collect();
    assert_eq!(
        paths,
        [
            format!("Library/LaunchAgents/{LAUNCH_AGENT_LABEL}.plist"),
            "Library/Application Support/ghostty-top/bin/ghostty-top".to_string(),
        ]
    );
    let history = default_usage_path(Platform::MacOs, Some("/Users/me"), None).unwrap();
    assert!(!paths.contains(&history.parts.join("/")));
    assert_eq!(
        uninstall_login_tracker(Platform::MacOs, None).unwrap_err(),
        "could not find the home directory"
    );
}
