use ghostty_top::calendar::{
    date_to_day_number, day_number_to_date, friendly_date, month_header, month_name,
    selection_days, selection_label, sunday_index, visible_weeks, weekday_name,
    CALENDAR_CELL_WIDTH, CALENDAR_GUTTER, CALENDAR_MAX_WEEKS, CALENDAR_MIN_WEEKS,
};
use ghostty_top::chart::{
    bar_eighths, bar_glyph, maximum, sum_seconds, usage_level, usage_peak, weekly_usage, UsageScale,
};
use ghostty_top::civil::{checked_days_from_civil, civil_from_day_number, days_from_civil};

#[test]
fn calendar_dates_round_trip() {
    for date in ["1970-01-01", "2024-02-29", "2026-08-06", "2030-12-31"] {
        let number = date_to_day_number(date).unwrap();
        assert_eq!(day_number_to_date(number), date);
    }
    assert_eq!(friendly_date("2026-08-06"), "Thu, Aug 6, 2026");
}

#[test]
fn day_numbers_count_from_the_epoch() {
    assert_eq!(days_from_civil(1970, 1, 1), 0);
    assert_eq!(days_from_civil(2000, 3, 1), 11_017);
    assert_eq!(days_from_civil(1969, 12, 31), -1);
    assert_eq!(civil_from_day_number(11_016), (2000, 2, 29));
    assert_eq!(checked_days_from_civil(i64::MAX, 1, 1), None);
    for number in -800_000..800_000 {
        let (year, month, day) = civil_from_day_number(number);
        assert_eq!(days_from_civil(year, month, day), number);
    }
}

#[test]
fn what_is_no_date_has_no_number() {
    for text in ["", "not-a-date", "2026-08", "2026-x-06", "9223372036854775807-01-01"] {
        assert_eq!(date_to_day_number(text), None, "{text}");
    }
    // Parts that are no numbers are passed over, and months run on.
    assert_eq!(date_to_day_number("x-2026-08-06"), date_to_day_number("2026-08-06"));
    assert_eq!(date_to_day_number("2026-02-30"), date_to_day_number("2026-03-02"));
    assert_eq!(friendly_date("not-a-date"), "not-a-date");
}

#[test]
fn calendar_rows_start_on_sunday_and_end_with_today() {
    assert_eq!(sunday_index(date_to_day_number("1970-01-01").unwrap()), 4);
    assert_eq!(sunday_index(date_to_day_number("2026-08-02").unwrap()), 0);
    assert_eq!(sunday_index(date_to_day_number("2026-08-06").unwrap()), 4);

    let today = date_to_day_number("2026-08-06").unwrap();
    let weeks = 12_i64;
    let start = today - sunday_index(today) - (weeks - 1) * 7;
    assert_eq!(sunday_index(start), 0);
    // Today sits in the final column, so the grid never shows a stale week.
    assert!((today - start) >= (weeks - 1) * 7 && (today - start) < weeks * 7);
}

#[test]
fn month_labels_sit_above_the_week_they_begin_in() {
    // 2026-01-04 is a Sunday, so February starts exactly four columns in.
    let start = date_to_day_number("2026-01-04").unwrap();
    let header = month_header(start, 12);
    assert!(header.starts_with(&format!("{}Jan", " ".repeat(CALENDAR_GUTTER))));
    let february = CALENDAR_GUTTER + 4 * CALENDAR_CELL_WIDTH;
    assert!(header[february..].starts_with("Feb"));

    // A partial leading month is left unlabelled rather than crowding the next one.
    let mid_month = date_to_day_number("2026-01-25").unwrap();
    let header = month_header(mid_month, 12);
    assert!(header.trim_start().starts_with("Feb"));

    // A range spanning no boundary still names the month it covers.
    let within = date_to_day_number("2026-03-08").unwrap();
    assert_eq!(month_header(within, 3).trim(), "Mar");
}

#[test]
fn months_and_weekdays_have_names() {
    assert_eq!(month_name(1), "Jan");
    assert_eq!(month_name(12), "Dec");
    assert_eq!(weekday_name(0), "Mon");
    assert_eq!(weekday_name(6), "Sun");
}

#[test]
fn shading_buckets_split_the_peak_into_quarters() {
    assert_eq!(usage_level(0, 100), 0);
    assert_eq!(usage_level(1, 100), 1);
    assert_eq!(usage_level(25, 100), 1);
    assert_eq!(usage_level(26, 100), 2);
    assert_eq!(usage_level(75, 100), 3);
    assert_eq!(usage_level(100, 100), 4);
    // A quiet stretch stays dim instead of maxing out the ramp.
    assert_eq!(usage_peak(&[600], UsageScale::Daily), 4 * 3_600);
    assert_eq!(usage_level(600, usage_peak(&[600], UsageScale::Daily)), 1);
}

#[test]
fn floors_differ_by_scale() {
    assert_eq!(UsageScale::Daily.brightness_floor(), 14_400);
    assert_eq!(UsageScale::Weekly.brightness_floor(), 72_000);
    assert_eq!(UsageScale::Cumulative.brightness_floor(), 0);
    assert_eq!(usage_peak(&[20_000, 5], UsageScale::Daily), 20_000);
    assert_eq!(usage_peak(&[], UsageScale::Cumulative), 0);
    assert_eq!(UsageScale::all().map(|scale| scale.label()), ["daily", "weekly", "cumulative"]);
}

#[test]
fn charts_total_each_week_and_run_them_up() {
    let daily: Vec<u64> = (1..=21).collect();
    // 1..7, 8..14, 15..21
    assert_eq!(weekly_usage(&daily, UsageScale::Weekly), [28, 77, 126]);
    assert_eq!(weekly_usage(&daily, UsageScale::Cumulative), [28, 105, 231]);
}

#[test]
fn sums_stop_at_the_largest_number() {
    assert_eq!(sum_seconds(&[u64::MAX, 1]), u64::MAX);
    assert_eq!(sum_seconds(&[1, 2, 3]), 6);
    assert_eq!(maximum(&[4, 9, 2]), 9);
    assert_eq!(maximum(&[]), 0);
    assert_eq!(weekly_usage(&[u64::MAX, 1, 0, 0, 0, 0, 0, 5], UsageScale::Cumulative), [u64::MAX; 2]);
}

#[test]
fn bars_scale_to_the_peak_and_keep_quiet_weeks_visible() {
    let rows = 4;
    let full = rows * 8;
    assert_eq!(bar_eighths(0, 100, rows), 0);
    assert_eq!(bar_eighths(100, 100, rows), full);
    assert_eq!(bar_eighths(50, 100, rows), full / 2);
    // Rounds to nothing on its own, but never disappears entirely.
    assert_eq!(bar_eighths(1, 100_000, rows), 1);

    // A bar fills whole rows from the baseline up, then a partial glyph.
    assert_eq!(bar_glyph(full, rows - 1), "█");
    assert_eq!(bar_glyph(8 + 4, 0), "█");
    assert_eq!(bar_glyph(8 + 4, 1), "▄");
    assert_eq!(bar_glyph(8 + 4, 2), " ");
}

#[test]
fn a_chart_column_selects_its_whole_week() {
    assert_eq!(selection_days("2026-08-02", false), ["2026-08-02"]);
    assert_eq!(
        selection_days("2026-08-02", true),
        [
            "2026-08-02",
            "2026-08-03",
            "2026-08-04",
            "2026-08-05",
            "2026-08-06",
            "2026-08-07",
            "2026-08-08",
        ]
    );
    assert_eq!(selection_label("2026-08-02", false), "Sun, Aug 2, 2026");
    assert_eq!(selection_label("2026-08-02", true), "Aug 2 – Aug 8, 2026");
}

#[test]
fn what_is_no_date_covers_no_days() {
    assert!(selection_days("not-a-date", false).is_empty());
    assert!(selection_days("not-a-date", true).is_empty());
    assert_eq!(selection_label("not-a-date", true), "not-a-date");
}

#[test]
fn calendar_width_adapts_but_never_exceeds_a_year() {
    assert_eq!(visible_weeks(100), 47);
    assert_eq!(visible_weeks(200), CALENDAR_MAX_WEEKS);
    assert_eq!(visible_weeks(10), CALENDAR_MIN_WEEKS);
}

#[test]
fn no_two_days_share_a_date() {
    // From the year before the first to the one after it, and around the largest.
    let first = days_from_civil(-1, 1, 1);
    let mut dates: Vec<String> = (first..first + 1_100).map(day_number_to_date).collect();
    dates.extend((i64::MAX - 50..i64::MAX).map(day_number_to_date));
    assert!(dates.contains(&"-001-12-31".to_string()));
    let count = dates.len();
    dates.sort();
    dates.dedup();
    assert_eq!(dates.len(), count);
}
