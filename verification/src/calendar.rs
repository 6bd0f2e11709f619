//! Dates as text, and the weeks that the usage calendar lays them out in.
use vstd::prelude::*;
use vstd::string::*;
use crate::civil;
use crate::civil::{checked_days_from_civil, civil_from_day_number};
use crate::number;
use crate::number::{parse_i64, repeat_char, write_signed, write_zero_padded};
use crate::text;
use crate::text::{is_blank, split};

verus! {

/// Columns left of the first week of the calendar.
pub const CALENDAR_GUTTER: usize = 4;

/// Columns that each week of the calendar takes.
pub const CALENDAR_CELL_WIDTH: usize = 2;

/// Fewest weeks that the calendar shows.
pub const CALENDAR_MIN_WEEKS: usize = 4;

/// Most weeks that the calendar shows.
pub const CALENDAR_MAX_WEEKS: usize = 53;

/// Short name of a month, January being 1.
pub open spec fn month_text(month: int) -> Seq<char> {
    if month == 1 {
        "Jan"@
    } else if month == 2 {
        "Feb"@
    } else if month == 3 {
        "Mar"@
    } else if month == 4 {
        "Apr"@
    } else if month == 5 {
        "May"@
    } else if month == 6 {
        "Jun"@
    } else if month == 7 {
        "Jul"@
    } else if month == 8 {
        "Aug"@
    } else if month == 9 {
        "Sep"@
    } else if month == 10 {
        "Oct"@
    } else if month == 11 {
        "Nov"@
    } else {
        "Dec"@
    }
}

/// Short name of a weekday, Monday being 0.
pub open spec fn weekday_text(weekday: int) -> Seq<char> {
    if weekday == 0 {
        "Mon"@
    } else if weekday == 1 {
        "Tue"@
    } else if weekday == 2 {
        "Wed"@
    } else if weekday == 3 {
        "Thu"@
    } else if weekday == 4 {
        "Fri"@
    } else if weekday == 5 {
        "Sat"@
    } else {
        "Sun"@
    }
}

/// Short name of a month, January being 1.
pub fn month_name(month: i64) -> (name: &'static str)
    requires
        1 <= month <= 12,
    ensures
        name@ == month_text(month as int),
{
    if month == 1 {
        "Jan"
    } else if month == 2 {
        "Feb"
    } else if month == 3 {
        "Mar"
    } else if month == 4 {
        "Apr"
    } else if month == 5 {
        "May"
    } else if month == 6 {
        "Jun"
    } else if month == 7 {
        "Jul"
    } else if month == 8 {
        "Aug"
    } else if month == 9 {
        "Sep"
    } else if month == 10 {
        "Oct"
    } else if month == 11 {
        "Nov"
    } else {
        "Dec"
    }
}

/// Short name of a weekday, Monday being 0.
pub fn weekday_name(weekday: i64) -> (name: &'static str)
    requires
        0 <= weekday <= 6,
    ensures
        name@ == weekday_text(weekday as int),
{
    if weekday == 0 {
        "Mon"
    } else if weekday == 1 {
        "Tue"
    } else if weekday == 2 {
        "Wed"
    } else if weekday == 3 {
        "Thu"
    } else if weekday == 4 {
        "Fri"
    } else if weekday == 5 {
        "Sat"
    } else {
        "Sun"
    }
}

/// The parts that read as numbers, in order.
pub open spec fn numbers_in(parts: Seq<Seq<char>>) -> Seq<i64>
    decreases parts.len(),
{
    if parts.len() == 0 {
        seq![]
    } else {
        let before = numbers_in(parts.drop_last());
        match number::i64_of(parts.last()) {
            Some(n) => before.push(n),
            None => before,
        }
    }
}

/// The numbers between the dashes of a date.
pub open spec fn date_fields(day: Seq<char>) -> Seq<i64> {
    numbers_in(text::pieces(day, '-'))
}

/// The day number that a date stands for: its first three numbers are the year,
/// the month and the day. Text without them, or with a day number that an `i64`
/// cannot hold, is no date.
pub open spec fn date_number(day: Seq<char>) -> Option<i64> {
    let fields = date_fields(day);
    if fields.len() < 3 {
        None
    } else {
        let number = civil::day_number(fields[0] as int, fields[1] as int, fields[2] as int);
        if i64::MIN <= number <= i64::MAX {
            Some(number as i64)
        } else {
            None
        }
    }
}

/// A date as `year-month-day` with leading zeros.
pub open spec fn date_text(number: int) -> Seq<char> {
    let (year, month, day) = civil::civil_date(number);
    number::zero_padded(year, 4) + "-"@ + number::zero_padded(month, 2) + "-"@ + number::zero_padded(day, 2)
}

/// Reads the day number of a date.
pub fn date_to_day_number(day: &str) -> (number: Option<i64>)
    ensures
        number == date_number(day@),
{
    let parts = split(day, '-');
    let mut fields: Vec<i64> = Vec::new();
    let mut i: usize = 0;
    assert(text::texts(parts@).take(0) =~= Seq::<Seq<char>>::empty());
    while i < parts.len()
        invariant
            i <= parts@.len(),
            fields@ == numbers_in(text::texts(parts@).take(i as int)),
        decreases parts@.len() - i,
    {
        let ghost all = text::texts(parts@);
        assert(all.take(i + 1).drop_last() == all.take(i as int));
        assert(all.take(i + 1).last() == parts@[i as int]@);
        match parse_i64(parts[i].as_str()) {
            Some(n) => fields.push(n),
            None => {},
        }
        i += 1;
    }
    assert(text::texts(parts@).take(i as int) == text::texts(parts@));
    if fields.len() < 3 {
        return None;
    }
    checked_days_from_civil(fields[0], fields[1], fields[2])
}

/// The date with the given day number.
pub fn day_number_to_date(number: i64) -> (day: String)
    ensures
        day@ == date_text(number as int),
{
    let (year, month, date) = civil_from_day_number(number);
    let mut day = write_zero_padded(year, 4);
    day.append("-");
    day.append(write_zero_padded(month, 2).as_str());
    day.append("-");
    day.append(write_zero_padded(date, 2).as_str());
    day
}

/// Leading zeros do not change what digits are worth.
proof fn lemma_leading_zeros(n: int, s: Seq<char>)
    ensures
        number::digits_value(number::repeated('0', n) + s) == number::digits_value(s),
    decreases s.len(), n,
{
    let all = number::repeated('0', n) + s;
    if s.len() > 0 {
        lemma_leading_zeros(n, s.drop_last());
        assert(all.drop_last() == number::repeated('0', n) + s.drop_last());
    } else if n > 0 {
        assert(all.drop_last() == number::repeated('0', n - 1) + s);
        lemma_leading_zeros(n - 1, s);
    } else {
        assert(all == s);
    }
}

/// Digits with zeros in front of them are digits of the same worth.
proof fn lemma_padded_digits(n: nat, zeros: int)
    ensures
        number::all_digits(number::repeated('0', zeros) + number::decimal(n)),
        number::digits_value(number::repeated('0', zeros) + number::decimal(n)) == n,
{
    let digits = number::decimal(n);
    let text = number::repeated('0', zeros) + digits;
    number::lemma_decimal(n);
    lemma_leading_zeros(zeros, digits);
    assert forall|i: int| 0 <= i < text.len() implies number::is_digit(#[trigger] text[i]) by {
        let front = number::repeated('0', zeros);
        if i >= front.len() {
            assert(text[i] == digits[i - front.len()]);
        }
    }
}

/// A zero-padded number that is not negative reads back as itself.
proof fn lemma_zero_padded(n: int, width: int)
    requires
        0 <= n <= i64::MAX,
    ensures
        number::all_digits(number::zero_padded(n, width)),
        number::i64_of(number::zero_padded(n, width)) == Some(n as i64),
{
    let digits = number::decimal(n as nat);
    let text = number::zero_padded(n, width);
    number::lemma_decimal(n as nat);
    lemma_padded_digits(n as nat, width - digits.len());
    assert(number::is_digit(text[0]));
}

/// Splitting three dash-free parts joined by dashes gives the parts back.
proof fn lemma_three_parts(a: Seq<char>, b: Seq<char>, c: Seq<char>)
    requires
        !a.contains('-'),
        !b.contains('-'),
        !c.contains('-'),
    ensures
        text::pieces(a + "-"@ + b + "-"@ + c, '-') == seq![a, b, c],
{
    reveal_strlit("-");
    let all = a + "-"@ + b + "-"@ + c;
    let rest = b + "-"@ + c;
    assert forall|i: int| 0 <= i < a.len() implies all[i] != '-' by {
        assert(all[i] == a[i]);
    }
    text::lemma_find_is(all, '-', a.len() as int);
    assert(all.take(a.len() as int) == a);
    assert(all.skip(a.len() as int + 1) == rest);
    assert forall|i: int| 0 <= i < b.len() implies rest[i] != '-' by {
        assert(rest[i] == b[i]);
    }
    text::lemma_find_is(rest, '-', b.len() as int);
    assert(rest.take(b.len() as int) == b);
    assert(rest.skip(b.len() as int + 1) == c);
    text::lemma_find_is(c, '-', c.len() as int);
    assert(text::pieces(c, '-') == seq![c]);
    assert(text::pieces(rest, '-') == seq![b, c]);
    assert(text::pieces(all, '-') == seq![a] + seq![b, c]);
}

/// Writing a day number as a date and reading it again gives the same number,
/// for every day from the year 0 on.
pub proof fn law_date_round_trip(number: i64)
    requires
        civil::civil_date(number as int).0 >= 0,
    ensures
        date_number(date_text(number as int)) == Some(number),
{
    civil::law_civil_date(number as int);
    let (year, month, day) = civil::civil_date(number as int);
    lemma_year_fits(number);
    lemma_zero_padded(year, 4);
    lemma_zero_padded(month, 2);
    lemma_zero_padded(day, 2);
    let a = number::zero_padded(year, 4);
    let b = number::zero_padded(month, 2);
    let c = number::zero_padded(day, 2);
    assert(!a.contains('-'));
    assert(!b.contains('-'));
    assert(!c.contains('-'));
    lemma_three_parts(a, b, c);
    let parts = seq![a, b, c];
    assert(parts.drop_last() == seq![a, b]);
    assert(seq![a, b].drop_last() == seq![a]);
    assert(seq![a].drop_last() =~= Seq::<Seq<char>>::empty());
    assert(numbers_in(Seq::<Seq<char>>::empty()) =~= Seq::<i64>::empty());
    assert(numbers_in(seq![a]) =~= seq![year as i64]);
    assert(numbers_in(seq![a, b]) =~= seq![year as i64, month as i64]);
    assert(numbers_in(parts) =~= seq![year as i64, month as i64, day as i64]);
}

/// The year, the month and the day as a date has them, the year without its sign.
spec fn date_parts(number: int) -> Seq<Seq<char>> {
    let (year, month, day) = civil::civil_date(number);
    let written = number::zero_padded(year, 4);
    seq![
        if year < 0 {
            written.skip(1)
        } else {
            written
        },
        number::zero_padded(month, 2),
        number::zero_padded(day, 2),
    ]
}

/// The parts of a date are digits that are worth the year, the month and the day.
proof fn lemma_date_parts(number: int)
    ensures
        ({
            let (year, month, day) = civil::civil_date(number);
            let parts = date_parts(number);
            let joined = parts[0] + "-"@ + parts[1] + "-"@ + parts[2];
            &&& number::all_digits(parts[0]) && parts[0].len() > 0
            &&& number::all_digits(parts[1])
            &&& number::all_digits(parts[2])
            &&& number::digits_value(parts[0]) == (if year < 0 {
                -year
            } else {
                year
            })
            &&& number::digits_value(parts[1]) == month
            &&& number::digits_value(parts[2]) == day
            &&& text::pieces(joined, '-') == parts
            &&& date_text(number) == (if year < 0 {
                "-"@ + joined
            } else {
                joined
            })
        }),
{
    civil::law_civil_date(number);
    let (year, month, day) = civil::civil_date(number);
    let parts = date_parts(number);
    let size = if year < 0 {
        (-year) as nat
    } else {
        year as nat
    };
    let zeros = if year < 0 {
        3 - number::decimal(size).len()
    } else {
        4 - number::decimal(size).len()
    };
    number::lemma_decimal(size);
    lemma_padded_digits(size, zeros);
    lemma_padded_digits(month as nat, 2 - number::decimal(month as nat).len());
    lemma_padded_digits(day as nat, 2 - number::decimal(day as nat).len());
    assert(parts[0] =~= number::repeated('0', zeros) + number::decimal(size));
    assert(!parts[0].contains('-'));
    assert(!parts[1].contains('-'));
    assert(!parts[2].contains('-'));
    lemma_three_parts(parts[0], parts[1], parts[2]);
    assert(parts =~= seq![parts[0], parts[1], parts[2]]);
    reveal_strlit("-");
    if year < 0 {
        assert(number::zero_padded(year, 4) =~= "-"@ + parts[0]);
        assert(date_text(number) =~= "-"@ + (parts[0] + "-"@ + parts[1] + "-"@ + parts[2]));
    }
}

/// No two days are written as the same date.
pub proof fn law_dates_differ(one: int, other: int)
    requires
        one != other,
    ensures
        date_text(one) != date_text(other),
{
    civil::law_civil_date(one);
    civil::law_civil_date(other);
    lemma_date_parts(one);
    lemma_date_parts(other);
    reveal_strlit("-");
    if date_text(one) == date_text(other) {
        let a = date_parts(one);
        let b = date_parts(other);
        let left = a[0] + "-"@ + a[1] + "-"@ + a[2];
        let right = b[0] + "-"@ + b[1] + "-"@ + b[2];
        let first = date_text(one)[0];
        assert(number::is_digit(a[0][0]) && number::is_digit(b[0][0]));
        assert(left[0] == a[0][0] && right[0] == b[0][0]);
        assert((first == '-') == (civil::civil_date(one).0 < 0));
        assert((first == '-') == (civil::civil_date(other).0 < 0));
        if first == '-' {
            assert(("-"@ + left).skip(1) =~= left);
            assert(("-"@ + right).skip(1) =~= right);
        }
        assert(left == right);
        assert(a == b);
    }
}

/// A date has nothing in it but digits and dashes.
pub proof fn lemma_date_chars(number: int, i: int)
    requires
        0 <= i < date_text(number).len(),
    ensures
        number::is_digit(date_text(number)[i]) || date_text(number)[i] == '-',
{
    lemma_date_parts(number);
    reveal_strlit("-");
    let parts = date_parts(number);
    let a = parts[0];
    let b = parts[1];
    let c = parts[2];
    let joined = a + "-"@ + b + "-"@ + c;
    let k = if civil::civil_date(number).0 < 0 {
        i - 1
    } else {
        i
    };
    if k >= 0 {
        assert(date_text(number)[i] == joined[k]);
        if k < a.len() {
            assert(joined[k] == a[k]);
        } else if a.len() < k < a.len() + 1 + b.len() {
            assert(joined[k] == b[k - a.len() - 1]);
        } else if k > a.len() + 1 + b.len() {
            assert(joined[k] == c[k - a.len() - 2 - b.len()]);
        }
    }
}

/// The year of a day number is far smaller than the number.
proof fn lemma_year_fits(number: i64)
    ensures
        i64::MIN <= civil::civil_date(number as int).0 <= i64::MAX,
{
    civil::law_civil_date(number as int);
    let (year, month, day) = civil::civil_date(number as int);
    let march = civil::march_year(year, month);
    assert(365 * march - 2 <= civil::days_to_march(march) - march / 4 + march / 100 - march / 400 + 2);
}

/// Days past the last multiple of a week.
fn weekday_of(days: i128) -> (weekday: i64)
    ensures
        weekday == days as int % 7,
{
    let rest: i128 = days % 7;
    if rest < 0 {
        (rest + 7) as i64
    } else {
        rest as i64
    }
}

/// A date in words; text that is no date stays as it is.
pub open spec fn friendly_text(day: Seq<char>) -> Seq<char> {
    match date_number(day) {
        None => day,
        Some(number) => {
            let (year, month, date) = civil::civil_date(number as int);
            weekday_text((number + 3) % 7) + ", "@ + month_text(month) + " "@ + number::signed_decimal(date)
                + ", "@ + number::signed_decimal(year)
        },
    }
}

/// A date in words, such as `Thu, Aug 6, 2026`.
pub fn friendly_date(day: &str) -> (text: String)
    ensures
        text@ == friendly_text(day@),
{
    match date_to_day_number(day) {
        None => day.to_owned(),
        Some(number) => {
            let (year, month, date) = civil_from_day_number(number);
            let weekday: i64 = weekday_of(number as i128 + 3);
            let mut text = weekday_name(weekday).to_owned();
            text.append(", ");
            text.append(month_name(month));
            text.append(" ");
            text.append(write_signed(date).as_str());
            text.append(", ");
            text.append(write_signed(year).as_str());
            text
        },
    }
}

/// Day of the week with Sunday as 0, matching the calendar's row order.
pub open spec fn weekday_from_sunday(number: int) -> int {
    (number + 4) % 7
}

/// Day of the week with Sunday as 0, matching the calendar's row order.
pub fn sunday_index(day_number: i64) -> (index: i64)
    ensures
        index == weekday_from_sunday(day_number as int),
{
    weekday_of(day_number as i128 + 4)
}

/// The days that a selected column covers: one day in the grid, the whole week
/// from that day on in a chart, and none where the text is no date or its week
/// runs past the last day number.
pub open spec fn covered_days(anchor: Seq<char>, by_week: bool) -> Seq<Seq<char>> {
    match date_number(anchor) {
        None => seq![],
        Some(number) => if !by_week {
            seq![anchor]
        } else if number + 6 > i64::MAX {
            seq![]
        } else {
            Seq::new(7, |i: int| date_text(number + i))
        },
    }
}

/// The days that a selected column covers: one day in the grid, a whole week in
/// a chart.
pub fn selection_days(anchor: &str, by_week: bool) -> (days: Vec<String>)
    ensures
        text::texts(days@) == covered_days(anchor@, by_week),
{
    let mut days: Vec<String> = Vec::new();
    match date_to_day_number(anchor) {
        None => {},
        Some(number) => {
            if !by_week {
                days.push(anchor.to_owned());
            } else if number <= i64::MAX - 6 {
                let mut i: i64 = 0;
                while i < 7
                    invariant
                        0 <= i <= 7,
                        number <= i64::MAX - 6,
                        text::texts(days@) == Seq::new(i as nat, |k: int| date_text(number + k)),
                    decreases 7 - i,
                {
                    let ghost before = text::texts(days@);
                    days.push(day_number_to_date(number + i));
                    i += 1;
                    assert(text::texts(days@) == before.push(date_text(number + i - 1)));
                }
            }
        },
    }
    days
}

/// What a selected column is called.
pub open spec fn selection_text(anchor: Seq<char>, by_week: bool) -> Seq<char> {
    if !by_week {
        friendly_text(anchor)
    } else {
        match date_number(anchor) {
            None => anchor,
            Some(number) => if number + 6 > i64::MAX {
                anchor
            } else {
                let (_, first_month, first_day) = civil::civil_date(number as int);
                let (year, last_month, last_day) = civil::civil_date(number + 6);
                month_text(first_month) + " "@ + number::signed_decimal(first_day) + " \u{2013} "@
                    + month_text(last_month) + " "@ + number::signed_decimal(last_day) + ", "@
                    + number::signed_decimal(year)
            },
        }
    }
}

/// What a selected column is called: its date, or the first and last day of its
/// week such as `Aug 2 \u{2013} Aug 8, 2026`.
pub fn selection_label(anchor: &str, by_week: bool) -> (label: String)
    ensures
        label@ == selection_text(anchor@, by_week),
{
    if !by_week {
        return friendly_date(anchor);
    }
    match date_to_day_number(anchor) {
        None => anchor.to_owned(),
        Some(number) => {
            if number > i64::MAX - 6 {
                return anchor.to_owned();
            }
            let (_, first_month, first_day) = civil_from_day_number(number);
            let (year, last_month, last_day) = civil_from_day_number(number + 6);
            let mut label = month_name(first_month).to_owned();
            label.append(" ");
            label.append(write_signed(first_day).as_str());
            label.append(" \u{2013} ");
            label.append(month_name(last_month));
            label.append(" ");
            label.append(write_signed(last_day).as_str());
            label.append(", ");
            label.append(write_signed(year).as_str());
            label
        },
    }
}

/// Weeks that fit a terminal of `width` columns.
pub open spec fn weeks_shown(width: int) -> int {
    let fitting = if width > 5 {
        (width - 5) / 2
    } else {
        0
    };
    if fitting < 4 {
        4
    } else if fitting > 53 {
        53
    } else {
        fitting
    }
}

/// Weeks that fit the terminal, newest on the right, capped at a full year.
pub fn visible_weeks(width: usize) -> (weeks: usize)
    ensures
        weeks == weeks_shown(width as int),
{
    let fitting: usize = width.saturating_sub(CALENDAR_GUTTER + 1) / CALENDAR_CELL_WIDTH;
    if fitting < CALENDAR_MIN_WEEKS {
        CALENDAR_MIN_WEEKS
    } else if fitting > CALENDAR_MAX_WEEKS {
        CALENDAR_MAX_WEEKS
    } else {
        fitting
    }
}

/// The calendar never shows more than a year or less than four weeks, and fits
/// every terminal that has room for four weeks.
pub proof fn law_calendar_fits(width: int)
    ensures
        4 <= weeks_shown(width) <= 53,
        width >= 13 ==> CALENDAR_GUTTER + weeks_shown(width) * CALENDAR_CELL_WIDTH < width,
{
}

/// The first day of a calendar that shows `weeks` weeks up to `today`.
pub open spec fn grid_start(today: int, weeks: int) -> int {
    today - weekday_from_sunday(today) - (weeks - 1) * 7
}

/// The calendar begins on a Sunday, and today stands in its last column.
pub proof fn law_grid_start(today: int, weeks: int)
    requires
        weeks >= 1,
    ensures
        weekday_from_sunday(grid_start(today, weeks)) == 0,
        (weeks - 1) * 7 <= today - grid_start(today, weeks) < weeks * 7,
{
}

/// Whether the month of week `week` begins in it. The first week counts only
/// when its month really begins there.
pub open spec fn month_begins(start: int, week: int) -> bool {
    let (_, month, day) = civil::civil_date(start + week * 7);
    if week == 0 {
        day <= 7
    } else {
        civil::civil_date(start + (week - 1) * 7).1 != month
    }
}

/// The month names above the first `week` of `weeks` week columns.
pub open spec fn month_band(start: int, weeks: int, week: int) -> Seq<char>
    decreases week,
{
    if week <= 0 {
        number::repeated(' ', CALENDAR_GUTTER as int)
    } else {
        let band = month_band(start, weeks, week - 1);
        let column = CALENDAR_GUTTER + (week - 1) * CALENDAR_CELL_WIDTH;
        let label = month_text(civil::civil_date(start + (week - 1) * 7).1);
        if month_begins(start, week - 1) && column >= band.len() && column + label.len()
            <= CALENDAR_GUTTER + weeks * CALENDAR_CELL_WIDTH {
            band + number::repeated(' ', column - band.len()) + label
        } else {
            band
        }
    }
}

/// The line of month names above the calendar.
pub open spec fn month_line(start: int, weeks: int) -> Seq<char> {
    let band = month_band(start, weeks, weeks);
    if text::trimmed(band).len() == 0 {
        number::repeated(' ', CALENDAR_GUTTER as int) + month_text(civil::civil_date(start).1)
    } else {
        band
    }
}

/// Month names above the week columns they start in. A range that spans no
/// month boundary is headed by the month it lies in.
pub fn month_header(start: i64, weeks: usize) -> (header: String)
    requires
        CALENDAR_GUTTER + weeks * CALENDAR_CELL_WIDTH <= usize::MAX,
        weeks * 7 <= i64::MAX,
        start + weeks * 7 - 1 <= i64::MAX,
    ensures
        header@ == month_line(start as int, weeks as int),
{
    let grid_width: usize = CALENDAR_GUTTER + weeks * CALENDAR_CELL_WIDTH;
    let mut header = repeat_char(' ', CALENDAR_GUTTER);
    let mut length: usize = CALENDAR_GUTTER;
    let mut previous_month: i64 = 0;
    let mut week: usize = 0;
    while week < weeks
        invariant
            week <= weeks,
            grid_width == CALENDAR_GUTTER + weeks * CALENDAR_CELL_WIDTH,
            weeks * 7 <= i64::MAX,
            start + weeks * 7 - 1 <= i64::MAX,
            header@ == month_band(start as int, weeks as int, week as int),
            length == header@.len(),
            length <= grid_width,
            week > 0 ==> previous_month == civil::civil_date(start + (week - 1) * 7).1,
        decreases weeks - week,
    {
        let (_, month, day) = civil_from_day_number(start + week as i64 * 7);
        let starts_here: bool = if week == 0 {
            day <= 7
        } else {
            previous_month != month
        };
        previous_month = month;
        let column: usize = CALENDAR_GUTTER + week * CALENDAR_CELL_WIDTH;
        let label = month_name(month);
        let size: usize = label.unicode_len();
        if starts_here && column >= length && size <= grid_width - column {
            header.append(repeat_char(' ', column - length).as_str());
            header.append(label);
            length = column + size;
        }
        week += 1;
    }
    if is_blank(header.as_str()) {
        let (_, month, _) = civil_from_day_number(start);
        let mut named = repeat_char(' ', CALENDAR_GUTTER);
        named.append(month_name(month));
        return named;
    }
    header
}

/// A month that begins in a week is not followed by another in the next week.
proof fn lemma_months_apart(start: int, week: int)
    requires
        week >= 0,
        month_begins(start, week),
    ensures
        !month_begins(start, week + 1),
{
    let here = start + week * 7;
    civil::law_civil_date(here);
    let (year, month, day) = civil::civil_date(here);
    if week > 0 {
        // Seven days earlier the month was another, so at most seven days of
        // this one have passed.
        if day > 7 {
            assert(civil::has_number((year, month, day - 7), here - 7));
            civil::law_civil_date(here - 7);
            assert(start + (week - 1) * 7 == here - 7);
        }
    }
    assert(civil::has_number((year, month, day + 7), here + 7));
    civil::law_civil_date(here + 7);
    assert(start + (week + 1) * 7 == here + 7);
}

proof fn lemma_month_text_length(month: int)
    ensures
        month_text(month).len() == 3,
{
    reveal_strlit("Jan");
    reveal_strlit("Feb");
    reveal_strlit("Mar");
    reveal_strlit("Apr");
    reveal_strlit("May");
    reveal_strlit("Jun");
    reveal_strlit("Jul");
    reveal_strlit("Aug");
    reveal_strlit("Sep");
    reveal_strlit("Oct");
    reveal_strlit("Nov");
    reveal_strlit("Dec");
}

/// No name reaches into a column where the next month may begin.
proof fn lemma_month_band_length(start: int, weeks: int, week: int)
    requires
        0 <= week <= weeks,
    ensures
        CALENDAR_GUTTER <= month_band(start, weeks, week).len(),
        month_band(start, weeks, week).len() <= CALENDAR_GUTTER + weeks * CALENDAR_CELL_WIDTH,
        month_band(start, weeks, week).len() <= CALENDAR_GUTTER + week * CALENDAR_CELL_WIDTH + 1,
        week > 0 && !month_begins(start, week - 1) ==> month_band(start, weeks, week).len()
            <= CALENDAR_GUTTER + week * CALENDAR_CELL_WIDTH,
    decreases week,
{
    if week > 0 {
        lemma_month_band_length(start, weeks, week - 1);
        lemma_month_text_length(civil::civil_date(start + (week - 1) * 7).1);
        if week > 1 && month_begins(start, week - 2) {
            lemma_months_apart(start, week - 2);
        }
    }
}

proof fn lemma_month_band_keeps(start: int, weeks: int, early: int, late: int)
    requires
        0 <= early <= late <= weeks,
    ensures
        month_band(start, weeks, early).is_prefix_of(month_band(start, weeks, late)),
    decreases late,
{
    if early < late {
        lemma_month_band_keeps(start, weeks, early, late - 1);
    }
}

/// Every month that begins in the range is named in the column of the week it
/// begins in, as long as its name fits before the end of the grid.
pub proof fn law_month_above_its_week(start: int, weeks: int, week: int)
    requires
        0 <= week < weeks,
        month_begins(start, week),
        CALENDAR_GUTTER + week * CALENDAR_CELL_WIDTH + 3 <= CALENDAR_GUTTER + weeks
            * CALENDAR_CELL_WIDTH,
    ensures
        ({
            let column = CALENDAR_GUTTER + week * CALENDAR_CELL_WIDTH;
            let line = month_line(start, weeks);
            column + 3 <= line.len() && line.subrange(column, column + 3) == month_text(
                civil::civil_date(start + week * 7).1,
            )
        }),
{
    let column = CALENDAR_GUTTER + week * CALENDAR_CELL_WIDTH;
    let label = month_text(civil::civil_date(start + week * 7).1);
    lemma_month_text_length(civil::civil_date(start + week * 7).1);
    lemma_month_band_length(start, weeks, week);
    if week > 0 && month_begins(start, week - 1) {
        lemma_months_apart(start, week - 1);
    }
    let band = month_band(start, weeks, week + 1);
    assert(band.subrange(column, column + 3) == label);
    lemma_month_band_keeps(start, weeks, week + 1, weeks);
    let whole = month_band(start, weeks, weeks);
    assert(whole.subrange(column, column + 3) == label);
    lemma_letters(civil::civil_date(start + week * 7).1);
    assert(whole[column] == label[0]);
    text::lemma_not_blank(whole, column);
}

proof fn lemma_letters(month: int)
    ensures
        !text::is_space(month_text(month)[0]),
{
    reveal_strlit("Jan");
    reveal_strlit("Feb");
    reveal_strlit("Mar");
    reveal_strlit("Apr");
    reveal_strlit("May");
    reveal_strlit("Jun");
    reveal_strlit("Jul");
    reveal_strlit("Aug");
    reveal_strlit("Sep");
    reveal_strlit("Oct");
    reveal_strlit("Nov");
    reveal_strlit("Dec");
}

/// The days of the week go round, Sunday first, and the first day of 1970 was a
/// Thursday.
pub proof fn law_weekdays_go_round(number: int)
    ensures
        weekday_from_sunday(0) == 4,
        0 <= weekday_from_sunday(number) < 7,
        weekday_from_sunday(number + 1) == (weekday_from_sunday(number) + 1) % 7,
        weekday_from_sunday(number + 7) == weekday_from_sunday(number),
{
}

/// The months in their order.
pub proof fn law_month_names(month: int)
    requires
        1 <= month <= 12,
    ensures
        month_text(month) == "JanFebMarAprMayJunJulAugSepOctNovDec"@.subrange(
            3 * (month - 1),
            3 * month,
        ),
{
    reveal_strlit("JanFebMarAprMayJunJulAugSepOctNovDec");
    reveal_strlit("Jan");
    reveal_strlit("Feb");
    reveal_strlit("Mar");
    reveal_strlit("Apr");
    reveal_strlit("May");
    reveal_strlit("Jun");
    reveal_strlit("Jul");
    reveal_strlit("Aug");
    reveal_strlit("Sep");
    reveal_strlit("Oct");
    reveal_strlit("Nov");
    reveal_strlit("Dec");
    let names = "JanFebMarAprMayJunJulAugSepOctNovDec"@;
    assert(month_text(month) =~= names.subrange(3 * (month - 1), 3 * month));
}

/// A date in words: the weekday, the month, the day and the year of the very day
/// that the date stands for.
pub proof fn law_friendly_date(day: Seq<char>, number: i64)
    requires
        date_number(day) == Some(number),
    ensures
        ({
            let (year, month, date) = civil::civil_date(number as int);
            let weekday = weekday_from_sunday(number as int);
            friendly_text(day) == "SunMonTueWedThuFriSat"@.subrange(3 * weekday, 3 * weekday + 3)
                + ", "@ + month_text(month) + " "@ + number::signed_decimal(date) + ", "@
                + number::signed_decimal(year)
        }),
        date_number(day) is Some ==> civil::has_number(
            civil::civil_date(number as int),
            number as int,
        ),
{
    civil::law_civil_date(number as int);
    reveal_strlit("SunMonTueWedThuFriSat");
    reveal_strlit("Mon");
    reveal_strlit("Tue");
    reveal_strlit("Wed");
    reveal_strlit("Thu");
    reveal_strlit("Fri");
    reveal_strlit("Sat");
    reveal_strlit("Sun");
    let weekday = weekday_from_sunday(number as int);
    assert(weekday_text((number + 3) % 7) =~= "SunMonTueWedThuFriSat"@.subrange(
        3 * weekday,
        3 * weekday + 3,
    ));
}

/// A selected day covers itself; a selected week the seven days from its first on.
pub proof fn law_selection_covers(anchor: Seq<char>, number: i64)
    requires
        date_number(anchor) == Some(number),
        number + 6 <= i64::MAX,
    ensures
        covered_days(anchor, false) == seq![anchor],
        covered_days(anchor, true).len() == 7,
        forall|i: int| 0 <= i < 7 ==> #[trigger] covered_days(anchor, true)[i] == date_text(number + i),
        selection_text(anchor, false) == friendly_text(anchor),
        ({
            let (_, month, day) = civil::civil_date(number as int);
            let (year, last_month, last_day) = civil::civil_date(number + 6);
            selection_text(anchor, true) == month_text(month) + " "@ + number::signed_decimal(day)
                + " \u{2013} "@ + month_text(last_month) + " "@ + number::signed_decimal(last_day)
                + ", "@ + number::signed_decimal(year)
        }),
{
}

/// The calendar shows as many weeks as fit beside the names of the weekdays, but a
/// year at most.
pub proof fn law_calendar_uses_the_width(width: int)
    ensures
        weeks_shown(width) < 53 ==> 5 + 2 * (weeks_shown(width) + 1) > width,
        weeks_shown(width) > 4 ==> 5 + 2 * weeks_shown(width) <= width,
        weeks_shown(width) <= weeks_shown(width + 1),
{
}

/// A year, a month and a day joined by dashes are read as that date.
pub proof fn law_date_is_read(year: nat, month: nat, day: nat)
    requires
        year <= i64::MAX,
        month <= i64::MAX,
        day <= i64::MAX,
        i64::MIN <= civil::day_number(year as int, month as int, day as int) <= i64::MAX,
    ensures
        date_number(
            number::decimal(year) + "-"@ + number::decimal(month) + "-"@ + number::decimal(day),
        ) == Some(civil::day_number(year as int, month as int, day as int) as i64),
{
    let a = number::decimal(year);
    let b = number::decimal(month);
    let c = number::decimal(day);
    number::lemma_decimal(year);
    number::lemma_decimal(month);
    number::lemma_decimal(day);
    assert(number::is_digit(a[0]) && number::is_digit(b[0]) && number::is_digit(c[0]));
    assert(!a.contains('-'));
    assert(!b.contains('-'));
    assert(!c.contains('-'));
    lemma_three_parts(a, b, c);
    let parts = seq![a, b, c];
    assert(parts.drop_last() == seq![a, b]);
    assert(seq![a, b].drop_last() == seq![a]);
    assert(seq![a].drop_last() =~= Seq::<Seq<char>>::empty());
    assert(numbers_in(Seq::<Seq<char>>::empty()) =~= Seq::<i64>::empty());
    assert(numbers_in(seq![a]) =~= seq![year as i64]);
    assert(numbers_in(seq![a, b]) =~= seq![year as i64, month as i64]);
    assert(numbers_in(parts) =~= seq![year as i64, month as i64, day as i64]);
}

} // verus!
