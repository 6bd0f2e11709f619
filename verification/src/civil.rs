//! Calendar dates and the day numbers that count them from 1 January 1970.
use vstd::prelude::*;

verus! {

/// Gregorian leap years.
pub open spec fn is_leap(year: int) -> bool {
    year % 4 == 0 && (year % 100 != 0 || year % 400 == 0)
}

/// Days in a month, January being 1.
pub open spec fn month_length(year: int, month: int) -> int {
    if month == 2 {
        if is_leap(year) {
            29
        } else {
            28
        }
    } else if month == 4 || month == 6 || month == 9 || month == 11 {
        30
    } else {
        31
    }
}

/// Whether the three numbers name a day of the Gregorian calendar.
pub open spec fn is_date(year: int, month: int, day: int) -> bool {
    1 <= month <= 12 && 1 <= day <= month_length(year, month)
}

/// Division that drops the fraction, on either side of zero.
pub open spec fn truncated(a: int, b: int) -> int {
    if a >= 0 {
        a / b
    } else {
        -((-a) / b)
    }
}

/// The year that a month belongs to when years begin in March.
pub open spec fn march_year(year: int, month: int) -> int {
    if month <= 2 {
        year - 1
    } else {
        year
    }
}

/// The place of a month in a year that begins in March, from 0.
pub open spec fn march_month(month: int) -> int {
    if month > 2 {
        month - 3
    } else {
        month + 9
    }
}

/// Days from 1 March of year 0 to 1 March of `year`.
pub open spec fn days_to_march(year: int) -> int {
    365 * year + year / 4 - year / 100 + year / 400
}

/// Days from 1 January 1970 to the given date. Months and days beyond their
/// usual range count on from the date they would follow.
pub open spec fn day_number(year: int, month: int, day: int) -> int {
    days_to_march(march_year(year, month)) + truncated(153 * march_month(month) + 2, 5) + day - 1
        - 719_468
}

/// The day that follows a date.
pub open spec fn next_date(year: int, month: int, day: int) -> (int, int, int) {
    if day < month_length(year, month) {
        (year, month, day + 1)
    } else if month < 12 {
        (year, month + 1, 1)
    } else {
        (year + 1, 1, 1)
    }
}

/// 1 January 1970 is day 0.
pub proof fn law_day_zero()
    ensures
        day_number(1970, 1, 1) == 0,
{
}

proof fn lemma_march_step(year: int)
    ensures
        days_to_march(year + 1) == days_to_march(year) + (if is_leap(year + 1) {
            366int
        } else {
            365
        }),
{
    let next = year + 1;
    assert(next / 4 - year / 4 == if next % 4 == 0 {
        1int
    } else {
        0
    });
    assert(next / 100 - year / 100 == if next % 100 == 0 {
        1int
    } else {
        0
    });
    assert(next / 400 - year / 400 == if next % 400 == 0 {
        1int
    } else {
        0
    });
}

/// Day numbers run without gap: the day after a date has the next number.
/// Together with day 0 this fixes the number of every date.
pub proof fn law_next_day(year: int, month: int, day: int)
    requires
        is_date(year, month, day),
    ensures
        ({
            let (y, m, d) = next_date(year, month, day);
            is_date(y, m, d) && day_number(y, m, d) == day_number(year, month, day) + 1
        }),
{
    lemma_march_step(march_year(year, month));
    if day >= month_length(year, month) {
        if month == 2 {
            assert(day_number(year, 3, 1) == days_to_march(year) - 719_468);
            assert(day_number(year, 2, day) == days_to_march(year - 1) + 337 + day - 1 - 719_468);
        } else if month == 1 {
        } else if month == 12 {
        } else {
            assert(3 <= month <= 11);
        }
    }
}

proof fn lemma_march_month(month: int)
    requires
        0 <= month <= 12,
    ensures
        (153 * month + 2) / 5 == if month == 0 {
            0int
        } else if month == 1 {
            31
        } else if month == 2 {
            61
        } else if month == 3 {
            92
        } else if month == 4 {
            122
        } else if month == 5 {
            153
        } else if month == 6 {
            184
        } else if month == 7 {
            214
        } else if month == 8 {
            245
        } else if month == 9 {
            275
        } else if month == 10 {
            306
        } else if month == 11 {
            337
        } else {
            367
        },
{
}

/// The days of a date lie within its March year.
proof fn lemma_day_of_march_year(year: int, month: int, day: int)
    requires
        is_date(year, month, day),
    ensures
        0 <= (153 * march_month(month) + 2) / 5 + day - 1,
        days_to_march(march_year(year, month)) + (153 * march_month(month) + 2) / 5 + day - 1
            < days_to_march(march_year(year, month) + 1),
{
    lemma_march_step(march_year(year, month));
    lemma_march_month(march_month(month));
}

proof fn lemma_days_to_march_monotone(a: int, b: int)
    requires
        a <= b,
    ensures
        days_to_march(a) <= days_to_march(b),
    decreases b - a,
{
    if a < b {
        lemma_days_to_march_monotone(a, b - 1);
        lemma_march_step(b - 1);
    }
}

/// No two dates share a day number.
pub proof fn law_day_number_injective(a: (int, int, int), b: (int, int, int))
    requires
        is_date(a.0, a.1, a.2),
        is_date(b.0, b.1, b.2),
        day_number(a.0, a.1, a.2) == day_number(b.0, b.1, b.2),
    ensures
        a == b,
{
    lemma_day_of_march_year(a.0, a.1, a.2);
    lemma_day_of_march_year(b.0, b.1, b.2);
    let left = march_year(a.0, a.1);
    let right = march_year(b.0, b.1);
    if left < right {
        lemma_days_to_march_monotone(left + 1, right);
    } else if right < left {
        lemma_days_to_march_monotone(right + 1, left);
    }
    lemma_march_month(march_month(a.1));
    lemma_march_month(march_month(b.1));
}

/// The year of a 400-year era that a day of it falls in, and the day of that
/// year, both counted from March.
proof fn lemma_year_of_era(day_of_era: int)
    requires
        0 <= day_of_era <= 146_096,
    ensures
        ({
            let year = (day_of_era - day_of_era / 1_460 + day_of_era / 36_524 - day_of_era
                / 146_096) / 365;
            let day_of_year = day_of_era - (365 * year + year / 4 - year / 100);
            &&& 0 <= year <= 399
            &&& 0 <= day_of_year <= 365
            &&& day_of_year == 365 ==> is_leap(year + 1)
        }),
{
    let century: int = if day_of_era >= 109_572 {
        3
    } else {
        day_of_era / 36_524
    };
    let in_century = day_of_era - 36_524 * century;
    assert(0 <= in_century <= 36_524);
    assert(century < 3 ==> in_century < 36_524);
    let block = in_century / 1_461;
    let in_block = in_century - 1_461 * block;
    assert(0 <= block <= 24);
    assert(0 <= in_block <= 1_460);
    let rest: int = if in_block >= 1_095 {
        3
    } else {
        in_block / 365
    };
    let day_of_year = in_block - 365 * rest;
    assert(0 <= rest <= 3);
    assert(0 <= day_of_year <= 365);
    assert(day_of_year == 365 ==> rest == 3);
    let year = 100 * century + 4 * block + rest;
    assert(year / 4 == 25 * century + block);
    assert(year / 100 == century);
    assert(day_of_era == 365 * year + year / 4 - year / 100 + day_of_year);
    let spill: int = if 24 * century + block + 365 * rest + day_of_year >= 1_460 {
        1
    } else {
        0
    };
    assert(day_of_era == 1_460 * (25 * century + block) + (24 * century + block + 365 * rest
        + day_of_year));
    assert(day_of_era / 1_460 == 25 * century + block + spill);
    assert(day_of_era / 36_524 - day_of_era / 146_096 == century);
    let scaled = day_of_era - day_of_era / 1_460 + day_of_era / 36_524 - day_of_era / 146_096;
    assert(scaled == 365 * year + day_of_year - spill);
    assert(day_of_year == 365 ==> spill == 1);
    assert(spill == 1 ==> day_of_year >= 1);
    assert(scaled / 365 == year);
    if day_of_year == 365 {
        assert(in_block == 1_460);
        assert(block == 24 ==> century == 3);
        assert((year + 1) % 4 == 0);
    }
}

/// The month of a March year that a day of it falls in, and the day of the month.
proof fn lemma_month_of_year(day_of_year: int)
    requires
        0 <= day_of_year <= 365,
    ensures
        ({
            let month = (5 * day_of_year + 2) / 153;
            &&& 0 <= month <= 11
            &&& (153 * month + 2) / 5 <= day_of_year
            &&& month < 11 ==> day_of_year < (153 * (month + 1) + 2) / 5
        }),
{
    let month = (5 * day_of_year + 2) / 153;
    assert(0 <= month <= 11);
    lemma_march_month(month);
    lemma_march_month(month + 1);
}

/// Eras are alike.
proof fn lemma_era_repeats(era: int, year_of_era: int)
    requires
        0 <= year_of_era <= 399,
    ensures
        ({
            let year = year_of_era + era * 400;
            &&& year / 4 == 100 * era + year_of_era / 4
            &&& year / 100 == 4 * era + year_of_era / 100
            &&& year / 400 == era
            &&& is_leap(year + 1) == is_leap(year_of_era + 1)
        }),
{
    let year = year_of_era + era * 400;
    assert((year + 1) % 4 == (year_of_era + 1) % 4);
    assert((year + 1) % 100 == (year_of_era + 1) % 100);
    assert((year + 1) % 400 == (year_of_era + 1) % 400);
}

/// Putting an era, a year of it and a day of that year together gives a date
/// with the right number.
#[verifier::spinoff_prover]
proof fn lemma_assembled_date(era: int, year_of_era: int, day_of_year: int)
    requires
        0 <= year_of_era <= 399,
        0 <= day_of_year <= 365,
        day_of_year == 365 ==> is_leap(year_of_era + 1),
    ensures
        ({
            let march = year_of_era + era * 400;
            let place = (5 * day_of_year + 2) / 153;
            let day = day_of_year - (153 * place + 2) / 5 + 1;
            let month = if place < 10 {
                place + 3
            } else {
                place - 9
            };
            let year = if month <= 2 {
                march + 1
            } else {
                march
            };
            &&& is_date(year, month, day)
            &&& day_number(year, month, day) == era * 146_097 + 365 * year_of_era + year_of_era / 4
                - year_of_era / 100 + day_of_year - 719_468
        }),
{
    let march = year_of_era + era * 400;
    let place = (5 * day_of_year + 2) / 153;
    lemma_month_of_year(day_of_year);
    lemma_march_month(place);
    lemma_march_month(place + 1);
    lemma_era_repeats(era, year_of_era);
}

/// Whether `date` is the date with day number `number`.
pub open spec fn has_number(date: (int, int, int), number: int) -> bool {
    is_date(date.0, date.1, date.2) && day_number(date.0, date.1, date.2) == number
}

/// The date (year, month, day) with day number `number`.
pub open spec fn civil_date(number: int) -> (int, int, int) {
    choose|date: (int, int, int)| has_number(date, number)
}

/// Every day number has exactly one date.
pub proof fn law_civil_date(number: int)
    ensures
        has_number(civil_date(number), number),
        forall|date: (int, int, int)| has_number(date, number) ==> date == civil_date(number),
{
    let shifted = number + 719_468;
    let era = shifted / 146_097;
    let day_of_era = shifted % 146_097;
    lemma_year_of_era(day_of_era);
    let year_of_era = (day_of_era - day_of_era / 1_460 + day_of_era / 36_524 - day_of_era / 146_096)
        / 365;
    let day_of_year = day_of_era - (365 * year_of_era + year_of_era / 4 - year_of_era / 100);
    lemma_assembled_date(era, year_of_era, day_of_year);
    let march = year_of_era + era * 400;
    let place = (5 * day_of_year + 2) / 153;
    let day = day_of_year - (153 * place + 2) / 5 + 1;
    let month = if place < 10 {
        place + 3
    } else {
        place - 9
    };
    let year = if month <= 2 {
        march + 1
    } else {
        march
    };
    assert(has_number((year, month, day), number));
    assert forall|date: (int, int, int)| has_number(date, number) implies date == civil_date(
        number,
    ) by {
        law_day_number_injective(date, civil_date(number));
    }
}

/// The day number of a calendar date.
pub fn days_from_civil(year: i64, month: i64, day: i64) -> (number: i64)
    requires
        i64::MIN <= day_number(year as int, month as int, day as int) <= i64::MAX,
    ensures
        number == day_number(year as int, month as int, day as int),
{
    checked_days_from_civil(year, month, day).unwrap()
}

/// The day number of a calendar date, unless it is out of an `i64`'s range.
pub fn checked_days_from_civil(year: i64, month: i64, day: i64) -> (number: Option<i64>)
    ensures
        number matches Some(n) ==> n == day_number(year as int, month as int, day as int),
        number is Some <==> i64::MIN <= day_number(year as int, month as int, day as int)
            <= i64::MAX,
{
    let adjusted: i128 = if month <= 2 {
        year as i128 - 1
    } else {
        year as i128
    };
    let floor: i128 = if adjusted >= 0 {
        adjusted
    } else {
        adjusted - 399
    };
    let era: i128 = floor / 400;
    let year_of_era: i128 = adjusted - era * 400;
    assert(era == adjusted as int / 400);
    assert(0 <= year_of_era < 400);
    let shifted: i128 = if month > 2 {
        month as i128 - 3
    } else {
        month as i128 + 9
    };
    let day_of_year: i128 = (153 * shifted + 2) / 5 + day as i128 - 1;
    let day_of_era: i128 = year_of_era * 365 + year_of_era / 4 - year_of_era / 100 + day_of_year;
    let number: i128 = era * 146_097 + day_of_era - 719_468;
    proof {
        let a = adjusted as int;
        assert(a / 4 == 100 * era + year_of_era as int / 4);
        assert(a / 100 == 4 * era + year_of_era as int / 100);
        assert(days_to_march(a) == era * 146_097 + year_of_era * 365 + year_of_era as int / 4
            - year_of_era as int / 100);
    }
    if number < i64::MIN as i128 || number > i64::MAX as i128 {
        None
    } else {
        Some(number as i64)
    }
}

/// The calendar date of a day number.
pub fn civil_from_day_number(number: i64) -> (date: (i64, i64, i64))
    ensures
        (date.0 as int, date.1 as int, date.2 as int) == civil_date(number as int),
        has_number(civil_date(number as int), number as int),
{
    let shifted: i128 = number as i128 + 719_468;
    let floor: i128 = if shifted >= 0 {
        shifted
    } else {
        shifted - 146_096
    };
    let era: i128 = floor / 146_097;
    let day_of_era: i128 = shifted - era * 146_097;
    assert(era == shifted as int / 146_097);
    assert(0 <= day_of_era <= 146_096);
    proof {
        lemma_year_of_era(day_of_era as int);
    }
    let year_of_era: i128 = (day_of_era - day_of_era / 1_460 + day_of_era / 36_524 - day_of_era
        / 146_096) / 365;
    let day_of_year: i128 = day_of_era - (365 * year_of_era + year_of_era / 4 - year_of_era / 100);
    let month_prime: i128 = (5 * day_of_year + 2) / 153;
    let day: i128 = day_of_year - (153 * month_prime + 2) / 5 + 1;
    let month: i128 = if month_prime < 10 {
        month_prime + 3
    } else {
        month_prime - 9
    };
    let march: i128 = year_of_era + era * 400;
    let year: i128 = if month <= 2 {
        march + 1
    } else {
        march
    };
    proof {
        lemma_month_of_year(day_of_year as int);
        lemma_assembled_date(era as int, year_of_era as int, day_of_year as int);
        assert(has_number((year as int, month as int, day as int), number as int));
        law_civil_date(number as int);
    }
    (year as i64, month as i64, day as i64)
}

} // verus!
