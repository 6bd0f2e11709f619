//! Durations, sizes and shares in the form they are shown in.
use vstd::prelude::*;
use vstd::string::*;
use crate::number;
use crate::number::{magnitude, write_decimal, write_zero_padded};

verus! {

/// `n / d` to the nearest whole number, ties to the even one.
pub open spec fn nearest_even(n: nat, d: nat) -> nat {
    let quotient = n / d;
    let rest = n % d;
    if 2 * rest < d {
        quotient
    } else if 2 * rest > d {
        quotient + 1
    } else if quotient % 2 == 0 {
        quotient
    } else {
        quotient + 1
    }
}

/// Distance between the double-precision numbers around the whole number `n`,
/// where it is more than 1.
pub open spec fn double_unit(n: nat) -> nat
    decreases n,
{
    if n < 0x20_0000_0000_0000 {
        1
    } else {
        2 * double_unit(n / 2)
    }
}

/// The double-precision number nearest to the whole number `n`.
pub open spec fn as_double(n: nat) -> nat {
    nearest_even(n, double_unit(n)) * double_unit(n)
}

/// `n / d` to the nearest whole number, ties to the even one.
fn round_even(n: u128, d: u128) -> (rounded: u128)
    requires
        0 < d < 0x8000_0000_0000_0000_0000_0000_0000_0000,
        n < u128::MAX,
    ensures
        rounded == nearest_even(n as nat, d as nat),
        rounded <= n + 1,
        rounded <= n / d + 1,
{
    let quotient: u128 = n / d;
    let rest: u128 = n % d;
    assert(quotient <= n) by (nonlinear_arith)
        requires
            d > 0,
            quotient == n / d,
    ;
    if 2 * rest < d {
        quotient
    } else if 2 * rest > d {
        quotient + 1
    } else if quotient % 2 == 0 {
        quotient
    } else {
        quotient + 1
    }
}

fn unit_of_double(n: u64) -> (unit: u64)
    ensures
        unit == double_unit(n as nat),
        1 <= unit,
        unit * 0x10_0000_0000_0000 <= n || unit == 1,
        n < unit * 0x20_0000_0000_0000,
    decreases n,
{
    if n < 0x20_0000_0000_0000 {
        1
    } else {
        2 * unit_of_double(n / 2)
    }
}

/// The double-precision number nearest to `n`.
fn to_double(n: u64) -> (double: u128)
    ensures
        double == as_double(n as nat),
        double <= 0x1_0000_0000_0000_0000,
        n > 0 ==> double > 0,
        n < 0x20_0000_0000_0000 ==> double == n,
{
    let unit: u64 = unit_of_double(n);
    let steps: u128 = round_even(n as u128, unit as u128);
    proof {
        lemma_as_double(n as nat);
        assert(steps * unit <= 0x1_0000_0000_0000_0000);
    }
    steps * unit as u128
}

/// Rounding to double precision keeps small numbers, and stays in range.
proof fn lemma_as_double(n: nat)
    requires
        n <= u64::MAX,
    ensures
        n < 0x20_0000_0000_0000 ==> as_double(n) == n,
        as_double(n) <= 0x1_0000_0000_0000_0000,
        n > 0 ==> as_double(n) > 0,
{
    lemma_double_unit(n);
    let unit = double_unit(n);
    let quotient = n / unit;
    let steps = nearest_even(n, unit);
    assert(n == quotient * unit + n % unit) by (nonlinear_arith)
        requires
            unit > 0,
            quotient == n / unit,
    ;
    assert(quotient < 0x20_0000_0000_0000) by (nonlinear_arith)
        requires
            n < unit * 0x20_0000_0000_0000,
            n == quotient * unit + n % unit,
            n % unit >= 0,
            unit > 0,
    ;
    assert(steps <= 0x20_0000_0000_0000);
    assert(unit <= 0x800) by {
        if unit > 0x800 {
            lemma_unit_is_even_step(n);
        }
    }
    assert(steps * unit <= 0x20_0000_0000_0000 * 0x800) by (nonlinear_arith)
        requires
            0 <= steps <= 0x20_0000_0000_0000,
            0 <= unit <= 0x800,
    ;
    if n < 0x20_0000_0000_0000 {
        assert(unit == 1);
    } else {
        if quotient < 0x10_0000_0000_0000 {
            assert(quotient * unit <= 0xf_ffff_ffff_ffff * unit) by (nonlinear_arith)
                requires
                    quotient <= 0xf_ffff_ffff_ffff,
                    unit > 0,
            ;
        }
    }
    assert(n > 0 ==> steps * unit > 0) by (nonlinear_arith)
        requires
            unit > 0,
            n > 0 ==> steps > 0,
    ;
}

proof fn lemma_double_unit(n: nat)
    ensures
        double_unit(n) >= 1,
        double_unit(n) * 0x10_0000_0000_0000 <= n || double_unit(n) == 1,
        n < double_unit(n) * 0x20_0000_0000_0000,
        n >= 0x20_0000_0000_0000 ==> double_unit(n) * 0x10_0000_0000_0000 <= n,
    decreases n,
{
    if n >= 0x20_0000_0000_0000 {
        lemma_double_unit(n / 2);
    }
}

proof fn lemma_unit_is_even_step(n: nat)
    requires
        n <= u64::MAX,
    ensures
        double_unit(n) <= 0x800,
{
    reveal_with_fuel(double_unit, 13);
}

/// `value` tenths as a decimal fraction with one digit.
pub open spec fn tenths_text(value: nat) -> Seq<char> {
    number::decimal(value / 10) + "."@ + number::decimal(value % 10)
}

fn write_tenths(value: u64) -> (text: String)
    ensures
        text@ == tenths_text(value as nat),
{
    let mut text = write_decimal(value / 10);
    text.append(".");
    text.append(write_decimal(value % 10).as_str());
    text
}

/// A size in KiB with the unit that suits it. The size is first taken to double
/// precision; what is shown of it is rounded to the nearest, ties to even.
pub open spec fn bytes_text(kib: nat) -> Seq<char> {
    let size = as_double(kib);
    if size >= 0x10_0000 {
        tenths_text(nearest_even(size * 10, 0x10_0000)) + " GiB"@
    } else if size >= 0x400 {
        tenths_text(nearest_even(size * 10, 0x400)) + " MiB"@
    } else {
        number::decimal(size) + " KiB"@
    }
}

/// A size in KiB for people, such as `1.5 GiB`.
pub fn human_bytes(kib: u64) -> (text: String)
    ensures
        text@ == bytes_text(kib as nat),
{
    let size: u128 = to_double(kib);
    if size >= 0x10_0000 {
        let mut text = write_tenths(round_even(size * 10, 0x10_0000) as u64);
        text.append(" GiB");
        text
    } else if size >= 0x400 {
        let mut text = write_tenths(round_even(size * 10, 0x400) as u64);
        text.append(" MiB");
        text
    } else {
        let mut text = write_decimal(size as u64);
        text.append(" KiB");
        text
    }
}

/// The sign shown in front of a change.
pub open spec fn sign_text(change: int) -> Seq<char> {
    if change >= 0 {
        "+"@
    } else {
        "-"@
    }
}

fn sign_of(change: i64) -> (sign: &'static str)
    ensures
        sign@ == sign_text(change as int),
{
    if change >= 0 {
        "+"
    } else {
        "-"
    }
}

/// The size of a change, whatever its direction.
pub open spec fn size_of_change(change: int) -> nat {
    if change < 0 {
        (-change) as nat
    } else {
        change as nat
    }
}

/// A change in KiB with its sign.
pub open spec fn signed_bytes_text(kib: int) -> Seq<char> {
    sign_text(kib) + bytes_text(size_of_change(kib))
}

/// A change in KiB for people, such as `+1.5 GiB`.
pub fn signed_human_kib(kib: i64) -> (text: String)
    ensures
        text@ == signed_bytes_text(kib as int),
{
    let mut text = sign_of(kib).to_owned();
    text.append(human_bytes(magnitude(kib)).as_str());
    text
}

/// A change in KiB in as few characters as possible.
pub open spec fn compact_text(kib: int) -> Seq<char> {
    let size = as_double(size_of_change(kib));
    if size >= 0x10_0000 {
        sign_text(kib) + tenths_text(nearest_even(size * 10, 0x10_0000)) + "GiB"@
    } else if size >= 0x400 {
        sign_text(kib) + number::decimal(nearest_even(size, 0x400)) + "MiB"@
    } else {
        sign_text(kib) + number::decimal(size) + "KiB"@
    }
}

/// A change in KiB in as few characters as possible, such as `+48MiB`.
pub fn compact_signed_kib(kib: i64) -> (text: String)
    ensures
        text@ == compact_text(kib as int),
{
    let size: u128 = to_double(magnitude(kib));
    let mut text = sign_of(kib).to_owned();
    if size >= 0x10_0000 {
        text.append(write_tenths(round_even(size * 10, 0x10_0000) as u64).as_str());
        text.append("GiB");
    } else if size >= 0x400 {
        text.append(write_decimal(round_even(size, 0x400) as u64).as_str());
        text.append("MiB");
    } else {
        text.append(write_decimal(size as u64).as_str());
        text.append("KiB");
    }
    text
}

/// A duration in hours and minutes.
pub open spec fn duration_text(seconds: int) -> Seq<char> {
    let hours = seconds / 3_600;
    let minutes = seconds % 3_600 / 60;
    if hours > 0 {
        number::signed_decimal(hours) + "h "@ + number::zero_padded(minutes, 2) + "m"@
    } else if minutes > 0 {
        number::signed_decimal(minutes) + "m"@
    } else if seconds > 0 {
        "<1m"@
    } else {
        "0m"@
    }
}

/// A duration for people, such as `3h 05m`.
pub fn human_duration(seconds: u64) -> (text: String)
    ensures
        text@ == duration_text(seconds as int),
{
    let hours: u64 = seconds / 3_600;
    let minutes: u64 = seconds % 3_600 / 60;
    if hours > 0 {
        let mut text = write_decimal(hours);
        text.append("h ");
        text.append(write_zero_padded(minutes as i64, 2).as_str());
        text.append("m");
        text
    } else if minutes > 0 {
        let mut text = write_decimal(minutes);
        text.append("m");
        text
    } else if seconds > 0 {
        "<1m".to_owned()
    } else {
        "0m".to_owned()
    }
}

/// A fraction below 1 doubled until its whole part has the 53 digits of a
/// double-precision number, and the factor that took.
pub open spec fn doubled(n: nat, d: nat, factor: nat) -> (nat, nat)
    decreases 0x20_0000_0000_0000 * d - n,
{
    if n == 0 || n >= 0x10_0000_0000_0000 * d {
        (n, factor)
    } else {
        doubled(2 * n, d, 2 * factor)
    }
}

/// `part` as a percentage of `whole` in tenths, as double-precision arithmetic
/// has it: the quotient and the product with 100 are each rounded to 53 digits.
pub open spec fn percent_tenths(part: nat, whole: nat) -> nat {
    let (n, factor) = doubled(as_double(part), as_double(whole), 1);
    let quotient = nearest_even(n, as_double(whole));
    nearest_even(as_double(quotient * 100) * 10, factor)
}

/// The share of `part` in `whole` as a percentage with one digit, 0 where there
/// is no whole.
pub open spec fn share_text(part: nat, whole: nat) -> Seq<char> {
    if whole == 0 {
        "0.0"@
    } else {
        tenths_text(percent_tenths(part, whole))
    }
}

/// The share of `part` in `whole` as a percentage with one digit, such as `12.5`.
pub fn share(part: u64, whole: u64) -> (text: String)
    requires
        part <= whole,
    ensures
        text@ == share_text(part as nat, whole as nat),
{
    if whole == 0 {
        return "0.0".to_owned();
    }
    let first: u128 = to_double(part);
    let d: u128 = to_double(whole);
    let mut n: u128 = first;
    let mut factor: u128 = 1;
    proof {
        lemma_as_double_near(part as nat);
        lemma_as_double_near(whole as nat);
    }
    while n != 0 && n < 0x10_0000_0000_0000 * d
        invariant
            0 < d <= 0x1_0000_0000_0000_0000,
            n <= 0x20_0000_0000_0000 * d,
            first > 0 ==> n >= 1,
            n == first * factor,
            factor >= 1,
            first == 0 ==> factor == 1,
            doubled(n as nat, d as nat, factor as nat) == doubled(first as nat, d as nat, 1),
        decreases 0x20_0000_0000_0000 * d - n,
    {
        assert(factor <= n) by (nonlinear_arith)
            requires
                n == first * factor,
                n >= 1,
                factor >= 1,
                first >= 0,
        ;
        assert(2 * n == first * (2 * factor)) by (nonlinear_arith)
            requires
                n == first * factor,
        ;
        n = 2 * n;
        factor = 2 * factor;
    }
    assert(n > 0 ==> factor <= n) by (nonlinear_arith)
        requires
            n == first * factor,
            factor >= 1,
            first >= 0,
    ;
    let quotient: u128 = round_even(n, d);
    assert(n / d <= 0x20_0000_0000_0000) by (nonlinear_arith)
        requires
            n <= 0x20_0000_0000_0000 * d,
            d > 0,
    ;
    let percent: u128 = to_double((quotient * 100) as u64);
    proof {
        lemma_as_double_near((quotient * 100) as nat);
    }
    let tenths: u128 = round_even(percent * 10, factor);
    write_tenths(tenths as u64)
}

/// Rounding to double precision changes a number by less than its half.
proof fn lemma_as_double_near(n: nat)
    requires
        n <= u64::MAX,
    ensures
        as_double(n) <= 2 * n,
        n <= 2 * as_double(n),
{
    lemma_as_double(n);
    lemma_double_unit(n);
    let unit = double_unit(n);
    let quotient = n / unit;
    let steps = nearest_even(n, unit);
    assert(n == quotient * unit + n % unit && n % unit < unit) by (nonlinear_arith)
        requires
            unit > 0,
            quotient == n / unit,
    ;
    assert(quotient * unit <= steps * unit <= quotient * unit + unit) by (nonlinear_arith)
        requires
            quotient <= steps <= quotient + 1,
            unit > 0,
    ;
}

/// Rounding gives the nearest whole number; between two that are as near it gives
/// the even one.
pub proof fn law_rounding(n: nat, d: nat)
    requires
        d > 0,
    ensures
        2 * n <= 2 * (nearest_even(n, d) * d) + d,
        2 * (nearest_even(n, d) * d) <= 2 * n + d,
        2 * n == 2 * (nearest_even(n, d) * d) + d || 2 * (nearest_even(n, d) * d) == 2 * n + d
            ==> nearest_even(n, d) % 2 == 0,
{
    let quotient = n / d;
    let rest = n % d;
    let rounded = nearest_even(n, d);
    assert(n == quotient * d + rest && rest < d) by (nonlinear_arith)
        requires
            d > 0,
            quotient == n / d,
            rest == n % d,
    ;
    assert((quotient + 1) * d == quotient * d + d) by (nonlinear_arith);
    assert(rounded == quotient || rounded == quotient + 1);
}

/// A size below two to the power of 53 is kept exactly; of a larger one no more
/// than the part behind its first 53 binary digits is lost.
pub proof fn law_sizes_are_kept(n: nat)
    ensures
        n < 0x20_0000_0000_0000 ==> as_double(n) == n,
        0x20_0000_0000_0000 * as_double(n) <= 0x20_0000_0000_0000 * n + n,
        0x20_0000_0000_0000 * n <= 0x20_0000_0000_0000 * as_double(n) + n,
{
    let unit = double_unit(n);
    lemma_double_unit(n);
    law_rounding(n, unit);
    if n < 0x20_0000_0000_0000 {
        assert(unit == 1);
        assert(nearest_even(n, 1) == n);
        assert(n * 1 == n);
    } else {
        let double = as_double(n);
        assert(2 * double <= 2 * n + unit && 2 * n <= 2 * double + unit);
        assert(unit * 0x10_0000_0000_0000 <= n);
    }
}

/// The text of a size: whole KiB below one MiB, and from there on the nearest tenth
/// of a MiB or a GiB.
pub proof fn law_sizes_are_written(kib: nat) -> (tenths: nat)
    requires
        kib < 0x20_0000_0000_0000,
    ensures
        kib < 1_024 ==> bytes_text(kib) == number::decimal(kib) + " KiB"@,
        1_024 <= kib < 1_048_576 ==> {
            &&& bytes_text(kib) == number::decimal(tenths / 10) + "."@ + number::decimal(tenths % 10)
                + " MiB"@
            &&& kib * 20 - 1_024 <= tenths * 2_048 <= kib * 20 + 1_024
        },
        1_048_576 <= kib ==> {
            &&& bytes_text(kib) == number::decimal(tenths / 10) + "."@ + number::decimal(tenths % 10)
                + " GiB"@
            &&& kib * 20 - 1_048_576 <= tenths * 2_097_152 <= kib * 20 + 1_048_576
        },
{
    law_sizes_are_kept(kib);
    law_rounding(kib * 10, 0x400);
    law_rounding(kib * 10, 0x10_0000);
    if kib < 1_048_576 {
        nearest_even(kib * 10, 0x400)
    } else {
        nearest_even(kib * 10, 0x10_0000)
    }
}

/// The text of a change is that of its size, behind its sign.
pub proof fn law_changes_have_a_sign(kib: nat)
    ensures
        signed_bytes_text(kib as int) == "+"@ + bytes_text(kib),
        kib > 0 ==> signed_bytes_text(-(kib as int)) == "-"@ + bytes_text(kib),
{
}

/// The short text of a change: whole KiB below one MiB, the nearest MiB below one
/// GiB, and from there on the nearest tenth of a GiB, behind its sign.
pub proof fn law_changes_are_written_short(kib: nat, sign: Seq<char>, change: int) -> (size: nat)
    requires
        kib < 0x20_0000_0000_0000,
        change == kib && sign == "+"@ || kib > 0 && change == -(kib as int) && sign == "-"@,
    ensures
        kib < 1_024 ==> compact_text(change) == sign + number::decimal(kib) + "KiB"@,
        1_024 <= kib < 1_048_576 ==> {
            &&& compact_text(change) == sign + number::decimal(size) + "MiB"@
            &&& kib * 2 - 1_024 <= size * 2_048 <= kib * 2 + 1_024
        },
        1_048_576 <= kib ==> {
            &&& compact_text(change) == sign + (number::decimal(size / 10) + "."@ + number::decimal(
                size % 10,
            )) + "GiB"@
            &&& kib * 20 - 1_048_576 <= size * 2_097_152 <= kib * 20 + 1_048_576
        },
{
    law_sizes_are_kept(kib);
    law_rounding(kib, 0x400);
    law_rounding(kib * 10, 0x10_0000);
    if kib < 1_048_576 {
        nearest_even(kib, 0x400)
    } else {
        nearest_even(kib * 10, 0x10_0000)
    }
}

/// The text of a time: its hours and minutes, the minutes in two digits behind
/// hours; what is left of a minute is told only where there is nothing else.
pub proof fn law_durations_are_written(hours: nat, minutes: nat, seconds: nat)
    requires
        minutes < 60,
        seconds < 60,
    ensures
        ({
            let text = duration_text((hours * 3_600 + minutes * 60 + seconds) as int);
            &&& hours > 0 && minutes < 10 ==> text == number::decimal(hours) + "h 0"@
                + number::decimal(minutes) + "m"@
            &&& hours > 0 && minutes >= 10 ==> text == number::decimal(hours) + "h "@
                + number::decimal(minutes) + "m"@
            &&& hours == 0 && minutes > 0 ==> text == number::decimal(minutes) + "m"@
            &&& hours == 0 && minutes == 0 && seconds > 0 ==> text == "<1m"@
            &&& hours == 0 && minutes == 0 && seconds == 0 ==> text == "0m"@
        }),
{
    let time = hours * 3_600 + minutes * 60 + seconds;
    assert(time / 3_600 == hours && time % 3_600 == minutes * 60 + seconds);
    reveal_strlit("h 0");
    reveal_strlit("h ");
    reveal_with_fuel(number::decimal, 2);
    let padded = number::zero_padded(minutes as int, 2);
    if minutes < 10 {
        assert(padded =~= seq!['0'] + number::decimal(minutes));
        assert("h 0"@ =~= "h "@ + seq!['0']);
        assert(number::decimal(hours) + "h 0"@ + number::decimal(minutes) =~= number::decimal(hours)
            + "h "@ + padded);
    } else {
        assert(number::decimal(minutes).len() == 2);
        assert(padded =~= number::decimal(minutes));
    }
}

/// Doubling stops when the quotient has 53 binary digits, and multiplies by what it
/// says it multiplies by.
proof fn lemma_doubled(n: nat, d: nat, factor: nat)
    requires
        0 < n <= d,
        factor > 0,
    ensures
        ({
            let (m, f) = doubled(n, d, factor);
            &&& m * factor == n * f
            &&& 0x10_0000_0000_0000 * d <= m < 0x20_0000_0000_0000 * d
            &&& f > 0
        }),
{
    lemma_doubled_from(n, d, factor, n, factor);
}

proof fn lemma_doubled_from(n: nat, d: nat, factor: nat, m: nat, f: nat)
    requires
        0 < n <= d,
        factor > 0,
        f > 0,
        0 < m < 0x20_0000_0000_0000 * d,
        m * factor == n * f,
    ensures
        ({
            let (last, by) = doubled(m, d, f);
            &&& last * factor == n * by
            &&& 0x10_0000_0000_0000 * d <= last < 0x20_0000_0000_0000 * d
            &&& by > 0
        }),
    decreases 0x20_0000_0000_0000 * d - m,
{
    if m < 0x10_0000_0000_0000 * d {
        assert((2 * m) * factor == n * (2 * f)) by (nonlinear_arith)
            requires
                m * factor == n * f,
        ;
        lemma_doubled_from(n, d, factor, 2 * m, 2 * f);
    }
}

/// A share is written as a percentage, right to the nearest tenth but for the last
/// hundredth of one.
pub proof fn law_shares_are_written(part: nat, whole: nat) -> (tenths: nat)
    requires
        part <= whole,
        0 < whole < 0x20_0000_0000_0000,
    ensures
        share_text(part, whole) == number::decimal(tenths / 10) + "."@ + number::decimal(
            tenths % 10,
        ),
        100_000 * part - 51 * whole <= 100 * (tenths * whole) <= 100_000 * part + 51 * whole,
        share_text(part, 0) == "0.0"@,
{
    law_sizes_are_kept(part);
    law_sizes_are_kept(whole);
    let tenths = percent_tenths(part, whole);
    let (n, factor) = doubled(part, whole, 1);
    let quotient = nearest_even(n, whole);
    let double = as_double(quotient * 100);
    if part == 0 {
        assert(n == 0 && factor == 1);
        assert(0nat / whole == 0 && 0nat % whole == 0) by (nonlinear_arith)
            requires
                whole > 0,
        ;
        assert(quotient == 0);
        law_sizes_are_kept(0);
        assert(double == 0);
        assert(tenths == 0);
        assert(tenths * whole == 0);
    } else {
        lemma_doubled(part, whole, 1);
        assert(n * 1 == n);
        law_rounding(n, whole);
        law_sizes_are_kept(quotient * 100);
        law_rounding(double * 10, factor);
        lemma_share(part, whole, n, factor, quotient, double, tenths);
    }
    tenths
}

/// The error of a share, from those of the steps that it is computed in.
proof fn lemma_share(
    part: nat,
    whole: nat,
    n: nat,
    factor: nat,
    quotient: nat,
    double: nat,
    tenths: nat,
)
    requires
        0 < part <= whole,
        n == part * factor,
        0x10_0000_0000_0000 * whole <= n,
        n < 0x20_0000_0000_0000 * whole,
        2 * n <= 2 * (quotient * whole) + whole,
        2 * (quotient * whole) <= 2 * n + whole,
        0x20_0000_0000_0000 * double <= 0x20_0000_0000_0000 * (quotient * 100) + quotient * 100,
        0x20_0000_0000_0000 * (quotient * 100) <= 0x20_0000_0000_0000 * double + quotient * 100,
        2 * (double * 10) <= 2 * (tenths * factor) + factor,
        2 * (tenths * factor) <= 2 * (double * 10) + factor,
        factor > 0,
    ensures
        100_000 * part - 51 * whole <= 100 * (tenths * whole) <= 100_000 * part + 51 * whole,
{
    // The quotient has no more than 53 binary digits, so its double is off by at most 100.
    assert(quotient <= 0x20_0000_0000_0000) by (nonlinear_arith)
        requires
            2 * (quotient * whole) <= 2 * n + whole,
            n < 0x20_0000_0000_0000 * whole,
            whole > 0,
    ;
    assert(quotient * 100 - 100 <= double <= quotient * 100 + 100);
    assert(factor >= 0x10_0000_0000_0000) by (nonlinear_arith)
        requires
            n == part * factor,
            part <= whole,
            0x10_0000_0000_0000 * whole <= n,
            part > 0,
    ;
    // Everything times the factor and the whole.
    let exact = part * factor;
    let found = tenths * factor * whole;
    assert(double * whole <= 100 * (quotient * whole) + 100 * whole && 100 * (quotient * whole)
        <= double * whole + 100 * whole) by (nonlinear_arith)
        requires
            quotient * 100 - 100 <= double <= quotient * 100 + 100,
    ;
    assert(2 * found <= 20 * (double * whole) + factor * whole && 20 * (double * whole) <= 2 * found
        + factor * whole) by (nonlinear_arith)
        requires
            2 * (double * 10) <= 2 * (tenths * factor) + factor,
            2 * (tenths * factor) <= 2 * (double * 10) + factor,
            found == tenths * factor * whole,
    ;
    assert(2 * found <= 2_000 * exact + 3_000 * whole + factor * whole);
    assert(2_000 * exact <= 2 * found + 3_000 * whole + factor * whole);
    assert(factor * whole >= 300_000 * whole) by (nonlinear_arith)
        requires
            factor >= 0x10_0000_0000_0000,
    ;
    assert(200 * found <= 200_000 * exact + 102 * (factor * whole));
    assert(200_000 * exact <= 200 * found + 102 * (factor * whole));
    assert(found == (tenths * whole) * factor && factor * whole == whole * factor) by (
        nonlinear_arith)
        requires
            found == tenths * factor * whole,
    ;
    let error = tenths * whole;
    assert(200 * error <= 200_000 * part + 102 * whole && 200_000 * part <= 200 * error + 102
        * whole) by (nonlinear_arith)
        requires
            200 * (error * factor) <= 200_000 * (part * factor) + 102 * (whole * factor),
            200_000 * (part * factor) <= 200 * (error * factor) + 102 * (whole * factor),
            factor > 0,
    ;
}

} // verus!
