//! Totals of focused time, and the bars and shades that show them.
use vstd::prelude::*;
use vstd::string::*;

verus! {

/// What the usage calendar shows for each column.
#[derive(Clone, Copy, Debug, PartialEq, Eq, Structural)]
pub enum UsageScale {
    Daily,
    Weekly,
    Cumulative,
}

impl UsageScale {
    /// The name of a scale.
    pub open spec fn name(self) -> Seq<char> {
        match self {
            UsageScale::Daily => "daily"@,
            UsageScale::Weekly => "weekly"@,
            UsageScale::Cumulative => "cumulative"@,
        }
    }

    /// The name of a scale.
    pub fn label(self) -> (label: &'static str)
        ensures
            label@ == self.name(),
    {
        match self {
            UsageScale::Daily => "daily",
            UsageScale::Weekly => "weekly",
            UsageScale::Cumulative => "cumulative",
        }
    }

    /// Smallest value that still counts as a full-brightness cell.
    pub open spec fn floor(self) -> u64 {
        match self {
            UsageScale::Daily => 14_400,
            UsageScale::Weekly => 72_000,
            UsageScale::Cumulative => 0,
        }
    }

    /// Smallest value that still counts as a full-brightness cell, so a quiet
    /// stretch of days does not light up the grid as if it were a busy one.
    pub fn brightness_floor(self) -> (floor: u64)
        ensures
            floor == self.floor(),
    {
        match self {
            UsageScale::Daily => 4 * 3_600,
            UsageScale::Weekly => 20 * 3_600,
            UsageScale::Cumulative => 0,
        }
    }
}

/// The exact sum of some values.
pub open spec fn total(values: Seq<u64>) -> nat
    decreases values.len(),
{
    if values.len() == 0 {
        0
    } else {
        total(values.drop_last()) + values.last() as nat
    }
}

/// `n`, or the largest `u64` where `n` is beyond it.
pub open spec fn capped(n: nat) -> u64 {
    if n <= u64::MAX {
        n as u64
    } else {
        u64::MAX
    }
}

proof fn lemma_total_push(values: Seq<u64>, value: u64)
    ensures
        total(values.push(value)) == total(values) + value,
{
    assert(values.push(value).drop_last() == values);
}

pub proof fn lemma_total_add(a: Seq<u64>, b: Seq<u64>)
    ensures
        total(a + b) == total(a) + total(b),
    decreases b.len(),
{
    if b.len() == 0 {
        assert(a + b == a);
    } else {
        lemma_total_add(a, b.drop_last());
        assert((a + b).drop_last() == a + b.drop_last());
    }
}

/// A sum is no smaller than any of its parts.
pub proof fn lemma_total_covers(values: Seq<u64>, i: int)
    requires
        0 <= i < values.len(),
    ensures
        values[i] <= total(values),
        values[i] <= capped(total(values)),
    decreases values.len(),
{
    if i < values.len() - 1 {
        lemma_total_covers(values.drop_last(), i);
    }
}

/// The sum of `values[from..to]`, capped at the largest `u64`.
fn sum_between(values: &[u64], from: usize, to: usize) -> (sum: u64)
    requires
        from <= to <= values@.len(),
    ensures
        sum == capped(total(values@.subrange(from as int, to as int))),
{
    let mut sum: u64 = 0;
    let mut i: usize = from;
    assert(values@.subrange(from as int, from as int) =~= Seq::<u64>::empty());
    while i < to
        invariant
            from <= i <= to <= values@.len(),
            sum == capped(total(values@.subrange(from as int, i as int))),
        decreases to - i,
    {
        proof {
            lemma_total_push(values@.subrange(from as int, i as int), values@[i as int]);
            assert(values@.subrange(from as int, i + 1) == values@.subrange(
                from as int,
                i as int,
            ).push(values@[i as int]));
        }
        sum = sum.saturating_add(values[i]);
        i += 1;
    }
    sum
}

/// The sum of some values, capped at the largest `u64`.
pub fn sum_seconds(values: &[u64]) -> (sum: u64)
    ensures
        sum == capped(total(values@)),
{
    assert(values@.subrange(0, values@.len() as int) == values@);
    sum_between(values, 0, values.len())
}

/// The largest of some values, 0 where there is none.
pub open spec fn largest(values: Seq<u64>) -> u64
    decreases values.len(),
{
    if values.len() == 0 {
        0
    } else {
        let before = largest(values.drop_last());
        if values.last() > before {
            values.last()
        } else {
            before
        }
    }
}

/// The largest of some values is one of them, and no value is above it.
pub proof fn lemma_largest(values: Seq<u64>)
    ensures
        forall|i: int| 0 <= i < values.len() ==> values[i] <= largest(values),
        values.len() > 0 ==> values.contains(largest(values)),
    decreases values.len(),
{
    if values.len() > 0 {
        let before = values.drop_last();
        lemma_largest(before);
        assert forall|i: int| 0 <= i < values.len() implies values[i] <= largest(values) by {
            if i < before.len() {
                assert(values[i] == before[i]);
            }
        }
        if largest(values) == values.last() {
            assert(values[values.len() - 1] == values.last());
        } else if before.len() > 0 {
            let at = before.index_of(largest(before));
            assert(values[at] == largest(before));
        }
    }
}

/// The largest of some values, 0 where there is none.
pub fn maximum(values: &[u64]) -> (most: u64)
    ensures
        most == largest(values@),
{
    let mut most: u64 = 0;
    let mut i: usize = 0;
    assert(values@.take(0) =~= Seq::<u64>::empty());
    while i < values.len()
        invariant
            i <= values@.len(),
            most == largest(values@.take(i as int)),
        decreases values@.len() - i,
    {
        assert(values@.take(i + 1).drop_last() == values@.take(i as int));
        if values[i] > most {
            most = values[i];
        }
        i += 1;
    }
    assert(values@.take(i as int) == values@);
    most
}

/// The value that full brightness stands for.
pub open spec fn peak_of(values: Seq<u64>, scale: UsageScale) -> u64 {
    if largest(values) > scale.floor() {
        largest(values)
    } else {
        scale.floor()
    }
}

/// The value that full brightness stands for: the busiest one, but never less
/// than the scale's floor.
pub fn usage_peak(values: &[u64], scale: UsageScale) -> (peak: u64)
    ensures
        peak == peak_of(values@, scale),
{
    let most: u64 = maximum(values);
    let floor: u64 = scale.brightness_floor();
    if most > floor {
        most
    } else {
        floor
    }
}

/// Where week `week` ends among `days` days.
pub open spec fn week_end(days: int, week: int) -> int {
    if 7 * week + 7 <= days {
        7 * week + 7
    } else {
        days
    }
}

/// The value of one week column: that week's total, or the running total up to
/// its end.
pub open spec fn week_value(daily: Seq<u64>, scale: UsageScale, week: int) -> u64 {
    let end = week_end(daily.len() as int, week);
    if scale == UsageScale::Cumulative {
        capped(total(daily.take(end)))
    } else {
        capped(total(daily.subrange(7 * week, end)))
    }
}

/// Number of weeks that `days` days fill or begin.
pub open spec fn weeks_in(days: int) -> int {
    (days + 6) / 7
}

/// One value per week column.
pub open spec fn weekly_values(daily: Seq<u64>, scale: UsageScale) -> Seq<u64> {
    Seq::new(weeks_in(daily.len() as int) as nat, |week: int| week_value(daily, scale, week))
}

/// One value per week column: that week's total, or the running total across
/// the range.
pub fn weekly_usage(daily: &[u64], scale: UsageScale) -> (values: Vec<u64>)
    ensures
        values@ == weekly_values(daily@, scale),
{
    let mut values: Vec<u64> = Vec::new();
    let mut start: usize = 0;
    let mut running: u64 = 0;
    let ghost mut week: int = 0;
    assert(daily@.take(0) =~= Seq::<u64>::empty());
    while start < daily.len()
        invariant
            0 <= week,
            start == if 7 * week <= daily@.len() {
                7 * week
            } else {
                daily@.len() as int
            },
            values@.len() == week,
            week <= weeks_in(daily@.len() as int),
            running == capped(total(daily@.take(start as int))),
            forall|i: int| 0 <= i < week ==> values@[i] == week_value(daily@, scale, i),
        decreases daily@.len() - start,
    {
        let end: usize = if daily.len() - start > 7 {
            start + 7
        } else {
            daily.len()
        };
        let seconds: u64 = sum_between(daily, start, end);
        proof {
            lemma_total_add(daily@.take(start as int), daily@.subrange(start as int, end as int));
            assert(daily@.take(start as int) + daily@.subrange(start as int, end as int)
                == daily@.take(end as int));
            assert(end == week_end(daily@.len() as int, week));
        }
        running = running.saturating_add(seconds);
        if scale == UsageScale::Cumulative {
            values.push(running);
        } else {
            values.push(seconds);
        }
        proof {
            week = week + 1;
        }
        start = end;
    }
    values
}

/// The last column of a running total is the total of the whole range.
pub proof fn law_running_total(daily: Seq<u64>)
    requires
        daily.len() > 0,
    ensures
        weekly_values(daily, UsageScale::Cumulative).len() > 0,
        weekly_values(daily, UsageScale::Cumulative).last() == capped(total(daily)),
{
    let weeks = weeks_in(daily.len() as int);
    assert(week_end(daily.len() as int, weeks - 1) == daily.len());
    assert(daily.take(daily.len() as int) == daily);
}

/// A running total never falls from one week to the next.
pub proof fn law_running_total_climbs(daily: Seq<u64>, week: int)
    requires
        0 <= week,
        week + 1 < weeks_in(daily.len() as int),
    ensures
        weekly_values(daily, UsageScale::Cumulative)[week] <= weekly_values(
            daily,
            UsageScale::Cumulative,
        )[week + 1],
{
    let early = week_end(daily.len() as int, week);
    let late = week_end(daily.len() as int, week + 1);
    lemma_total_add(daily.take(early), daily.subrange(early, late));
    assert(daily.take(early) + daily.subrange(early, late) == daily.take(late));
}

/// Height of a bar in eighths of a row.
pub open spec fn eighths_of(value: int, peak: int, rows: int) -> int {
    if value == 0 || peak == 0 {
        0
    } else {
        let scaled = (capped((value * (rows * 8)) as nat) + peak / 2) / peak;
        let height = if scaled < 1 {
            1
        } else {
            scaled
        };
        if height > rows * 8 {
            rows * 8
        } else {
            height
        }
    }
}

/// Height of one bar in eighths of a row, the resolution the block glyphs give.
/// Any non-zero total keeps at least one eighth so a quiet week stays visible
/// instead of vanishing into the baseline.
pub fn bar_eighths(value: u64, peak: u64, rows: usize) -> (eighths: usize)
    requires
        rows * 8 <= usize::MAX,
    ensures
        eighths == eighths_of(value as int, peak as int, rows as int),
{
    if value == 0 || peak == 0 {
        return 0;
    }
    let full: usize = rows * 8;
    assert(0 <= value * full <= u64::MAX * u64::MAX) by (nonlinear_arith)
        requires
            0 <= value <= u64::MAX,
            0 <= full <= u64::MAX,
    ;
    let product: u128 = value as u128 * full as u128;
    let scale: u128 = if product > u64::MAX as u128 {
        u64::MAX as u128
    } else {
        product
    };
    let scaled: u128 = (scale + (peak / 2) as u128) / peak as u128;
    let height: u128 = if scaled < 1 {
        1
    } else {
        scaled
    };
    if height > full as u128 {
        full
    } else {
        height as usize
    }
}

/// A week with usage always shows, and no bar is taller than the chart.
pub proof fn law_bar_visible(value: int, peak: int, rows: int)
    requires
        0 < value <= u64::MAX,
        0 < peak,
        1 <= rows,
    ensures
        1 <= eighths_of(value, peak, rows) <= rows * 8,
{
}

/// The busiest week fills the chart.
pub proof fn law_peak_fills_chart(peak: int, rows: int)
    requires
        0 < peak,
        1 <= rows,
        peak * (rows * 8) <= u64::MAX,
    ensures
        eighths_of(peak, peak, rows) == rows * 8,
{
    let full = rows * 8;
    assert(peak * full >= 0) by (nonlinear_arith)
        requires
            peak > 0,
            full > 0,
    ;
    assert((peak * full + peak / 2) / peak == full) by (nonlinear_arith)
        requires
            peak > 0,
            full > 0,
    ;
}

/// The part of a bar that falls in one row, in eighths.
pub open spec fn row_level(eighths: int, rows_below: int) -> int {
    let left = eighths - rows_below * 8;
    if left < 0 {
        0
    } else if left > 8 {
        8
    } else {
        left
    }
}

/// The block glyph that fills `level` eighths of a row.
pub open spec fn glyph_text(level: int) -> Seq<char> {
    if level <= 0 {
        " "@
    } else if level == 1 {
        "\u{2581}"@
    } else if level == 2 {
        "\u{2582}"@
    } else if level == 3 {
        "\u{2583}"@
    } else if level == 4 {
        "\u{2584}"@
    } else if level == 5 {
        "\u{2585}"@
    } else if level == 6 {
        "\u{2586}"@
    } else if level == 7 {
        "\u{2587}"@
    } else {
        "\u{2588}"@
    }
}

/// The slice of a bar that falls in one row, counting up from the baseline.
pub fn bar_glyph(eighths: usize, rows_below: usize) -> (glyph: &'static str)
    requires
        rows_below * 8 <= usize::MAX,
    ensures
        glyph@ == glyph_text(row_level(eighths as int, rows_below as int)),
{
    let level: usize = eighths.saturating_sub(rows_below * 8);
    if level == 0 {
        " "
    } else if level == 1 {
        "\u{2581}"
    } else if level == 2 {
        "\u{2582}"
    } else if level == 3 {
        "\u{2583}"
    } else if level == 4 {
        "\u{2584}"
    } else if level == 5 {
        "\u{2585}"
    } else if level == 6 {
        "\u{2586}"
    } else if level == 7 {
        "\u{2587}"
    } else {
        "\u{2588}"
    }
}

/// What a bar fills of the lowest `rows` rows.
pub open spec fn filled(eighths: int, rows: int) -> int
    decreases rows,
{
    if rows <= 0 {
        0
    } else {
        filled(eighths, rows - 1) + row_level(eighths, rows - 1)
    }
}

/// The slices of a bar add up to its height.
pub proof fn law_slices_make_the_bar(eighths: int, rows: int)
    requires
        0 <= rows,
        0 <= eighths,
    ensures
        eighths <= rows * 8 ==> filled(eighths, rows) == eighths,
        eighths >= rows * 8 ==> filled(eighths, rows) == rows * 8,
    decreases rows,
{
    if rows > 0 {
        law_slices_make_the_bar(eighths, rows - 1);
    }
}

/// The shade of a value: 0 is no usage, 1 to 4 are quarters of the peak.
pub open spec fn level_of(value: int, peak: int) -> int {
    if value == 0 || peak == 0 {
        0
    } else {
        let quarters = (capped((value * 4) as nat) + peak - 1) / peak;
        if quarters < 1 {
            1
        } else if quarters > 4 {
            4
        } else {
            quarters
        }
    }
}

/// Buckets a value into the ramp: 0 is no usage, 1 to 4 are quarters of the peak.
pub fn usage_level(value: u64, peak: u64) -> (level: usize)
    ensures
        level == level_of(value as int, peak as int),
        level <= 4,
{
    if value == 0 || peak == 0 {
        return 0;
    }
    let product: u128 = value as u128 * 4;
    let scale: u128 = if product > u64::MAX as u128 {
        u64::MAX as u128
    } else {
        product
    };
    let quarters: u128 = (scale + peak as u128 - 1) / peak as u128;
    if quarters < 1 {
        1
    } else if quarters > 4 {
        4
    } else {
        quarters as usize
    }
}

/// A value up to the peak is in the quarter of the peak that its shade names.
pub proof fn law_level_is_quarter(value: int, peak: int)
    requires
        0 < value <= peak,
        value * 4 <= u64::MAX,
    ensures
        1 <= level_of(value, peak) <= 4,
        (level_of(value, peak) - 1) * peak < 4 * value <= level_of(value, peak) * peak,
{
    let quarters = (value * 4 + peak - 1) / peak;
    assert((quarters - 1) * peak < 4 * value <= quarters * peak && 1 <= quarters <= 4)
        by (nonlinear_arith)
        requires
            0 < value <= peak,
            quarters == (value * 4 + peak - 1) / peak,
    ;
}

/// A larger value never has a lower shade.
pub proof fn law_level_monotone(a: int, b: int, peak: int)
    requires
        0 <= a <= b,
        0 <= peak,
    ensures
        level_of(a, peak) <= level_of(b, peak),
{
    if a > 0 && peak > 0 {
        let low = capped((a * 4) as nat) + peak - 1;
        let high = capped((b * 4) as nat) + peak - 1;
        assert(low / peak <= high / peak) by (nonlinear_arith)
            requires
                low <= high,
                peak > 0,
        ;
    }
}

/// A sum counts every value once: nothing comes to 0, one value to itself, and
/// two lists together to both sums.
pub proof fn law_total(value: u64, a: Seq<u64>, b: Seq<u64>)
    ensures
        total(Seq::empty()) == 0,
        total(seq![value]) == value,
        total(a + b) == total(a) + total(b),
        capped(total(a)) == total(a) || (capped(total(a)) == u64::MAX && total(a) > u64::MAX),
{
    assert(seq![value].drop_last() =~= Seq::<u64>::empty());
    lemma_total_add(a, b);
}

/// The largest of some values is one of them, and no other exceeds it.
pub proof fn law_largest(values: Seq<u64>)
    ensures
        forall|i: int| 0 <= i < values.len() ==> #[trigger] values[i] <= largest(values),
        values.len() > 0 ==> values.contains(largest(values)),
        values.len() == 0 ==> largest(values) == 0,
    decreases values.len(),
{
    if values.len() > 0 {
        let before = values.drop_last();
        law_largest(before);
        assert forall|i: int| 0 <= i < values.len() implies #[trigger] values[i] <= largest(
            values,
        ) by {
            if i < values.len() - 1 {
                assert(before[i] == values[i]);
            }
        }
        if before.contains(largest(before)) {
            let k = before.index_of(largest(before));
            assert(values[k] == largest(before));
        }
        assert(values[values.len() - 1] == values.last());
    }
}

/// The brightest shade stands for the busiest day there is, but for four hours at
/// least; for the busiest week, but for twenty hours at least; and for the running
/// total just as it is.
pub proof fn law_peak(values: Seq<u64>, scale: UsageScale)
    ensures
        forall|i: int| 0 <= i < values.len() ==> #[trigger] values[i] <= peak_of(values, scale),
        ({
            let floor = match scale {
                UsageScale::Daily => 14_400u64,
                UsageScale::Weekly => 72_000u64,
                UsageScale::Cumulative => 0u64,
            };
            &&& peak_of(values, scale) >= floor
            &&& peak_of(values, scale) == floor || values.contains(peak_of(values, scale))
        }),
{
    law_largest(values);
}

/// A whole week of the weekly scale is its seven days, and the last week what is
/// there of it.
pub proof fn law_week_is_its_days(daily: Seq<u64>, week: int)
    requires
        0 <= week,
        7 * week < daily.len(),
    ensures
        ({
            let value = weekly_values(daily, UsageScale::Weekly)[week];
            &&& week < weekly_values(daily, UsageScale::Weekly).len()
            &&& 7 * week + 7 <= daily.len() ==> value == capped(
                (daily[7 * week] + daily[7 * week + 1] + daily[7 * week + 2] + daily[7 * week + 3]
                    + daily[7 * week + 4] + daily[7 * week + 5] + daily[7 * week + 6]) as nat,
            )
            &&& 7 * week + 7 > daily.len() ==> value == capped(total(daily.skip(7 * week)))
        }),
{
    if 7 * week + 7 <= daily.len() {
        let days = daily.subrange(7 * week, 7 * week + 7);
        reveal_with_fuel(total, 8);
        assert(days =~= seq![
            daily[7 * week],
            daily[7 * week + 1],
            daily[7 * week + 2],
            daily[7 * week + 3],
            daily[7 * week + 4],
            daily[7 * week + 5],
            daily[7 * week + 6],
        ]);
        lemma_sum_of_seven(days);
    } else {
        assert(daily.subrange(7 * week, daily.len() as int) =~= daily.skip(7 * week));
    }
}

proof fn lemma_sum_of_seven(days: Seq<u64>)
    requires
        days.len() == 7,
    ensures
        total(days) == days[0] + days[1] + days[2] + days[3] + days[4] + days[5] + days[6],
{
    reveal_with_fuel(total, 8);
    assert(days.drop_last().drop_last().drop_last().drop_last().drop_last().drop_last().drop_last()
        =~= Seq::<u64>::empty());
}

/// The running total of a week is that of the week before and its own days.
pub proof fn law_running_total_grows_by_the_week(daily: Seq<u64>, week: int)
    requires
        0 <= week,
        7 * week < daily.len(),
        total(daily) <= u64::MAX,
    ensures
        ({
            let running = weekly_values(daily, UsageScale::Cumulative);
            let weekly = weekly_values(daily, UsageScale::Weekly);
            &&& running.len() == weekly.len()
            &&& week < running.len()
            &&& running[week] == weekly[week] + (if week > 0 {
                running[week - 1] as int
            } else {
                0
            })
        }),
{
    let end = week_end(daily.len() as int, week);
    let before = daily.take(7 * week);
    let own = daily.subrange(7 * week, end);
    assert(daily.take(end) =~= before + own);
    assert(daily =~= daily.take(end) + daily.skip(end));
    lemma_total_add(before, own);
    lemma_total_add(daily.take(end), daily.skip(end));
    if week == 0 {
        assert(before =~= Seq::<u64>::empty());
    }
}

/// A bar is to scale: its height is the share of the peak in eighths of a row,
/// to the nearest eighth, but never nothing where there was something.
pub proof fn law_bar_is_to_scale(value: int, peak: int, rows: int)
    requires
        0 <= value <= peak,
        0 < peak,
        1 <= rows,
        value * (rows * 8) <= u64::MAX,
    ensures
        value == 0 <==> eighths_of(value, peak, rows) == 0,
        value > 0 && eighths_of(value, peak, rows) != 1 ==> {
            &&& 2 * (eighths_of(value, peak, rows) * peak - value * (rows * 8)) <= peak
            &&& 2 * (value * (rows * 8) - eighths_of(value, peak, rows) * peak) <= peak
        },
        value > 0 && eighths_of(value, peak, rows) == 1 ==> 2 * (value * (rows * 8)) <= 3 * peak,
{
    if value > 0 {
        let product = value * (rows * 8);
        assert(product >= 8) by (nonlinear_arith)
            requires
                product == value * (rows * 8),
                value >= 1,
                rows >= 1,
        ;
        assert(product <= peak * (rows * 8)) by (nonlinear_arith)
            requires
                product == value * (rows * 8),
                0 <= value <= peak,
                rows >= 1,
        ;
        let scaled = (product + peak / 2) / peak;
        assert(scaled * peak <= product + peak / 2 < scaled * peak + peak) by (nonlinear_arith)
            requires
                scaled == (product + peak / 2) / peak,
                peak > 0,
                product >= 0,
        ;
        assert(scaled <= rows * 8) by (nonlinear_arith)
            requires
                scaled * peak <= product + peak / 2,
                product <= peak * (rows * 8),
                peak > 0,
        ;
        assert(scaled >= 0) by (nonlinear_arith)
            requires
                product + peak / 2 < scaled * peak + peak,
                product >= 0,
                peak > 0,
        ;
        if scaled < 1 {
            assert(scaled * peak == 0) by (nonlinear_arith)
                requires
                    scaled == 0,
            ;
        }
        if scaled == 1 {
            assert(scaled * peak == peak) by (nonlinear_arith)
                requires
                    scaled == 1,
            ;
        }
    }
}

/// A day is left blank just where nothing was recorded on it.
pub proof fn law_blank_means_nothing(value: int, peak: int)
    requires
        0 <= value,
        0 < peak,
    ensures
        level_of(value, peak) == 0 <==> value == 0,
        level_of(value, peak) <= 4,
{
    if value > 0 {
        let quarters = (capped((value * 4) as nat) + peak - 1) / peak;
        assert(quarters >= 1) by (nonlinear_arith)
            requires
                quarters == (capped((value * 4) as nat) + peak - 1) / peak,
                peak > 0,
                capped((value * 4) as nat) >= 1,
        ;
    }
}

/// The glyphs of a bar are the block elements in the order of their height.
pub proof fn law_glyphs_rise(level: int)
    requires
        0 <= level <= 8,
    ensures
        glyph_text(level).len() == 1,
        level == 0 ==> glyph_text(level)[0] == ' ',
        level > 0 ==> glyph_text(level)[0] as int == 0x2580 + level,
{
    reveal_strlit(" ");
    reveal_strlit("\u{2581}");
    reveal_strlit("\u{2582}");
    reveal_strlit("\u{2583}");
    reveal_strlit("\u{2584}");
    reveal_strlit("\u{2585}");
    reveal_strlit("\u{2586}");
    reveal_strlit("\u{2587}");
    reveal_strlit("\u{2588}");
}

/// A bar fills its rows from the bottom: a row is full where the bar reaches over
/// it, empty where it does not reach, and else filled by what is left.
pub proof fn law_bars_fill_from_the_bottom(eighths: int, rows_below: int)
    requires
        0 <= eighths,
        0 <= rows_below,
    ensures
        eighths >= rows_below * 8 + 8 ==> row_level(eighths, rows_below) == 8,
        eighths <= rows_below * 8 ==> row_level(eighths, rows_below) == 0,
        rows_below * 8 <= eighths <= rows_below * 8 + 8 ==> row_level(eighths, rows_below)
            == eighths - rows_below * 8,
{
}

} // verus!
