//! Whether the user is at the machine, and which time counts as focused.
use vstd::prelude::*;
use vstd::string::*;
use crate::memory;
use crate::number;
use crate::number::parse_u64;
use crate::process::Platform;
use crate::text;
use crate::text::{after_first, same_text, split_lines, trim};

verus! {

/// How long, in nanoseconds, the user may leave the machine untouched before
/// focused time stops counting.
pub const MAX_IDLE: u64 = 300_000_000_000;

/// Time between two looks at the focused tab, in nanoseconds.
pub const USAGE_POLL_INTERVAL: u64 = 5_000_000_000;

/// Longest time, in nanoseconds, between two looks that counts as continuous use.
pub const LONGEST_CREDIT: u64 = 15_000_000_000;

/// Nanoseconds in a second.
pub const SECOND: u64 = 1_000_000_000;

/// Why focused time is not being counted.
#[derive(Clone, Copy, Debug, PartialEq, Eq, Structural)]
pub enum Away {
    Idle,
    LidClosed,
}

impl Away {
    /// The reason in words.
    pub open spec fn words(self) -> Seq<char> {
        match self {
            Away::Idle => "you stepped away"@,
            Away::LidClosed => "the lid is closed"@,
        }
    }

    /// The reason in words.
    pub fn reason(self) -> (reason: &'static str)
        ensures
            reason@ == self.words(),
    {
        match self {
            Away::Idle => "you stepped away",
            Away::LidClosed => "the lid is closed",
        }
    }
}

/// What stands in front of the value of a key.
pub open spec fn key_mark(key: Seq<char>) -> Seq<char> {
    "\""@ + key + "\" = "@
}

/// The value of a key in the lines of an `ioreg` dump: what follows it on the
/// first line that has it.
pub open spec fn value_in(lines: Seq<Seq<char>>, key: Seq<char>) -> Option<Seq<char>>
    decreases lines.len(),
{
    if lines.len() == 0 {
        None
    } else {
        match text::text_after(lines[0], key_mark(key)) {
            Some(value) => Some(value),
            None => value_in(lines.skip(1), key),
        }
    }
}

/// Reads the value of a key out of an `ioreg` dump.
pub fn ioreg_value(dump: &str, key: &str) -> (value: Option<String>)
    ensures
        value is Some <==> value_in(text::lines_of(dump@), key@) is Some,
        value matches Some(found) ==> Some(found@) == value_in(text::lines_of(dump@), key@),
{
    let mut needle = "\"".to_owned();
    needle.append(key);
    needle.append("\" = ");
    let lines = split_lines(dump);
    let ghost all = text::texts(lines@);
    let mut i: usize = 0;
    assert(all.skip(0) =~= all);
    while i < lines.len()
        invariant
            i <= lines@.len(),
            all == text::texts(lines@),
            all == text::lines_of(dump@),
            needle@ == key_mark(key@),
            value_in(all, key@) == value_in(all.skip(i as int), key@),
        decreases lines@.len() - i,
    {
        proof {
            assert(all.skip(i as int)[0] == lines@[i as int]@);
            assert(all.skip(i as int).skip(1) =~= all.skip(i + 1));
        }
        match after_first(lines[i].as_str(), needle.as_str()) {
            Some(value) => {
                return Some(value);
            },
            None => {},
        }
        i += 1;
    }
    None
}

/// Whether an `ioreg` dump says that the lid is closed. Desktop Macs have no lid
/// at all, so a missing value means open.
pub fn lid_is_closed(dump: &str) -> (closed: bool)
    ensures
        closed == match value_in(text::lines_of(dump@), "AppleClamshellState"@) {
            Some(value) => text::trimmed(value) == "Yes"@,
            None => false,
        },
{
    match ioreg_value(dump, "AppleClamshellState") {
        Some(value) => same_text(trim(value.as_str()).as_str(), "Yes"),
        None => false,
    }
}

/// How long, in nanoseconds, the machine has been left untouched according to an
/// `ioreg` dump.
pub fn hid_idle_time(dump: &str) -> (idle: Option<u64>)
    ensures
        idle == match value_in(text::lines_of(dump@), "HIDIdleTime"@) {
            Some(value) => number::u64_of(text::trimmed(value)),
            None => None,
        },
{
    match ioreg_value(dump, "HIDIdleTime") {
        Some(value) => parse_u64(trim(value.as_str()).as_str()),
        None => None,
    }
}

/// Why the user is not at the machine, if they are not.
pub open spec fn why_away(platform: Platform, lid_closed: bool, idle: Option<u64>) -> Option<Away> {
    if platform == Platform::Linux {
        None
    } else if lid_closed {
        Some(Away::LidClosed)
    } else if idle is Some && idle.unwrap() > MAX_IDLE {
        Some(Away::Idle)
    } else {
        None
    }
}

/// Why the user is not at the machine, if they are not. Only macOS tells.
pub fn away_reason(platform: Platform, lid_closed: bool, idle: Option<u64>) -> (away: Option<Away>)
    ensures
        away == why_away(platform, lid_closed, idle),
{
    match platform {
        Platform::Linux => None,
        Platform::MacOs => {
            if lid_closed {
                return Some(Away::LidClosed);
            }
            match idle {
                Some(idle) => if idle > MAX_IDLE {
                    Some(Away::Idle)
                } else {
                    None
                },
                None => None,
            }
        },
    }
}

/// The time between two looks that counts as focused. Each look is a reading of
/// the monotonic clock and one of the wall clock, in nanoseconds. Whichever of
/// the clocks a sleep has frozen, the other one shows the gap.
pub open spec fn credit(previous: (u64, i128), now: (u64, i128)) -> Option<u64> {
    let elapsed = memory::time_between(previous.0, now.0);
    let wall_elapsed = now.1 - previous.1;
    if elapsed <= LONGEST_CREDIT && 0 <= wall_elapsed <= LONGEST_CREDIT {
        Some(elapsed)
    } else {
        None
    }
}

/// The time to credit between two looks, or none when the gap is too long to
/// have been continuous use or the wall clock went backwards.
pub fn credited_time(previous: (u64, i128), now: (u64, i128)) -> (elapsed: Option<u64>)
    ensures
        elapsed == credit(previous, now),
        elapsed matches Some(time) ==> time <= LONGEST_CREDIT,
{
    let elapsed: u64 = now.0.saturating_sub(previous.0);
    if elapsed > LONGEST_CREDIT || now.1 < previous.1 {
        return None;
    }
    if previous.1 <= i128::MAX - LONGEST_CREDIT as i128 && now.1 > previous.1
        + LONGEST_CREDIT as i128 {
        return None;
    }
    Some(elapsed)
}

/// A sleep, or any gap longer than three looks, earns nothing, whichever of the
/// clocks shows it.
pub proof fn law_gaps_earn_nothing(previous: (u64, i128), now: (u64, i128))
    ensures
        memory::time_between(previous.0, now.0) > 3 * USAGE_POLL_INTERVAL ==> credit(previous, now) is None,
        now.1 - previous.1 > 3 * USAGE_POLL_INTERVAL ==> credit(previous, now) is None,
        now.1 < previous.1 ==> credit(previous, now) is None,
{
}

/// Continuous use counts: where both clocks moved on, neither by more than a
/// quarter of a minute, all the time that passed on the monotonic clock is
/// credited, and nothing in any other case.
pub proof fn law_continuous_use_is_credited(previous: (u64, i128), now: (u64, i128))
    requires
        previous.0 <= now.0,
    ensures
        now.0 - previous.0 <= 15_000_000_000 && 0 <= now.1 - previous.1 <= 15_000_000_000
            <==> credit(previous, now) is Some,
        credit(previous, now) matches Some(time) ==> time == now.0 - previous.0,
        3 * USAGE_POLL_INTERVAL == 15_000_000_000,
{
}

/// The value of a key is what follows `"key" = ` on the first line that has it.
pub proof fn law_value_follows_its_key(lines: Seq<Seq<char>>, key: Seq<char>, i: int)
    requires
        0 <= i < lines.len(),
        forall|k: int|
            0 <= k < i ==> text::text_after(#[trigger] lines[k], "\""@ + key + "\" = "@) is None,
        text::text_after(lines[i], "\""@ + key + "\" = "@) is Some,
    ensures
        value_in(lines, key) == text::text_after(lines[i], "\""@ + key + "\" = "@),
    decreases i,
{
    if i > 0 {
        let rest = lines.skip(1);
        assert(text::text_after(lines[0], "\""@ + key + "\" = "@) is None);
        assert forall|k: int| 0 <= k < i - 1 implies text::text_after(
            #[trigger] rest[k],
            "\""@ + key + "\" = "@,
        ) is None by {
            assert(rest[k] == lines[k + 1]);
        }
        law_value_follows_its_key(rest, key, i - 1);
    }
}

/// A key that no line has, has no value.
pub proof fn law_missing_key_has_no_value(lines: Seq<Seq<char>>, key: Seq<char>)
    requires
        forall|k: int|
            0 <= k < lines.len() ==> text::text_after(
                #[trigger] lines[k],
                "\""@ + key + "\" = "@,
            ) is None,
    ensures
        value_in(lines, key) is None,
    decreases lines.len(),
{
    if lines.len() > 0 {
        let rest = lines.skip(1);
        assert(text::text_after(lines[0], "\""@ + key + "\" = "@) is None);
        assert forall|k: int| 0 <= k < rest.len() implies text::text_after(
            #[trigger] rest[k],
            "\""@ + key + "\" = "@,
        ) is None by {
            assert(rest[k] == lines[k + 1]);
        }
        law_missing_key_has_no_value(rest, key);
    }
}

/// A user counts as away on macOS alone: with the lid closed, whatever else, or
/// after five minutes without touching the machine.
pub proof fn law_away(platform: Platform, lid_closed: bool, idle: Option<u64>)
    ensures
        why_away(Platform::Linux, lid_closed, idle) is None,
        why_away(platform, lid_closed, idle) == Some(Away::LidClosed) <==> platform
            == Platform::MacOs && lid_closed,
        why_away(platform, lid_closed, idle) == Some(Away::Idle) <==> platform == Platform::MacOs
            && !lid_closed && (idle matches Some(time) && time > 300_000_000_000),
{
}

} // verus!
