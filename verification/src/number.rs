//! Numbers as text: reading them, writing them and rounding them for display.
use vstd::prelude::*;
use vstd::string::*;
use crate::text::chars_of;

verus! {

pub open spec fn is_digit(c: char) -> bool {
    '0' <= c <= '9'
}

pub open spec fn all_digits(s: Seq<char>) -> bool {
    forall|i: int| 0 <= i < s.len() ==> is_digit(#[trigger] s[i])
}

/// The value of a run of decimal digits.
pub open spec fn digits_value(s: Seq<char>) -> nat
    decreases s.len(),
{
    if s.len() == 0 {
        0
    } else {
        (digits_value(s.drop_last()) * 10 + (s.last() as int - '0' as int)) as nat
    }
}

/// The number that an unsigned numeral stands for: digits, perhaps after a `+`.
pub open spec fn natural(s: Seq<char>) -> Option<nat> {
    let digits = if s.len() > 0 && s[0] == '+' {
        s.skip(1)
    } else {
        s
    };
    if digits.len() > 0 && all_digits(digits) {
        Some(digits_value(digits))
    } else {
        None
    }
}

/// The number that a signed numeral stands for: digits, perhaps after a sign.
pub open spec fn integer(s: Seq<char>) -> Option<int> {
    if s.len() > 0 && s[0] == '-' {
        let digits = s.skip(1);
        if digits.len() > 0 && all_digits(digits) {
            Some(-(digits_value(digits) as int))
        } else {
            None
        }
    } else {
        match natural(s) {
            Some(n) => Some(n as int),
            None => None,
        }
    }
}

pub open spec fn u64_of(s: Seq<char>) -> Option<u64> {
    match natural(s) {
        Some(n) if n <= u64::MAX => Some(n as u64),
        _ => None,
    }
}

pub open spec fn u32_of(s: Seq<char>) -> Option<u32> {
    match natural(s) {
        Some(n) if n <= u32::MAX => Some(n as u32),
        _ => None,
    }
}

pub open spec fn u16_of(s: Seq<char>) -> Option<u16> {
    match natural(s) {
        Some(n) if n <= u16::MAX => Some(n as u16),
        _ => None,
    }
}

pub open spec fn usize_of(s: Seq<char>) -> Option<usize> {
    match natural(s) {
        Some(n) if n <= usize::MAX => Some(n as usize),
        _ => None,
    }
}

pub open spec fn i64_of(s: Seq<char>) -> Option<i64> {
    match integer(s) {
        Some(n) if i64::MIN <= n <= i64::MAX => Some(n as i64),
        _ => None,
    }
}

pub open spec fn i32_of(s: Seq<char>) -> Option<i32> {
    match integer(s) {
        Some(n) if i32::MIN <= n <= i32::MAX => Some(n as i32),
        _ => None,
    }
}

proof fn lemma_digits_value_push(s: Seq<char>, n: int)
    requires
        0 <= n < s.len(),
    ensures
        digits_value(s.take(n + 1)) == (digits_value(s.take(n)) * 10 + (s[n] as int - '0' as int)) as nat,
{
    assert(s.take(n + 1).drop_last() == s.take(n));
}

/// Reads `chars[from..]` as digits. `Err(true)` is a number above `most`,
/// `Err(false)` is no number at all.
fn read_digits(chars: &Vec<char>, from: usize, most: u64) -> (value: Result<u64, bool>)
    requires
        from <= chars@.len(),
    ensures
        ({
            let digits = chars@.skip(from as int);
            match value {
                Ok(v) => digits.len() > 0 && all_digits(digits) && digits_value(digits) == v && v
                    <= most,
                Err(true) => digits.len() > 0 && all_digits(digits) && digits_value(digits) > most,
                Err(false) => !(digits.len() > 0 && all_digits(digits)),
            }
        }),
{
    let ghost digits = chars@.skip(from as int);
    if from == chars.len() {
        return Err(false);
    }
    let mut value: u64 = 0;
    let mut over: bool = false;
    let mut i: usize = from;
    while i < chars.len()
        invariant
            from <= i <= chars@.len(),
            digits == chars@.skip(from as int),
            all_digits(digits.take(i - from)),
            over ==> digits_value(digits.take(i - from)) > most,
            !over ==> digits_value(digits.take(i - from)) == value && value <= most,
        decreases chars@.len() - i,
    {
        let c = chars[i];
        assert(digits[i - from] == c);
        if c < '0' || c > '9' {
            assert(!is_digit(digits[i - from]));
            return Err(false);
        }
        let digit: u64 = (c as u32 - '0' as u32) as u64;
        let next: u128 = value as u128 * 10 + digit as u128;
        proof {
            lemma_digits_value_push(digits, i - from);
            assert(digits.take(i - from + 1) == digits.take(i - from).push(c));
            assert(all_digits(digits.take(i - from + 1)));
        }
        if !over {
            if next > most as u128 {
                over = true;
            } else {
                value = next as u64;
            }
        }
        i += 1;
    }
    assert(digits.take(i - from) == digits);
    if over {
        Err(true)
    } else {
        Ok(value)
    }
}

fn read_natural(s: &str, most: u64) -> (value: Option<u64>)
    ensures
        match value {
            Some(v) => natural(s@) == Some(v as nat) && v <= most,
            None => match natural(s@) {
                Some(n) => n > most,
                None => true,
            },
        },
{
    let chars = chars_of(s);
    let from: usize = if chars.len() > 0 && chars[0] == '+' {
        1
    } else {
        0
    };
    assert(chars@.skip(0) == s@);
    match read_digits(&chars, from, most) {
        Ok(v) => Some(v),
        Err(_) => None,
    }
}

fn read_integer(s: &str, most: u64) -> (value: Option<i128>)
    requires
        most < u64::MAX,
    ensures
        match value {
            Some(v) => integer(s@) == Some(v as int) && -(most as int) - 1 <= v <= most,
            None => match integer(s@) {
                Some(n) => n > most || n < -(most as int) - 1,
                None => true,
            },
        },
{
    let chars = chars_of(s);
    if chars.len() > 0 && chars[0] == '-' {
        match read_digits(&chars, 1, most + 1) {
            Ok(v) => Some(-(v as i128)),
            Err(_) => None,
        }
    } else {
        match read_natural(s, most) {
            Some(v) => Some(v as i128),
            None => None,
        }
    }
}

/// Reads an unsigned 64-bit number.
pub fn parse_u64(s: &str) -> (value: Option<u64>)
    ensures
        value == u64_of(s@),
{
    read_natural(s, u64::MAX)
}

/// Reads an unsigned 32-bit number.
pub fn parse_u32(s: &str) -> (value: Option<u32>)
    ensures
        value == u32_of(s@),
{
    match read_natural(s, u32::MAX as u64) {
        Some(v) => Some(v as u32),
        None => None,
    }
}

/// Reads an unsigned 16-bit number.
pub fn parse_u16(s: &str) -> (value: Option<u16>)
    ensures
        value == u16_of(s@),
{
    match read_natural(s, u16::MAX as u64) {
        Some(v) => Some(v as u16),
        None => None,
    }
}

/// Reads a number that a `usize` holds.
pub fn parse_usize(s: &str) -> (value: Option<usize>)
    ensures
        value == usize_of(s@),
{
    match read_natural(s, usize::MAX as u64) {
        Some(v) => Some(v as usize),
        None => None,
    }
}

/// Reads a signed 64-bit number.
pub fn parse_i64(s: &str) -> (value: Option<i64>)
    ensures
        value == i64_of(s@),
{
    match read_integer(s, i64::MAX as u64) {
        Some(v) => Some(v as i64),
        None => None,
    }
}

/// Reads a signed 32-bit number.
pub fn parse_i32(s: &str) -> (value: Option<i32>)
    ensures
        value == i32_of(s@),
{
    match read_integer(s, i32::MAX as u64) {
        Some(v) => Some(v as i32),
        None => None,
    }
}

/// The decimal digit for `d`.
pub open spec fn digit_char(d: int) -> char {
    ('0' as int + d) as char
}

/// The decimal digits of `n`, without leading zeros.
pub open spec fn decimal(n: nat) -> Seq<char>
    decreases n,
{
    if n < 10 {
        seq![digit_char(n as int)]
    } else {
        decimal(n / 10).push(digit_char((n % 10) as int))
    }
}

/// The decimal digits of `n` after a minus sign where `n` is negative.
pub open spec fn signed_decimal(n: int) -> Seq<char> {
    if n < 0 {
        seq!['-'] + decimal((-n) as nat)
    } else {
        decimal(n as nat)
    }
}

/// `n` copies of `c`.
pub open spec fn repeated(c: char, n: int) -> Seq<char> {
    Seq::new(
        if n > 0 {
            n as nat
        } else {
            0
        },
        |i: int| c,
    )
}

/// `n` in decimal, filled up with zeros behind the sign to `width` characters.
pub open spec fn zero_padded(n: int, width: int) -> Seq<char> {
    if n < 0 {
        let digits = decimal((-n) as nat);
        seq!['-'] + repeated('0', width - 1 - digits.len()) + digits
    } else {
        let digits = decimal(n as nat);
        repeated('0', width - digits.len()) + digits
    }
}

/// `s` with blanks in front up to `width` characters.
pub open spec fn pad_left(s: Seq<char>, width: int) -> Seq<char> {
    repeated(' ', width - s.len()) + s
}

/// `s` with blanks behind it up to `width` characters.
pub open spec fn pad_right(s: Seq<char>, width: int) -> Seq<char> {
    s + repeated(' ', width - s.len())
}

/// Reading back the digits of a number gives the number.
pub proof fn lemma_decimal(n: nat)
    ensures
        decimal(n).len() > 0,
        all_digits(decimal(n)),
        digits_value(decimal(n)) == n,
        natural(decimal(n)) == Some(n),
    decreases n,
{
    let s = decimal(n);
    if n < 10 {
        assert(s.drop_last() =~= Seq::<char>::empty());
        assert(digits_value(s.drop_last()) == 0);
        assert(s.last() as int == '0' as int + n);
    } else {
        lemma_decimal(n / 10);
        assert(s.drop_last() == decimal(n / 10));
        assert forall|i: int| 0 <= i < s.len() implies is_digit(#[trigger] s[i]) by {
            if i < s.len() - 1 {
                assert(s[i] == decimal(n / 10)[i]);
            }
        }
    }
    assert(is_digit(s[0]));
}

/// The decimal digits of `n`.
pub fn write_decimal(n: u64) -> (text: String)
    ensures
        text@ == decimal(n as nat),
    decreases n,
{
    let digit: char = ('0' as u8 + (n % 10) as u8) as char;
    let mut text = if n < 10 {
        String::new()
    } else {
        write_decimal(n / 10)
    };
    text.push(digit);
    assert(n < 10 ==> text@ == decimal(n as nat));
    text
}

/// `n` copies of `c`.
pub fn repeat_char(c: char, n: usize) -> (text: String)
    ensures
        text@ == repeated(c, n as int),
{
    let mut text = String::new();
    let mut i: usize = 0;
    while i < n
        invariant
            i <= n,
            text@ == repeated(c, i as int),
        decreases n - i,
    {
        text.push(c);
        i += 1;
        assert(text@ == repeated(c, i as int));
    }
    text
}

/// The magnitude of `n`.
pub fn magnitude(n: i64) -> (size: u64)
    ensures
        size == if n < 0 {
            -n
        } else {
            n as int
        },
{
    if n < 0 {
        (-(n as i128)) as u64
    } else {
        n as u64
    }
}

/// `n` in decimal with its sign.
pub fn write_signed(n: i64) -> (text: String)
    ensures
        text@ == signed_decimal(n as int),
{
    let digits = write_decimal(magnitude(n));
    if n < 0 {
        let mut text = repeat_char('-', 1);
        assert(text@ == seq!['-']);
        text.append(digits.as_str());
        text
    } else {
        digits
    }
}

/// `n` in decimal, filled up with zeros to `width` characters.
pub fn write_zero_padded(n: i64, width: usize) -> (text: String)
    ensures
        text@ == zero_padded(n as int, width as int),
{
    let digits = write_decimal(magnitude(n));
    let length: usize = digits.as_str().unicode_len();
    let mut text = if n < 0 {
        repeat_char('-', 1)
    } else {
        String::new()
    };
    let taken: usize = if n < 0 {
        1
    } else {
        0
    };
    let room: usize = width.saturating_sub(length).saturating_sub(taken);
    let zeros = repeat_char('0', room);
    assert(n < 0 ==> text@ == seq!['-']);
    text.append(zeros.as_str());
    text.append(digits.as_str());
    assert(text@ == zero_padded(n as int, width as int));
    text
}

/// `s` with blanks in front up to `width` characters.
pub fn align_right(s: &str, width: usize) -> (text: String)
    ensures
        text@ == pad_left(s@, width as int),
{
    let mut text = repeat_char(' ', width.saturating_sub(s.unicode_len()));
    text.append(s);
    assert(text@ == pad_left(s@, width as int));
    text
}

/// `s` with blanks behind it up to `width` characters.
pub fn align_left(s: &str, width: usize) -> (text: String)
    ensures
        text@ == pad_right(s@, width as int),
{
    let mut text = s.to_owned();
    let blanks = repeat_char(' ', width.saturating_sub(s.unicode_len()));
    text.append(blanks.as_str());
    assert(text@ == pad_right(s@, width as int));
    text
}

/// Numbers are read as they are written.
pub proof fn law_numbers_come_back(n: nat, k: int)
    ensures
        n <= u64::MAX ==> u64_of(decimal(n)) == Some(n as u64),
        n > u64::MAX ==> u64_of(decimal(n)) is None,
        n <= u32::MAX ==> u32_of(decimal(n)) == Some(n as u32),
        n > u32::MAX ==> u32_of(decimal(n)) is None,
        n <= u16::MAX ==> u16_of(decimal(n)) == Some(n as u16),
        n > u16::MAX ==> u16_of(decimal(n)) is None,
        n <= usize::MAX ==> usize_of(decimal(n)) == Some(n as usize),
        n > usize::MAX ==> usize_of(decimal(n)) is None,
        i64::MIN <= k <= i64::MAX ==> i64_of(signed_decimal(k)) == Some(k as i64),
        i32::MIN <= k <= i32::MAX ==> i32_of(signed_decimal(k)) == Some(k as i32),
        u64_of(seq!['+'] + decimal(n)) == u64_of(decimal(n)),
        u64_of(seq!['-'] + decimal(n)) is None,
        u64_of(Seq::empty()) is None,
        i64_of(Seq::empty()) is None,
{
    lemma_decimal(n);
    let digits = decimal(n);
    assert(is_digit(digits[0]));
    let plus = seq!['+'] + digits;
    assert(plus.skip(1) =~= digits);
    let minus = seq!['-'] + digits;
    assert(!is_digit(minus[0]));
    let size = if k < 0 {
        (-k) as nat
    } else {
        k as nat
    };
    lemma_decimal(size);
    let written = signed_decimal(k);
    assert(is_digit(decimal(size)[0]));
    if k < 0 {
        assert(written.skip(1) =~= decimal(size));
    }
}

/// Text with anything but digits in it is no number.
pub proof fn law_only_digits_are_numbers(s: Seq<char>, i: int)
    requires
        0 < i < s.len(),
        !is_digit(s[i]),
    ensures
        u64_of(s) is None,
        u32_of(s) is None,
        u16_of(s) is None,
        usize_of(s) is None,
        i64_of(s) is None,
        i32_of(s) is None,
{
    let rest = s.skip(1);
    assert(rest[i - 1] == s[i]);
}

/// Padding adds blanks on one side up to the width, and takes nothing away.
pub proof fn law_padding(s: Seq<char>, width: int, i: int)
    ensures
        s.len() >= width ==> pad_left(s, width) == s && pad_right(s, width) == s,
        s.len() <= width ==> pad_left(s, width).len() == width && pad_right(s, width).len() == width,
        s.len() <= width ==> pad_left(s, width).skip(width - s.len()) == s && pad_right(
            s,
            width,
        ).take(s.len() as int) == s,
        0 <= i < width - s.len() ==> pad_left(s, width)[i] == ' ' && pad_right(s, width)[s.len()
            + i] == ' ',
{
    assert(s.len() >= width ==> pad_left(s, width) =~= s && pad_right(s, width) =~= s);
    if s.len() <= width {
        assert(pad_left(s, width).skip(width - s.len()) =~= s);
        assert(pad_right(s, width).take(s.len() as int) =~= s);
    }
}

} // verus!
