//! Keys and mouse reports out of the bytes a terminal sends.
use vstd::prelude::*;
use crate::number;
use crate::number::parse_u16;
use crate::text;
use crate::text::split;

verus! {

/// A key that the monitor reacts to.
#[derive(Clone, Copy, Debug, PartialEq, Eq, Structural)]
pub enum Key {
    Char(u8),
    Up,
    Down,
    Home,
    End,
}

/// What the mouse did, and where. Columns and rows count from 1.
#[derive(Clone, Copy, Debug, PartialEq, Eq, Structural)]
pub struct MouseEvent {
    pub button: u16,
    pub column: usize,
    pub row: usize,
    pub pressed: bool,
}

/// One thing the user did.
#[derive(Clone, Copy, Debug, PartialEq, Eq, Structural)]
pub enum InputEvent {
    Key(Key),
    Mouse(MouseEvent),
}

/// Turns terminal bytes into events, keeping what is not complete yet.
#[derive(Debug)]
pub struct InputDecoder {
    pub pending: Vec<u8>,
}

/// Index of the first byte that ends a mouse report, or the length.
pub open spec fn report_end(bytes: Seq<u8>) -> int
    decreases bytes.len(),
{
    if bytes.len() == 0 || bytes[0] == 77 || bytes[0] == 109 {
        0
    } else {
        1 + report_end(bytes.skip(1))
    }
}

proof fn lemma_report_end_is(bytes: Seq<u8>, at: int)
    requires
        0 <= at <= bytes.len(),
        forall|i: int| 0 <= i < at ==> bytes[i] != 77 && bytes[i] != 109,
        at < bytes.len() ==> bytes[at] == 77 || bytes[at] == 109,
    ensures
        report_end(bytes) == at,
    decreases bytes.len(),
{
    if at > 0 {
        assert forall|i: int| 0 <= i < at - 1 implies bytes.skip(1)[i] != 77 && bytes.skip(1)[i]
            != 109 by {
            assert(bytes.skip(1)[i] == bytes[i + 1]);
        }
        lemma_report_end_is(bytes.skip(1), at - 1);
    }
}

/// The bytes of a report, one character each.
pub open spec fn characters(bytes: Seq<u8>) -> Seq<char> {
    Seq::new(bytes.len(), |i: int| bytes[i] as char)
}

/// The parts that read as 16-bit numbers, in order.
pub open spec fn small_numbers(parts: Seq<Seq<char>>) -> Seq<u16>
    decreases parts.len(),
{
    if parts.len() == 0 {
        seq![]
    } else {
        let before = small_numbers(parts.drop_last());
        match number::u16_of(parts.last()) {
            Some(n) => before.push(n),
            None => before,
        }
    }
}

/// The event of a mouse report with the given body, if the body holds exactly
/// three numbers: the button, the column and the row.
pub open spec fn mouse_report(body: Seq<u8>, pressed: bool) -> Option<InputEvent> {
    let values = small_numbers(text::pieces(characters(body), ';'));
    if values.len() == 3 {
        Some(
            InputEvent::Mouse(
                MouseEvent {
                    button: values[0],
                    column: values[1] as usize,
                    row: values[2] as usize,
                    pressed,
                },
            ),
        )
    } else {
        None
    }
}

/// The key that `ESC [ last` stands for.
pub open spec fn escape_key(second: u8, last: u8) -> Option<Key> {
    if second != 91 {
        None
    } else if last == 65 {
        Some(Key::Up)
    } else if last == 66 {
        Some(Key::Down)
    } else if last == 72 {
        Some(Key::Home)
    } else if last == 70 {
        Some(Key::End)
    } else {
        None
    }
}

/// What the front of the pending bytes means: how many bytes it takes and the
/// event it gives, if any. `None` is to wait for more bytes.
pub open spec fn front(bytes: Seq<u8>) -> Option<(int, Option<InputEvent>)> {
    if bytes.len() == 0 {
        None
    } else if bytes[0] != 0x1b {
        Some((1, Some(InputEvent::Key(Key::Char(bytes[0])))))
    } else if bytes.len() < 3 {
        None
    } else if bytes[1] == 91 && bytes[2] == 60 {
        let end = report_end(bytes);
        if 3 <= end < bytes.len() {
            Some((end + 1, mouse_report(bytes.subrange(3, end), bytes[end] == 77)))
        } else {
            None
        }
    } else {
        match escape_key(bytes[1], bytes[2]) {
            Some(key) => Some((3, Some(InputEvent::Key(key)))),
            None => Some((1, None)),
        }
    }
}

/// The events that some bytes hold, and the bytes left over.
pub open spec fn decoded(bytes: Seq<u8>) -> (Seq<InputEvent>, Seq<u8>)
    decreases bytes.len(),
{
    match front(bytes) {
        Some((taken, event)) => if 1 <= taken <= bytes.len() {
            let (events, left) = decoded(bytes.skip(taken));
            match event {
                Some(e) => (seq![e] + events, left),
                None => (events, left),
            }
        } else {
            (seq![], bytes)
        },
        None => (seq![], bytes),
    }
}

fn read_report(bytes: &Vec<u8>, from: usize, to: usize, pressed: bool) -> (event: Option<InputEvent>)
    requires
        from <= to <= bytes@.len(),
    ensures
        event == mouse_report(bytes@.subrange(from as int, to as int), pressed),
{
    let ghost body = bytes@.subrange(from as int, to as int);
    let mut text = String::new();
    let mut i: usize = from;
    while i < to
        invariant
            from <= i <= to <= bytes@.len(),
            body == bytes@.subrange(from as int, to as int),
            text@ == characters(body.take(i - from)),
        decreases to - i,
    {
        text.push(bytes[i] as char);
        i += 1;
        assert(text@ == characters(body.take(i - from)));
    }
    assert(body.take(to - from) == body);
    let parts = split(text.as_str(), ';');
    let mut values: Vec<u16> = Vec::new();
    let mut k: usize = 0;
    assert(text::texts(parts@).take(0) =~= Seq::<Seq<char>>::empty());
    while k < parts.len()
        invariant
            k <= parts@.len(),
            values@ == small_numbers(text::texts(parts@).take(k as int)),
        decreases parts@.len() - k,
    {
        let ghost all = text::texts(parts@);
        assert(all.take(k + 1).drop_last() == all.take(k as int));
        assert(all.take(k + 1).last() == parts@[k as int]@);
        match parse_u16(parts[k].as_str()) {
            Some(n) => values.push(n),
            None => {},
        }
        k += 1;
    }
    assert(text::texts(parts@).take(k as int) == text::texts(parts@));
    if values.len() == 3 {
        Some(
            InputEvent::Mouse(
                MouseEvent {
                    button: values[0],
                    column: values[1] as usize,
                    row: values[2] as usize,
                    pressed,
                },
            ),
        )
    } else {
        None
    }
}

fn read_key(second: u8, last: u8) -> (key: Option<Key>)
    ensures
        key == escape_key(second, last),
{
    if second != 91 {
        None
    } else if last == 65 {
        Some(Key::Up)
    } else if last == 66 {
        Some(Key::Down)
    } else if last == 72 {
        Some(Key::Home)
    } else if last == 70 {
        Some(Key::End)
    } else {
        None
    }
}

/// Reads the front of `bytes[at..]`.
fn read_front(bytes: &Vec<u8>, at: usize) -> (step: Option<(usize, Option<InputEvent>)>)
    requires
        at <= bytes@.len(),
    ensures
        match step {
            Some((taken, event)) => front(bytes@.skip(at as int)) == Some((taken as int, event)) && 1
                <= taken <= bytes@.len() - at,
            None => front(bytes@.skip(at as int)) is None,
        },
{
    let ghost rest = bytes@.skip(at as int);
    if at == bytes.len() {
        return None;
    }
    assert(rest[0] == bytes@[at as int]);
    if bytes[at] != 0x1b {
        return Some((1, Some(InputEvent::Key(Key::Char(bytes[at])))));
    }
    if bytes.len() - at < 3 {
        return None;
    }
    assert(rest[1] == bytes@[at + 1] && rest[2] == bytes@[at + 2]);
    if bytes[at + 1] == 91 && bytes[at + 2] == 60 {
        let mut end: usize = at + 3;
        while end < bytes.len() && bytes[end] != 77 && bytes[end] != 109
            invariant
                at + 3 <= end <= bytes@.len(),
                rest == bytes@.skip(at as int),
                rest[0] == 0x1b,
                rest[1] == 91,
                rest[2] == 60,
                forall|i: int| 0 <= i < end - at ==> rest[i] != 77 && rest[i] != 109,
            decreases bytes@.len() - end,
        {
            assert(rest[end - at] == bytes@[end as int]);
            end += 1;
        }
        proof {
            if end < bytes@.len() {
                assert(rest[end - at] == bytes@[end as int]);
            }
            lemma_report_end_is(rest, end - at);
        }
        if end == bytes.len() {
            return None;
        }
        assert(rest.subrange(3, end - at) == bytes@.subrange(at + 3, end as int));
        let event = read_report(bytes, at + 3, end, bytes[end] == 77);
        return Some((end - at + 1, event));
    }
    match read_key(bytes[at + 1], bytes[at + 2]) {
        Some(key) => Some((3, Some(InputEvent::Key(key)))),
        None => Some((1, None)),
    }
}

impl Default for InputDecoder {
    /// A decoder with nothing pending.
    fn default() -> (decoder: InputDecoder)
        ensures
            decoder.pending@ == Seq::<u8>::empty(),
    {
        InputDecoder { pending: Vec::new() }
    }
}

impl InputDecoder {
    /// Takes in bytes and gives the events that are complete with them. Bytes
    /// that begin an event without ending it stay pending.
    pub fn push(&mut self, bytes: &[u8]) -> (events: Vec<InputEvent>)
        ensures
            (events@, final(self).pending@) == decoded(old(self).pending@ + bytes@),
    {
        let mut k: usize = 0;
        while k < bytes.len()
            invariant
                k <= bytes@.len(),
                self.pending@ == old(self).pending@ + bytes@.take(k as int),
            decreases bytes@.len() - k,
        {
            self.pending.push(bytes[k]);
            k += 1;
            assert(bytes@.take(k as int) == bytes@.take(k - 1).push(bytes@[k - 1]));
        }
        assert(bytes@.take(k as int) == bytes@);
        let ghost all = self.pending@;
        let mut events: Vec<InputEvent> = Vec::new();
        let mut at: usize = 0;
        let mut waiting: bool = false;
        let length: usize = self.pending.len();
        assert(all.skip(0) == all);
        assert(events@ + decoded(all).0 == decoded(all).0);
        while !waiting
            invariant
                self.pending@ == all,
                length == all.len(),
                at <= length,
                events@ + decoded(all.skip(at as int)).0 == decoded(all).0,
                decoded(all.skip(at as int)).1 == decoded(all).1,
                waiting ==> front(all.skip(at as int)) is None,
            decreases all.len() - at, (if waiting {
                0int
            } else {
                1
            }),
        {
            let ghost before = events@;
            let ghost rest = all.skip(at as int);
            match read_front(&self.pending, at) {
                Some((taken, event)) => {
                    assert(rest.skip(taken as int) == all.skip(at + taken));
                    let ghost next = decoded(all.skip(at + taken));
                    match event {
                        Some(e) => {
                            events.push(e);
                            assert(before + (seq![e] + next.0) == events@ + next.0);
                        },
                        None => {},
                    }
                    at = at + taken;
                },
                None => {
                    waiting = true;
                },
            }
        }
        let mut left: Vec<u8> = Vec::new();
        let mut i: usize = at;
        while i < self.pending.len()
            invariant
                at <= i <= all.len(),
                self.pending@ == all,
                left@ == all.subrange(at as int, i as int),
            decreases all.len() - i,
        {
            left.push(self.pending[i]);
            i += 1;
        }
        assert(left@ == all.skip(at as int));
        self.pending = left;
        assert(events@ + decoded(all.skip(at as int)).0 == events@);
        events
    }
}

/// The front of the pending bytes means the same once more bytes have come.
proof fn lemma_front_stable(bytes: Seq<u8>, more: Seq<u8>)
    requires
        front(bytes) is Some,
    ensures
        front(bytes + more) == front(bytes),
{
    let all = bytes + more;
    assert(all[0] == bytes[0]);
    if bytes[0] == 0x1b {
        assert(all[1] == bytes[1] && all[2] == bytes[2]);
        if bytes[1] == 91 && bytes[2] == 60 {
            let end = report_end(bytes);
            lemma_report_end(bytes);
            assert(all[end] == bytes[end]);
            assert forall|i: int| 0 <= i < end implies all[i] != 77 && all[i] != 109 by {
                assert(all[i] == bytes[i]);
            }
            lemma_report_end_is(all, end);
            assert(all.subrange(3, end) == bytes.subrange(3, end));
        }
    }
}

proof fn lemma_report_end(bytes: Seq<u8>)
    ensures
        0 <= report_end(bytes) <= bytes.len(),
        forall|i: int| 0 <= i < report_end(bytes) ==> bytes[i] != 77 && bytes[i] != 109,
        report_end(bytes) < bytes.len() ==> bytes[report_end(bytes)] == 77 || bytes[report_end(
            bytes,
        )] == 109,
    decreases bytes.len(),
{
    if bytes.len() > 0 && bytes[0] != 77 && bytes[0] != 109 {
        let tail = bytes.skip(1);
        lemma_report_end(tail);
        assert forall|i: int| 0 <= i < report_end(bytes) implies bytes[i] != 77 && bytes[i]
            != 109 by {
            if i > 0 {
                assert(bytes[i] == tail[i - 1]);
            }
        }
    }
}

/// Bytes that come in two pieces give the same events, and leave the same
/// pending, as the bytes in one piece.
pub proof fn law_input_in_pieces(first: Seq<u8>, second: Seq<u8>)
    ensures
        ({
            let (early, left) = decoded(first);
            let (late, rest) = decoded(left + second);
            decoded(first + second) == (early + late, rest)
        }),
    decreases first.len(),
{
    match front(first) {
        Some((taken, event)) => {
            lemma_front_length(first);
            lemma_front_stable(first, second);
            let tail = first.skip(taken);
            law_input_in_pieces(tail, second);
            assert((first + second).skip(taken) == tail + second);
            let (early, left) = decoded(tail);
            let (late, rest) = decoded(left + second);
            match event {
                Some(e) => {
                    assert(seq![e] + (early + late) == (seq![e] + early) + late);
                },
                None => {},
            }
        },
        None => {
            assert(decoded(first).0 + decoded(first + second).0 == decoded(first + second).0);
        },
    }
}

proof fn lemma_front_length(bytes: Seq<u8>)
    ensures
        front(bytes) matches Some((taken, _)) ==> 1 <= taken <= bytes.len(),
{
}

/// Nothing but the start of an escape is ever held back.
pub proof fn law_only_escapes_wait(bytes: Seq<u8>)
    ensures
        decoded(bytes).1.len() > 0 ==> decoded(bytes).1[0] == 0x1b,
    decreases bytes.len(),
{
    match front(bytes) {
        Some((taken, _)) => {
            lemma_front_length(bytes);
            law_only_escapes_wait(bytes.skip(taken));
        },
        None => {},
    }
}

/// Any byte but an escape is the key it stands for, whatever follows.
pub proof fn law_plain_keys(byte: u8, rest: Seq<u8>)
    requires
        byte != 0x1b,
    ensures
        decoded(seq![byte] + rest) == (
            seq![InputEvent::Key(Key::Char(byte))] + decoded(rest).0,
            decoded(rest).1,
        ),
{
    let bytes = seq![byte] + rest;
    assert(bytes.skip(1) =~= rest);
}

/// The arrow keys, Home and End as terminals send them.
pub proof fn law_arrow_keys(rest: Seq<u8>)
    ensures
        decoded(seq![0x1bu8, 91, 65] + rest) == (
            seq![InputEvent::Key(Key::Up)] + decoded(rest).0,
            decoded(rest).1,
        ),
        decoded(seq![0x1bu8, 91, 66] + rest) == (
            seq![InputEvent::Key(Key::Down)] + decoded(rest).0,
            decoded(rest).1,
        ),
        decoded(seq![0x1bu8, 91, 72] + rest) == (
            seq![InputEvent::Key(Key::Home)] + decoded(rest).0,
            decoded(rest).1,
        ),
        decoded(seq![0x1bu8, 91, 70] + rest) == (
            seq![InputEvent::Key(Key::End)] + decoded(rest).0,
            decoded(rest).1,
        ),
{
    assert((seq![0x1bu8, 91, 65] + rest).skip(3) =~= rest);
    assert((seq![0x1bu8, 91, 66] + rest).skip(3) =~= rest);
    assert((seq![0x1bu8, 91, 72] + rest).skip(3) =~= rest);
    assert((seq![0x1bu8, 91, 70] + rest).skip(3) =~= rest);
}

/// The bytes of a number in decimal.
pub open spec fn digit_bytes(n: nat) -> Seq<u8> {
    Seq::new(number::decimal(n).len(), |i: int| number::decimal(n)[i] as u8)
}

/// The body of a mouse report: the button, the column and the row.
pub open spec fn report_body(button: nat, column: nat, row: nat) -> Seq<u8> {
    digit_bytes(button) + seq![59u8] + digit_bytes(column) + seq![59u8] + digit_bytes(row)
}

proof fn lemma_digit_bytes(n: nat)
    ensures
        characters(digit_bytes(n)) == number::decimal(n),
        forall|i: int|
            0 <= i < digit_bytes(n).len() ==> 48 <= #[trigger] digit_bytes(n)[i] <= 57,
        !number::decimal(n).contains(';'),
{
    number::lemma_decimal(n);
    let digits = number::decimal(n);
    let bytes = digit_bytes(n);
    assert forall|i: int| 0 <= i < bytes.len() implies 48 <= #[trigger] bytes[i] <= 57 && bytes[i] as char
        == digits[i] by {
        assert(number::is_digit(digits[i]));
    }
    assert(characters(bytes) =~= digits);
}

proof fn lemma_report_body(button: nat, column: nat, row: nat)
    requires
        button <= u16::MAX,
        column <= u16::MAX,
        row <= u16::MAX,
    ensures
        small_numbers(text::pieces(characters(report_body(button, column, row)), ';')) == seq![
            button as u16,
            column as u16,
            row as u16,
        ],
        forall|i: int|
            0 <= i < report_body(button, column, row).len() ==> {
                &&& #[trigger] report_body(button, column, row)[i] != 77
                &&& report_body(button, column, row)[i] != 109
            },
{
    lemma_digit_bytes(button);
    lemma_digit_bytes(column);
    lemma_digit_bytes(row);
    let b = number::decimal(button);
    let c = number::decimal(column);
    let r = number::decimal(row);
    let body = report_body(button, column, row);
    assert forall|i: int| 0 <= i < body.len() implies #[trigger] body[i] != 77 && body[i]
        != 109 by {
        if i < digit_bytes(button).len() {
            assert(body[i] == digit_bytes(button)[i]);
        } else if digit_bytes(button).len() < i < digit_bytes(button).len() + 1 + digit_bytes(
            column,
        ).len() {
            assert(body[i] == digit_bytes(column)[i - digit_bytes(button).len() - 1]);
        } else if i > digit_bytes(button).len() + 1 + digit_bytes(column).len() {
            assert(body[i] == digit_bytes(row)[i - digit_bytes(button).len() - digit_bytes(
                column,
            ).len() - 2]);
        }
    }
    let whole = b + seq![';'] + (c + seq![';'] + r);
    assert(characters(body) =~= whole) by {
        let left = characters(digit_bytes(button));
        let middle = characters(digit_bytes(column));
        let right = characters(digit_bytes(row));
        assert(characters(body) =~= left + seq![';'] + (middle + seq![';'] + right));
    }
    text::law_pieces(b, ';', c + seq![';'] + r, 0);
    text::law_pieces(c, ';', r, 0);
    text::law_pieces(r, ';', seq![], 0);
    assert(text::pieces(whole, ';') =~= seq![b, c, r]);
    number::lemma_decimal(button);
    number::lemma_decimal(column);
    number::lemma_decimal(row);
    assert(seq![b, c, r].drop_last() =~= seq![b, c]);
    assert(seq![b, c].drop_last() =~= seq![b]);
    assert(seq![b].drop_last() =~= Seq::<Seq<char>>::empty());
    assert(small_numbers(Seq::<Seq<char>>::empty()) =~= Seq::<u16>::empty());
    assert(small_numbers(seq![b]) =~= seq![button as u16]);
    assert(small_numbers(seq![b, c]) =~= seq![button as u16, column as u16]);
    assert(small_numbers(seq![b, c, r]) =~= seq![button as u16, column as u16, row as u16]);
}

proof fn lemma_report_ends_there(front: Seq<u8>, last: u8, rest: Seq<u8>)
    requires
        last == 77 || last == 109,
        forall|i: int| 0 <= i < front.len() ==> #[trigger] front[i] != 77 && front[i] != 109,
    ensures
        report_end(front + seq![last] + rest) == front.len(),
    decreases front.len(),
{
    let whole = front + seq![last] + rest;
    if front.len() > 0 {
        let fewer = front.skip(1);
        assert forall|i: int| 0 <= i < fewer.len() implies #[trigger] fewer[i] != 77 && fewer[i]
            != 109 by {
            assert(fewer[i] == front[i + 1]);
        }
        lemma_report_ends_there(fewer, last, rest);
        assert(whole.skip(1) =~= fewer + seq![last] + rest);
        assert(whole[0] == front[0]);
    }
}

/// A mouse report says which button, where, and whether it was pressed or let go.
pub proof fn law_mouse_reports(button: nat, column: nat, row: nat, pressed: bool, rest: Seq<u8>)
    requires
        button <= u16::MAX,
        column <= u16::MAX,
        row <= u16::MAX,
    ensures
        decoded(
            seq![0x1bu8, 91, 60] + report_body(button, column, row) + seq![
                if pressed {
                    77u8
                } else {
                    109u8
                },
            ] + rest,
        ) == (
            seq![
                InputEvent::Mouse(
                    MouseEvent {
                        button: button as u16,
                        column: column as usize,
                        row: row as usize,
                        pressed,
                    },
                ),
            ] + decoded(rest).0,
            decoded(rest).1,
        ),
{
    let last = if pressed {
        77u8
    } else {
        109u8
    };
    let body = report_body(button, column, row);
    let front = seq![0x1bu8, 91, 60] + body;
    let bytes = front + seq![last] + rest;
    lemma_report_body(button, column, row);
    assert forall|i: int| 0 <= i < front.len() implies #[trigger] front[i] != 77 && front[i]
        != 109 by {
        if i >= 3 {
            assert(front[i] == body[i - 3]);
        }
    }
    lemma_report_ends_there(front, last, rest);
    assert(bytes.subrange(3, front.len() as int) =~= body);
    assert(bytes.skip(front.len() as int + 1) =~= rest);
    assert(bytes[0] == 0x1b && bytes[1] == 91 && bytes[2] == 60);
}

} // verus!
