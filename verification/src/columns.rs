//! Lines of a terminal: colour escapes, visible columns and clipping.
use vstd::prelude::*;
use vstd::string::*;
use crate::text::{chars_of, text_between};

verus! {

/// Returns the terminal to its plain style.
pub const RESET: &'static str = "\x1b[0m";

/// The character that begins a colour escape.
pub const ESCAPE: char = '\x1b';

pub open spec fn is_letter(c: char) -> bool {
    'a' <= c <= 'z' || 'A' <= c <= 'Z'
}

fn letter(c: char) -> (found: bool)
    ensures
        found == is_letter(c),
{
    ('a' <= c && c <= 'z') || ('A' <= c && c <= 'Z')
}

/// How many characters of `s`, which follows an escape character, belong to the
/// escape: everything up to and with the first letter.
pub open spec fn escape_length(s: Seq<char>) -> int
    decreases s.len(),
{
    if s.len() == 0 {
        0
    } else if is_letter(s[0]) {
        1
    } else {
        1 + escape_length(s.skip(1))
    }
}

pub proof fn lemma_escape_length(s: Seq<char>)
    ensures
        0 <= escape_length(s) <= s.len(),
    decreases s.len(),
{
    if s.len() > 0 && !is_letter(s[0]) {
        lemma_escape_length(s.skip(1));
    }
}

/// What is seen of a line once its escapes are taken out.
pub open spec fn visible(s: Seq<char>) -> Seq<char>
    decreases s.len(),
{
    if s.len() == 0 {
        seq![]
    } else if s[0] == ESCAPE {
        let n = escape_length(s.skip(1));
        if 0 <= n < s.len() {
            visible(s.skip(1 + n))
        } else {
            seq![]
        }
    } else {
        seq![s[0]] + visible(s.skip(1))
    }
}

/// Whether every escape of a line is ended by its letter.
pub open spec fn is_complete(s: Seq<char>) -> bool
    decreases s.len(),
{
    if s.len() == 0 {
        true
    } else if s[0] == ESCAPE {
        let n = escape_length(s.skip(1));
        0 < n < s.len() && is_letter(s[n]) && is_complete(s.skip(1 + n))
    } else {
        is_complete(s.skip(1))
    }
}

/// Whether a line has no escapes.
pub open spec fn is_plain(s: Seq<char>) -> bool {
    forall|i: int| 0 <= i < s.len() ==> #[trigger] s[i] != ESCAPE
}

/// An escape that is ended stays as long, whatever follows it.
proof fn lemma_ended_escape(s: Seq<char>, more: Seq<char>)
    requires
        0 < escape_length(s) <= s.len(),
        is_letter(s[escape_length(s) - 1]),
    ensures
        escape_length(s + more) == escape_length(s),
    decreases s.len(),
{
    assert((s + more)[0] == s[0]);
    if !is_letter(s[0]) {
        let tail = s.skip(1);
        lemma_escape_length(tail);
        assert((s + more).skip(1) =~= tail + more);
        assert(tail[escape_length(tail) - 1] == s[escape_length(s) - 1]) by {
            if escape_length(tail) == 0 {
                assert(tail.len() == 0);
            }
        }
        lemma_ended_escape(tail, more);
    }
}

/// What is seen of two lines, one behind the other, is what is seen of each.
pub proof fn lemma_visible_add(a: Seq<char>, b: Seq<char>)
    requires
        is_complete(a),
    ensures
        visible(a + b) == visible(a) + visible(b),
        is_complete(b) ==> is_complete(a + b),
    decreases a.len(),
{
    let whole = a + b;
    if a.len() == 0 {
        assert(whole =~= b);
        assert(visible(a) + visible(b) =~= visible(b));
    } else if a[0] == ESCAPE {
        let tail = a.skip(1);
        let n = escape_length(tail);
        assert(tail[n - 1] == a[n]);
        lemma_ended_escape(tail, b);
        assert(whole.skip(1) =~= tail + b);
        assert(whole[n] == a[n]);
        assert(whole.skip(1 + n) =~= a.skip(1 + n) + b);
        lemma_visible_add(a.skip(1 + n), b);
    } else {
        assert(whole[0] == a[0]);
        assert(whole.skip(1) =~= a.skip(1) + b);
        lemma_visible_add(a.skip(1), b);
        assert(seq![a[0]] + (visible(a.skip(1)) + visible(b)) =~= (seq![a[0]] + visible(a.skip(1)))
            + visible(b));
    }
}

/// All of a line without escapes is seen.
pub proof fn lemma_plain(s: Seq<char>)
    requires
        is_plain(s),
    ensures
        visible(s) == s,
        is_complete(s),
    decreases s.len(),
{
    if s.len() > 0 {
        let tail = s.skip(1);
        assert forall|i: int| 0 <= i < tail.len() implies #[trigger] tail[i] != ESCAPE by {
            assert(tail[i] == s[i + 1]);
        }
        lemma_plain(tail);
        assert(s[0] != ESCAPE);
        assert(seq![s[0]] + tail =~= s);
    } else {
        assert(visible(s) =~= s);
    }
}

/// Nothing is seen of one escape.
pub proof fn lemma_one_escape(s: Seq<char>)
    requires
        s.len() >= 2,
        s[0] == ESCAPE,
        is_letter(s.last()),
        forall|i: int| 0 < i < s.len() - 1 ==> !is_letter(#[trigger] s[i]),
    ensures
        visible(s) == Seq::<char>::empty(),
        is_complete(s),
{
    lemma_escape_is(s.skip(1));
    let n = escape_length(s.skip(1));
    assert(s.skip(1 + n) =~= Seq::<char>::empty());
    assert(visible(s.skip(1 + n)) =~= Seq::<char>::empty());
    assert(is_complete(s.skip(1 + n)));
    assert(s[n] == s.last());
}

proof fn lemma_escape_is(s: Seq<char>)
    requires
        s.len() >= 1,
        is_letter(s.last()),
        forall|i: int| 0 <= i < s.len() - 1 ==> !is_letter(#[trigger] s[i]),
    ensures
        escape_length(s) == s.len(),
    decreases s.len(),
{
    if s.len() > 1 {
        let tail = s.skip(1);
        assert forall|i: int| 0 <= i < tail.len() - 1 implies !is_letter(#[trigger] tail[i]) by {
            assert(tail[i] == s[i + 1]);
        }
        assert(!is_letter(s[0]));
        lemma_escape_is(tail);
    }
}

/// A line cut to `width` visible columns, its escapes kept and the style reset
/// where something was cut.
pub open spec fn fitted(s: Seq<char>, width: int) -> Seq<char>
    decreases s.len(),
{
    if s.len() == 0 {
        seq![]
    } else if s[0] == ESCAPE {
        let n = escape_length(s.skip(1));
        if 0 <= n < s.len() {
            s.take(1 + n) + fitted(s.skip(1 + n), width)
        } else {
            s
        }
    } else if width <= 0 {
        RESET@
    } else {
        seq![s[0]] + fitted(s.skip(1), width - 1)
    }
}

/// Cuts a rendered line to the terminal width, counting only visible columns.
/// Colour escapes are copied through rather than counted, so a long line is
/// clipped at the edge instead of wrapping and tearing the frame apart.
pub fn fit_to_width(line: &str, width: usize) -> (text: String)
    ensures
        text@ == fitted(line@, width as int),
{
    let chars = chars_of(line);
    let mut text = String::new();
    let mut room: usize = width;
    let mut i: usize = 0;
    assert(chars@.skip(0) == line@);
    while i < chars.len()
        invariant
            chars@ == line@,
            i <= chars@.len(),
            text@ + fitted(chars@.skip(i as int), room as int) == fitted(line@, width as int),
        decreases chars@.len() - i,
    {
        let ghost rest = chars@.skip(i as int);
        let ghost before = text@;
        if chars[i] == ESCAPE {
            let ghost tail = rest.skip(1);
            text.push(chars[i]);
            i += 1;
            let mut open: bool = true;
            let ghost n = escape_length(tail);
            let ghost first = i as int;
            proof {
                lemma_escape_length(tail);
                assert(tail == chars@.skip(first));
            }
            while open && i < chars.len()
                invariant
                    chars@ == line@,
                    0 < first <= i <= chars@.len(),
                    tail == chars@.skip(first),
                    n == escape_length(tail),
                    n <= tail.len(),
                    open ==> n == i - first + escape_length(chars@.skip(i as int)),
                    !open ==> n == i - first,
                    text@ == before + chars@.subrange(first - 1, i as int),
                decreases chars@.len() - i,
            {
                let c = chars[i];
                assert(chars@.skip(i as int).skip(1) == chars@.skip(i + 1));
                assert(chars@.subrange(first - 1, i + 1) == chars@.subrange(
                    first - 1,
                    i as int,
                ).push(c));
                text.push(c);
                i += 1;
                if letter(c) {
                    open = false;
                }
            }
            proof {
                assert(i == first + n);
                assert(rest.take(1 + n) == chars@.subrange(first - 1, i as int));
                assert(rest.skip(1 + n) == chars@.skip(i as int));
                let ending = fitted(chars@.skip(i as int), room as int);
                assert(before + (rest.take(1 + n) + ending) == text@ + ending);
            }
        } else if room == 0 {
            text.append(RESET);
            return text;
        } else {
            text.push(chars[i]);
            proof {
                assert(rest.skip(1) == chars@.skip(i + 1));
                let ending = fitted(chars@.skip(i + 1), room - 1);
                assert(before + (seq![rest[0]] + ending) == text@ + ending);
            }
            i += 1;
            room -= 1;
        }
    }
    assert(text@ + fitted(chars@.skip(i as int), room as int) == text@);
    text
}

/// An escape is invisible, whatever follows it.
proof fn lemma_visible_escape(s: Seq<char>, rest: Seq<char>)
    requires
        s.len() > 0,
        s[0] == ESCAPE,
    ensures
        ({
            let n = 1 + escape_length(s.skip(1));
            &&& 1 <= n <= s.len()
            &&& n < s.len() || rest.len() == 0 ==> visible(s.take(n) + rest) == visible(rest)
        }),
{
    lemma_escape_length(s.skip(1));
    let n = 1 + escape_length(s.skip(1));
    let all = s.take(n) + rest;
    if n < s.len() || rest.len() == 0 {
        lemma_escape_prefix(s.skip(1), rest);
        assert(all.skip(1) == s.skip(1).take(n - 1) + rest);
        assert(all.skip(n) == rest);
    }
}

/// An escape that has ended keeps its length, whatever follows it.
proof fn lemma_escape_prefix(s: Seq<char>, rest: Seq<char>)
    requires
        escape_length(s) < s.len() || rest.len() == 0,
    ensures
        0 <= escape_length(s) <= s.len(),
        escape_length(s.take(escape_length(s)) + rest) == escape_length(s),
    decreases s.len(),
{
    lemma_escape_length(s);
    let n = escape_length(s);
    let all = s.take(n) + rest;
    if s.len() > 0 && !is_letter(s[0]) {
        lemma_escape_prefix(s.skip(1), rest);
        assert(all.skip(1) == s.skip(1).take(n - 1) + rest);
        assert(all[0] == s[0]);
    } else if s.len() > 0 {
        assert(all[0] == s[0]);
    } else {
        assert(all == s);
    }
}

/// The reset escape takes no column.
pub proof fn lemma_reset_invisible()
    ensures
        visible(RESET@) == Seq::<char>::empty(),
        visible(Seq::<char>::empty()) == Seq::<char>::empty(),
{
    reveal_strlit("\x1b[0m");
    let s = RESET@;
    assert(s.len() == 4);
    assert(s[0] == ESCAPE);
    assert(s[3] == 'm');
    assert(escape_length(s.skip(1).skip(1).skip(1)) == 1);
    assert(escape_length(s.skip(1).skip(1)) == 2);
    assert(escape_length(s.skip(1)) == 3);
    assert(visible(s.skip(4)) =~= Seq::<char>::empty());
    assert(visible(s) == visible(s.skip(4)));
}

/// Clipping keeps the first `width` visible columns of a line and no more.
pub proof fn law_clipping(s: Seq<char>, width: int)
    requires
        width >= 0,
    ensures
        visible(fitted(s, width)) == visible(s).take(
            if visible(s).len() < width {
                visible(s).len() as int
            } else {
                width
            },
        ),
        visible(fitted(s, width)).len() <= width,
    decreases s.len(),
{
    if s.len() > 0 {
        if s[0] == ESCAPE {
            let n = escape_length(s.skip(1));
            lemma_escape_length(s.skip(1));
            law_clipping(s.skip(1 + n), width);
            if 1 + n == s.len() {
                assert(s.skip(1 + n) =~= Seq::<char>::empty());
                assert(fitted(s.skip(1 + n), width) =~= Seq::<char>::empty());
            }
            lemma_visible_escape(s, fitted(s.skip(1 + n), width));
        } else if width == 0 {
            lemma_reset_invisible();
        } else {
            law_clipping(s.skip(1), width - 1);
            let tail = fitted(s.skip(1), width - 1);
            assert((seq![s[0]] + tail).skip(1) == tail);
            assert(visible(fitted(s, width)) == seq![s[0]] + visible(tail));
        }
    }
}

/// A line that fits is left as it is.
pub proof fn law_fitting_line_unchanged(s: Seq<char>, width: int)
    requires
        visible(s).len() <= width,
    ensures
        fitted(s, width) == s,
    decreases s.len(),
{
    if s.len() > 0 {
        if s[0] == ESCAPE {
            let n = escape_length(s.skip(1));
            lemma_escape_length(s.skip(1));
            law_fitting_line_unchanged(s.skip(1 + n), width);
            assert(s.take(1 + n) + s.skip(1 + n) == s);
        } else {
            law_fitting_line_unchanged(s.skip(1), width - 1);
            assert(seq![s[0]] + s.skip(1) == s);
        }
    }
}

/// `s` cut to `most` characters, an ellipsis standing for what was cut.
pub open spec fn truncated_text(s: Seq<char>, most: int) -> Seq<char> {
    if s.len() <= most {
        s
    } else {
        s.take(
            if most > 0 {
                most - 1
            } else {
                0
            },
        ) + "\u{2026}"@
    }
}

/// Cuts a text to `max_chars` characters, the last of them an ellipsis.
pub fn truncate(value: &str, max_chars: usize) -> (text: String)
    ensures
        text@ == truncated_text(value@, max_chars as int),
{
    let chars = chars_of(value);
    if chars.len() <= max_chars {
        return value.to_owned();
    }
    let kept: usize = max_chars.saturating_sub(1);
    let mut text = text_between(&chars, 0, kept);
    assert(text@ == value@.take(kept as int));
    text.append("\u{2026}");
    text
}

/// A truncated text has at most the characters asked for; the ellipsis alone
/// remains where none was asked for.
pub proof fn law_truncated_length(s: Seq<char>, most: int)
    requires
        most >= 0,
    ensures
        truncated_text(s, most).len() <= if most > 0 {
            most
        } else {
            1
        },
        s.len() <= most ==> truncated_text(s, most) == s,
{
    reveal_strlit("\u{2026}");
}

/// A text that is too long is cut, and its last place says so.
pub proof fn law_cut_text_says_so(s: Seq<char>, most: int)
    requires
        most > 0,
        s.len() > most,
    ensures
        truncated_text(s, most).len() == most,
        truncated_text(s, most).take(most - 1) == s.take(most - 1),
        truncated_text(s, most).last() == '\u{2026}',
{
    reveal_strlit("\u{2026}");
    assert(truncated_text(s, most).take(most - 1) =~= s.take(most - 1));
}

/// An escape sequence is not seen, and everything else is.
pub proof fn law_escapes_are_not_seen(parameters: Seq<char>, letter: char, c: char, rest: Seq<char>)
    requires
        'a' <= letter <= 'z' || 'A' <= letter <= 'Z',
        c != '\x1b',
        forall|i: int|
            0 <= i < parameters.len() ==> !('a' <= #[trigger] parameters[i] <= 'z') && !('A'
                <= parameters[i] <= 'Z'),
    ensures
        visible(seq!['\x1b'] + parameters + seq![letter] + rest) == visible(rest),
        visible(seq![c] + rest) == seq![c] + visible(rest),
{
    let whole = seq!['\x1b'] + parameters + seq![letter] + rest;
    let tail = parameters + seq![letter] + rest;
    assert(whole.skip(1) =~= tail);
    lemma_escape_runs_to_its_letter(parameters, letter, rest);
    assert(whole.skip(1 + parameters.len() as int + 1) =~= rest);
    assert((seq![c] + rest).skip(1) =~= rest);
}

proof fn lemma_escape_runs_to_its_letter(parameters: Seq<char>, letter: char, rest: Seq<char>)
    requires
        is_letter(letter),
        forall|i: int| 0 <= i < parameters.len() ==> !is_letter(#[trigger] parameters[i]),
    ensures
        escape_length(parameters + seq![letter] + rest) == parameters.len() + 1,
    decreases parameters.len(),
{
    let whole = parameters + seq![letter] + rest;
    if parameters.len() > 0 {
        let fewer = parameters.skip(1);
        assert forall|i: int| 0 <= i < fewer.len() implies !is_letter(#[trigger] fewer[i]) by {
            assert(fewer[i] == parameters[i + 1]);
        }
        lemma_escape_runs_to_its_letter(fewer, letter, rest);
        assert(whole.skip(1) =~= fewer + seq![letter] + rest);
        assert(whole[0] == parameters[0]);
    }
}

} // verus!
