//! Plain text: searching, trimming, splitting and ordering strings by character.
use vstd::prelude::*;
use vstd::string::*;

verus! {

/// `String::push` of the standard library: it appends the one character it is
/// given to the end of the string and changes nothing else.
pub assume_specification[ String::push ](s: &mut String, c: char)
    ensures
        final(s)@ == old(s)@.push(c),
;

/// The contents of a list of strings.
pub open spec fn texts(list: Seq<String>) -> Seq<Seq<char>> {
    list.map_values(|t: String| t@)
}

/// Characters with the Unicode property White_Space.
pub open spec fn is_space(c: char) -> bool {
    let code = c as u32;
    ||| 0x09 <= code <= 0x0d
    ||| code == 0x20
    ||| code == 0x85
    ||| code == 0xa0
    ||| code == 0x1680
    ||| 0x2000 <= code <= 0x200a
    ||| code == 0x2028
    ||| code == 0x2029
    ||| code == 0x202f
    ||| code == 0x205f
    ||| code == 0x3000
}

/// Whether `c` separates words.
pub fn space(c: char) -> (found: bool)
    ensures
        found == is_space(c),
{
    let code: u32 = c as u32;
    (0x09 <= code && code <= 0x0d) || code == 0x20 || code == 0x85 || code == 0xa0 || code == 0x1680
        || (0x2000 <= code && code <= 0x200a) || code == 0x2028 || code == 0x2029 || code == 0x202f
        || code == 0x205f || code == 0x3000
}

/// Index of the first `c` in `s`, or its length when there is none.
pub open spec fn find(s: Seq<char>, c: char) -> int
    decreases s.len(),
{
    if s.len() == 0 || s[0] == c {
        0
    } else {
        1 + find(s.skip(1), c)
    }
}

/// What `find` means without recursion.
pub proof fn lemma_find(s: Seq<char>, c: char)
    ensures
        0 <= find(s, c) <= s.len(),
        forall|i: int| 0 <= i < find(s, c) ==> s[i] != c,
        find(s, c) < s.len() ==> s[find(s, c)] == c,
    decreases s.len(),
{
    if s.len() > 0 && s[0] != c {
        let tail = s.skip(1);
        lemma_find(tail, c);
        assert forall|i: int| 0 <= i < find(s, c) implies s[i] != c by {
            if i > 0 {
                assert(s[i] == tail[i - 1]);
            }
        }
    }
}

/// The only index with a `c` and none before it is the one `find` gives.
pub proof fn lemma_find_is(s: Seq<char>, c: char, at: int)
    requires
        0 <= at <= s.len(),
        forall|i: int| 0 <= i < at ==> s[i] != c,
        at < s.len() ==> s[at] == c,
    ensures
        find(s, c) == at,
{
    lemma_find(s, c);
    let found = find(s, c);
    if found < at {
        assert(s[found] != c);
    }
}

/// The parts of `s` between the separators, empty parts included.
pub open spec fn pieces(s: Seq<char>, separator: char) -> Seq<Seq<char>>
    decreases s.len(),
{
    let at = find(s, separator);
    if 0 <= at < s.len() {
        seq![s.take(at)] + pieces(s.skip(at + 1), separator)
    } else {
        seq![s]
    }
}

/// As `pieces`, but at most `limit` of them: the last holds the rest of `s`.
pub open spec fn pieces_up_to(s: Seq<char>, separator: char, limit: nat) -> Seq<Seq<char>>
    decreases limit,
{
    let at = find(s, separator);
    if limit > 1 && 0 <= at < s.len() {
        seq![s.take(at)] + pieces_up_to(s.skip(at + 1), separator, (limit - 1) as nat)
    } else {
        seq![s]
    }
}

/// Number of leading characters of `s` that are not white space.
pub open spec fn word_length(s: Seq<char>) -> int
    decreases s.len(),
{
    if s.len() == 0 || is_space(s[0]) {
        0
    } else {
        1 + word_length(s.skip(1))
    }
}

pub proof fn lemma_word_length(s: Seq<char>)
    ensures
        0 <= word_length(s) <= s.len(),
        forall|i: int| 0 <= i < word_length(s) ==> !is_space(s[i]),
        word_length(s) < s.len() ==> is_space(s[word_length(s)]),
    decreases s.len(),
{
    if s.len() > 0 && !is_space(s[0]) {
        let tail = s.skip(1);
        lemma_word_length(tail);
        assert forall|i: int| 0 <= i < word_length(s) implies !is_space(s[i]) by {
            if i > 0 {
                assert(s[i] == tail[i - 1]);
            }
        }
    }
}

proof fn lemma_word_length_is(s: Seq<char>, at: int)
    requires
        0 <= at <= s.len(),
        forall|i: int| 0 <= i < at ==> !is_space(s[i]),
        at < s.len() ==> is_space(s[at]),
    ensures
        word_length(s) == at,
{
    lemma_word_length(s);
    let found = word_length(s);
    if found < at {
        assert(!is_space(s[found]));
    }
}

/// The maximal runs of characters other than white space.
pub open spec fn words(s: Seq<char>) -> Seq<Seq<char>>
    decreases s.len(),
{
    let n = word_length(s);
    if s.len() == 0 {
        seq![]
    } else if n <= 0 || n > s.len() {
        words(s.skip(1))
    } else {
        seq![s.take(n)] + words(s.skip(n))
    }
}

/// `s` without leading white space.
pub open spec fn without_leading_space(s: Seq<char>) -> Seq<char>
    decreases s.len(),
{
    if s.len() > 0 && is_space(s[0]) {
        without_leading_space(s.skip(1))
    } else {
        s
    }
}

/// `s` without trailing white space.
pub open spec fn without_trailing_space(s: Seq<char>) -> Seq<char>
    decreases s.len(),
{
    if s.len() > 0 && is_space(s.last()) {
        without_trailing_space(s.drop_last())
    } else {
        s
    }
}

/// `s` without white space at either end.
pub open spec fn trimmed(s: Seq<char>) -> Seq<char> {
    without_trailing_space(without_leading_space(s))
}

/// The characters of `s`, in order.
pub fn chars_of(s: &str) -> (chars: Vec<char>)
    ensures
        chars@ == s@,
{
    let mut chars: Vec<char> = Vec::new();
    for c in it: s.chars()
        invariant
            chars@ == s@.take(it.index()),
            it.seq() == s@,
    {
        chars.push(c);
    }
    assert(s@.take(s@.len() as int) == s@);
    chars
}

/// The string made of `chars[from..to]`.
pub fn text_between(chars: &Vec<char>, from: usize, to: usize) -> (text: String)
    requires
        from <= to <= chars@.len(),
    ensures
        text@ == chars@.subrange(from as int, to as int),
{
    let mut text = String::new();
    let mut i: usize = from;
    while i < to
        invariant
            from <= i <= to <= chars@.len(),
            text@ == chars@.subrange(from as int, i as int),
        decreases to - i,
    {
        text.push(chars[i]);
        i += 1;
        assert(chars@.subrange(from as int, i as int) == chars@.subrange(from as int, i - 1).push(
            chars@[i - 1],
        ));
    }
    text
}

/// Whether two strings hold the same characters.
pub fn same_text(a: &str, b: &str) -> (same: bool)
    ensures
        same == (a@ == b@),
{
    let mut left = a.chars();
    let mut right = b.chars();
    let ghost mut seen: int = 0;
    loop
        invariant
            0 <= seen <= a@.len(),
            seen <= b@.len(),
            a@.take(seen) == b@.take(seen),
            vstd::std_specs::iter::IteratorSpec::remaining(&left) == a@.skip(seen),
            vstd::std_specs::iter::IteratorSpec::remaining(&right) == b@.skip(seen),
        decreases a@.len() - seen,
    {
        match (left.next(), right.next()) {
            (None, None) => {
                assert(a@.take(seen) == a@ && b@.take(seen) == b@);
                return true;
            },
            (Some(c), Some(d)) => {
                assert(a@.skip(seen)[0] == a@[seen] && b@.skip(seen)[0] == b@[seen]);
                if c != d {
                    return false;
                }
                proof {
                    assert(a@.take(seen + 1) == a@.take(seen).push(a@[seen]));
                    assert(b@.take(seen + 1) == b@.take(seen).push(b@[seen]));
                    assert(a@.skip(seen).drop_first() == a@.skip(seen + 1));
                    assert(b@.skip(seen).drop_first() == b@.skip(seen + 1));
                    seen = seen + 1;
                }
            },
            _ => {
                assert(a@.len() != b@.len());
                return false;
            },
        }
    }
}

/// Index of the first `c` at or after `from`, or the length when there is none.
pub fn find_from(chars: &Vec<char>, c: char, from: usize) -> (at: usize)
    requires
        from <= chars@.len(),
    ensures
        from <= at <= chars@.len(),
        at == from + find(chars@.skip(from as int), c),
{
    let ghost rest = chars@.skip(from as int);
    let mut at: usize = from;
    while at < chars.len() && chars[at] != c
        invariant
            from <= at <= chars@.len(),
            rest == chars@.skip(from as int),
            forall|i: int| 0 <= i < at - from ==> rest[i] != c,
        decreases chars@.len() - at,
    {
        assert(rest[at - from] == chars@[at as int]);
        at += 1;
    }
    proof {
        if at < chars@.len() {
            assert(rest[at - from] == chars@[at as int]);
        }
        lemma_find_is(rest, c, at - from);
    }
    at
}

/// Whether `c` occurs in `s`.
pub fn contains_char(s: &str, c: char) -> (found: bool)
    ensures
        found == s@.contains(c),
{
    let chars = chars_of(s);
    let at: usize = find_from(&chars, c, 0);
    proof {
        assert(chars@.skip(0) == s@);
        lemma_find(s@, c);
        if at < chars@.len() {
            assert(s@[at as int] == c);
        } else if s@.contains(c) {
            let i = s@.index_of(c);
            assert(s@[i] != c);
        }
    }
    at < chars.len()
}

/// Splits `s` at every `separator`.
pub fn split(s: &str, separator: char) -> (parts: Vec<String>)
    ensures
        texts(parts@) == pieces(s@, separator),
{
    let chars = chars_of(s);
    let mut parts: Vec<String> = Vec::new();
    let mut start: usize = 0;
    let mut at: usize = find_from(&chars, separator, 0);
    assert(chars@.skip(0) == s@);
    while at < chars.len()
        invariant
            chars@ == s@,
            start <= at <= chars@.len(),
            at == start + find(chars@.skip(start as int), separator),
            texts(parts@) + pieces(chars@.skip(start as int), separator) == pieces(s@, separator),
        decreases chars@.len() - at,
    {
        let ghost before = texts(parts@);
        let ghost rest = chars@.skip(start as int);
        parts.push(text_between(&chars, start, at));
        proof {
            assert(rest.take(at - start) == chars@.subrange(start as int, at as int));
            assert(rest.skip(at - start + 1) == chars@.skip(at + 1));
            assert(texts(parts@) == before.push(rest.take(at - start)));
            assert(before + (seq![rest.take(at - start)] + pieces(chars@.skip(at + 1), separator))
                == texts(parts@) + pieces(chars@.skip(at + 1), separator));
        }
        start = at + 1;
        at = find_from(&chars, separator, start);
    }
    let ghost before = texts(parts@);
    parts.push(text_between(&chars, start, chars.len()));
    proof {
        assert(chars@.skip(start as int) == chars@.subrange(start as int, chars@.len() as int));
        assert(texts(parts@) == before + seq![chars@.skip(start as int)]);
    }
    parts
}

/// Splits `s` at the first separators into at most `limit` parts.
pub fn split_up_to(s: &str, separator: char, limit: usize) -> (parts: Vec<String>)
    requires
        limit >= 1,
    ensures
        texts(parts@) == pieces_up_to(s@, separator, limit as nat),
{
    let chars = chars_of(s);
    let mut parts: Vec<String> = Vec::new();
    let mut start: usize = 0;
    let mut left: usize = limit;
    let mut at: usize = find_from(&chars, separator, 0);
    assert(chars@.skip(0) == s@);
    while left > 1 && at < chars.len()
        invariant
            chars@ == s@,
            1 <= left,
            start <= at <= chars@.len(),
            at == start + find(chars@.skip(start as int), separator),
            texts(parts@) + pieces_up_to(chars@.skip(start as int), separator, left as nat)
                == pieces_up_to(s@, separator, limit as nat),
        decreases left,
    {
        let ghost before = texts(parts@);
        let ghost rest = chars@.skip(start as int);
        parts.push(text_between(&chars, start, at));
        proof {
            assert(rest.take(at - start) == chars@.subrange(start as int, at as int));
            assert(rest.skip(at - start + 1) == chars@.skip(at + 1));
            assert(texts(parts@) == before.push(rest.take(at - start)));
            let tail = pieces_up_to(chars@.skip(at + 1), separator, (left - 1) as nat);
            assert(before + (seq![rest.take(at - start)] + tail) == texts(parts@) + tail);
        }
        start = at + 1;
        left -= 1;
        at = find_from(&chars, separator, start);
    }
    let ghost before = texts(parts@);
    parts.push(text_between(&chars, start, chars.len()));
    proof {
        assert(chars@.skip(start as int) == chars@.subrange(start as int, chars@.len() as int));
        assert(texts(parts@) == before + seq![chars@.skip(start as int)]);
    }
    parts
}

/// Splits `s` into its words.
pub fn split_words(s: &str) -> (found: Vec<String>)
    ensures
        texts(found@) == words(s@),
{
    let chars = chars_of(s);
    let mut found: Vec<String> = Vec::new();
    let mut start: usize = 0;
    assert(chars@.skip(0) == s@);
    while start < chars.len()
        invariant
            chars@ == s@,
            start <= chars@.len(),
            texts(found@) + words(chars@.skip(start as int)) == words(s@),
        decreases chars@.len() - start,
    {
        let ghost rest = chars@.skip(start as int);
        let mut end: usize = start;
        while end < chars.len() && !space(chars[end])
            invariant
                start <= end <= chars@.len(),
                rest == chars@.skip(start as int),
                forall|i: int| 0 <= i < end - start ==> !is_space(rest[i]),
            decreases chars@.len() - end,
        {
            assert(rest[end - start] == chars@[end as int]);
            end += 1;
        }
        proof {
            if end < chars@.len() {
                assert(rest[end - start] == chars@[end as int]);
            }
            lemma_word_length_is(rest, end - start);
        }
        if end == start {
            assert(rest.skip(1) == chars@.skip(start + 1));
            start += 1;
        } else {
            let ghost before = texts(found@);
            found.push(text_between(&chars, start, end));
            proof {
                let word = rest.take(end - start);
                assert(word == chars@.subrange(start as int, end as int));
                assert(rest.skip(end - start) == chars@.skip(end as int));
                let tail = words(chars@.skip(end as int));
                assert(before + (seq![word] + tail) == texts(found@) + tail);
            }
            start = end;
        }
    }
    assert(texts(found@) + words(chars@.skip(start as int)) == texts(found@));
    found
}

/// A line without the carriage return that may end it.
pub open spec fn without_return(line: Seq<char>) -> Seq<char> {
    if line.len() > 0 && line.last() == '\r' {
        line.drop_last()
    } else {
        line
    }
}

/// The lines of `s`. A line ends with a line feed, perhaps after a carriage
/// return; the last one need not end.
pub open spec fn lines_of(s: Seq<char>) -> Seq<Seq<char>>
    decreases s.len(),
{
    let at = find(s, '\n');
    if s.len() == 0 {
        seq![]
    } else if 0 <= at < s.len() {
        seq![without_return(s.take(at))] + lines_of(s.skip(at + 1))
    } else {
        seq![s]
    }
}

/// Splits `s` into its lines.
pub fn split_lines(s: &str) -> (found: Vec<String>)
    ensures
        texts(found@) == lines_of(s@),
{
    let chars = chars_of(s);
    let mut found: Vec<String> = Vec::new();
    let mut start: usize = 0;
    assert(chars@.skip(0) == s@);
    while start < chars.len()
        invariant
            chars@ == s@,
            start <= chars@.len(),
            texts(found@) + lines_of(chars@.skip(start as int)) == lines_of(s@),
        decreases chars@.len() - start,
    {
        let ghost before = texts(found@);
        let ghost rest = chars@.skip(start as int);
        let at: usize = find_from(&chars, '\n', start);
        if at < chars.len() {
            let end: usize = if at > start && chars[at - 1] == '\r' {
                at - 1
            } else {
                at
            };
            found.push(text_between(&chars, start, end));
            proof {
                let line = rest.take(at - start);
                assert(line == chars@.subrange(start as int, at as int));
                assert(without_return(line) == chars@.subrange(start as int, end as int));
                assert(rest.skip(at - start + 1) == chars@.skip(at + 1));
                let tail = lines_of(chars@.skip(at + 1));
                assert(before + (seq![without_return(line)] + tail) == texts(found@) + tail);
            }
            start = at + 1;
        } else {
            found.push(text_between(&chars, start, chars.len()));
            proof {
                assert(rest == chars@.subrange(start as int, chars@.len() as int));
                assert(texts(found@) == before + seq![rest]);
                assert(lines_of(chars@.skip(chars@.len() as int)) =~= seq![]);
            }
            start = chars.len();
        }
    }
    assert(texts(found@) + lines_of(chars@.skip(start as int)) == texts(found@));
    found
}

/// `s` without white space at either end.
pub fn trim(s: &str) -> (text: String)
    ensures
        text@ == trimmed(s@),
{
    let chars = chars_of(s);
    let mut from: usize = 0;
    assert(chars@.skip(0) == s@);
    while from < chars.len() && space(chars[from])
        invariant
            from <= chars@.len(),
            chars@ == s@,
            without_leading_space(chars@.skip(from as int)) == without_leading_space(s@),
        decreases chars@.len() - from,
    {
        assert(chars@.skip(from as int).skip(1) == chars@.skip(from + 1));
        from += 1;
    }
    let mut to: usize = chars.len();
    assert(chars@.subrange(from as int, to as int) == chars@.skip(from as int));
    while from < to && space(chars[to - 1])
        invariant
            from <= to <= chars@.len(),
            without_trailing_space(chars@.subrange(from as int, to as int)) == trimmed(s@),
        decreases to,
    {
        assert(chars@.subrange(from as int, to as int).drop_last() == chars@.subrange(
            from as int,
            to - 1,
        ));
        to -= 1;
    }
    text_between(&chars, from, to)
}

/// `s` without trailing white space.
pub fn trim_end(s: &str) -> (text: String)
    ensures
        text@ == without_trailing_space(s@),
{
    let chars = chars_of(s);
    let mut to: usize = chars.len();
    assert(chars@.subrange(0, to as int) == s@);
    while 0 < to && space(chars[to - 1])
        invariant
            to <= chars@.len(),
            without_trailing_space(chars@.subrange(0, to as int)) == without_trailing_space(s@),
        decreases to,
    {
        assert(chars@.subrange(0, to as int).drop_last() == chars@.subrange(0, to - 1));
        to -= 1;
    }
    text_between(&chars, 0, to)
}

/// Whether `s` holds nothing but white space.
pub fn is_blank(s: &str) -> (blank: bool)
    ensures
        blank == (trimmed(s@).len() == 0),
{
    trim(s).as_str().is_empty()
}

/// Text with a character other than white space is not blank.
pub proof fn lemma_not_blank(s: Seq<char>, at: int)
    requires
        0 <= at < s.len(),
        !is_space(s[at]),
    ensures
        trimmed(s).len() > 0,
    decreases s.len(),
{
    if is_space(s[0]) {
        assert(s.skip(1)[at - 1] == s[at]);
        lemma_not_blank(s.skip(1), at - 1);
    } else {
        lemma_trailing_space_kept(s, 0);
    }
}

proof fn lemma_trailing_space_kept(s: Seq<char>, at: int)
    requires
        0 <= at < s.len(),
        !is_space(s[at]),
    ensures
        without_trailing_space(s).len() > at,
    decreases s.len(),
{
    if is_space(s.last()) {
        assert(s.drop_last()[at] == s[at]);
        lemma_trailing_space_kept(s.drop_last(), at);
    }
}

/// Whether `s` begins with `prefix`.
pub open spec fn begins_with(s: Seq<char>, prefix: Seq<char>) -> bool {
    prefix.len() <= s.len() && s.take(prefix.len() as int) == prefix
}

/// Whether `s` ends with `suffix`.
pub open spec fn finishes_with(s: Seq<char>, suffix: Seq<char>) -> bool {
    suffix.len() <= s.len() && s.skip(s.len() - suffix.len()) == suffix
}

/// The part of `s` after `prefix`, when it begins with it.
pub fn strip_prefix(s: &str, prefix: &str) -> (rest: Option<String>)
    ensures
        rest is Some <==> begins_with(s@, prefix@),
        rest matches Some(r) ==> r@ == s@.skip(prefix@.len() as int),
{
    let chars = chars_of(s);
    let head = chars_of(prefix);
    if head.len() > chars.len() {
        return None;
    }
    let start = text_between(&chars, 0, head.len());
    if !same_text(start.as_str(), prefix) {
        assert(start@ == s@.take(prefix@.len() as int));
        return None;
    }
    assert(start@ == s@.take(prefix@.len() as int));
    let rest = text_between(&chars, head.len(), chars.len());
    assert(rest@ == s@.skip(prefix@.len() as int));
    Some(rest)
}

/// Whether `s` begins with `prefix`.
pub fn starts_with(s: &str, prefix: &str) -> (found: bool)
    ensures
        found == begins_with(s@, prefix@),
{
    strip_prefix(s, prefix).is_some()
}

/// Whether `s` ends with `suffix`.
pub fn ends_with(s: &str, suffix: &str) -> (found: bool)
    ensures
        found == finishes_with(s@, suffix@),
{
    let chars = chars_of(s);
    let tail = chars_of(suffix);
    if tail.len() > chars.len() {
        return false;
    }
    let end = text_between(&chars, chars.len() - tail.len(), chars.len());
    assert(end@ == s@.skip(s@.len() - suffix@.len()));
    same_text(end.as_str(), suffix)
}

/// The part of `s` behind the first `needle` in it.
pub open spec fn text_after(s: Seq<char>, needle: Seq<char>) -> Option<Seq<char>>
    decreases s.len(),
{
    if begins_with(s, needle) {
        Some(s.skip(needle.len() as int))
    } else if s.len() == 0 {
        None
    } else {
        text_after(s.skip(1), needle)
    }
}

/// The part of `s` behind the first `needle` in it.
pub fn after_first(s: &str, needle: &str) -> (rest: Option<String>)
    ensures
        rest is Some <==> text_after(s@, needle@) is Some,
        rest matches Some(r) ==> Some(r@) == text_after(s@, needle@),
{
    let chars = chars_of(s);
    let mut from: usize = 0;
    assert(chars@.skip(0) =~= s@);
    loop
        invariant
            from <= chars@.len(),
            text_after(s@, needle@) == text_after(chars@.skip(from as int), needle@),
        decreases chars@.len() - from,
    {
        let tail = text_between(&chars, from, chars.len());
        assert(tail@ =~= chars@.skip(from as int));
        match strip_prefix(tail.as_str(), needle) {
            Some(rest) => {
                return Some(rest);
            },
            None => {},
        }
        if from == chars.len() {
            return None;
        }
        assert(chars@.skip(from as int).skip(1) =~= chars@.skip(from + 1));
        from += 1;
    }
}

/// Dictionary order by code point, which is also the byte order of UTF-8.
pub open spec fn text_before(a: Seq<char>, b: Seq<char>) -> bool
    decreases a.len(),
{
    if b.len() == 0 {
        false
    } else if a.len() == 0 {
        true
    } else if a[0] != b[0] {
        a[0] < b[0]
    } else {
        text_before(a.skip(1), b.skip(1))
    }
}

/// Whether `a` comes strictly before `b` in dictionary order.
pub fn text_precedes(a: &str, b: &str) -> (before: bool)
    ensures
        before == text_before(a@, b@),
{
    let mut left = a.chars();
    let mut right = b.chars();
    let ghost mut seen: int = 0;
    assert(a@.skip(0) == a@ && b@.skip(0) == b@);
    loop
        invariant
            0 <= seen <= a@.len(),
            seen <= b@.len(),
            text_before(a@.skip(seen), b@.skip(seen)) == text_before(a@, b@),
            vstd::std_specs::iter::IteratorSpec::remaining(&left) == a@.skip(seen),
            vstd::std_specs::iter::IteratorSpec::remaining(&right) == b@.skip(seen),
        decreases a@.len() - seen,
    {
        match (left.next(), right.next()) {
            (_, None) => {
                return false;
            },
            (None, Some(_)) => {
                return true;
            },
            (Some(c), Some(d)) => {
                if c != d {
                    return c < d;
                }
                proof {
                    assert(a@.skip(seen).skip(1) == a@.skip(seen + 1));
                    assert(b@.skip(seen).skip(1) == b@.skip(seen + 1));
                    assert(a@.skip(seen).drop_first() == a@.skip(seen + 1));
                    assert(b@.skip(seen).drop_first() == b@.skip(seen + 1));
                    seen = seen + 1;
                }
            },
        }
    }
}

/// Dictionary order is irreflexive and asymmetric.
pub proof fn lemma_text_before_asymmetric(a: Seq<char>, b: Seq<char>)
    ensures
        !(text_before(a, b) && text_before(b, a)),
        !text_before(a, a),
    decreases a.len(),
{
    if a.len() > 0 {
        if b.len() > 0 {
            lemma_text_before_asymmetric(a.skip(1), b.skip(1));
        } else {
            lemma_text_before_asymmetric(a.skip(1), b);
        }
    }
}

/// Dictionary order is transitive.
pub proof fn lemma_text_before_transitive(a: Seq<char>, b: Seq<char>, c: Seq<char>)
    requires
        text_before(a, b),
        text_before(b, c),
    ensures
        text_before(a, c),
    decreases a.len(),
{
    if a.len() > 0 && a[0] == b[0] && b[0] == c[0] {
        lemma_text_before_transitive(a.skip(1), b.skip(1), c.skip(1));
    }
}

/// Two different texts are always in order one way or the other.
pub proof fn lemma_text_before_total(a: Seq<char>, b: Seq<char>)
    ensures
        text_before(a, b) || text_before(b, a) || a == b,
    decreases a.len(),
{
    if a.len() > 0 && b.len() > 0 && a[0] == b[0] {
        lemma_text_before_total(a.skip(1), b.skip(1));
        if a.skip(1) == b.skip(1) {
            assert(a == seq![a[0]] + a.skip(1));
            assert(b == seq![b[0]] + b.skip(1));
        }
    } else if a.len() == 0 && b.len() == 0 {
        assert(a == b);
    }
}

/// Splitting gives what stands in front of the first separator, and then the parts
/// of the rest.
pub proof fn law_pieces(head: Seq<char>, separator: char, rest: Seq<char>, limit: nat)
    requires
        !head.contains(separator),
    ensures
        pieces(head, separator) == seq![head],
        pieces(head + seq![separator] + rest, separator) == seq![head] + pieces(rest, separator),
        pieces_up_to(rest, separator, 1) == seq![rest],
        limit > 1 ==> pieces_up_to(head + seq![separator] + rest, separator, limit) == seq![head]
            + pieces_up_to(rest, separator, (limit - 1) as nat),
{
    let whole = head + seq![separator] + rest;
    assert forall|i: int| 0 <= i < head.len() implies head[i] != separator && whole[i]
        != separator by {
        assert(whole[i] == head[i]);
        assert(head.contains(head[i]));
    }
    lemma_find_is(head, separator, head.len() as int);
    lemma_find_is(whole, separator, head.len() as int);
    assert(whole.take(head.len() as int) =~= head);
    assert(whole.skip(head.len() as int + 1) =~= rest);
}

/// Words are what white space separates, however much of it there is.
pub proof fn law_words(word: Seq<char>, c: char, rest: Seq<char>)
    requires
        word.len() > 0,
        forall|i: int| 0 <= i < word.len() ==> !is_space(#[trigger] word[i]),
        is_space(c),
    ensures
        words(Seq::empty()) == Seq::<Seq<char>>::empty(),
        words(seq![c] + rest) == words(rest),
        words(word) == seq![word],
        words(word + seq![c] + rest) == seq![word] + words(rest),
{
    let blank = seq![c] + rest;
    assert(blank.skip(1) =~= rest);
    assert(words(blank) == words(rest));
    lemma_word_length_is(word, word.len() as int);
    assert(word.take(word.len() as int) =~= word);
    assert(word.skip(word.len() as int) =~= Seq::<char>::empty());
    assert(words(Seq::<char>::empty()) =~= Seq::<Seq<char>>::empty());
    assert(words(word) =~= seq![word]);
    let whole = word + seq![c] + rest;
    assert forall|i: int| 0 <= i < word.len() implies !is_space(whole[i]) by {
        assert(whole[i] == word[i]);
    }
    lemma_word_length_is(whole, word.len() as int);
    assert(whole.take(word.len() as int) =~= word);
    assert(whole.skip(word.len() as int) =~= blank);
}

/// Trimming takes away all the white space at both ends, and nothing else.
pub proof fn law_trimmed(front: Seq<char>, middle: Seq<char>, back: Seq<char>)
    requires
        forall|i: int| 0 <= i < front.len() ==> is_space(#[trigger] front[i]),
        forall|i: int| 0 <= i < back.len() ==> is_space(#[trigger] back[i]),
        middle.len() > 0 ==> !is_space(middle[0]) && !is_space(middle.last()),
    ensures
        trimmed(front + middle + back) == middle,
    decreases front.len() + back.len(),
{
    let whole = front + middle + back;
    if front.len() > 0 {
        let rest = front.skip(1);
        assert forall|i: int| 0 <= i < rest.len() implies is_space(#[trigger] rest[i]) by {
            assert(rest[i] == front[i + 1]);
        }
        law_trimmed(rest, middle, back);
        assert(whole.skip(1) =~= rest + middle + back);
        assert(is_space(whole[0])) by {
            assert(whole[0] == front[0]);
        }
    } else if middle.len() == 0 {
        assert(whole =~= back);
        if back.len() > 0 {
            let rest = back.skip(1);
            assert forall|i: int| 0 <= i < rest.len() implies is_space(#[trigger] rest[i]) by {
                assert(rest[i] == back[i + 1]);
            }
            law_trimmed(front, middle, rest);
            assert(front + middle + rest =~= whole.skip(1));
            assert(is_space(whole[0]));
        }
        assert(trimmed(whole) =~= middle);
    } else {
        assert(whole =~= middle + back);
        assert(without_leading_space(whole) == whole);
        lemma_trailing_space(middle, back);
    }
}

proof fn lemma_trailing_space(middle: Seq<char>, back: Seq<char>)
    requires
        middle.len() > 0,
        !is_space(middle.last()),
        forall|i: int| 0 <= i < back.len() ==> is_space(#[trigger] back[i]),
    ensures
        without_trailing_space(middle + back) == middle,
    decreases back.len(),
{
    let whole = middle + back;
    if back.len() == 0 {
        assert(whole =~= middle);
    } else {
        let rest = back.drop_last();
        assert forall|i: int| 0 <= i < rest.len() implies is_space(#[trigger] rest[i]) by {
            assert(rest[i] == back[i]);
        }
        lemma_trailing_space(middle, rest);
        assert(whole.drop_last() =~= middle + rest);
        assert(whole.last() == back[back.len() - 1]);
    }
}

/// A line ends with its line feed, and what follows are other lines. Only a
/// carriage return before the line feed is not part of it.
pub proof fn law_lines(line: Seq<char>, rest: Seq<char>)
    requires
        !line.contains('\n'),
    ensures
        lines_of(Seq::empty()) == Seq::<Seq<char>>::empty(),
        line.len() > 0 ==> lines_of(line) == seq![line],
        !(line.len() > 0 && line.last() == '\r') ==> lines_of(line + seq!['\n'] + rest)
            == seq![line] + lines_of(rest),
        lines_of(line + seq!['\r', '\n'] + rest) == seq![line] + lines_of(rest),
{
    lemma_line_found(line, rest);
    let longer = line.push('\r');
    assert forall|i: int| 0 <= i < longer.len() implies longer[i] != '\n' by {
        if i < line.len() {
            assert(line.contains(line[i]));
        }
    }
    assert(!longer.contains('\n'));
    lemma_line_found(longer, rest);
    assert(line + seq!['\r', '\n'] + rest =~= longer + seq!['\n'] + rest);
    assert(longer.drop_last() =~= line);
    assert forall|i: int| 0 <= i < line.len() implies line[i] != '\n' by {
        assert(line.contains(line[i]));
    }
    lemma_find_is(line, '\n', line.len() as int);
}

proof fn lemma_line_found(line: Seq<char>, rest: Seq<char>)
    requires
        !line.contains('\n'),
    ensures
        lines_of(line + seq!['\n'] + rest) == seq![without_return(line)] + lines_of(rest),
{
    let whole = line + seq!['\n'] + rest;
    assert forall|i: int| 0 <= i < line.len() implies whole[i] != '\n' by {
        assert(whole[i] == line[i]);
        assert(line.contains(line[i]));
    }
    lemma_find_is(whole, '\n', line.len() as int);
    assert(whole.take(line.len() as int) =~= line);
    assert(whole.skip(line.len() as int + 1) =~= rest);
}

/// What follows the first place where a text occurs is what comes after it there.
pub proof fn law_text_after(front: Seq<char>, needle: Seq<char>, rest: Seq<char>)
    requires
        forall|i: int|
            0 <= i < front.len() ==> !begins_with(
                #[trigger] (front + needle + rest).skip(i),
                needle,
            ),
    ensures
        text_after(front + needle + rest, needle) == Some(rest),
    decreases front.len(),
{
    let whole = front + needle + rest;
    if front.len() == 0 {
        assert(whole =~= needle + rest);
        assert(whole.take(needle.len() as int) =~= needle);
        assert(whole.skip(needle.len() as int) =~= rest);
    } else {
        let shorter = front.skip(1);
        let tail = shorter + needle + rest;
        assert(whole.skip(1) =~= tail);
        assert(whole.skip(0) =~= whole);
        assert forall|i: int| 0 <= i < shorter.len() implies !begins_with(
            #[trigger] tail.skip(i),
            needle,
        ) by {
            assert(tail.skip(i) =~= whole.skip(i + 1));
        }
        law_text_after(shorter, needle, rest);
    }
}

/// Dictionary order: the first character that differs decides, and a text comes
/// before all that go on where it ends.
pub proof fn law_dictionary_order(
    common: Seq<char>,
    a: char,
    one: Seq<char>,
    b: char,
    other: Seq<char>,
)
    ensures
        a < b ==> text_before(common + seq![a] + one, common + seq![b] + other),
        text_before(common, common + seq![b] + other),
        !text_before(common + seq![b] + other, common),
        !text_before(common, common),
    decreases common.len(),
{
    let left = common + seq![a] + one;
    let right = common + seq![b] + other;
    if common.len() > 0 {
        let rest = common.skip(1);
        law_dictionary_order(rest, a, one, b, other);
        assert(left.skip(1) =~= rest + seq![a] + one);
        assert(right.skip(1) =~= rest + seq![b] + other);
    }
}

} // verus!
