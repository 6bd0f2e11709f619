//! The terminals that Ghostty runs, and the order they are shown in.
use vstd::prelude::*;
use vstd::string::*;
use crate::number;
use crate::number::parse_u32;
use crate::process::{CpuShare, Process};
use crate::sorting;
use crate::sorting::sort_stably;
use crate::text;
use crate::text::{same_text, strip_prefix, text_precedes};

verus! {

/// One terminal surface and the processes in it.
#[derive(Debug)]
pub struct Terminal {
    pub root_pid: i32,
    pub tty: String,
    /// The Ghostty tab name when it can be resolved, else the working
    /// directory, else the tty.
    pub label: String,
    pub cpu: CpuShare,
    pub rss_kib: u64,
    pub processes: Vec<Process>,
    pub activity: String,
    pub elapsed: String,
    pub age_seconds: u64,
    pub memory_growth_kib: i64,
    pub memory_slope_kib_per_min: i64,
    pub memory_samples: usize,
    pub leak_suspected: bool,
}

impl Default for Terminal {
    fn default() -> (terminal: Self)
        ensures
            terminal.root_pid == 0,
            terminal.tty@.len() == 0,
            terminal.label@.len() == 0,
            terminal.cpu.rank == 0,
            terminal.cpu.text@ == "0.0"@,
            terminal.rss_kib == 0,
            terminal.processes@.len() == 0,
            terminal.activity@.len() == 0,
            terminal.elapsed@.len() == 0,
            terminal.age_seconds == 0,
            terminal.memory_growth_kib == 0,
            terminal.memory_slope_kib_per_min == 0,
            terminal.memory_samples == 0,
            !terminal.leak_suspected,
    {
        Terminal {
            root_pid: 0,
            tty: String::new(),
            label: String::new(),
            cpu: CpuShare::default(),
            rss_kib: 0,
            processes: Vec::new(),
            activity: String::new(),
            elapsed: String::new(),
            age_seconds: 0,
            memory_growth_kib: 0,
            memory_slope_kib_per_min: 0,
            memory_samples: 0,
            leak_suspected: false,
        }
    }
}

/// What the terminals are ordered by.
#[derive(Clone, Copy, Debug, PartialEq, Eq, Structural)]
pub enum SortBy {
    Cpu,
    Memory,
    Trend,
    Processes,
    Age,
    Activity,
    Tab,
}

/// Text in lower case, as the standard library writes it.
pub uninterp spec fn lowercase(s: Seq<char>) -> Seq<char>;

/// `str::to_lowercase` of the standard library. Which characters its result
/// holds is left unsaid: it follows the Unicode tables. It depends on nothing
/// but the text it is given.
#[verifier::external_body]
fn to_lowercase(s: &str) -> (lower: String)
    ensures
        lower@ == lowercase(s@),
{
    s.to_lowercase()
}

/// A tty without the `ttys` that it begins with, however often.
pub open spec fn without_ttys(tty: Seq<char>) -> Seq<char>
    decreases tty.len(),
{
    if tty.len() >= 4 && text::begins_with(tty, "ttys"@) {
        without_ttys(tty.skip(4))
    } else {
        tty
    }
}

/// The number of a tty such as `ttys012`, and the largest number for others.
pub open spec fn tty_number(tty: Seq<char>) -> u32 {
    match number::u32_of(without_ttys(tty)) {
        Some(n) => n,
        None => u32::MAX,
    }
}

/// The number of a tty, by which `ttys2` comes before `ttys10`.
pub fn natural_tty(tty: &str) -> (number: u32)
    ensures
        number == tty_number(tty@),
{
    let mut rest = tty.to_owned();
    proof {
        reveal_strlit("ttys");
    }
    loop
        invariant
            "ttys"@.len() == 4,
            without_ttys(rest@) == without_ttys(tty@),
        decreases rest@.len(),
    {
        match strip_prefix(rest.as_str(), "ttys") {
            Some(shorter) => {
                rest = shorter;
            },
            None => {
                return match parse_u32(rest.as_str()) {
                    Some(n) => n,
                    None => u32::MAX,
                };
            },
        }
    }
}

/// Whether one tab comes before another by their names in lower case, and by the
/// numbers of their ttys where the names are the same.
pub open spec fn is_tab_before(
    name: Seq<char>,
    tty: Seq<char>,
    other_name: Seq<char>,
    other_tty: Seq<char>,
) -> bool {
    text::text_before(name, other_name) || (name == other_name && tty_number(tty) < tty_number(
        other_tty,
    ))
}

/// Whether one tab comes before another, given their names in lower case.
pub fn tab_precedes(name: &str, tty: &str, other_name: &str, other_tty: &str) -> (found: bool)
    ensures
        found == is_tab_before(name@, tty@, other_name@, other_tty@),
{
    text_precedes(name, other_name) || (same_text(name, other_name) && natural_tty(tty)
        < natural_tty(other_tty))
}

/// Whether one terminal has less than another of what they are ordered by.
pub open spec fn is_less(a: Terminal, b: Terminal, sort: SortBy) -> bool {
    match sort {
        SortBy::Cpu => a.cpu.rank < b.cpu.rank,
        SortBy::Memory => a.rss_kib < b.rss_kib,
        SortBy::Trend => a.memory_growth_kib < b.memory_growth_kib,
        SortBy::Processes => a.processes@.len() < b.processes@.len(),
        SortBy::Age => a.age_seconds < b.age_seconds,
        SortBy::Activity => text::text_before(lowercase(a.activity@), lowercase(b.activity@)),
        SortBy::Tab => is_tab_before(lowercase(a.label@), a.tty@, lowercase(b.label@), b.tty@),
    }
}

/// The order that terminals are shown in.
pub open spec fn terminal_order(sort: SortBy, descending: bool) -> spec_fn(Terminal, Terminal) -> bool {
    |a: Terminal, b: Terminal|
        if descending {
            is_less(b, a, sort)
        } else {
            is_less(a, b, sort)
        }
}

fn less(a: &Terminal, b: &Terminal, sort: SortBy) -> (found: bool)
    ensures
        found == is_less(*a, *b, sort),
{
    match sort {
        SortBy::Cpu => a.cpu.rank < b.cpu.rank,
        SortBy::Memory => a.rss_kib < b.rss_kib,
        SortBy::Trend => a.memory_growth_kib < b.memory_growth_kib,
        SortBy::Processes => a.processes.len() < b.processes.len(),
        SortBy::Age => a.age_seconds < b.age_seconds,
        SortBy::Activity => {
            let one = to_lowercase(a.activity.as_str());
            let other = to_lowercase(b.activity.as_str());
            text_precedes(one.as_str(), other.as_str())
        },
        SortBy::Tab => {
            let one = to_lowercase(a.label.as_str());
            let other = to_lowercase(b.label.as_str());
            tab_precedes(one.as_str(), a.tty.as_str(), other.as_str(), b.tty.as_str())
        },
    }
}

/// Dictionary order tells apart whatever lies between two texts in order.
proof fn lemma_text_between(a: Seq<char>, b: Seq<char>, c: Seq<char>)
    requires
        text::text_before(a, c),
    ensures
        text::text_before(a, b) || text::text_before(b, c),
{
    text::lemma_text_before_total(a, b);
    if text::text_before(b, a) {
        text::lemma_text_before_transitive(b, a, c);
    }
}

proof fn lemma_is_less_orders(sort: SortBy)
    ensures
        forall|a: Terminal, b: Terminal| #[trigger] is_less(a, b, sort) ==> !is_less(b, a, sort),
        forall|a: Terminal, b: Terminal, c: Terminal| #[trigger]
            is_less(a, c, sort) ==> #[trigger] is_less(a, b, sort) || is_less(b, c, sort),
{
    assert forall|a: Terminal, b: Terminal| #[trigger] is_less(a, b, sort) implies !is_less(
        b,
        a,
        sort,
    ) by {
        text::lemma_text_before_asymmetric(lowercase(a.activity@), lowercase(b.activity@));
        text::lemma_text_before_asymmetric(lowercase(a.label@), lowercase(b.label@));
        text::lemma_text_before_asymmetric(lowercase(b.label@), lowercase(a.label@));
    }
    assert forall|a: Terminal, b: Terminal, c: Terminal| #[trigger]
        is_less(a, c, sort) implies #[trigger] is_less(a, b, sort) || is_less(b, c, sort) by {
        if sort == SortBy::Activity {
            lemma_text_between(lowercase(a.activity@), lowercase(b.activity@), lowercase(c.activity@));
        } else if sort == SortBy::Tab {
            let one = lowercase(a.label@);
            let two = lowercase(b.label@);
            let three = lowercase(c.label@);
            if text::text_before(one, three) {
                lemma_text_between(one, two, three);
            } else {
                text::lemma_text_before_total(one, two);
            }
        }
    }
}

/// The order of the terminals is one: sorting by it fixes the outcome.
pub proof fn law_terminal_order(sort: SortBy, descending: bool)
    ensures
        sorting::is_order(terminal_order(sort, descending)),
{
    lemma_is_less_orders(sort);
    let before = terminal_order(sort, descending);
    assert forall|a: Terminal, b: Terminal, c: Terminal| #[trigger] before(a, c) implies #[trigger] before(
        a,
        b,
    ) || before(b, c) by {
        if descending {
            assert(is_less(c, a, sort));
            assert(is_less(c, b, sort) || is_less(b, a, sort));
        }
    }
}

/// Sorts the terminals; those that are level keep their order.
pub fn sort_terminals(terminals: &mut Vec<Terminal>, sort: SortBy, descending: bool)
    ensures
        sorting::is_sorted_from(old(terminals)@, final(terminals)@, terminal_order(sort, descending)),
{
    proof {
        law_terminal_order(sort, descending);
    }
    let precedes = |a: &Terminal, b: &Terminal| -> (found: bool)
        ensures
            found == terminal_order(sort, descending)(*a, *b),
    {
        if descending {
            less(b, a, sort)
        } else {
            less(a, b, sort)
        }
    };
    sort_stably(terminals, precedes, Ghost(terminal_order(sort, descending)));
}

/// What sorting by a column means, for any two terminals one above the other:
/// downwards the upper one has no less of it, and upwards no more.
pub proof fn law_sorted_by_its_column(
    before: Seq<Terminal>,
    after: Seq<Terminal>,
    sort: SortBy,
    descending: bool,
    i: int,
    j: int,
)
    requires
        sorting::is_sorted_from(before, after, terminal_order(sort, descending)),
        0 <= i < j < after.len(),
    ensures
        ({
            let more = if descending {
                after[i]
            } else {
                after[j]
            };
            let less = if descending {
                after[j]
            } else {
                after[i]
            };
            &&& sort == SortBy::Cpu ==> more.cpu.rank >= less.cpu.rank
            &&& sort == SortBy::Memory ==> more.rss_kib >= less.rss_kib
            &&& sort == SortBy::Trend ==> more.memory_growth_kib >= less.memory_growth_kib
            &&& sort == SortBy::Processes ==> more.processes@.len() >= less.processes@.len()
            &&& sort == SortBy::Age ==> more.age_seconds >= less.age_seconds
            &&& sort == SortBy::Activity ==> !text::text_before(
                lowercase(more.activity@),
                lowercase(less.activity@),
            )
            &&& sort == SortBy::Tab ==> !text::text_before(
                lowercase(more.label@),
                lowercase(less.label@),
            )
            &&& sort == SortBy::Tab && lowercase(more.label@) == lowercase(less.label@)
                ==> tty_number(more.tty@) >= tty_number(less.tty@)
        }),
        after.len() == before.len(),
        before.contains(after[i]),
        before.contains(after[j]),
{
    let order = terminal_order(sort, descending);
    let places = choose|places: Seq<int>| sorting::is_arranged(before, after, places, order);
    assert(!order(after[j], after[i]));
    assert(after[i] == before[places[i]]);
    assert(after[j] == before[places[j]]);
}

/// Sorting loses no terminal.
pub proof fn law_sorting_keeps_every_terminal(
    before: Seq<Terminal>,
    after: Seq<Terminal>,
    sort: SortBy,
    descending: bool,
    terminal: Terminal,
)
    requires
        sorting::is_sorted_from(before, after, terminal_order(sort, descending)),
        before.contains(terminal),
    ensures
        after.contains(terminal),
{
    let order = terminal_order(sort, descending);
    let places = choose|places: Seq<int>| sorting::is_arranged(before, after, places, order);
    let k = before.index_of(terminal);
    let i = sorting::lemma_place_found(before, after, places, order, k);
    assert(after[i] == terminal);
}

/// A tty is ordered by its number, with or without `ttys` in front of it; one
/// without a number comes last.
pub proof fn law_tty_number(n: nat, tty: Seq<char>)
    ensures
        n <= u32::MAX ==> tty_number("ttys"@ + number::decimal(n)) == n,
        n <= u32::MAX ==> tty_number(number::decimal(n)) == n,
        tty_number("ttys"@ + tty) == tty_number(tty),
        tty.len() > 0 && tty[0] != 't' && tty[0] != '+' && !number::is_digit(tty[0])
            ==> tty_number(tty) == u32::MAX,
{
    reveal_strlit("ttys");
    number::lemma_decimal(n);
    let digits = number::decimal(n);
    assert(number::is_digit(digits[0]));
    assert(!text::begins_with(digits, "ttys"@)) by {
        if text::begins_with(digits, "ttys"@) {
            assert(digits.take(4)[0] == 't');
        }
    }
    assert(("ttys"@ + digits).take(4) =~= "ttys"@);
    assert(("ttys"@ + digits).skip(4) =~= digits);
    assert(without_ttys(digits) == digits);
    assert(without_ttys("ttys"@ + digits) == without_ttys(digits));
    assert(("ttys"@ + tty).take(4) =~= "ttys"@);
    assert(("ttys"@ + tty).skip(4) =~= tty);
    if tty.len() > 0 && tty[0] != 't' {
        if text::begins_with(tty, "ttys"@) {
            assert(tty.take(4)[0] == 't');
        }
    }
}

} // verus!
