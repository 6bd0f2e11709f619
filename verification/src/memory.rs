//! Memory over time, and the alert that it keeps growing.
use vstd::prelude::*;
use crate::chart;
use crate::grouping;
use crate::process::Process;
use crate::sorting;
use crate::sorting::sort_stably;
use crate::terminals::Terminal;
use std::collections::HashMap;
use std::collections::VecDeque;

verus! {

broadcast use vstd::std_specs::hash::group_hash_axioms;

/// How far back memory is remembered, in nanoseconds.
pub const HISTORY_WINDOW: u64 = 900_000_000_000;

/// Shortest time, in nanoseconds, that a leak can be told from.
pub const MIN_LEAK_DURATION: u64 = 180_000_000_000;

/// Fewest samples that a leak can be told from.
pub const MIN_LEAK_SAMPLES: usize = 8;

/// Suspicious windows in a row that raise the alert.
pub const LEAK_CONFIRMATION_WINDOWS: u8 = 3;

/// Windows in a row without suspicion that take the alert back.
pub const LEAK_CLEAR_WINDOWS: u8 = 10;

/// What is remembered of one terminal's memory.
#[derive(Debug)]
pub struct MemoryHistory {
    /// Time in nanoseconds and resident memory in KiB, the oldest first.
    pub samples: VecDeque<(u64, u64)>,
    pub process_ids: Vec<i32>,
    pub suspicious_windows: u8,
    pub clear_windows: u8,
    pub alert_active: bool,
}

/// What the samples of one terminal tell.
#[derive(Clone, Copy, Debug, PartialEq, Eq, Structural)]
pub struct MemoryTrend {
    pub growth_kib: i64,
    pub slope_kib_per_min: i64,
    pub suspected: bool,
}

/// Whether nothing has been remembered yet.
pub open spec fn is_fresh(history: MemoryHistory) -> bool {
    &&& history.samples@.len() == 0
    &&& history.process_ids@.len() == 0
    &&& history.suspicious_windows == 0
    &&& history.clear_windows == 0
    &&& !history.alert_active
}

impl Default for MemoryHistory {
    fn default() -> (history: Self)
        ensures
            is_fresh(history),
    {
        MemoryHistory {
            samples: VecDeque::new(),
            process_ids: Vec::new(),
            suspicious_windows: 0,
            clear_windows: 0,
            alert_active: false,
        }
    }
}

/// Suspicious windows in a row, clear windows in a row under an alert, and
/// whether there is an alert.
pub type LeakState = (u8, u8, bool);

/// A count that stops at the largest one there is.
pub open spec fn one_more(n: u8) -> u8 {
    if n < u8::MAX {
        (n + 1) as u8
    } else {
        n
    }
}

/// The state after one more window.
pub open spec fn next_leak_state(state: LeakState, suspicious: bool) -> LeakState {
    let (suspicious_windows, clear_windows, alert) = state;
    if suspicious {
        (
            one_more(suspicious_windows),
            0,
            alert || one_more(suspicious_windows) >= LEAK_CONFIRMATION_WINDOWS,
        )
    } else if !alert {
        (0, clear_windows, false)
    } else if one_more(clear_windows) >= LEAK_CLEAR_WINDOWS {
        (0, 0, false)
    } else {
        (0, one_more(clear_windows), true)
    }
}

/// The leak state that a history holds.
pub open spec fn leak_state(history: MemoryHistory) -> LeakState {
    (history.suspicious_windows, history.clear_windows, history.alert_active)
}

/// Notes whether the latest window was suspicious, and tells whether there is an
/// alert.
pub fn update_leak_state(history: &mut MemoryHistory, suspicious: bool) -> (alert: bool)
    ensures
        leak_state(*final(history)) == next_leak_state(leak_state(*old(history)), suspicious),
        alert == final(history).alert_active,
        final(history).samples == old(history).samples,
        final(history).process_ids == old(history).process_ids,
{
    if suspicious {
        history.suspicious_windows = history.suspicious_windows.saturating_add(1);
        history.clear_windows = 0;
        if history.suspicious_windows >= LEAK_CONFIRMATION_WINDOWS {
            history.alert_active = true;
        }
    } else {
        history.suspicious_windows = 0;
        if history.alert_active {
            history.clear_windows = history.clear_windows.saturating_add(1);
            if history.clear_windows >= LEAK_CLEAR_WINDOWS {
                history.alert_active = false;
                history.clear_windows = 0;
            }
        }
    }
    history.alert_active
}

/// The state after some windows, from the beginning.
pub open spec fn leak_state_after(windows: Seq<bool>) -> LeakState
    decreases windows.len(),
{
    if windows.len() == 0 {
        (0, 0, false)
    } else {
        next_leak_state(leak_state_after(windows.drop_last()), windows.last())
    }
}

/// Whether the last `n` windows were all as given.
pub open spec fn ends_with_run(windows: Seq<bool>, n: int, value: bool) -> bool {
    windows.len() >= n && forall|i: int|
        windows.len() - n <= i < windows.len() ==> #[trigger] windows[i] == value
}

/// The count of suspicious windows is the length of the run at the end.
proof fn lemma_suspicious_run(windows: Seq<bool>)
    ensures
        ({
            let run = leak_state_after(windows).0 as int;
            &&& ends_with_run(windows, run, true)
            &&& run == u8::MAX || run == windows.len() || !windows[windows.len() - run - 1]
        }),
    decreases windows.len(),
{
    if windows.len() > 0 {
        let before = windows.drop_last();
        lemma_suspicious_run(before);
        let run = leak_state_after(before).0 as int;
        if windows.last() {
            let longer = leak_state_after(windows).0 as int;
            assert forall|i: int| windows.len() - longer <= i < windows.len() implies #[trigger] windows[i]
                == true by {
                if i < before.len() {
                    assert(windows[i] == before[i]);
                }
            }
            if run < u8::MAX && run < before.len() {
                assert(windows[windows.len() - longer - 1] == before[before.len() - run - 1]);
            }
        }
    }
}

/// An alert is raised when the last three windows were all suspicious, and only
/// then.
pub proof fn law_alert_needs_confirmation(windows: Seq<bool>)
    ensures
        ends_with_run(windows, LEAK_CONFIRMATION_WINDOWS as int, true) ==> leak_state_after(
            windows,
        ).2,
        windows.len() > 0 && leak_state_after(windows).2 && !leak_state_after(
            windows.drop_last(),
        ).2 ==> ends_with_run(windows, LEAK_CONFIRMATION_WINDOWS as int, true),
{
    lemma_suspicious_run(windows);
    let run = leak_state_after(windows).0 as int;
    if ends_with_run(windows, 3, true) {
        if run < 3 {
            assert(windows[windows.len() - run - 1] == true);
        }
        assert(windows.last());
    }
}

/// `n` windows without suspicion.
pub open spec fn quiet(n: nat) -> Seq<bool> {
    Seq::new(n, |i: int| false)
}

proof fn lemma_quiet(windows: Seq<bool>, n: nat)
    requires
        windows.len() > 0,
        windows.last(),
        leak_state_after(windows).2,
    ensures
        n < LEAK_CLEAR_WINDOWS ==> leak_state_after(windows + quiet(n)).2 && leak_state_after(
            windows + quiet(n),
        ).1 == n,
        n >= LEAK_CLEAR_WINDOWS ==> !leak_state_after(windows + quiet(n)).2,
    decreases n,
{
    if n == 0 {
        assert(windows + quiet(n) =~= windows);
    } else {
        lemma_quiet(windows, (n - 1) as nat);
        assert((windows + quiet(n)).drop_last() =~= windows + quiet((n - 1) as nat));
        assert(!(windows + quiet(n)).last());
    }
}

/// An alert outlasts nine windows without suspicion, and the tenth takes it back.
pub proof fn law_alert_clears_slowly(windows: Seq<bool>, n: nat)
    requires
        windows.len() > 0,
        windows.last(),
        leak_state_after(windows).2,
    ensures
        leak_state_after(windows + quiet(n)).2 <==> n < LEAK_CLEAR_WINDOWS,
{
    lemma_quiet(windows, n);
}

/// Whether all of `n` windows from `start` on were judged alike.
pub open spec fn is_run(windows: Seq<bool>, start: int, n: int, value: bool) -> bool {
    &&& 0 <= start && start + n <= windows.len()
    &&& forall|i: int| start <= i < start + n ==> windows[i] == value
}

/// Whether a growth that was confirmed at `start` has not been cleared since.
pub open spec fn is_confirmed_at(windows: Seq<bool>, start: int) -> bool {
    &&& is_run(windows, start, LEAK_CONFIRMATION_WINDOWS as int, true)
    &&& forall|later: int|
        start + LEAK_CONFIRMATION_WINDOWS <= later ==> !#[trigger] is_run(
            windows,
            later,
            LEAK_CLEAR_WINDOWS as int,
            false,
        )
}

/// Runs within the earlier windows stay what they are.
proof fn lemma_earlier_run(windows: Seq<bool>, start: int, n: int, value: bool)
    requires
        windows.len() > 0,
        start + n < windows.len(),
    ensures
        is_run(windows.drop_last(), start, n, value) == is_run(windows, start, n, value),
{
    let before = windows.drop_last();
    assert(forall|i: int| 0 <= i < before.len() ==> before[i] == windows[i]);
    if is_run(before, start, n, value) {
        assert forall|i: int| start <= i < start + n implies windows[i] == value by {
            assert(before[i] == windows[i]);
        }
    }
}

/// What is counted while an alert lasts: the windows without suspicion at the end.
proof fn lemma_clear_run(windows: Seq<bool>)
    ensures
        ({
            let (_, clear, alert) = leak_state_after(windows);
            &&& !alert ==> clear == 0
            &&& alert ==> clear < LEAK_CLEAR_WINDOWS && clear < windows.len() && is_run(
                windows,
                windows.len() - clear,
                clear as int,
                false,
            ) && windows[windows.len() - clear - 1]
        }),
    decreases windows.len(),
{
    if windows.len() > 0 {
        let before = windows.drop_last();
        lemma_clear_run(before);
        let (_, earlier, _) = leak_state_after(before);
        let (_, clear, alert) = leak_state_after(windows);
        if alert && !windows.last() {
            assert(before[before.len() - earlier - 1]);
            assert(windows[windows.len() - clear - 1]);
            assert forall|i: int| windows.len() - clear <= i < windows.len() implies windows[i]
                == false by {
                if i < windows.len() - 1 {
                    assert(before[i] == false);
                }
            }
        }
    }
}

/// An alert is on just where three suspicious windows in a row have not been
/// followed by ten in a row without suspicion.
pub proof fn law_alert_means_confirmed(windows: Seq<bool>)
    ensures
        leak_state_after(windows).2 <==> exists|start: int| #[trigger]
            is_confirmed_at(windows, start),
    decreases windows.len(),
{
    let n = windows.len() as int;
    if n > 0 {
        let before = windows.drop_last();
        law_alert_means_confirmed(before);
        lemma_clear_run(before);
        lemma_suspicious_run(windows);
        let (_, clear, alert) = leak_state_after(before);
        let alert_now = leak_state_after(windows).2;
        // A growth confirmed before and not cleared by the last window still counts.
        if alert && alert_now {
            let start = choose|start: int| #[trigger] is_confirmed_at(before, start);
            lemma_earlier_run(windows, start, 3, true);
            assert forall|later: int| start + 3 <= later implies !#[trigger] is_run(
                windows,
                later,
                10,
                false,
            ) by {
                if later + 10 < n {
                    lemma_earlier_run(windows, later, 10, false);
                    assert(!is_run(before, later, 10, false));
                } else if later + 10 == n {
                    if windows.last() {
                        assert(windows[n - 1]);
                    } else {
                        assert(before[n - 1 - clear - 1]);
                        assert(windows[n - 1 - clear - 1]);
                    }
                }
            }
            assert(is_confirmed_at(windows, start));
        }
        // The last window confirms a growth.
        if !alert && alert_now {
            assert(is_run(windows, n - 3, 3, true));
            assert(is_confirmed_at(windows, n - 3));
        }
        // The last window clears the alert, or there was none to clear.
        if !alert_now && exists|start: int| #[trigger] is_confirmed_at(windows, start) {
            let start = choose|start: int| #[trigger] is_confirmed_at(windows, start);
            if start + 3 == n {
                assert(windows[n - 1] && windows[n - 2] && windows[n - 3]);
                law_alert_needs_confirmation(windows);
            } else {
                lemma_earlier_run(windows, start, 3, true);
                assert forall|later: int| start + 3 <= later implies !#[trigger] is_run(
                    before,
                    later,
                    10,
                    false,
                ) by {
                    if later + 10 < n {
                        lemma_earlier_run(windows, later, 10, false);
                        assert(!is_run(windows, later, 10, false));
                    }
                }
                assert(is_confirmed_at(before, start));
                assert(windows[start + 2]);
                assert forall|i: int| n - 10 <= i < n implies !windows[i] by {
                    if i < n - 1 {
                        assert(!before[i]);
                    }
                }
                assert(is_run(windows, n - 10, 10, false));
            }
        }
    }
}

/// Time between two moments, none where the second is the earlier one.
pub open spec fn time_between(earlier: u64, later: u64) -> u64 {
    if later >= earlier {
        (later - earlier) as u64
    } else {
        0
    }
}

/// The samples without those at the front that are too old.
pub open spec fn recent(samples: Seq<(u64, u64)>, now: u64) -> Seq<(u64, u64)>
    decreases samples.len(),
{
    if samples.len() > 0 && time_between(samples[0].0, now) > HISTORY_WINDOW {
        recent(samples.skip(1), now)
    } else {
        samples
    }
}

/// The order of pids.
pub open spec fn pid_order() -> spec_fn(i32, i32) -> bool {
    |a: i32, b: i32| a < b
}

/// Whether some pids are those of the given processes, in ascending order.
pub open spec fn are_pids_of(ids: Seq<i32>, processes: Seq<Process>) -> bool {
    sorting::is_sorted_from(grouping::pids_of(processes), ids, pid_order())
}

/// The pids of some processes, in ascending order.
fn sorted_pids(processes: &Vec<Process>) -> (ids: Vec<i32>)
    ensures
        are_pids_of(ids@, processes@),
{
    let mut ids: Vec<i32> = Vec::new();
    let mut i: usize = 0;
    while i < processes.len()
        invariant
            i <= processes@.len(),
            ids@ =~= grouping::pids_of(processes@).take(i as int),
        decreases processes@.len() - i,
    {
        ids.push(processes[i].pid);
        i += 1;
    }
    assert(ids@ =~= grouping::pids_of(processes@));
    let precedes = |a: &i32, b: &i32| -> (found: bool)
        ensures
            found == pid_order()(*a, *b),
    {
        *a < *b
    };
    sort_stably(&mut ids, precedes, Ghost(pid_order()));
    ids
}

fn same_pids(a: &Vec<i32>, b: &Vec<i32>) -> (same: bool)
    ensures
        same == (a@ == b@),
{
    if a.len() != b.len() {
        return false;
    }
    let mut i: usize = 0;
    while i < a.len()
        invariant
            i <= a@.len() == b@.len(),
            forall|k: int| 0 <= k < i ==> a@[k] == b@[k],
        decreases a@.len() - i,
    {
        if a[i] != b[i] {
            return false;
        }
        i += 1;
    }
    assert(a@ =~= b@);
    true
}

/// Whether `after` is `before` with one more sample of a terminal. Evidence from
/// other processes than the terminal has now is forgotten first.
pub open spec fn is_sampled(
    before: MemoryHistory,
    terminal: Terminal,
    now: u64,
    after: MemoryHistory,
) -> bool {
    let unchanged = before.process_ids@ == after.process_ids@;
    let kept = if unchanged {
        before.samples@
    } else {
        Seq::empty()
    };
    &&& are_pids_of(after.process_ids@, terminal.processes@)
    &&& after.samples@ == recent(kept.push((now, terminal.rss_kib)), now)
    &&& leak_state(after) == (if unchanged {
        leak_state(before)
    } else {
        (0u8, 0u8, false)
    })
}

/// Remembers one more sample of a terminal's memory.
pub fn record_memory(history: &mut MemoryHistory, terminal: &Terminal, now: u64)
    ensures
        is_sampled(*old(history), *terminal, now, *final(history)),
{
    let process_ids = sorted_pids(&terminal.processes);
    if !same_pids(&history.process_ids, &process_ids) {
        history.samples = VecDeque::new();
        history.suspicious_windows = 0;
        history.clear_windows = 0;
        history.alert_active = false;
        history.process_ids = process_ids;
    }
    history.samples.push_back((now, terminal.rss_kib));
    let ghost all = history.samples@;
    assert(all.skip(0) =~= all);
    while history.samples.len() > 0 && now.saturating_sub(history.samples[0].0) > HISTORY_WINDOW
        invariant
            recent(history.samples@, now) == recent(all, now),
            history.process_ids@ == process_ids@,
            history.suspicious_windows == (if old(history).process_ids@ == process_ids@ {
                old(history).suspicious_windows
            } else {
                0
            }),
            history.clear_windows == (if old(history).process_ids@ == process_ids@ {
                old(history).clear_windows
            } else {
                0
            }),
            history.alert_active == (old(history).process_ids@ == process_ids@ && old(
                history,
            ).alert_active),
        decreases history.samples@.len(),
    {
        let ghost before = history.samples@;
        history.samples.pop_front();
        assert(history.samples@ =~= before.skip(1));
    }
}

/// Evidence from other processes is forgotten: once the processes of a terminal
/// have changed, one sample is left, and no alert.
pub proof fn law_changed_processes_reset(
    before: MemoryHistory,
    terminal: Terminal,
    now: u64,
    after: MemoryHistory,
)
    requires
        is_sampled(before, terminal, now, after),
        !are_pids_of(before.process_ids@, terminal.processes@),
    ensures
        after.samples@ == seq![(now, terminal.rss_kib)],
        leak_state(after) == (0u8, 0u8, false),
{
    assert(Seq::<(u64, u64)>::empty().push((now, terminal.rss_kib)) =~= seq![(now, terminal.rss_kib)]);
}

/// A terminal with what its samples tell.
pub open spec fn assessed(
    terminal: Terminal,
    trend: MemoryTrend,
    history: MemoryHistory,
) -> Terminal {
    Terminal {
        memory_growth_kib: trend.growth_kib,
        memory_slope_kib_per_min: trend.slope_kib_per_min,
        memory_samples: history.samples@.len() as usize,
        leak_suspected: history.alert_active,
        ..terminal
    }
}

/// Notes on a terminal what its samples tell, and whether there is an alert.
pub fn apply_trend(history: &mut MemoryHistory, terminal: &mut Terminal, trend: MemoryTrend)
    ensures
        leak_state(*final(history)) == next_leak_state(leak_state(*old(history)), trend.suspected),
        final(history).samples == old(history).samples,
        final(history).process_ids == old(history).process_ids,
        *final(terminal) == assessed(*old(terminal), trend, *final(history)),
{
    terminal.memory_growth_kib = trend.growth_kib;
    terminal.memory_slope_kib_per_min = trend.slope_kib_per_min;
    terminal.memory_samples = history.samples.len();
    terminal.leak_suspected = update_leak_state(history, trend.suspected);
}

/// Whether one terminal has been brought up to date: its history holds one more
/// sample, and the terminal what `analyze` told of the samples.
pub open spec fn is_step<F: Fn(&VecDeque<(u64, u64)>) -> MemoryTrend>(
    before: Map<i32, MemoryHistory>,
    after: Map<i32, MemoryHistory>,
    terminal: Terminal,
    updated: Terminal,
    now: u64,
    analyze: F,
    start: MemoryHistory,
    sampled: MemoryHistory,
    end: MemoryHistory,
    trend: MemoryTrend,
) -> bool {
    let root = terminal.root_pid;
    &&& if before.dom().contains(root) {
        start == before[root]
    } else {
        is_fresh(start)
    }
    &&& is_sampled(start, terminal, now, sampled)
    &&& call_ensures(analyze, (&sampled.samples,), trend)
    &&& end.samples == sampled.samples
    &&& end.process_ids == sampled.process_ids
    &&& leak_state(end) == next_leak_state(leak_state(sampled), trend.suspected)
    &&& after == before.insert(root, end)
    &&& updated == assessed(terminal, trend, end)
}

/// Whether the first `n` terminals have been brought up to date, one after the
/// other.
pub open spec fn are_steps<F: Fn(&VecDeque<(u64, u64)>) -> MemoryTrend>(
    before: Map<i32, MemoryHistory>,
    after: Map<i32, MemoryHistory>,
    terminals: Seq<Terminal>,
    updated: Seq<Terminal>,
    now: u64,
    analyze: F,
    n: int,
) -> bool
    decreases n,
{
    if n <= 0 {
        after == before
    } else {
        exists|
            middle: Map<i32, MemoryHistory>,
            start: MemoryHistory,
            sampled: MemoryHistory,
            end: MemoryHistory,
            trend: MemoryTrend,
        |
            {
                &&& are_steps(before, middle, terminals, updated, now, analyze, n - 1)
                &&& #[trigger] is_step(
                    middle,
                    after,
                    terminals[n - 1],
                    updated[n - 1],
                    now,
                    analyze,
                    start,
                    sampled,
                    end,
                    trend,
                )
            }
    }
}

/// Whether one of the terminals has the given root.
pub open spec fn has_root(terminals: Seq<Terminal>, pid: i32) -> bool {
    exists|i: int| 0 <= i < terminals.len() && (#[trigger] terminals[i]).root_pid == pid
}

/// What is remembered of the terminals that are still there.
pub open spec fn still_open(
    histories: Map<i32, MemoryHistory>,
    terminals: Seq<Terminal>,
) -> Map<i32, MemoryHistory> {
    Map::new(
        |pid: i32|
            histories.dom().contains(pid) && has_root(terminals, pid),
        |pid: i32| histories[pid],
    )
}

/// Forgets the terminals that are no longer there.
fn retain_open(histories: &mut HashMap<i32, MemoryHistory>, terminals: &Vec<Terminal>)
    ensures
        final(histories)@ == still_open(old(histories)@, terminals@),
{
    let mut kept: HashMap<i32, MemoryHistory> = HashMap::new();
    let mut i: usize = 0;
    assert(kept@ =~= still_open(old(histories)@, terminals@.take(0)));
    while i < terminals.len()
        invariant
            i <= terminals@.len(),
            kept@ == still_open(old(histories)@, terminals@.take(i as int)),
            forall|pid: i32| #[trigger]
                histories@.dom().contains(pid) <==> old(histories)@.dom().contains(pid)
                    && !kept@.dom().contains(pid),
            forall|pid: i32| #[trigger]
                histories@.dom().contains(pid) ==> histories@[pid] == old(histories)@[pid],
        decreases terminals@.len() - i,
    {
        let root: i32 = terminals[i].root_pid;
        let ghost before = kept@;
        match histories.remove(&root) {
            Some(history) => {
                kept.insert(root, history);
            },
            None => {},
        }
        proof {
            let some = terminals@.take(i as int);
            let more = terminals@.take(i + 1);
            assert forall|pid: i32| #[trigger]
                has_root(more, pid) == (has_root(some, pid) || pid == root) by {
                if has_root(more, pid) {
                    let k = choose|k: int| 0 <= k < more.len() && (#[trigger] more[k]).root_pid == pid;
                    if k < i {
                        assert(some[k].root_pid == pid);
                    }
                }
                if has_root(some, pid) {
                    let k = choose|k: int| 0 <= k < some.len() && (#[trigger] some[k]).root_pid == pid;
                    assert(more[k].root_pid == pid);
                }
                assert(more[i as int].root_pid == root);
            }
            assert(kept@ =~= still_open(old(histories)@, more));
        }
        i += 1;
    }
    assert(terminals@.take(terminals@.len() as int) =~= terminals@);
    *histories = kept;
}

/// Takes one sample of every terminal's memory and notes on the terminals what
/// their samples tell. `analyze` reads the trend out of the samples of one
/// terminal. Terminals that are gone are forgotten.
pub fn update_trends<F: Fn(&VecDeque<(u64, u64)>) -> MemoryTrend>(
    histories: &mut HashMap<i32, MemoryHistory>,
    terminals: &mut Vec<Terminal>,
    now: u64,
    analyze: F,
)
    requires
        forall|samples: &VecDeque<(u64, u64)>| #[trigger] call_requires(analyze, (samples,)),
    ensures
        final(terminals)@.len() == old(terminals)@.len(),
        are_steps(
            still_open(old(histories)@, old(terminals)@),
            final(histories)@,
            old(terminals)@,
            final(terminals)@,
            now,
            analyze,
            old(terminals)@.len() as int,
        ),
{
    let ghost source = terminals@;
    retain_open(histories, terminals);
    let ghost first = histories@;
    let mut i: usize = 0;
    while i < terminals.len()
        invariant
            i <= terminals@.len() == source.len(),
            forall|samples: &VecDeque<(u64, u64)>| #[trigger] call_requires(analyze, (samples,)),
            forall|k: int| i <= k < source.len() ==> terminals@[k] == source[k],
            are_steps(first, histories@, source, terminals@, now, analyze, i as int),
        decreases terminals@.len() - i,
    {
        let root: i32 = terminals[i].root_pid;
        let ghost middle = histories@;
        let ghost earlier = terminals@;
        let mut history = match histories.remove(&root) {
            Some(history) => history,
            None => MemoryHistory::default(),
        };
        let ghost start = history;
        record_memory(&mut history, &terminals[i], now);
        let ghost sampled = history;
        let trend = analyze(&history.samples);
        apply_trend(&mut history, &mut terminals[i], trend);
        let ghost end = history;
        histories.insert(root, history);
        proof {
            assert(histories@ =~= middle.insert(root, end));
            lemma_steps_of_prefix(first, middle, source, earlier, terminals@, now, analyze, i as int);
            let n = i + 1;
            assert(is_step(
                middle,
                histories@,
                source[n - 1],
                terminals@[n - 1],
                now,
                analyze,
                start,
                sampled,
                end,
                trend,
            ));
            assert(are_steps(first, middle, source, terminals@, now, analyze, n - 1));
            assert(are_steps(first, histories@, source, terminals@, now, analyze, n));
        }
        i += 1;
    }
}

/// The steps of the first terminals do not depend on the later ones.
proof fn lemma_steps_of_prefix<F: Fn(&VecDeque<(u64, u64)>) -> MemoryTrend>(
    before: Map<i32, MemoryHistory>,
    after: Map<i32, MemoryHistory>,
    terminals: Seq<Terminal>,
    one: Seq<Terminal>,
    other: Seq<Terminal>,
    now: u64,
    analyze: F,
    n: int,
)
    requires
        are_steps(before, after, terminals, one, now, analyze, n),
        forall|k: int| 0 <= k < n ==> one[k] == other[k],
    ensures
        are_steps(before, after, terminals, other, now, analyze, n),
    decreases n,
{
    if n > 0 {
        let (middle, start, sampled, end, trend) = choose|
            middle: Map<i32, MemoryHistory>,
            start: MemoryHistory,
            sampled: MemoryHistory,
            end: MemoryHistory,
            trend: MemoryTrend,
        |
            {
                &&& are_steps(before, middle, terminals, one, now, analyze, n - 1)
                &&& #[trigger] is_step(
                    middle,
                    after,
                    terminals[n - 1],
                    one[n - 1],
                    now,
                    analyze,
                    start,
                    sampled,
                    end,
                    trend,
                )
            };
        lemma_steps_of_prefix(before, middle, terminals, one, other, now, analyze, n - 1);
        assert(is_step(
            middle,
            after,
            terminals[n - 1],
            other[n - 1],
            now,
            analyze,
            start,
            sampled,
            end,
            trend,
        ));
    }
}

/// How many samples at either end are averaged: a fifth of them, but at least
/// one and at most ten.
pub open spec fn edge_size(n: int) -> int {
    if n / 5 < 1 {
        1
    } else if n / 5 > 10 {
        10
    } else {
        n / 5
    }
}

/// The memory in some samples.
pub open spec fn sizes_in(samples: Seq<(u64, u64)>) -> Seq<u64> {
    samples.map_values(|sample: (u64, u64)| sample.1)
}

/// The two ends of some samples.
#[derive(Clone, Copy, Debug)]
pub struct Edges {
    /// How many samples either end has.
    pub count: usize,
    /// Memory at the beginning, added up.
    pub baseline: u128,
    /// Memory at the end, added up.
    pub recent: u128,
    /// Time between the first sample and the last, in nanoseconds.
    pub duration: u64,
}

/// Adds up the memory of the samples from one index to another.
fn sum_sizes(samples: &VecDeque<(u64, u64)>, from: usize, to: usize) -> (sum: u128)
    requires
        from <= to <= samples@.len(),
        to - from <= 10,
    ensures
        sum == chart::total(sizes_in(samples@.subrange(from as int, to as int))),
{
    let ghost sizes = sizes_in(samples@.subrange(from as int, to as int));
    let mut sum: u128 = 0;
    let mut i: usize = from;
    assert(sizes.take(0) =~= seq![]);
    while i < to
        invariant
            from <= i <= to <= samples@.len(),
            to - from <= 10,
            sizes == sizes_in(samples@.subrange(from as int, to as int)),
            sum == chart::total(sizes.take(i - from)),
            sum <= (i - from) * u64::MAX,
        decreases to - i,
    {
        assert(sizes.take(i - from + 1).drop_last() =~= sizes.take(i - from));
        sum += samples[i].1 as u128;
        i += 1;
    }
    assert(sizes.take(sizes.len() as int) =~= sizes);
    sum
}

/// The two ends of some samples, where there are at least two of them.
pub fn edges(samples: &VecDeque<(u64, u64)>) -> (found: Option<Edges>)
    ensures
        found is Some <==> samples@.len() >= 2,
        found matches Some(ends) ==> {
            let n = samples@.len() as int;
            &&& ends.count == edge_size(n)
            &&& ends.baseline == chart::total(sizes_in(samples@.take(edge_size(n))))
            &&& ends.recent == chart::total(sizes_in(samples@.skip(n - edge_size(n))))
            &&& ends.duration == time_between(samples@.first().0, samples@.last().0)
        },
{
    let n: usize = samples.len();
    if n < 2 {
        return None;
    }
    let count: usize = if n / 5 < 1 {
        1
    } else if n / 5 > 10 {
        10
    } else {
        n / 5
    };
    assert(samples@.subrange(0, count as int) =~= samples@.take(count as int));
    assert(samples@.subrange(n - count, n as int) =~= samples@.skip(n - count));
    Some(
        Edges {
            count,
            baseline: sum_sizes(samples, 0, count),
            recent: sum_sizes(samples, n - count, n),
            duration: samples[n - 1].0.saturating_sub(samples[0].0),
        },
    )
}

/// What speaks for a leak in the samples of a terminal.
#[derive(Clone, Copy, Debug)]
pub struct LeakEvidence {
    /// Memory has grown by enough.
    pub grown: bool,
    /// It has grown by enough of what it was.
    pub grown_in_proportion: bool,
    /// It grows fast enough.
    pub steep: bool,
    /// It grows evenly enough.
    pub even: bool,
    /// It has not stopped growing.
    pub lasting: bool,
    /// Few enough samples go down.
    pub upward: bool,
}

/// Whether samples speak for a leak: enough of them, over long enough, and all the
/// evidence.
pub open spec fn speaks_for_a_leak(samples: usize, duration: u64, evidence: LeakEvidence) -> bool {
    samples >= MIN_LEAK_SAMPLES && duration >= MIN_LEAK_DURATION && evidence.grown
        && evidence.grown_in_proportion && evidence.steep && evidence.even && evidence.lasting
        && evidence.upward
}

/// Whether the samples of a terminal are suspicious: enough of them, over long
/// enough, with everything else speaking for a leak.
pub fn is_suspicious(samples: usize, duration: u64, evidence: LeakEvidence) -> (suspicious: bool)
    ensures
        suspicious == speaks_for_a_leak(samples, duration, evidence),
{
    samples >= MIN_LEAK_SAMPLES && duration >= MIN_LEAK_DURATION && evidence.grown
        && evidence.grown_in_proportion && evidence.steep && evidence.even && evidence.lasting
        && evidence.upward
}

/// Of samples in the order of their times, the old ones are dropped and all the
/// others kept.
proof fn lemma_recent(samples: Seq<(u64, u64)>, now: u64)
    requires
        forall|i: int, j: int|
            #![trigger samples[i], samples[j]]
            0 <= i < j < samples.len() ==> samples[i].0 <= samples[j].0,
        forall|i: int| 0 <= i < samples.len() ==> (#[trigger] samples[i]).0 <= now,
    ensures
        recent(samples, now) == samples.filter(
            |sample: (u64, u64)| now - sample.0 <= 900_000_000_000,
        ),
    decreases samples.len(),
{
    let young = |sample: (u64, u64)| now - sample.0 <= 900_000_000_000;
    if samples.len() == 0 {
        assert(samples.filter(young) =~= samples) by {
            reveal(Seq::filter);
        }
    } else {
        let rest = samples.skip(1);
        assert(samples =~= seq![samples[0]] + rest);
        Seq::filter_distributes_over_add(seq![samples[0]], rest, young);
        assert(seq![samples[0]].filter(young) == (if young(samples[0]) {
            seq![samples[0]]
        } else {
            seq![]
        })) by {
            reveal(Seq::filter);
            assert(seq![samples[0]].drop_last() =~= seq![]);
            assert(seq![samples[0]].drop_last().filter(young) =~= seq![]);
        }
        if young(samples[0]) {
            lemma_all_chosen(rest, young);
        } else {
            lemma_recent(rest, now);
            assert(samples.filter(young) =~= rest.filter(young));
        }
    }
}

/// Choosing what all have chooses all.
proof fn lemma_all_chosen(samples: Seq<(u64, u64)>, chosen: spec_fn((u64, u64)) -> bool)
    requires
        forall|i: int| 0 <= i < samples.len() ==> chosen(#[trigger] samples[i]),
    ensures
        samples.filter(chosen) == samples,
    decreases samples.len(),
{
    reveal(Seq::filter);
    if samples.len() > 0 {
        let before = samples.drop_last();
        assert forall|i: int| 0 <= i < before.len() implies chosen(#[trigger] before[i]) by {
            assert(before[i] == samples[i]);
        }
        lemma_all_chosen(before, chosen);
        assert(chosen(samples[samples.len() - 1]));
        assert(before.push(samples.last()) =~= samples);
    }
}

/// While the processes of a terminal stay the same, its history keeps every
/// sample of the last quarter of an hour, in order, and none that is older.
pub proof fn law_history_spans_a_quarter_of_an_hour(
    before: MemoryHistory,
    terminal: Terminal,
    now: u64,
    after: MemoryHistory,
)
    requires
        is_sampled(before, terminal, now, after),
        before.process_ids@ == after.process_ids@,
        forall|i: int, j: int|
            #![trigger before.samples@[i], before.samples@[j]]
            0 <= i < j < before.samples@.len() ==> before.samples@[i].0 <= before.samples@[j].0,
        forall|i: int|
            0 <= i < before.samples@.len() ==> (#[trigger] before.samples@[i]).0 <= now,
    ensures
        after.samples@ == before.samples@.push((now, terminal.rss_kib)).filter(
            |sample: (u64, u64)| now - sample.0 <= 900_000_000_000,
        ),
        after.samples@.len() > 0,
        after.samples@.last() == (now, terminal.rss_kib),
        // Times stay in order, so that the same holds of the next sample.
        forall|i: int, j: int|
            #![trigger after.samples@[i], after.samples@[j]]
            0 <= i < j < after.samples@.len() ==> after.samples@[i].0 <= after.samples@[j].0,
        forall|i: int| 0 <= i < after.samples@.len() ==> (#[trigger] after.samples@[i]).0 <= now,
{
    let all = before.samples@.push((now, terminal.rss_kib));
    lemma_recent(all, now);
    lemma_recent_is_the_end(all, now);
}

/// What is kept of some samples is their end.
proof fn lemma_recent_is_the_end(samples: Seq<(u64, u64)>, now: u64)
    ensures
        recent(samples, now).len() <= samples.len(),
        recent(samples, now) == samples.skip(samples.len() - recent(samples, now).len()),
        samples.len() > 0 && samples.last().0 >= now ==> recent(samples, now).len() > 0
            && recent(samples, now).last() == samples.last(),
    decreases samples.len(),
{
    if samples.len() > 0 && time_between(samples[0].0, now) > HISTORY_WINDOW {
        lemma_recent_is_the_end(samples.skip(1), now);
        let kept = recent(samples, now);
        assert(samples.skip(1).skip(samples.skip(1).len() - kept.len()) =~= samples.skip(
            samples.len() - kept.len(),
        ));
    } else {
        assert(samples.skip(0) =~= samples);
    }
}

/// A climb that has been watched for longer than a leak needs stays watched for
/// that long: as long as the first sample is no more than a quarter of an hour
/// old, the history reaches back to it.
pub proof fn law_long_climbs_stay_long(
    before: MemoryHistory,
    terminal: Terminal,
    now: u64,
    after: MemoryHistory,
)
    requires
        is_sampled(before, terminal, now, after),
        before.process_ids@ == after.process_ids@,
        before.samples@.len() > 0,
        before.samples@[0].0 <= now,
        now - before.samples@[0].0 <= 900_000_000_000,
    ensures
        after.samples@ == before.samples@.push((now, terminal.rss_kib)),
        after.samples@.first() == before.samples@.first(),
        time_between(after.samples@.first().0, after.samples@.last().0) == now
            - before.samples@.first().0,
{
}

/// Either end of a history is a fifth of it, but one sample at least and ten at
/// most, so that the ends do not overlap.
pub proof fn law_ends_of_a_history(n: int)
    requires
        n >= 2,
    ensures
        1 <= edge_size(n) <= 10,
        5 * edge_size(n) <= n || edge_size(n) == 1,
        n < 5 * (edge_size(n) + 1) || edge_size(n) == 10,
        2 * edge_size(n) <= n,
{
}

/// The terminals that have been brought up to date, each against its own history:
/// what is remembered is just of the terminals there are, ends with the sample
/// just taken, and is what the terminal shows.
pub proof fn law_each_terminal_has_its_history<F: Fn(&VecDeque<(u64, u64)>) -> MemoryTrend>(
    before: Map<i32, MemoryHistory>,
    after: Map<i32, MemoryHistory>,
    terminals: Seq<Terminal>,
    updated: Seq<Terminal>,
    now: u64,
    analyze: F,
)
    requires
        updated.len() == terminals.len(),
        are_steps(
            still_open(before, terminals),
            after,
            terminals,
            updated,
            now,
            analyze,
            terminals.len() as int,
        ),
        forall|i: int, j: int|
            #![trigger terminals[i], terminals[j]]
            0 <= i < j < terminals.len() ==> terminals[i].root_pid != terminals[j].root_pid,
    ensures
        forall|pid: i32| #[trigger]
            after.dom().contains(pid) <==> exists|i: int|
                0 <= i < terminals.len() && (#[trigger] terminals[i]).root_pid == pid,
        forall|i: int|
            0 <= i < terminals.len() ==> shows_its_history(
                #[trigger] terminals[i],
                updated[i],
                before,
                after,
                now,
            ),
{
    lemma_steps(
        still_open(before, terminals),
        after,
        terminals,
        updated,
        now,
        analyze,
        terminals.len() as int,
    );
    assert forall|i: int| 0 <= i < terminals.len() implies shows_its_history(
        #[trigger] terminals[i],
        updated[i],
        before,
        after,
        now,
    ) by {
        assert(has_root(terminals, terminals[i].root_pid));
        assert(shows_its_history(
            terminals[i],
            updated[i],
            still_open(before, terminals),
            after,
            now,
        ));
    }
    assert forall|pid: i32| #[trigger] after.dom().contains(pid) <==> exists|i: int|
        0 <= i < terminals.len() && (#[trigger] terminals[i]).root_pid == pid by {
        if has_root(terminals, pid) {
            let i = choose|i: int|
                0 <= i < terminals.len() && (#[trigger] terminals[i]).root_pid == pid;
            assert(shows_its_history(
                terminals[i],
                updated[i],
                still_open(before, terminals),
                after,
                now,
            ));
        }
    }
}

/// Whether a terminal shows its history, which continues the one it had with the
/// sample just taken, and is otherwise what it was.
pub open spec fn shows_its_history(
    terminal: Terminal,
    updated: Terminal,
    before: Map<i32, MemoryHistory>,
    after: Map<i32, MemoryHistory>,
    now: u64,
) -> bool {
    let root = terminal.root_pid;
    let history = after[root];
    &&& after.dom().contains(root)
    &&& history.samples@.len() > 0
    &&& history.samples@.last() == (now, terminal.rss_kib)
    &&& before.dom().contains(root) && before[root].process_ids@ == history.process_ids@ ==> {
        // Continued: all but some of the oldest samples are still there.
        let longer = before[root].samples@.push((now, terminal.rss_kib));
        history.samples@ == longer.skip(longer.len() - history.samples@.len())
    }
    &&& !before.dom().contains(root) || before[root].process_ids@ != history.process_ids@
        ==> history.samples@.len() == 1
    &&& are_pids_of(history.process_ids@, terminal.processes@)
    &&& updated.leak_suspected == history.alert_active
    &&& updated.memory_samples == history.samples@.len() as usize
    &&& updated.tty == terminal.tty
    &&& updated.label == terminal.label
    &&& updated.cpu == terminal.cpu
    &&& updated.rss_kib == terminal.rss_kib
    &&& updated.processes == terminal.processes
    &&& updated.activity == terminal.activity
    &&& updated.elapsed == terminal.elapsed
    &&& updated.age_seconds == terminal.age_seconds
    &&& updated.root_pid == root
}

proof fn lemma_steps<F: Fn(&VecDeque<(u64, u64)>) -> MemoryTrend>(
    before: Map<i32, MemoryHistory>,
    after: Map<i32, MemoryHistory>,
    terminals: Seq<Terminal>,
    updated: Seq<Terminal>,
    now: u64,
    analyze: F,
    n: int,
)
    requires
        0 <= n <= terminals.len(),
        are_steps(before, after, terminals, updated, now, analyze, n),
        forall|i: int, j: int|
            #![trigger terminals[i], terminals[j]]
            0 <= i < j < terminals.len() ==> terminals[i].root_pid != terminals[j].root_pid,
    ensures
        forall|pid: i32| #[trigger] after.dom().contains(pid) ==> before.dom().contains(pid)
            || has_root(terminals.take(n), pid),
        forall|pid: i32| #[trigger] before.dom().contains(pid) ==> after.dom().contains(pid),
        forall|pid: i32| #[trigger]
            before.dom().contains(pid) && !has_root(terminals.take(n), pid) ==> after[pid]
                == before[pid],
        forall|i: int|
            0 <= i < n ==> shows_its_history(
                #[trigger] terminals[i],
                updated[i],
                before,
                after,
                now,
            ),
    decreases n,
{
    if n > 0 {
        let (middle, start, sampled, end, trend) = choose|
            middle: Map<i32, MemoryHistory>,
            start: MemoryHistory,
            sampled: MemoryHistory,
            end: MemoryHistory,
            trend: MemoryTrend,
        |
            {
                &&& are_steps(before, middle, terminals, updated, now, analyze, n - 1)
                &&& #[trigger] is_step(
                    middle,
                    after,
                    terminals[n - 1],
                    updated[n - 1],
                    now,
                    analyze,
                    start,
                    sampled,
                    end,
                    trend,
                )
            };
        lemma_steps(before, middle, terminals, updated, now, analyze, n - 1);
        let some = terminals.take(n - 1);
        let more = terminals.take(n);
        let root = terminals[n - 1].root_pid;
        assert forall|pid: i32| #[trigger] has_root(more, pid) == (has_root(some, pid) || pid
            == root) by {
            if has_root(more, pid) {
                let k = choose|k: int| 0 <= k < more.len() && (#[trigger] more[k]).root_pid == pid;
                if k < n - 1 {
                    assert(some[k].root_pid == pid);
                }
            }
            if has_root(some, pid) {
                let k = choose|k: int| 0 <= k < some.len() && (#[trigger] some[k]).root_pid == pid;
                assert(more[k].root_pid == pid);
            }
            assert(more[n - 1].root_pid == root);
        }
        assert(!has_root(some, root)) by {
            if has_root(some, root) {
                let k = choose|k: int| 0 <= k < some.len() && (#[trigger] some[k]).root_pid == root;
                assert(terminals[k].root_pid == terminals[n - 1].root_pid);
            }
        }
        assert(middle.dom().contains(root) == before.dom().contains(root));
        assert(before.dom().contains(root) ==> start == before[root]);
        let kept = if start.process_ids@ == sampled.process_ids@ {
            start.samples@
        } else {
            Seq::empty()
        };
        lemma_recent_is_the_end(kept.push((now, terminals[n - 1].rss_kib)), now);
        assert(after[root] == end);
        assert(shows_its_history(terminals[n - 1], updated[n - 1], before, after, now));
        assert forall|i: int| 0 <= i < n implies shows_its_history(
            #[trigger] terminals[i],
            updated[i],
            before,
            after,
            now,
        ) by {
            if i < n - 1 {
                assert(terminals[i].root_pid != terminals[n - 1].root_pid);
                assert(shows_its_history(terminals[i], updated[i], before, middle, now));
                assert(after[terminals[i].root_pid] == middle[terminals[i].root_pid]);
            }
        }
    } else {
        assert(terminals.take(0).len() == 0);
    }
}

/// A leak is told from eight samples over three minutes at least, and only where
/// nothing speaks against it.
pub proof fn law_leaks_need_all_the_evidence(samples: usize, duration: u64, evidence: LeakEvidence)
    ensures
        samples < 8 || duration < 180_000_000_000 ==> !speaks_for_a_leak(
            samples,
            duration,
            evidence,
        ),
        !evidence.grown || !evidence.grown_in_proportion || !evidence.steep || !evidence.even
            || !evidence.lasting || !evidence.upward ==> !speaks_for_a_leak(
            samples,
            duration,
            evidence,
        ),
        samples >= 8 && duration >= 180_000_000_000 && evidence == (LeakEvidence {
            grown: true,
            grown_in_proportion: true,
            steep: true,
            even: true,
            lasting: true,
            upward: true,
        }) ==> speaks_for_a_leak(samples, duration, evidence),
{
}

} // verus!
