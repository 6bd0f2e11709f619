//! Grouping processes under the terminals they run in.
use vstd::prelude::*;
use vstd::string::*;
use crate::chart;
use crate::lists;
use crate::process;
use crate::process::{CpuShare, Platform, Process, command_name, has_tty, is_ghostty_app, is_login_process, is_shell};
use crate::sorting;
use crate::sorting::sort_stably;
use crate::terminals::Terminal;
use crate::text::same_text;
use crate::tree;
use crate::tree::{assign_owners, child_map};
use std::collections::HashMap;

verus! {

broadcast use vstd::std_specs::hash::group_hash_axioms;

/// The first process that is Ghostty itself.
pub open spec fn ghostty_of(processes: Seq<Process>) -> Option<Process>
    decreases processes.len(),
{
    if processes.len() == 0 {
        None
    } else if process::is_ghostty(processes[0].command@) {
        Some(processes[0])
    } else {
        ghostty_of(processes.skip(1))
    }
}

/// Whether a process owns a terminal surface. macOS Ghostty starts each surface
/// through the login program; on Linux any child of Ghostty that has a tty is a
/// surface.
pub open spec fn is_surface(process: Process, app_pid: i32, platform: Platform) -> bool {
    &&& process.ppid == app_pid
    &&& process::names_tty(process.tty@)
    &&& platform == Platform::MacOs ==> process::is_login(process.command@)
}

/// Whether a child of Ghostty that has a tty owns a terminal surface.
pub fn is_terminal_root(process: &Process, platform: Platform) -> (found: bool)
    ensures
        found == (platform == Platform::MacOs ==> process::is_login(process.command@)),
{
    match platform {
        Platform::MacOs => is_login_process(process.command.as_str()),
        Platform::Linux => true,
    }
}

/// The processes that own a terminal surface.
pub open spec fn surfaces(processes: Seq<Process>, app_pid: i32, platform: Platform) -> Seq<Process> {
    processes.filter(|process: Process| is_surface(process, app_pid, platform))
}

/// The pids of some processes.
pub open spec fn pids_of(processes: Seq<Process>) -> Seq<i32> {
    processes.map_values(|process: Process| process.pid)
}

/// Whether a process counts towards the terminal of `root`: it is owned by it,
/// and it is neither this program nor the `ps` that this program has run.
pub open spec fn is_member(
    process: Process,
    owner: Map<i32, i32>,
    root: i32,
    self_pid: i32,
) -> bool {
    &&& owner.dom().contains(process.pid)
    &&& owner[process.pid] == root
    &&& process.pid != self_pid
    &&& !(process.ppid == self_pid && process::program(process.command@) == "ps"@)
}

/// The processes that count towards the terminal of `root`.
pub open spec fn members_of(
    processes: Seq<Process>,
    owner: Map<i32, i32>,
    root: i32,
    self_pid: i32,
) -> Seq<Process> {
    processes.filter(|process: Process| is_member(process, owner, root, self_pid))
}

/// Which surface owns each process.
pub open spec fn surface_owners(processes: Seq<Process>, roots: Seq<Process>) -> Map<i32, i32> {
    tree::owners(tree::links_among(processes), pids_of(roots))
}

/// Resident memory of some processes together.
pub open spec fn memory_of(processes: Seq<Process>) -> nat {
    chart::total(processes.map_values(|process: Process| process.rss_kib))
}

/// Whether the memory of some processes together can be counted.
pub fn memory_fits(processes: &[Process]) -> (fits: bool)
    ensures
        fits == (memory_of(processes@) <= u64::MAX),
{
    let ghost sizes = processes@.map_values(|process: Process| process.rss_kib);
    let mut total: u128 = 0;
    let mut i: usize = 0;
    assert(sizes.take(0) =~= seq![]);
    while i < processes.len()
        invariant
            i <= processes@.len(),
            sizes == processes@.map_values(|process: Process| process.rss_kib),
            total == chart::total(sizes.take(i as int)),
            total <= u64::MAX,
        decreases processes@.len() - i,
    {
        assert(sizes.take(i + 1).drop_last() =~= sizes.take(i as int));
        total += processes[i].rss_kib as u128;
        if total > u64::MAX as u128 {
            proof {
                assert(sizes =~= sizes.take(i + 1) + sizes.skip(i + 1));
                chart::lemma_total_add(sizes.take(i + 1), sizes.skip(i + 1));
            }
            return false;
        }
        i += 1;
    }
    assert(sizes.take(sizes.len() as int) =~= sizes);
    true
}

/// The order of a terminal's processes: the largest first.
pub open spec fn larger_first() -> spec_fn(Process, Process) -> bool {
    |a: Process, b: Process| a.rss_kib > b.rss_kib
}

/// Whether a process says what a terminal is busy with.
pub open spec fn is_activity(process: Process) -> bool {
    !process::is_login(process.command@) && !process::is_shell_name(
        process::program(process.command@),
    )
}

/// The last process that no other exceeds, by processor share and then by memory.
pub open spec fn busiest(processes: Seq<Process>) -> Process
    decreases processes.len(),
{
    if processes.len() <= 1 {
        processes[0]
    } else {
        let best = busiest(processes.drop_last());
        let last = processes.last();
        if last.cpu.rank < best.cpu.rank || (last.cpu.rank == best.cpu.rank && last.rss_kib
            < best.rss_kib) {
            best
        } else {
            last
        }
    }
}

/// What a terminal is busy with: the program of its busiest process other than
/// login and shells.
pub open spec fn activity_of(processes: Seq<Process>) -> Seq<char> {
    let candidates = processes.filter(|process: Process| is_activity(process));
    if candidates.len() == 0 {
        "shell"@
    } else {
        process::program(busiest(candidates).command@)
    }
}

/// What a terminal is busy with.
fn activity(processes: &Vec<Process>) -> (name: String)
    ensures
        name@ == activity_of(processes@),
{
    let ghost chosen = |process: Process| is_activity(process);
    let mut best: Option<usize> = None;
    let mut i: usize = 0;
    proof {
        lists::lemma_filter_none(processes@, chosen);
    }
    while i < processes.len()
        invariant
            i <= processes@.len(),
            chosen == (|process: Process| is_activity(process)),
            best is None <==> processes@.take(i as int).filter(chosen).len() == 0,
            best matches Some(k) ==> k < processes@.len() && processes@[k as int] == busiest(
                processes@.take(i as int).filter(chosen),
            ),
        decreases processes@.len() - i,
    {
        let command = processes[i].command.as_str();
        proof {
            lists::lemma_filter_next(processes@, i as int, chosen);
            let some = processes@.take(i as int).filter(chosen);
            assert(some.push(processes@[i as int]).drop_last() =~= some);
        }
        if !is_login_process(command) && !is_shell(command) {
            match best {
                Some(k) => {
                    let less: bool = processes[i].cpu.rank < processes[k].cpu.rank || (
                    processes[i].cpu.rank == processes[k].cpu.rank && processes[i].rss_kib
                        < processes[k].rss_kib);
                    if !less {
                        best = Some(i);
                    }
                },
                None => {
                    best = Some(i);
                },
            }
        }
        i += 1;
    }
    match best {
        Some(k) => command_name(processes[k].command.as_str()),
        None => "shell".to_owned(),
    }
}

/// Whether a terminal is that of a surface with the given members and share of
/// processor time.
pub open spec fn is_terminal_of(
    root: Process,
    members: Seq<Process>,
    cpu: CpuShare,
    terminal: Terminal,
) -> bool {
    &&& terminal.root_pid == root.pid
    &&& terminal.tty == root.tty
    &&& terminal.label == root.tty
    &&& terminal.cpu == cpu
    &&& terminal.rss_kib == memory_of(members)
    &&& sorting::is_sorted_from(members, terminal.processes@, larger_first())
    &&& terminal.activity@ == activity_of(terminal.processes@)
    &&& terminal.elapsed == root.elapsed
    &&& terminal.age_seconds == root.age_seconds
    &&& terminal.memory_growth_kib == 0
    &&& terminal.memory_slope_kib_per_min == 0
    &&& terminal.memory_samples == 0
    &&& !terminal.leak_suspected
}

/// The terminal of a surface, given its members and their share of processor
/// time together.
pub fn terminal_of(root: &Process, members: Vec<Process>, cpu: CpuShare) -> (terminal: Terminal)
    requires
        memory_of(members@) <= u64::MAX,
    ensures
        is_terminal_of(*root, members@, cpu, terminal),
{
    let ghost sizes = members@.map_values(|process: Process| process.rss_kib);
    let mut rss_kib: u64 = 0;
    let mut i: usize = 0;
    assert(sizes.take(0) =~= seq![]);
    while i < members.len()
        invariant
            i <= members@.len(),
            sizes == members@.map_values(|process: Process| process.rss_kib),
            rss_kib == chart::total(sizes.take(i as int)),
            chart::total(sizes) <= u64::MAX,
        decreases members@.len() - i,
    {
        proof {
            assert(sizes.take(i + 1).drop_last() =~= sizes.take(i as int));
            assert(sizes =~= sizes.take(i + 1) + sizes.skip(i + 1));
            chart::lemma_total_add(sizes.take(i + 1), sizes.skip(i + 1));
        }
        rss_kib += members[i].rss_kib;
        i += 1;
    }
    assert(sizes.take(sizes.len() as int) =~= sizes);
    let mut processes = members;
    let precedes = |a: &Process, b: &Process| -> (found: bool)
        ensures
            found == larger_first()(*a, *b),
    {
        a.rss_kib > b.rss_kib
    };
    sort_stably(&mut processes, precedes, Ghost(larger_first()));
    let activity = activity(&processes);
    Terminal {
        root_pid: root.pid,
        tty: root.tty.clone(),
        label: root.tty.clone(),
        cpu,
        rss_kib,
        processes,
        activity,
        elapsed: root.elapsed.clone(),
        age_seconds: root.age_seconds,
        memory_growth_kib: 0,
        memory_slope_kib_per_min: 0,
        memory_samples: 0,
        leak_suspected: false,
    }
}

/// The first process that is Ghostty itself.
fn find_ghostty(processes: &[Process]) -> (ghostty: Option<Process>)
    ensures
        ghostty == ghostty_of(processes@),
{
    let mut i: usize = 0;
    assert(processes@.skip(0) =~= processes@);
    while i < processes.len()
        invariant
            i <= processes@.len(),
            ghostty_of(processes@) == ghostty_of(processes@.skip(i as int)),
        decreases processes@.len() - i,
    {
        assert(processes@.skip(i as int).skip(1) =~= processes@.skip(i + 1));
        if is_ghostty_app(processes[i].command.as_str()) {
            return Some(processes[i].clone());
        }
        i += 1;
    }
    None
}

/// The processes that own a terminal surface.
fn find_surfaces(processes: &[Process], app_pid: i32, platform: Platform) -> (roots: Vec<Process>)
    ensures
        roots@ == surfaces(processes@, app_pid, platform),
{
    let ghost chosen = |process: Process| is_surface(process, app_pid, platform);
    let mut roots: Vec<Process> = Vec::new();
    let mut i: usize = 0;
    proof {
        lists::lemma_filter_none(processes@, chosen);
    }
    while i < processes.len()
        invariant
            i <= processes@.len(),
            chosen == (|process: Process| is_surface(process, app_pid, platform)),
            roots@ == processes@.take(i as int).filter(chosen),
        decreases processes@.len() - i,
    {
        proof {
            lists::lemma_filter_next(processes@, i as int, chosen);
        }
        let process = &processes[i];
        if process.ppid == app_pid && has_tty(process.tty.as_str()) && is_terminal_root(
            process,
            platform,
        ) {
            roots.push(process.clone());
        }
        i += 1;
    }
    proof {
        lists::lemma_filter_none(processes@, chosen);
    }
    roots
}

/// The processes that count towards the terminal of `root`.
fn find_members(processes: &[Process], owner: &HashMap<i32, i32>, root: i32, self_pid: i32) -> (members:
    Vec<Process>)
    ensures
        members@ == members_of(processes@, owner@, root, self_pid),
{
    let ghost chosen = |process: Process| is_member(process, owner@, root, self_pid);
    let mut members: Vec<Process> = Vec::new();
    let mut i: usize = 0;
    proof {
        lists::lemma_filter_none(processes@, chosen);
    }
    while i < processes.len()
        invariant
            i <= processes@.len(),
            chosen == (|process: Process| is_member(process, owner@, root, self_pid)),
            members@ == processes@.take(i as int).filter(chosen),
        decreases processes@.len() - i,
    {
        proof {
            lists::lemma_filter_next(processes@, i as int, chosen);
        }
        let process = &processes[i];
        let owned: bool = match owner.get(&process.pid) {
            Some(found) => *found == root,
            None => false,
        };
        if owned && process.pid != self_pid && !(process.ppid == self_pid && same_text(
            command_name(process.command.as_str()).as_str(),
            "ps",
        )) {
            members.push(process.clone());
        }
        i += 1;
    }
    proof {
        lists::lemma_filter_none(processes@, chosen);
    }
    members
}

/// Whether a terminal is that of a surface, its share of processor time being
/// what `sum_cpu` gave for its members.
pub open spec fn is_aggregated<F: Fn(&Vec<Process>) -> CpuShare>(
    root: Process,
    members: Seq<Process>,
    sum_cpu: F,
    terminal: Terminal,
) -> bool {
    &&& is_terminal_of(root, members, terminal.cpu, terminal)
    &&& exists|list: Vec<Process>|
        list@ == members && #[trigger] call_ensures(sum_cpu, (&list,), terminal.cpu)
}

/// Whether the memory of every terminal can be counted.
pub open spec fn fits_by_terminal(processes: Seq<Process>, self_pid: i32, platform: Platform) -> bool {
    ghostty_of(processes) matches Some(app) ==> {
        let roots = surfaces(processes, app.pid, platform);
        let owner = surface_owners(processes, roots);
        forall|i: int|
            0 <= i < roots.len() ==> memory_of(
                members_of(processes, owner, (#[trigger] roots[i]).pid, self_pid),
            ) <= u64::MAX
    }
}

/// Which surface owns each process.
fn find_owners(processes: &[Process], roots: &Vec<Process>) -> (owner: HashMap<i32, i32>)
    ensures
        owner@ == surface_owners(processes@, roots@),
{
    let mut root_pids: Vec<i32> = Vec::new();
    let mut k: usize = 0;
    while k < roots.len()
        invariant
            k <= roots@.len(),
            root_pids@ =~= pids_of(roots@).take(k as int),
        decreases roots@.len() - k,
    {
        root_pids.push(roots[k].pid);
        k += 1;
    }
    assert(root_pids@ =~= pids_of(roots@));
    let by_parent = child_map(processes);
    assign_owners(&root_pids, &by_parent)
}

/// Whether the memory of every terminal can be counted.
pub fn memory_fits_by_terminal(processes: &[Process], self_pid: i32, platform: Platform) -> (fits: bool)
    ensures
        fits == fits_by_terminal(processes@, self_pid, platform),
{
    let app_pid: i32 = match find_ghostty(processes) {
        Some(app) => app.pid,
        None => {
            return true;
        },
    };
    let roots = find_surfaces(processes, app_pid, platform);
    let owner = find_owners(processes, &roots);
    let mut i: usize = 0;
    while i < roots.len()
        invariant
            i <= roots@.len(),
            ghostty_of(processes@) is Some,
            roots@ == surfaces(processes@, ghostty_of(processes@).unwrap().pid, platform),
            owner@ == surface_owners(processes@, roots@),
            forall|j: int|
                0 <= j < i ==> memory_of(
                    members_of(processes@, owner@, (#[trigger] roots@[j]).pid, self_pid),
                ) <= u64::MAX,
        decreases roots@.len() - i,
    {
        let members = find_members(processes, &owner, roots[i].pid, self_pid);
        if !memory_fits(members.as_slice()) {
            assert(memory_of(members_of(processes@, owner@, roots@[i as int].pid, self_pid))
                > u64::MAX);
            return false;
        }
        i += 1;
    }
    true
}

/// Groups the processes under the terminals of Ghostty. `sum_cpu` adds up the
/// shares of processor time of some processes.
pub fn aggregate<F: Fn(&Vec<Process>) -> CpuShare>(
    processes: &[Process],
    self_pid: i32,
    platform: Platform,
    sum_cpu: F,
) -> (grouped: (Option<Process>, Vec<Terminal>))
    requires
        fits_by_terminal(processes@, self_pid, platform),
        forall|list: &Vec<Process>| #[trigger] call_requires(sum_cpu, (list,)),
    ensures
        grouped.0 == ghostty_of(processes@),
        grouped.0 is None ==> grouped.1@.len() == 0,
        grouped.0 matches Some(app) ==> {
            let roots = surfaces(processes@, app.pid, platform);
            let owner = surface_owners(processes@, roots);
            &&& grouped.1@.len() == roots.len()
            &&& forall|i: int|
                0 <= i < roots.len() ==> is_aggregated(
                    roots[i],
                    members_of(processes@, owner, roots[i].pid, self_pid),
                    sum_cpu,
                    #[trigger] grouped.1@[i],
                )
        },
{
    let ghostty = find_ghostty(processes);
    let app_pid: i32 = match &ghostty {
        Some(app) => app.pid,
        None => {
            return (None, Vec::new());
        },
    };
    let roots = find_surfaces(processes, app_pid, platform);
    let owner = find_owners(processes, &roots);
    let mut terminals: Vec<Terminal> = Vec::new();
    let mut i: usize = 0;
    while i < roots.len()
        invariant
            i <= roots@.len(),
            forall|j: int|
                0 <= j < roots@.len() ==> memory_of(
                    members_of(processes@, owner@, (#[trigger] roots@[j]).pid, self_pid),
                ) <= u64::MAX,
            forall|list: &Vec<Process>| #[trigger] call_requires(sum_cpu, (list,)),
            terminals@.len() == i,
            forall|j: int|
                0 <= j < i ==> is_aggregated(
                    roots@[j],
                    members_of(processes@, owner@, roots@[j].pid, self_pid),
                    sum_cpu,
                    #[trigger] terminals@[j],
                ),
        decreases roots@.len() - i,
    {
        let members = find_members(processes, &owner, roots[i].pid, self_pid);
        let cpu = sum_cpu(&members);
        let terminal = terminal_of(&roots[i], members, cpu);
        terminals.push(terminal);
        i += 1;
    }
    (ghostty, terminals)
}

/// A process counts towards one terminal at most, and there only if it is the
/// surface itself or descends from it.
pub proof fn law_one_terminal_each(
    processes: Seq<Process>,
    roots: Seq<Process>,
    process: Process,
    one: i32,
    other: i32,
    self_pid: i32,
)
    ensures
        ({
            let owner = surface_owners(processes, roots);
            &&& is_member(process, owner, one, self_pid) && is_member(process, owner, other, self_pid)
                ==> one == other
            &&& is_member(process, owner, one, self_pid) ==> pids_of(roots).contains(one) && (one
                == process.pid || tree::descends(tree::links_among(processes), one, process.pid))
            &&& is_member(process, owner, one, self_pid) ==> process.pid != self_pid
        }),
{
    let links = tree::links_among(processes);
    let owner = surface_owners(processes, roots);
    if is_member(process, owner, one, self_pid) {
        tree::law_owned_descends(links, pids_of(roots), roots.len() as int, process.pid);
    }
}

/// Every process that descends from a surface counts towards some terminal, this
/// program and the `ps` it has run aside.
pub proof fn law_no_process_lost(
    processes: Seq<Process>,
    roots: Seq<Process>,
    process: Process,
    root: i32,
    self_pid: i32,
)
    requires
        pids_of(roots).contains(root),
        root == process.pid || tree::descends(tree::links_among(processes), root, process.pid),
        process.pid != self_pid,
        process.ppid != self_pid || process::program(process.command@) != "ps"@,
    ensures
        exists|other: i32|
            pids_of(roots).contains(other) && #[trigger] is_member(
                process,
                surface_owners(processes, roots),
                other,
                self_pid,
            ),
{
    let links = tree::links_among(processes);
    let owner = surface_owners(processes, roots);
    tree::law_descendants_are_owned(links, pids_of(roots), root, process.pid);
    tree::law_owned_descends(links, pids_of(roots), roots.len() as int, process.pid);
    assert(is_member(process, owner, owner[process.pid], self_pid));
}

/// The busiest of some processes is one of them, and none has a larger share of
/// processor time, nor the same share and more memory.
proof fn lemma_busiest(processes: Seq<Process>)
    requires
        processes.len() > 0,
    ensures
        processes.contains(busiest(processes)),
        forall|i: int|
            0 <= i < processes.len() ==> (#[trigger] processes[i]).cpu.rank < busiest(
                processes,
            ).cpu.rank || (processes[i].cpu.rank == busiest(processes).cpu.rank
                && processes[i].rss_kib <= busiest(processes).rss_kib),
    decreases processes.len(),
{
    if processes.len() == 1 {
        assert(processes[0] == busiest(processes));
    } else {
        let before = processes.drop_last();
        lemma_busiest(before);
        let best = busiest(before);
        let k = before.index_of(best);
        assert(processes[k] == best);
        assert(processes[processes.len() - 1] == processes.last());
        assert forall|i: int| 0 <= i < processes.len() implies (#[trigger] processes[i]).cpu.rank
            < busiest(processes).cpu.rank || (processes[i].cpu.rank == busiest(processes).cpu.rank
            && processes[i].rss_kib <= busiest(processes).rss_kib) by {
            if i < processes.len() - 1 {
                assert(before[i] == processes[i]);
            }
        }
    }
}

/// Whether a process is neither the login program nor a shell.
pub open spec fn is_at_work(process: Process) -> bool {
    &&& !process::is_login(process.command@)
    &&& !process::is_shell_name(process::program(process.command@))
}

/// What a terminal is busy with is the program of one of its processes, neither
/// login nor a shell, and none of those has a larger share of processor time, nor
/// the same share and more memory. Without such a process it is its shell.
pub proof fn law_activity_is_the_busiest(processes: Seq<Process>)
    ensures
        (exists|i: int| 0 <= i < processes.len() && is_at_work(#[trigger] processes[i]))
            ==> exists|k: int|
            {
                &&& 0 <= k < processes.len()
                &&& is_at_work(#[trigger] processes[k])
                &&& activity_of(processes) == process::program(processes[k].command@)
                &&& forall|i: int|
                    0 <= i < processes.len() && is_at_work(#[trigger] processes[i])
                        ==> processes[i].cpu.rank < processes[k].cpu.rank || (processes[i].cpu.rank
                        == processes[k].cpu.rank && processes[i].rss_kib <= processes[k].rss_kib)
            },
        (forall|i: int| 0 <= i < processes.len() ==> !is_at_work(#[trigger] processes[i]))
            ==> activity_of(processes) == "shell"@,
{
    let chosen = |process: Process| is_activity(process);
    let candidates = processes.filter(chosen);
    assert forall|i: int| 0 <= i < processes.len() && is_at_work(
        #[trigger] processes[i],
    ) implies candidates.contains(processes[i]) by {
        lists::lemma_filter_members(processes, chosen, processes[i]);
    }
    if candidates.len() > 0 {
        lemma_busiest(candidates);
        let best = busiest(candidates);
        lists::lemma_filter_members(processes, chosen, best);
        let k = processes.index_of(best);
        assert(processes[k] == best && is_at_work(processes[k]));
        assert forall|i: int| 0 <= i < processes.len() && is_at_work(
            #[trigger] processes[i],
        ) implies processes[i].cpu.rank < processes[k].cpu.rank || (processes[i].cpu.rank
            == processes[k].cpu.rank && processes[i].rss_kib <= processes[k].rss_kib) by {
            let place = candidates.index_of(processes[i]);
            assert(candidates[place] == processes[i]);
        }
    } else if exists|i: int| 0 <= i < processes.len() && is_at_work(#[trigger] processes[i]) {
        let i = choose|i: int| 0 <= i < processes.len() && is_at_work(#[trigger] processes[i]);
        assert(candidates.contains(processes[i]));
    }
}

/// Ghostty itself is the first process whose command names it.
pub proof fn law_ghostty_is_the_first_named(processes: Seq<Process>, i: int)
    ensures
        ghostty_of(processes) is None <==> forall|k: int|
            0 <= k < processes.len() ==> !process::is_ghostty((#[trigger] processes[k]).command@),
        0 <= i < processes.len() && process::is_ghostty(processes[i].command@) && (forall|k: int|
            0 <= k < i ==> !process::is_ghostty((#[trigger] processes[k]).command@))
            ==> ghostty_of(processes) == Some(processes[i]),
    decreases processes.len(),
{
    if processes.len() > 0 && !process::is_ghostty(processes[0].command@) {
        let rest = processes.skip(1);
        law_ghostty_is_the_first_named(rest, i - 1);
        assert forall|k: int| 0 <= k < rest.len() implies (#[trigger] rest[k]) == processes[k
            + 1] by {}
        if forall|k: int|
            0 <= k < rest.len() ==> !process::is_ghostty((#[trigger] rest[k]).command@) {
            assert forall|k: int| 0 <= k < processes.len() implies !process::is_ghostty(
                (#[trigger] processes[k]).command@,
            ) by {
                if k > 0 {
                    assert(rest[k - 1] == processes[k]);
                }
            }
        }
        if 0 < i < processes.len() {
            assert(rest[i - 1] == processes[i]);
        }
    }
}

/// The terminals are the children of Ghostty that have a tty, and on macOS run the
/// login program.
pub proof fn law_surfaces(
    processes: Seq<Process>,
    app_pid: i32,
    platform: Platform,
    process: Process,
)
    ensures
        surfaces(processes, app_pid, platform).contains(process) <==> {
            &&& processes.contains(process)
            &&& process.ppid == app_pid
            &&& process.tty@.len() > 0 && process.tty@ != "?"@ && process.tty@ != "??"@
            &&& platform == Platform::Linux || process::is_login(process.command@)
        },
{
    let chosen = |process: Process| is_surface(process, app_pid, platform);
    lists::lemma_filter_members(processes, chosen, process);
}

/// A terminal is described by its root: tty, age and pid are the root's, its
/// processes are the members, the largest first, and its memory is theirs.
pub proof fn law_terminal_is_its_root_and_members(
    root: Process,
    members: Seq<Process>,
    cpu: CpuShare,
    terminal: Terminal,
    process: Process,
)
    requires
        is_terminal_of(root, members, cpu, terminal),
    ensures
        terminal.root_pid == root.pid,
        terminal.tty@ == root.tty@,
        terminal.label@ == root.tty@,
        terminal.elapsed@ == root.elapsed@,
        terminal.age_seconds == root.age_seconds,
        terminal.processes@.contains(process) <==> members.contains(process),
        terminal.processes@.len() == members.len(),
        forall|i: int, j: int|
            #![trigger terminal.processes@[i], terminal.processes@[j]]
            0 <= i < j < members.len() ==> terminal.processes@[i].rss_kib
                >= terminal.processes@[j].rss_kib,
        members.len() == 0 ==> terminal.rss_kib == 0,
        members.len() == 1 ==> terminal.rss_kib == members[0].rss_kib,
        members.contains(process) ==> process.rss_kib <= terminal.rss_kib,
{
    let order = larger_first();
    let shown = terminal.processes@;
    let places = choose|places: Seq<int>| sorting::is_arranged(members, shown, places, order);
    assert forall|i: int, j: int|
        #![trigger shown[i], shown[j]]
        0 <= i < j < members.len() implies shown[i].rss_kib >= shown[j].rss_kib by {
        assert(!order(shown[j], shown[i]));
    }
    if shown.contains(process) {
        let i = shown.index_of(process);
        assert(shown[i] == members[places[i]]);
    }
    let sizes = members.map_values(|process: Process| process.rss_kib);
    if members.contains(process) {
        let k = members.index_of(process);
        let i = sorting::lemma_place_found(members, shown, places, order, k);
        assert(shown[i] == process);
        chart::lemma_total_covers(sizes, k);
        assert(sizes[k] == process.rss_kib);
    }
    if members.len() == 1 {
        assert(sizes =~= seq![members[0].rss_kib]);
        chart::law_total(members[0].rss_kib, seq![], seq![]);
    } else if members.len() == 0 {
        assert(sizes =~= seq![]);
    }
}

/// The memory of some processes is that of each of them added up.
pub proof fn law_memory_adds_up(process: Process, a: Seq<Process>, b: Seq<Process>)
    ensures
        memory_of(seq![process]) == process.rss_kib,
        memory_of(a + b) == memory_of(a) + memory_of(b),
{
    let size = |process: Process| process.rss_kib;
    assert(seq![process].map_values(size) =~= seq![process.rss_kib]);
    assert((a + b).map_values(size) =~= a.map_values(size) + b.map_values(size));
    chart::law_total(process.rss_kib, a.map_values(size), b.map_values(size));
}

/// This program and the `ps` it has run count towards no terminal.
pub proof fn law_the_monitor_does_not_count_itself(
    processes: Seq<Process>,
    owner: Map<i32, i32>,
    root: i32,
    self_pid: i32,
    process: Process,
)
    requires
        members_of(processes, owner, root, self_pid).contains(process),
    ensures
        processes.contains(process),
        process.pid != self_pid,
        process.ppid == self_pid ==> process::program(process.command@) != "ps"@,
{
    lists::lemma_filter_members(
        processes,
        |process: Process| is_member(process, owner, root, self_pid),
        process,
    );
}

} // verus!
