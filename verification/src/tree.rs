//! Which processes descend from which.
use vstd::prelude::*;
use crate::process::Process;
use std::collections::HashMap;

verus! {

broadcast use vstd::std_specs::hash::group_hash_axioms;

/// The links from parent to child that some processes make.
pub open spec fn links_among(processes: Seq<Process>) -> Set<(i32, i32)> {
    Set::new(
        |link: (i32, i32)|
            exists|i: int|
                0 <= i < processes.len() && (#[trigger] processes[i]).ppid == link.0 && processes[i].pid
                    == link.1,
    )
}

/// The links from parent to child that a map of children holds.
pub open spec fn links_in(children: Map<i32, Vec<i32>>) -> Set<(i32, i32)> {
    Set::new(
        |link: (i32, i32)| children.dom().contains(link.0) && children[link.0]@.contains(link.1),
    )
}

/// The pids that lie at most `n` generations below `pid`. Descent goes on below
/// the pids that are not yet owned, and below `pid` itself.
pub open spec fn reached_in(
    links: Set<(i32, i32)>,
    owned: Set<i32>,
    pid: i32,
    n: nat,
    candidate: i32,
) -> bool
    decreases n,
{
    n > 0 && (links.contains((pid, candidate)) || exists|parent: i32|
        reached_in(links, owned, pid, (n - 1) as nat, parent) && !owned.contains(parent)
            && #[trigger] links.contains((parent, candidate)))
}

/// The pids below `pid` that descent comes to.
pub open spec fn reached(
    links: Set<(i32, i32)>,
    owned: Set<i32>,
    pid: i32,
    candidate: i32,
) -> bool {
    exists|n: nat| reached_in(links, owned, pid, n, candidate)
}

/// `owner` with `root` for the owner of everything that descent from `pid`
/// comes to.
pub open spec fn with_descendants(
    links: Set<(i32, i32)>,
    owner: Map<i32, i32>,
    pid: i32,
    root: i32,
) -> Map<i32, i32> {
    Map::new(
        |key: i32| owner.dom().contains(key) || reached(links, owner.dom(), pid, key),
        |key: i32|
            if reached(links, owner.dom(), pid, key) {
                root
            } else {
                owner[key]
            },
    )
}

/// What descent from a child comes to, descent from its parent comes to as well.
proof fn lemma_reached_through_child(
    links: Set<(i32, i32)>,
    owned: Set<i32>,
    more: Set<i32>,
    pid: i32,
    child: i32,
    n: nat,
    candidate: i32,
)
    requires
        links.contains((pid, child)),
        !owned.contains(child),
        owned.subset_of(more),
        reached_in(links, more, child, n, candidate),
    ensures
        reached_in(links, owned, pid, n + 1, candidate),
    decreases n,
{
    assert(reached_in(links, owned, pid, 1, child));
    if links.contains((child, candidate)) {
        lemma_reached_longer(links, owned, pid, 1, n, child);
        assert(reached_in(links, owned, pid, ((n + 1) - 1) as nat, child));
    } else {
        let parent = choose|parent: i32|
            reached_in(links, more, child, (n - 1) as nat, parent) && !more.contains(parent)
                && #[trigger] links.contains((parent, candidate));
        lemma_reached_through_child(links, owned, more, pid, child, (n - 1) as nat, parent);
        assert(reached_in(links, owned, pid, ((n + 1) - 1) as nat, parent));
    }
}

/// More generations reach no less.
proof fn lemma_reached_longer(
    links: Set<(i32, i32)>,
    owned: Set<i32>,
    pid: i32,
    n: nat,
    more: nat,
    candidate: i32,
)
    requires
        n <= more,
        reached_in(links, owned, pid, n, candidate),
    ensures
        reached_in(links, owned, pid, more, candidate),
    decreases n,
{
    if !links.contains((pid, candidate)) {
        let parent = choose|parent: i32|
            reached_in(links, owned, pid, (n - 1) as nat, parent) && !owned.contains(parent)
                && #[trigger] links.contains((parent, candidate));
        lemma_reached_longer(links, owned, pid, (n - 1) as nat, (more - 1) as nat, parent);
    }
}

/// Whether the children of every newly owned pid in `seen` are in `seen` too.
spec fn is_closed(links: Set<(i32, i32)>, owned: Set<i32>, seen: Set<i32>) -> bool {
    forall|parent: i32, child: i32|
        seen.contains(parent) && !owned.contains(parent) && #[trigger] links.contains((parent, child)) ==> seen.contains(child)
}

/// Descent does not leave a closed set that it begins in.
proof fn lemma_reached_is_seen(
    links: Set<(i32, i32)>,
    owned: Set<i32>,
    pid: i32,
    seen: Set<i32>,
    n: nat,
    candidate: i32,
)
    requires
        is_closed(links, owned, seen),
        forall|child: i32| #[trigger] links.contains((pid, child)) ==> seen.contains(child),
        reached_in(links, owned, pid, n, candidate),
    ensures
        seen.contains(candidate),
    decreases n,
{
    if !links.contains((pid, candidate)) {
        let parent = choose|parent: i32|
            reached_in(links, owned, pid, (n - 1) as nat, parent) && !owned.contains(parent)
                && #[trigger] links.contains((parent, candidate));
        lemma_reached_is_seen(links, owned, pid, seen, (n - 1) as nat, parent);
    }
}

/// What descent comes to is closed.
proof fn lemma_reached_is_closed(links: Set<(i32, i32)>, owned: Set<i32>, pid: i32)
    ensures
        forall|parent: i32, child: i32|
            reached(links, owned, pid, parent) && !owned.contains(parent) && #[trigger] links.contains((parent, child)) ==> reached(links, owned, pid, child),
        forall|child: i32| #[trigger] links.contains((pid, child)) ==> reached(links, owned, pid, child),
{
    assert forall|parent: i32, child: i32|
        reached(links, owned, pid, parent) && !owned.contains(parent) && #[trigger] links.contains((parent, child)) implies reached(links, owned, pid, child) by {
        let n = choose|n: nat| reached_in(links, owned, pid, n, parent);
        assert(reached_in(links, owned, pid, ((n + 1) - 1) as nat, parent));
        assert(reached_in(links, owned, pid, n + 1, child));
    }
    assert forall|child: i32| #[trigger] links.contains((pid, child)) implies reached(
        links,
        owned,
        pid,
        child,
    ) by {
        assert(reached_in(links, owned, pid, 1, child));
    }
}

/// The pids that have no owner.
pub closed spec fn unowned(owner: Map<i32, i32>) -> Set<int> {
    vstd::set_lib::set_int_range(i32::MIN as int, i32::MAX + 1).filter(
        |pid: int| !owner.dom().contains(pid as i32),
    )
}

proof fn lemma_unowned_shrinks(owner: Map<i32, i32>, pid: i32, root: i32)
    requires
        !owner.dom().contains(pid),
    ensures
        unowned(owner.insert(pid, root)).len() < unowned(owner).len(),
{
    let all = vstd::set_lib::set_int_range(i32::MIN as int, i32::MAX + 1);
    vstd::set_lib::lemma_int_range(i32::MIN as int, i32::MAX + 1);
    all.lemma_len_filter(|pid: int| !owner.dom().contains(pid as i32));
    assert(unowned(owner).contains(pid as int));
    assert forall|p: int| unowned(owner.insert(pid, root)).contains(p) == unowned(owner).remove(
        pid as int,
    ).contains(p) by {}
    assert(unowned(owner.insert(pid, root)) =~= unowned(owner).remove(pid as int));
}

/// Whether `owner` is `before` with `root` for the owner of the pids in `seen`.
spec fn is_overlaid(
    owner: Map<i32, i32>,
    before: Map<i32, i32>,
    root: i32,
    seen: Set<i32>,
) -> bool {
    &&& forall|key: i32| #[trigger]
        owner.dom().contains(key) <==> before.dom().contains(key) || seen.contains(key)
    &&& forall|key: i32| #[trigger]
        owner.dom().contains(key) ==> owner[key] == (if seen.contains(key) {
            root
        } else {
            before[key]
        })
}

/// Gives `root` all that descends from `pid`: its children, and the descendants
/// of those that had no owner yet.
pub fn assign_descendants(
    pid: i32,
    root: i32,
    children: &HashMap<i32, Vec<i32>>,
    owner: &mut HashMap<i32, i32>,
)
    ensures
        final(owner)@ == with_descendants(links_in(children@), old(owner)@, pid, root),
    decreases unowned(old(owner)@).len(),
{
    let ghost links = links_in(children@);
    let ghost before = owner@;
    let ghost owned = before.dom();
    let ghost mut seen: Set<i32> = Set::empty();
    match children.get(&pid) {
        Some(child_pids) => {
            let mut i: usize = 0;
            while i < child_pids.len()
                invariant
                    i <= child_pids@.len(),
                    children@.dom().contains(pid) && child_pids@ == children@[pid]@,
                    links == links_in(children@),
                    before == old(owner)@,
                    owned == before.dom(),
                    is_overlaid(owner@, before, root, seen),
                    forall|key: i32| #[trigger]
                        seen.contains(key) ==> reached(links, owned, pid, key),
                    is_closed(links, owned, seen),
                    forall|j: int| 0 <= j < i ==> seen.contains(#[trigger] child_pids@[j]),
                    i == 0 ==> owner@ == before,
                    unowned(owner@).len() <= unowned(before).len(),
                decreases child_pids@.len() - i,
            {
                let child: i32 = child_pids[i];
                let ghost earlier = owner@;
                let ghost old_seen = seen;
                assert(links.contains((pid, child)));
                proof {
                    lemma_reached_is_closed(links, owned, pid);
                    seen = seen.insert(child);
                }
                if owner.insert(child, root).is_none() {
                    let ghost grown = owner@;
                    proof {
                        lemma_unowned_shrinks(earlier, child, root);
                        lemma_reached_is_closed(links, grown.dom(), child);
                    }
                    assign_descendants(child, root, children, owner);
                    proof {
                        let found = Set::new(|key: i32| reached(links, grown.dom(), child, key));
                        seen = old_seen.insert(child).union(found);
                        assert forall|key: i32| #[trigger] seen.contains(key) implies reached(
                            links,
                            owned,
                            pid,
                            key,
                        ) by {
                            if !old_seen.contains(key) && key != child {
                                let n = choose|n: nat|
                                    reached_in(links, grown.dom(), child, n, key);
                                lemma_reached_through_child(
                                    links,
                                    owned,
                                    grown.dom(),
                                    pid,
                                    child,
                                    n,
                                    key,
                                );
                            }
                        }
                        assert(is_closed(links, owned, seen)) by {
                            assert forall|parent: i32, other: i32|
                                seen.contains(parent) && !owned.contains(parent)
                                    && #[trigger] links.contains((parent, other)) implies seen.contains(other) by {
                                if !old_seen.contains(parent) && parent != child {
                                    assert(!grown.dom().contains(parent));
                                    assert(found.contains(other));
                                } else if parent == child {
                                    assert(found.contains(other));
                                }
                            }
                        }
                        assert(is_overlaid(owner@, before, root, seen));
                        lemma_unowned_fewer(grown, owner@);
                    }
                } else {
                    proof {
                        assert(owner@.dom() =~= earlier.dom());
                        lemma_unowned_fewer(earlier, owner@);
                    }
                }
                i += 1;
            }
        },
        None => {},
    }
    proof {
        let goal = with_descendants(links, before, pid, root);
        assert forall|key: i32| seen.contains(key) == reached(links, owned, pid, key) by {
            if reached(links, owned, pid, key) {
                let n = choose|n: nat| reached_in(links, owned, pid, n, key);
                assert forall|child: i32| #[trigger] links.contains((pid, child)) implies seen.contains(child) by {}
                lemma_reached_is_seen(links, owned, pid, seen, n, key);
            }
        }
        assert(is_overlaid(owner@, before, root, seen));
        assert forall|key: i32| owner@.dom().contains(key) == goal.dom().contains(key) by {
            assert(seen.contains(key) == reached(links, owned, pid, key));
        }
        assert forall|key: i32| #[trigger] owner@.dom().contains(key) implies owner@[key]
            == goal[key] by {
            assert(seen.contains(key) == reached(links, owned, pid, key));
        }
        assert(owner@ =~= goal);
    }
}

proof fn lemma_unowned_fewer(owner: Map<i32, i32>, more: Map<i32, i32>)
    requires
        owner.dom().subset_of(more.dom()),
    ensures
        unowned(more).len() <= unowned(owner).len(),
{
    let all = vstd::set_lib::set_int_range(i32::MIN as int, i32::MAX + 1);
    vstd::set_lib::lemma_int_range(i32::MIN as int, i32::MAX + 1);
    all.lemma_len_filter(|pid: int| !owner.dom().contains(pid as i32));
    assert(unowned(more).subset_of(unowned(owner)));
    vstd::set_lib::lemma_len_subset(unowned(more), unowned(owner));
}

/// The pids of the processes that `parent` has started, in their order.
pub open spec fn children_of(processes: Seq<Process>, parent: i32) -> Seq<i32>
    decreases processes.len(),
{
    if processes.len() == 0 {
        seq![]
    } else {
        let before = children_of(processes.drop_last(), parent);
        if processes.last().ppid == parent {
            before.push(processes.last().pid)
        } else {
            before
        }
    }
}

/// Whether a map holds the children of each process that has some.
pub open spec fn holds_children(map: Map<i32, Vec<i32>>, processes: Seq<Process>) -> bool {
    &&& forall|parent: i32| #[trigger]
        map.dom().contains(parent) <==> children_of(processes, parent).len() > 0
    &&& forall|parent: i32| #[trigger]
        map.dom().contains(parent) ==> map[parent]@ == children_of(processes, parent)
}

/// The children of each process, by the pid of their parent.
pub fn child_map(processes: &[Process]) -> (map: HashMap<i32, Vec<i32>>)
    ensures
        holds_children(map@, processes@),
        links_in(map@) == links_among(processes@),
{
    let mut map: HashMap<i32, Vec<i32>> = HashMap::new();
    let mut i: usize = 0;
    assert(links_in(map@) =~= links_among(processes@.take(0)));
    while i < processes.len()
        invariant
            i <= processes@.len(),
            holds_children(map@, processes@.take(i as int)),
            links_in(map@) == links_among(processes@.take(i as int)),
        decreases processes@.len() - i,
    {
        let parent: i32 = processes[i].ppid;
        let child: i32 = processes[i].pid;
        let ghost before = map@;
        let mut list: Vec<i32> = match map.remove(&parent) {
            Some(list) => list,
            None => Vec::new(),
        };
        let ghost siblings = list@;
        list.push(child);
        let ghost grown = list@;
        map.insert(parent, list);
        proof {
            let some = processes@.take(i as int);
            let more = processes@.take(i + 1);
            assert(more.drop_last() =~= some);
            assert(siblings =~= children_of(some, parent));
            assert(holds_children(map@, more));
            assert forall|link: (i32, i32)| links_in(map@).contains(link) == links_among(
                more,
            ).contains(link) by {
                if links_in(map@).contains(link) {
                    if link.0 == parent && link.1 == child {
                        assert(more[i as int].ppid == link.0);
                    } else {
                        if link.0 == parent {
                            let k = grown.index_of(link.1);
                            assert(siblings[k] == link.1);
                            assert(siblings.contains(link.1));
                        }
                        assert(links_in(before).contains(link));
                        let k = choose|k: int|
                            0 <= k < some.len() && (#[trigger] some[k]).ppid == link.0 && some[k].pid
                                == link.1;
                        assert(more[k].ppid == link.0);
                    }
                }
                if links_among(more).contains(link) {
                    let k = choose|k: int|
                        0 <= k < more.len() && (#[trigger] more[k]).ppid == link.0 && more[k].pid
                            == link.1;
                    if k == i {
                        assert(grown[siblings.len() as int] == child);
                        assert(grown.contains(child));
                    } else {
                        assert(some[k].ppid == link.0);
                        assert(links_in(before).contains(link));
                        if link.0 == parent {
                            let at = siblings.index_of(link.1);
                            assert(grown[at] == link.1);
                        }
                    }
                }
            }
            assert(links_in(map@) =~= links_among(more));
        }
        i += 1;
    }
    assert(processes@.take(processes@.len() as int) =~= processes@);
    map
}

/// Every root owns itself.
pub open spec fn self_owned(roots: Seq<i32>) -> Map<i32, i32> {
    Map::new(|pid: i32| roots.contains(pid), |pid: i32| pid)
}

/// Who owns what once the first `n` roots have been given their descendants.
pub open spec fn owners_after(links: Set<(i32, i32)>, roots: Seq<i32>, n: int) -> Map<i32, i32>
    decreases n,
{
    if n <= 0 {
        self_owned(roots)
    } else {
        with_descendants(links, owners_after(links, roots, n - 1), roots[n - 1], roots[n - 1])
    }
}

/// Which root owns each pid: every root itself and, root by root, what descends
/// from it.
pub open spec fn owners(links: Set<(i32, i32)>, roots: Seq<i32>) -> Map<i32, i32> {
    owners_after(links, roots, roots.len() as int)
}

/// Finds which root owns each pid.
pub fn assign_owners(roots: &Vec<i32>, children: &HashMap<i32, Vec<i32>>) -> (owner: HashMap<
    i32,
    i32,
>)
    ensures
        owner@ == owners(links_in(children@), roots@),
{
    let mut owner: HashMap<i32, i32> = HashMap::new();
    let mut i: usize = 0;
    while i < roots.len()
        invariant
            i <= roots@.len(),
            owner@ == self_owned(roots@.take(i as int)),
        decreases roots@.len() - i,
    {
        owner.insert(roots[i], roots[i]);
        proof {
            let some = roots@.take(i as int);
            let more = roots@.take(i + 1);
            assert(more =~= some.push(roots@[i as int]));
            assert forall|pid: i32| more.contains(pid) == (some.contains(pid) || pid == roots@[i as int]) by {
                if more.contains(pid) {
                    let k = more.index_of(pid);
                    if k < i {
                        assert(some[k] == pid);
                    }
                }
                if some.contains(pid) {
                    let k = some.index_of(pid);
                    assert(more[k] == pid);
                }
                assert(more[i as int] == roots@[i as int]);
            }
            assert(owner@ =~= self_owned(more));
        }
        i += 1;
    }
    assert(roots@.take(roots@.len() as int) =~= roots@);
    let mut k: usize = 0;
    while k < roots.len()
        invariant
            k <= roots@.len(),
            owner@ == owners_after(links_in(children@), roots@, k as int),
        decreases roots@.len() - k,
    {
        assign_descendants(roots[k], roots[k], children, &mut owner);
        k += 1;
    }
    owner
}

/// Whether `pid` descends from `ancestor`.
pub open spec fn descends(links: Set<(i32, i32)>, ancestor: i32, pid: i32) -> bool {
    reached(links, Set::empty(), ancestor, pid)
}

proof fn lemma_reached_descends(
    links: Set<(i32, i32)>,
    owned: Set<i32>,
    pid: i32,
    n: nat,
    candidate: i32,
)
    requires
        reached_in(links, owned, pid, n, candidate),
    ensures
        reached_in(links, Set::empty(), pid, n, candidate),
    decreases n,
{
    if !links.contains((pid, candidate)) {
        let parent = choose|parent: i32|
            reached_in(links, owned, pid, (n - 1) as nat, parent) && !owned.contains(parent)
                && #[trigger] links.contains((parent, candidate));
        lemma_reached_descends(links, owned, pid, (n - 1) as nat, parent);
    }
}

/// What a root owns is the root itself or descends from it, and only roots own
/// anything.
pub proof fn law_owned_descends(links: Set<(i32, i32)>, roots: Seq<i32>, n: int, pid: i32)
    requires
        0 <= n <= roots.len(),
        owners_after(links, roots, n).dom().contains(pid),
    ensures
        ({
            let root = owners_after(links, roots, n)[pid];
            roots.contains(root) && (root == pid || descends(links, root, pid))
        }),
    decreases n,
{
    if n > 0 {
        let before = owners_after(links, roots, n - 1);
        let root = roots[n - 1];
        if reached(links, before.dom(), root, pid) {
            let k = choose|k: nat| reached_in(links, before.dom(), root, k, pid);
            lemma_reached_descends(links, before.dom(), root, k, pid);
        } else {
            law_owned_descends(links, roots, n - 1, pid);
        }
    }
}

/// Whatever descends from a root has an owner.
pub proof fn law_descendants_are_owned(links: Set<(i32, i32)>, roots: Seq<i32>, root: i32, pid: i32)
    requires
        roots.contains(root),
        root == pid || descends(links, root, pid),
    ensures
        owners(links, roots).dom().contains(pid),
{
    lemma_roots_stay_owned(links, roots, roots.len() as int, root);
    if root != pid {
        let k = choose|k: nat| reached_in(links, Set::empty(), root, k, pid);
        lemma_owned_is_closed(links, roots, root, k, pid);
    }
}

proof fn lemma_roots_stay_owned(links: Set<(i32, i32)>, roots: Seq<i32>, n: int, pid: i32)
    requires
        roots.contains(pid),
        0 <= n <= roots.len(),
    ensures
        owners_after(links, roots, n).dom().contains(pid),
    decreases n,
{
    if n > 0 {
        lemma_roots_stay_owned(links, roots, n - 1, pid);
    }
}

/// Once the first `n` roots have their descendants, every pid owned by then that
/// is none of the later roots has all its children owned.
proof fn lemma_children_owned(
    links: Set<(i32, i32)>,
    roots: Seq<i32>,
    n: int,
    parent: i32,
    child: i32,
)
    requires
        0 <= n <= roots.len(),
        owners_after(links, roots, n).dom().contains(parent),
        links.contains((parent, child)),
        forall|k: int| n <= k < roots.len() ==> roots[k] != parent,
    ensures
        owners_after(links, roots, n).dom().contains(child),
    decreases n,
{
    if n > 0 {
        let before = owners_after(links, roots, n - 1);
        let root = roots[n - 1];
        lemma_reached_is_closed(links, before.dom(), root);
        if parent != root && before.dom().contains(parent) {
            lemma_children_owned(links, roots, n - 1, parent, child);
        }
    } else {
        let k = roots.index_of(parent);
        assert(roots[k] == parent);
    }
}

proof fn lemma_owned_is_closed(
    links: Set<(i32, i32)>,
    roots: Seq<i32>,
    root: i32,
    n: nat,
    pid: i32,
)
    requires
        roots.contains(root),
        reached_in(links, Set::empty(), root, n, pid),
    ensures
        owners(links, roots).dom().contains(pid),
    decreases n,
{
    let all = roots.len() as int;
    lemma_roots_stay_owned(links, roots, all, root);
    if links.contains((root, pid)) {
        lemma_children_owned(links, roots, all, root, pid);
    } else {
        let parent = choose|parent: i32|
            reached_in(links, Set::empty(), root, (n - 1) as nat, parent) && !Set::<i32>::empty().contains(
                parent,
            ) && #[trigger] links.contains((parent, pid));
        lemma_owned_is_closed(links, roots, root, (n - 1) as nat, parent);
        lemma_children_owned(links, roots, all, parent, pid);
    }
}

} // verus!
