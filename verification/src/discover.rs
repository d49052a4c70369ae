//! Tree discovery: the full descendant set of a root pid, computed by
//! breadth-first traversal over a point-in-time process-table snapshot
//! (a sequence of `(pid, parent pid)` pairs). The traversal terminates and
//! visits each pid at most once even on stale or cyclic snapshot data.

use vstd::prelude::*;

use crate::pidset::PidSet;

verus! {

/// `child` is listed in the snapshot as a direct child of `parent`.
pub open spec fn is_child_of(table: Seq<(i32, i32)>, parent: i32, child: i32) -> bool {
    exists|k: int| 0 <= k < table.len() && table[k].0 == child && table[k].1 == parent
}

/// `p` can be reached from `root` by following the child relation at most
/// `n` steps.
pub open spec fn reach_within(table: Seq<(i32, i32)>, root: i32, p: i32, n: nat) -> bool
    decreases n,
{
    p == root || (n > 0 && exists|q: i32|
        reach_within(table, root, q, (n - 1) as nat) && is_child_of(table, q, p))
}

/// `p` is `root` itself or one of its (transitive) descendants per the
/// snapshot.
pub open spec fn reachable(table: Seq<(i32, i32)>, root: i32, p: i32) -> bool {
    exists|n: nat| reach_within(table, root, p, n)
}

/// Everything reachable from `root` in the snapshot.
pub open spec fn descendant_set(root: i32, table: Seq<(i32, i32)>) -> Set<i32> {
    Set::new(|p: i32| reachable(table, root, p))
}

/// The pids that appear as processes in the snapshot.
pub open spec fn table_pids(table: Seq<(i32, i32)>) -> Set<i32> {
    table.map_values(|e: (i32, i32)| e.0).to_set()
}

/// What discovery must return: nothing for a protected root (`root <= 1`),
/// only the root itself when no snapshot could be captured, and the full
/// reachable set otherwise.
pub open spec fn discovered_spec(root: i32, snapshot: Option<Seq<(i32, i32)>>) -> Set<i32> {
    if root <= 1 {
        Set::<i32>::empty()
    } else {
        match snapshot {
            Option::None => Set::<i32>::empty().insert(root),
            Option::Some(table) => descendant_set(root, table),
        }
    }
}

/// The view of an optional captured snapshot.
pub open spec fn snapshot_view(snapshot: Option<Vec<(i32, i32)>>) -> Option<Seq<(i32, i32)>> {
    match snapshot {
        Option::None => Option::None,
        Option::Some(v) => Option::Some(v@),
    }
}

/// In a set that contains `root` and is closed under the child relation,
/// every pid reachable within `n` steps is a member.
proof fn lemma_reach_within_closed(
    table: Seq<(i32, i32)>,
    root: i32,
    s: Set<i32>,
    p: i32,
    n: nat,
)
    requires
        s.contains(root),
        forall|a: i32, c: i32| s.contains(a) && #[trigger] is_child_of(table, a, c)
            ==> s.contains(c),
        reach_within(table, root, p, n),
    ensures
        s.contains(p),
    decreases n,
{
    if p != root {
        let q = choose|q: i32|
            reach_within(table, root, q, (n - 1) as nat) && is_child_of(table, q, p);
        lemma_reach_within_closed(table, root, s, q, (n - 1) as nat);
    }
}

/// Every pid reachable within `n` steps from a root that the snapshot lists
/// no child for is the root itself.
proof fn lemma_reach_without_children(table: Seq<(i32, i32)>, root: i32, p: i32, n: nat)
    requires
        forall|k: int| 0 <= k < table.len() ==> (#[trigger] table[k]).1 != root,
        reach_within(table, root, p, n),
    ensures
        p == root,
    decreases n,
{
    if p != root {
        let q = choose|q: i32|
            reach_within(table, root, q, (n - 1) as nat) && is_child_of(table, q, p);
        lemma_reach_without_children(table, root, q, (n - 1) as nat);
        let k = choose|k: int| 0 <= k < table.len() && table[k].0 == p && table[k].1 == root;
        assert(false);
    }
}

/// A root that the snapshot lists no child for is discovered exactly alone:
/// its descendant set is `{root}`.
pub proof fn lemma_no_children_only_root(table: Seq<(i32, i32)>, root: i32)
    requires
        forall|k: int| 0 <= k < table.len() ==> (#[trigger] table[k]).1 != root,
    ensures
        descendant_set(root, table) == Set::<i32>::empty().insert(root),
{
    assert forall|p: i32| descendant_set(root, table).contains(p) implies p == root by {
        let n = choose|n: nat| reach_within(table, root, p, n);
        lemma_reach_without_children(table, root, p, n);
    };
    assert(reach_within(table, root, root, 0));
    assert(descendant_set(root, table) =~= Set::<i32>::empty().insert(root));
}

/// Breadth-first discovery of the descendant set of `root_pid`.
///
/// With no snapshot available the result degenerates to `{root_pid}`; a
/// protected root (`<= 1`) yields the empty set; otherwise the result is
/// exactly the set of pids reachable from `root_pid` through the snapshot's
/// parent relation. The result is duplicate-free (each pid is visited at most
/// once), and the traversal terminates even on cyclic snapshot data.
#[verifier::loop_isolation(false)]
pub fn discover_descendants(root_pid: i32, snapshot: &Option<Vec<(i32, i32)>>) -> (r: PidSet)
    ensures
        r.wf(),
        r.seq().no_duplicates(),
        r@ == discovered_spec(root_pid, snapshot_view(*snapshot)),
{
    if root_pid <= 1 {
        let empty = PidSet::new();
        proof {
            empty.seq_props();
        }
        return empty;
    }
    let table = match snapshot {
        Option::None => {
            let alone = PidSet::singleton(root_pid);
            proof {
                alone.seq_props();
            }
            return alone;
        },
        Option::Some(t) => t,
    };
    let n = table.len();

    let mut visited = PidSet::new();
    visited.insert(root_pid);
    let mut queue: Vec<i32> = Vec::new();
    queue.push(root_pid);
    let mut head: usize = 0;

    proof {
        assert(reach_within(table@, root_pid, root_pid, 0));
        assert(visited@ =~= Set::<i32>::empty().insert(root_pid));
    }

    while head < queue.len()
        invariant
            visited.wf(),
            queue@ == visited.seq(),
            head <= queue@.len(),
            visited@.contains(root_pid),
            forall|p: i32| #[trigger] visited@.contains(p)
                ==> reachable(table@, root_pid, p),
            forall|p: i32| #[trigger] visited@.contains(p)
                ==> p == root_pid || table_pids(table@).contains(p),
            forall|j: int, k: int|
                #![trigger queue@[j], table@[k]]
                0 <= j < head && 0 <= k < table@.len() && table@[k].1 == queue@[j]
                    ==> visited@.contains(table@[k].0),
        decreases n + 1 - head,
    {
        let q = queue[head];
        let mut k: usize = 0;
        while k < n
            invariant
                visited.wf(),
                queue@ == visited.seq(),
                head < queue@.len(),
                queue@[head as int] == q,
                visited@.contains(root_pid),
                forall|p: i32| #[trigger] visited@.contains(p)
                    ==> reachable(table@, root_pid, p),
                forall|p: i32| #[trigger] visited@.contains(p)
                    ==> p == root_pid || table_pids(table@).contains(p),
                forall|j: int, kk: int|
                    #![trigger queue@[j], table@[kk]]
                    0 <= j < head && 0 <= kk < table@.len() && table@[kk].1 == queue@[j]
                        ==> visited@.contains(table@[kk].0),
                forall|kk: int| 0 <= kk < k && (#[trigger] table@[kk]).1 == q
                    ==> visited@.contains(table@[kk].0),
            decreases n - k,
        {
            let entry = table[k];
            if entry.1 == q {
                let c = entry.0;
                if !visited.contains(c) {
                    proof {
                        assert(visited@.contains(q)) by {
                            assert(visited.seq()[head as int] == q);
                            assert(visited.seq().contains(q));
                            visited.seq_props();
                        }
                        let nq = choose|m: nat| reach_within(table@, root_pid, q, m);
                        assert(is_child_of(table@, q, c)) by {
                            assert(0 <= k < table@.len() && table@[k as int].0 == c
                                && table@[k as int].1 == q);
                        }
                        assert(reach_within(table@, root_pid, c, nq + 1));
                        assert(reachable(table@, root_pid, c));
                        assert(table@.map_values(|e: (i32, i32)| e.0)[k as int] == c);
                        assert(table@.map_values(|e: (i32, i32)| e.0).contains(c));
                        assert(table_pids(table@).contains(c));
                    }
                    visited.insert(c);
                    queue.push(c);
                }
            }
            k += 1;
        }
        head += 1;
        proof {
            visited.seq_props();
            let all = table_pids(table@).insert(root_pid);
            assert(visited@.subset_of(all));
            broadcast use vstd::seq_lib::seq_to_set_is_finite;

            table@.map_values(|e: (i32, i32)| e.0).lemma_cardinality_of_set();
            vstd::set_lib::lemma_len_subset(visited@, all);
            assert(visited@.len() <= n + 1);
            assert(head <= queue@.len());
        }
    }

    proof {
        visited.seq_props();
        assert forall|a: i32, c: i32|
            visited@.contains(a) && #[trigger] is_child_of(table@, a, c)
        implies visited@.contains(c) by {
            assert(visited.seq().contains(a));
            let j = choose|j: int| 0 <= j < queue@.len() && queue@[j] == a;
            let k = choose|k: int|
                0 <= k < table@.len() && table@[k].0 == c && table@[k].1 == a;
            assert(0 <= j < head && 0 <= k < table@.len() && table@[k].1 == queue@[j]);
        };
        assert forall|p: i32| descendant_set(root_pid, table@).contains(p)
        implies visited@.contains(p) by {
            let m = choose|m: nat| reach_within(table@, root_pid, p, m);
            lemma_reach_within_closed(table@, root_pid, visited@, p, m);
        };
        assert(visited@ =~= descendant_set(root_pid, table@));
    }
    visited
}

} // verus!
