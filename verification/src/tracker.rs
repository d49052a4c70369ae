//! The tracker: the stateful registry of every pid and process group ever
//! observed as descending from the supervised child. Its sets only ever
//! grow; liveness is re-checked lazily at sweep time instead of entries
//! being removed.

use vstd::prelude::*;

use crate::discover::discover_descendants;
use crate::discover::discovered_spec;
use crate::discover::snapshot_view;
use crate::inspect::current_process_group;
use crate::inspect::pgid_exists;
use crate::inspect::pid_exists;
use crate::inspect::process_groups;
use crate::pidset::PidSet;

verus! {

/// One observation step on the pid registry: the pids discovered from `root`
/// in `snapshot` are absorbed into the known set.
pub open spec fn absorb_pids(
    known: Set<i32>,
    root: i32,
    snapshot: Option<Seq<(i32, i32)>>,
) -> Set<i32> {
    known.union(discovered_spec(root, snapshot))
}

/// One observation step on the group registry: of the groups that the
/// lookups returned, those that are protected (`<= 1`) or are the wrapper's
/// own group are refused; the rest are absorbed.
pub open spec fn admit_groups(known: Set<i32>, groups: Set<i32>, wrapper: i32) -> Set<i32> {
    known.union(groups.filter(|g: i32| g > 1 && g != wrapper))
}

/// Observation is idempotent: absorbing the same discovery result and the
/// same group-lookup result a second time leaves both registries unchanged.
pub proof fn lemma_observe_idempotent(
    known_pids: Set<i32>,
    known_pgids: Set<i32>,
    root: i32,
    snapshot: Option<Seq<(i32, i32)>>,
    groups: Set<i32>,
    wrapper: i32,
)
    ensures
        absorb_pids(absorb_pids(known_pids, root, snapshot), root, snapshot)
            == absorb_pids(known_pids, root, snapshot),
        admit_groups(admit_groups(known_pgids, groups, wrapper), groups, wrapper)
            == admit_groups(known_pgids, groups, wrapper),
{
    assert(absorb_pids(absorb_pids(known_pids, root, snapshot), root, snapshot)
        =~= absorb_pids(known_pids, root, snapshot));
    assert(admit_groups(admit_groups(known_pgids, groups, wrapper), groups, wrapper)
        =~= admit_groups(known_pgids, groups, wrapper));
}

/// The registries only ever gain entries: one observation never removes a
/// known pid or a known group.
pub proof fn lemma_registries_only_grow(
    known_pids: Set<i32>,
    known_pgids: Set<i32>,
    root: i32,
    snapshot: Option<Seq<(i32, i32)>>,
    groups: Set<i32>,
    wrapper: i32,
)
    ensures
        known_pids.subset_of(absorb_pids(known_pids, root, snapshot)),
        known_pgids.subset_of(admit_groups(known_pgids, groups, wrapper)),
{
}

pub struct Tracker {
    root: i32,
    wrapper_pgid: i32,
    known_pids: PidSet,
    known_pgids: PidSet,
}

impl Tracker {
    /// The supervised child's pid, immutable after creation.
    pub closed spec fn root_spec(&self) -> i32 {
        self.root
    }

    /// The supervisor's own process group, used to avoid self-signaling.
    pub closed spec fn wrapper_spec(&self) -> i32 {
        self.wrapper_pgid
    }

    /// Every pid ever observed as descending from the root.
    pub closed spec fn pids(&self) -> Set<i32> {
        self.known_pids@
    }

    /// Every process group ever admitted to the registry.
    pub closed spec fn pgids(&self) -> Set<i32> {
        self.known_pgids@
    }

    /// Well-formedness: the group registry never holds a protected group
    /// (`<= 1`) or the wrapper's own group.
    pub closed spec fn wf(&self) -> bool {
        &&& self.known_pids.wf()
        &&& self.known_pgids.wf()
        &&& forall|g: i32| #[trigger] self.known_pgids@.contains(g)
            ==> g > 1 && g != self.wrapper_pgid
    }

    /// A fresh tracker for the supervised child `root_pid`, with both
    /// registries empty. The wrapper's own group is taken from the OS;
    /// where the lookup fails, -1 stands in for it.
    pub fn new(root_pid: i32) -> (t: Tracker)
        ensures
            t.wf(),
            t.root_spec() == root_pid,
            t.pids() == Set::<i32>::empty(),
            t.pgids() == Set::<i32>::empty(),
    {
        let wrapper_pgid = current_process_group();
        Tracker {
            root: root_pid,
            wrapper_pgid,
            known_pids: PidSet::new(),
            known_pgids: PidSet::new(),
        }
    }

    /// One observation: discovers the root's descendants in `snapshot`,
    /// absorbs them into the pid registry, looks their groups up and admits
    /// every group but the protected ones and the wrapper's own. The group
    /// lookups ask the OS, so their result is stated existentially: some set
    /// of looked-up groups was admitted through the filter.
    #[verifier::loop_isolation(false)]
    pub fn observe(&mut self, snapshot: &Option<Vec<(i32, i32)>>)
        requires
            old(self).wf(),
        ensures
            final(self).wf(),
            final(self).root_spec() == old(self).root_spec(),
            final(self).wrapper_spec() == old(self).wrapper_spec(),
            final(self).pids() == absorb_pids(
                old(self).pids(),
                old(self).root_spec(),
                snapshot_view(*snapshot),
            ),
            exists|groups: Set<i32>| final(self).pgids() == admit_groups(
                old(self).pgids(),
                groups,
                old(self).wrapper_spec(),
            ),
    {
        let descendants = discover_descendants(self.root, snapshot);
        self.known_pids.extend(&descendants);
        let groups = process_groups(&descendants);
        proof {
            groups.seq_props();
        }
        let n = groups.len();
        let mut i: usize = 0;
        while i < n
            invariant
                self.known_pgids.wf(),
                self.root == old(self).root,
                self.wrapper_pgid == old(self).wrapper_pgid,
                self.known_pids.wf(),
                self.known_pids@ == absorb_pids(
                    old(self).pids(),
                    old(self).root_spec(),
                    snapshot_view(*snapshot),
                ),
                0 <= i <= n,
                self.known_pgids@ == admit_groups(
                    old(self).pgids(),
                    groups.seq().subrange(0, i as int).to_set(),
                    old(self).wrapper_spec(),
                ),
                forall|g: i32| #[trigger] self.known_pgids@.contains(g)
                    ==> g > 1 && g != self.wrapper_pgid,
            decreases n - i,
        {
            let g = groups.get(i);
            if g > 1 && g != self.wrapper_pgid {
                self.known_pgids.insert(g);
            }
            proof {
                assert(groups.seq().subrange(0, i + 1 as int)
                    == groups.seq().subrange(0, i as int).push(g));
                groups.seq().subrange(0, i as int).lemma_push_to_set_commute(g);
                assert(self.known_pgids@ =~= admit_groups(
                    old(self).pgids(),
                    groups.seq().subrange(0, i + 1 as int).to_set(),
                    old(self).wrapper_spec(),
                ));
            }
            i += 1;
        }
        proof {
            assert(groups.seq().subrange(0, n as int) == groups.seq());
            assert(self.known_pgids@ == admit_groups(
                old(self).pgids(),
                groups@,
                old(self).wrapper_spec(),
            ));
        }
    }

    /// The subset of known pids that are currently alive. Liveness is asked
    /// of the OS, so the contract promises a subset of the registry whose
    /// members are all unprotected; the protected ids are never reported.
    pub fn live_pids(&self) -> (live: PidSet)
        requires
            self.wf(),
        ensures
            live.wf(),
            live@.subset_of(self.pids()),
            forall|p: i32| #[trigger] live@.contains(p) ==> p > 1,
    {
        proof {
            self.known_pids.seq_props();
        }
        let n = self.known_pids.len();
        let mut live = PidSet::new();
        let mut i: usize = 0;
        while i < n
            invariant
                self.known_pids.wf(),
                n == self.pids().len(),
                n == self.known_pids.seq().len(),
                0 <= i <= n,
                live.wf(),
                live@.subset_of(self.pids()),
                forall|p: i32| #[trigger] live@.contains(p) ==> p > 1,
            decreases n - i,
        {
            let pid = self.known_pids.get(i);
            if pid_exists(pid) {
                live.insert(pid);
            }
            i += 1;
        }
        live
    }

    /// The subset of known process groups that currently have members, by
    /// the same conservative probing as `live_pids`.
    pub fn live_pgids(&self) -> (live: PidSet)
        requires
            self.wf(),
        ensures
            live.wf(),
            live@.subset_of(self.pgids()),
            forall|g: i32| #[trigger] live@.contains(g) ==> g > 1,
    {
        proof {
            self.known_pgids.seq_props();
        }
        let n = self.known_pgids.len();
        let mut live = PidSet::new();
        let mut i: usize = 0;
        while i < n
            invariant
                self.known_pgids.wf(),
                n == self.pgids().len(),
                n == self.known_pgids.seq().len(),
                0 <= i <= n,
                live.wf(),
                live@.subset_of(self.pgids()),
                forall|g: i32| #[trigger] live@.contains(g) ==> g > 1,
            decreases n - i,
        {
            let g = self.known_pgids.get(i);
            if pgid_exists(g) {
                live.insert(g);
            }
            i += 1;
        }
        live
    }

    /// How many pids the registry holds.
    pub fn known_pid_count(&self) -> (n: usize)
        requires
            self.wf(),
        ensures
            n == self.pids().len(),
    {
        self.known_pids.len()
    }

    /// How many process groups the registry holds.
    pub fn known_group_count(&self) -> (n: usize)
        requires
            self.wf(),
        ensures
            n == self.pgids().len(),
    {
        self.known_pgids.len()
    }

    /// Whether `pid` has ever been observed as a descendant.
    pub fn is_known_pid(&self, pid: i32) -> (r: bool)
        ensures
            r == self.pids().contains(pid),
    {
        self.known_pids.contains(pid)
    }

    /// Whether `pgid` has ever been admitted to the group registry.
    pub fn is_known_group(&self, pgid: i32) -> (r: bool)
        ensures
            r == self.pgids().contains(pgid),
    {
        self.known_pgids.contains(pgid)
    }
}

} // verus!
