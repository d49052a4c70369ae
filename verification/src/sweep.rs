//! The termination engine's verified core: one escalating sweep pass.
//! A full termination runs up to `SWEEP_PASSES` passes, re-observing the
//! tree before each one, and escalates from the pass-zero signal to the
//! kill-level signal on every later pass. The sleeps between passes and the
//! capture of fresh snapshots are outside work; the caller drives the passes
//! and hands each one its snapshot.

use vstd::prelude::*;

use crate::inspect::kill_syscall;
use crate::inspect::KillMode;
use crate::pidset::PidSet;
use crate::tracker::absorb_pids;
use crate::tracker::admit_groups;
use crate::tracker::Tracker;
use crate::discover::snapshot_view;

verus! {

/// The most passes one sweep performs before giving up.
pub const SWEEP_PASSES: u32 = 3;

/// The signal level a sweep pass delivers: the graceful termination signal,
/// or the unconditional kill signal.
#[derive(Clone, Copy, PartialEq, Eq, Structural, Debug)]
pub enum SweepSignal {
    Term,
    Kill,
}

/// The escalation rule: the configured first signal on pass zero, the
/// kill-level signal on every later pass — grace is given only once.
pub open spec fn signal_for_pass(pass: int, first_signal: SweepSignal) -> SweepSignal {
    if pass == 0 {
        first_signal
    } else {
        SweepSignal::Kill
    }
}

/// The members of `targets` that a sweep may actually signal: everything
/// but the protected ids (`<= 1`).
pub open spec fn eligible(targets: Set<i32>) -> Set<i32> {
    targets.filter(|v: i32| v > 1)
}

/// The pid guard as a law: over sets whose members are all protected
/// (`<= 1`), a sweep delivers zero signals — both eligible sets are empty.
pub proof fn lemma_protected_targets_untouched(pids: Set<i32>, groups: Set<i32>)
    requires
        forall|p: i32| #[trigger] pids.contains(p) ==> p <= 1,
        forall|g: i32| #[trigger] groups.contains(g) ==> g <= 1,
    ensures
        eligible(pids) == Set::<i32>::empty(),
        eligible(groups) == Set::<i32>::empty(),
{
    assert(eligible(pids) =~= Set::<i32>::empty());
    assert(eligible(groups) =~= Set::<i32>::empty());
}

/// Delivers `signal` to every eligible pid in `pids` and, when
/// `kill_groups` is set, to every eligible group in `groups` (through the
/// negated-pid convention, so each group is signaled as a unit). Returns
/// exactly the sets of pids and groups that were signaled: the protected
/// ids (`<= 1`) among the targets are never signaled. Delivery failures are
/// expected races and are swallowed.
#[verifier::loop_isolation(false)]
pub fn terminate_targets(
    pids: &PidSet,
    groups: &PidSet,
    signal: SweepSignal,
    kill_groups: bool,
) -> (hit: (PidSet, PidSet))
    requires
        pids.wf(),
        groups.wf(),
    ensures
        hit.0.wf(),
        hit.1.wf(),
        hit.0@ == eligible(pids@),
        kill_groups ==> hit.1@ == eligible(groups@),
        !kill_groups ==> hit.1@ == Set::<i32>::empty(),
{
    let mode = match signal {
        SweepSignal::Term => KillMode::Term,
        SweepSignal::Kill => KillMode::Kill,
    };
    proof {
        pids.seq_props();
        groups.seq_props();
    }

    let mut hit_groups = PidSet::new();
    if kill_groups {
        let n = groups.len();
        let mut i: usize = 0;
        while i < n
            invariant
                hit_groups.wf(),
                0 <= i <= n,
                hit_groups@ == eligible(groups.seq().subrange(0, i as int).to_set()),
            decreases n - i,
        {
            let g = groups.get(i);
            if g > 1 {
                kill_syscall(-g, mode);
                hit_groups.insert(g);
            }
            proof {
                assert(groups.seq().subrange(0, i + 1 as int)
                    == groups.seq().subrange(0, i as int).push(g));
                groups.seq().subrange(0, i as int).lemma_push_to_set_commute(g);
                assert(hit_groups@ =~= eligible(
                    groups.seq().subrange(0, i + 1 as int).to_set(),
                ));
            }
            i += 1;
        }
        proof {
            assert(groups.seq().subrange(0, n as int) == groups.seq());
        }
    }

    let mut hit_pids = PidSet::new();
    let n = pids.len();
    let mut i: usize = 0;
    while i < n
        invariant
            hit_pids.wf(),
            0 <= i <= n,
            hit_pids@ == eligible(pids.seq().subrange(0, i as int).to_set()),
        decreases n - i,
    {
        let p = pids.get(i);
        if p > 1 {
            kill_syscall(p, mode);
            hit_pids.insert(p);
        }
        proof {
            assert(pids.seq().subrange(0, i + 1 as int)
                == pids.seq().subrange(0, i as int).push(p));
            pids.seq().subrange(0, i as int).lemma_push_to_set_commute(p);
            assert(hit_pids@ =~= eligible(pids.seq().subrange(0, i + 1 as int).to_set()));
        }
        i += 1;
    }
    proof {
        assert(pids.seq().subrange(0, n as int) == pids.seq());
    }
    (hit_pids, hit_groups)
}

/// One pass of the escalating sweep: re-observe the tree from `snapshot`,
/// compute the live pid and group subsets, and — unless both are empty, in
/// which case the tree is clean and the pass is done — deliver this pass's
/// signal to them. Returns whether the sweep may stop early, and which
/// signal level was delivered (`None` exactly when the pass was clean);
/// a delivered signal always follows the escalation rule.
pub fn sweep_pass(
    tracker: &mut Tracker,
    snapshot: &Option<Vec<(i32, i32)>>,
    pass: u32,
    first_signal: SweepSignal,
    kill_groups: bool,
) -> (outcome: (bool, Option<SweepSignal>))
    requires
        old(tracker).wf(),
    ensures
        final(tracker).wf(),
        final(tracker).root_spec() == old(tracker).root_spec(),
        final(tracker).wrapper_spec() == old(tracker).wrapper_spec(),
        final(tracker).pids() == absorb_pids(
            old(tracker).pids(),
            old(tracker).root_spec(),
            snapshot_view(*snapshot),
        ),
        exists|groups: Set<i32>| final(tracker).pgids() == admit_groups(
            old(tracker).pgids(),
            groups,
            old(tracker).wrapper_spec(),
        ),
        outcome.0 == (outcome.1 is None),
        !outcome.0 ==> outcome.1 == Some(signal_for_pass(pass as int, first_signal)),
{
    tracker.observe(snapshot);
    let live = tracker.live_pids();
    let live_groups = tracker.live_pgids();
    if live.is_empty() && live_groups.is_empty() {
        return (true, None);
    }
    let signal = if pass == 0 {
        first_signal
    } else {
        SweepSignal::Kill
    };
    let _hit = terminate_targets(&live, &live_groups, signal, kill_groups);
    (false, Some(signal))
}

} // verus!
