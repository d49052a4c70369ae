use oclean::next_step;
use oclean::observe_due;
use oclean::parent_vanished;
use oclean::pgid_exists;
use oclean::pid_exists;
use oclean::process_groups;
use oclean::sweep_pass;
use oclean::terminate_targets;
use oclean::watchdog_armed;
use oclean::ChannelPoll;
use oclean::Event;
use oclean::LoopStep;
use oclean::PidSet;
use oclean::SweepSignal;
use oclean::Tracker;

// A pid far above any real pid on the machine, so probes of it and of its
// would-be descendants answer "no such process".
const FAKE_ROOT: i32 = 2000000000;

#[test]
fn exit_codes_follow_the_posix_convention() {
    assert_eq!(oclean::exit_code_from_status(Some(7), None), 7);
    assert_eq!(oclean::exit_code_from_status(Some(0), None), 0);
    assert_eq!(oclean::exit_code_from_status(None, Some(9)), 137);
    assert_eq!(oclean::exit_code_from_status(Some(300), None), 255);
    assert_eq!(oclean::exit_code_from_status(Some(-5), None), 0);
    assert_eq!(oclean::exit_code_from_status(None, None), 1);
    assert_eq!(oclean::exit_code_from_signal(15), 143);
    assert_eq!(oclean::exit_code_from_signal(2), 130);
    assert_eq!(oclean::exit_code_from_signal(1), 129);
}

#[test]
fn loop_steps_match_their_events() {
    assert_eq!(
        next_step(Some((Some(7), None)), ChannelPoll::TimedOut),
        LoopStep::ExitedSweep { exit_code: 7 },
    );
    assert_eq!(
        next_step(Some((None, Some(9))), ChannelPoll::Delivered(Event::Signal(15))),
        LoopStep::ExitedSweep { exit_code: 137 },
    );
    assert_eq!(
        next_step(None, ChannelPoll::Delivered(Event::Signal(15))),
        LoopStep::TerminateSweep { exit_code: 143 },
    );
    assert_eq!(
        next_step(None, ChannelPoll::Delivered(Event::ParentGone)),
        LoopStep::TerminateSweep { exit_code: 129 },
    );
    assert_eq!(next_step(None, ChannelPoll::TimedOut), LoopStep::Continue);
    assert_eq!(next_step(None, ChannelPoll::Disconnected), LoopStep::Fail);
}

#[test]
fn watchdog_decisions() {
    assert!(parent_vanished(100, 200));
    assert!(parent_vanished(100, 1));
    assert!(!parent_vanished(100, 100));
    assert!(parent_vanished(1, 1));

    assert!(watchdog_armed(true, true, false));
    assert!(watchdog_armed(true, false, true));
    assert!(!watchdog_armed(true, false, false));
    assert!(!watchdog_armed(false, true, true));

    assert!(observe_due(800));
    assert!(!observe_due(799));
}

#[test]
fn protected_pids_are_reported_dead() {
    assert!(!pid_exists(1));
    assert!(!pid_exists(0));
    assert!(!pid_exists(-3));
    assert!(!pgid_exists(1));
    assert!(!pgid_exists(0));
    assert!(!pid_exists(FAKE_ROOT));
    assert!(!pgid_exists(FAKE_ROOT));
}

#[test]
fn group_lookups_yield_at_most_one_group_per_pid() {
    let me = nix::unistd::getpid().as_raw();
    let mut pids = PidSet::new();
    pids.insert(me);
    pids.insert(FAKE_ROOT);
    pids.insert(1);
    let groups = process_groups(&pids);
    assert!(groups.len() <= 3);
    let empty = process_groups(&PidSet::new());
    assert_eq!(empty.len(), 0);
}

#[test]
fn protected_targets_receive_zero_signals() {
    let mut pids = PidSet::new();
    pids.insert(1);
    pids.insert(0);
    pids.insert(-3);
    let mut groups = PidSet::new();
    groups.insert(1);
    groups.insert(0);
    let hit = terminate_targets(&pids, &groups, SweepSignal::Term, true);
    assert_eq!(hit.0.len(), 0);
    assert_eq!(hit.1.len(), 0);
}

#[test]
fn only_unprotected_targets_are_signaled() {
    let mut pids = PidSet::new();
    pids.insert(1);
    pids.insert(FAKE_ROOT);
    let groups = PidSet::new();
    let hit = terminate_targets(&pids, &groups, SweepSignal::Kill, false);
    assert_eq!(hit.0.len(), 1);
    assert!(hit.0.contains(FAKE_ROOT));
    assert_eq!(hit.1.len(), 0);
}

#[test]
fn observation_is_idempotent_on_a_fixed_snapshot() {
    let snapshot = Some(vec![
        (FAKE_ROOT + 1, FAKE_ROOT),
        (FAKE_ROOT + 2, FAKE_ROOT + 1),
    ]);
    let mut tracker = Tracker::new(FAKE_ROOT);
    assert_eq!(tracker.known_pid_count(), 0);
    assert_eq!(tracker.known_group_count(), 0);

    tracker.observe(&snapshot);
    let pids_after_one = tracker.known_pid_count();
    let groups_after_one = tracker.known_group_count();
    assert_eq!(pids_after_one, 3);
    assert!(tracker.is_known_pid(FAKE_ROOT));
    assert!(tracker.is_known_pid(FAKE_ROOT + 1));
    assert!(tracker.is_known_pid(FAKE_ROOT + 2));
    // lookups of pids that do not exist yield no groups
    assert_eq!(groups_after_one, 0);

    tracker.observe(&snapshot);
    assert_eq!(tracker.known_pid_count(), pids_after_one);
    assert_eq!(tracker.known_group_count(), groups_after_one);
}

#[test]
fn tracker_never_admits_protected_groups() {
    let snapshot = Some(vec![(1, FAKE_ROOT), (0, 1)]);
    let mut tracker = Tracker::new(FAKE_ROOT);
    tracker.observe(&snapshot);
    assert!(!tracker.is_known_group(0));
    assert!(!tracker.is_known_group(1));
}

#[test]
fn sweep_pass_on_a_dead_tree_is_clean() {
    let mut tracker = Tracker::new(FAKE_ROOT);
    let snapshot = Some(vec![(FAKE_ROOT + 1, FAKE_ROOT)]);
    let outcome = sweep_pass(&mut tracker, &snapshot, 0, SweepSignal::Term, true);
    assert_eq!(outcome, (true, None));
    // both discovered pids are registered even though neither is alive
    assert_eq!(tracker.known_pid_count(), 2);
    assert_eq!(tracker.live_pids().len(), 0);
    assert_eq!(tracker.live_pgids().len(), 0);
}

#[test]
fn pid_set_ignores_duplicates() {
    let mut set = PidSet::new();
    set.insert(5);
    set.insert(5);
    set.insert(6);
    assert_eq!(set.len(), 2);
    assert!(set.contains(5));
    assert!(set.contains(6));
    assert!(!set.contains(7));
    let mut other = PidSet::new();
    other.insert(6);
    other.insert(7);
    set.extend(&other);
    assert_eq!(set.len(), 3);
}
