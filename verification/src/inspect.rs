//! Process inspection: stateless probes of the OS process table. The probes
//! go through the `nix` crate; their outcomes depend on the machine's state,
//! so the contracts state only what holds of every outcome — most
//! importantly, that protected ids (`<= 1`) are never reported alive and
//! never signaled.

use vstd::prelude::*;

use crate::pidset::PidSet;

verus! {

/// What a `kill` call is asked to do: probe only (signal 0), deliver the
/// graceful termination signal, or deliver the unconditional kill signal.
#[derive(Clone, Copy, PartialEq, Eq, Structural, Debug)]
pub enum KillMode {
    Probe,
    Term,
    Kill,
}

/// Relies on `nix::sys::signal::kill`: sends the chosen signal (or, for
/// `Probe`, signal 0, which delivers nothing) to `target` — a pid, or a whole
/// process group when negative. Returns false exactly when the call failed
/// with "no such process"; any other outcome, success or failure, yields
/// true. The outcome depends on the machine's process table, so nothing more
/// is promised of it.
#[verifier::external_body]
pub(crate) fn kill_syscall(target: i32, mode: KillMode) -> (found: bool) {
    let sig = match mode {
        KillMode::Probe => None,
        KillMode::Term => Some(nix::sys::signal::Signal::SIGTERM),
        KillMode::Kill => Some(nix::sys::signal::Signal::SIGKILL),
    };
    !matches!(
        nix::sys::signal::kill(nix::unistd::Pid::from_raw(target), sig),
        Err(nix::errno::Errno::ESRCH)
    )
}

/// Relies on `nix::unistd::getpgid`: the process group of `pid`, or `None`
/// where it could not be determined. The outcome depends on the machine's
/// process table.
#[verifier::external_body]
fn group_of_pid(pid: i32) -> (group: Option<i32>) {
    match nix::unistd::getpgid(Some(nix::unistd::Pid::from_raw(pid))) {
        Ok(g) => Some(g.as_raw()),
        Err(_) => None,
    }
}

/// Relies on `nix::unistd::getpid`: the calling process's own pid.
#[verifier::external_body]
pub(crate) fn current_pid() -> (pid: i32) {
    nix::unistd::getpid().as_raw()
}

/// The process group of the calling process, or -1 where the lookup failed.
pub(crate) fn current_process_group() -> (group: i32) {
    match group_of_pid(current_pid()) {
        Option::Some(g) => g,
        Option::None => -1,
    }
}

/// Whether `pid` currently exists. A protected pid (`<= 1`) always reports
/// false; otherwise the probe is conservative — only a definite "no such
/// process" reports false.
pub fn pid_exists(pid: i32) -> (alive: bool)
    ensures
        pid <= 1 ==> alive == false,
{
    if pid <= 1 {
        return false;
    }
    kill_syscall(pid, KillMode::Probe)
}

/// Whether process group `pgid` currently has members, probed through the
/// negated-pid addressing convention. A protected group (`<= 1`) always
/// reports false.
pub fn pgid_exists(pgid: i32) -> (alive: bool)
    ensures
        pgid <= 1 ==> alive == false,
{
    if pgid <= 1 {
        return false;
    }
    kill_syscall(-pgid, KillMode::Probe)
}

/// Best-effort process-group lookup over a set of pids; pids whose group
/// cannot be determined are silently omitted, so the result has at most one
/// entry per input pid.
pub fn process_groups(pids: &PidSet) -> (groups: PidSet)
    requires
        pids.wf(),
    ensures
        groups.wf(),
        groups@.len() <= pids@.len(),
{
    proof {
        pids.seq_props();
    }
    let n = pids.len();
    let mut groups = PidSet::new();
    let mut i: usize = 0;
    while i < n
        invariant
            pids.wf(),
            n == pids@.len(),
            n == pids.seq().len(),
            0 <= i <= n,
            groups.wf(),
            groups@.len() <= i,
        decreases n - i,
    {
        let pid = pids.get(i);
        let ghost before = groups@;
        proof {
            groups.seq_props();
        }
        match group_of_pid(pid) {
            Option::Some(g) => {
                groups.insert(g);
                proof {
                    vstd::set::axiom_set_insert_len(before, g);
                    assert(groups@.len() <= before.len() + 1);
                }
            },
            Option::None => {},
        }
        i += 1;
    }
    groups
}

} // verus!
