//! The event loop's decisions. The loop itself lives with the process
//! plumbing (spawning, channels, listener threads); every choice it makes —
//! what a poll outcome means, when the parent counts as gone, when the
//! watchdog is armed, when an observation is due — is decided here.

use vstd::prelude::*;

use crate::exit::exit_code_from_signal;
use crate::exit::exit_code_from_status;
use crate::exit::signal_exit_spec;
use crate::exit::status_exit_spec;

verus! {

/// How long the loop waits on the event channel before polling again.
pub const POLL_INTERVAL_MS: u64 = 150;

/// The cadence on which the tracker re-observes the tree.
pub const OBSERVE_INTERVAL_MS: u64 = 800;

/// The cadence on which the parent watchdog re-checks its parent.
pub const PARENT_CHECK_INTERVAL_MS: u64 = 400;

/// How long the loop waits for a signaled child to be reaped.
pub const REAP_TIMEOUT_MS: u64 = 1500;

/// The grace period between the terminate phase and the kill phase of a
/// full termination.
pub const TERM_GRACE_MS: u64 = 1200;

/// The signal number whose exit-code mapping stands in for a vanished
/// parent: the hang-up signal.
pub const HANGUP_SIGNAL: i32 = 1;

/// What the two background listeners put on the coordination channel:
/// a received termination-class signal, or the loss of the parent process.
#[derive(Clone, Copy, PartialEq, Eq, Structural, Debug)]
pub enum Event {
    Signal(i32),
    ParentGone,
}

/// What one wait on the coordination channel yielded.
#[derive(Clone, Copy, PartialEq, Eq, Structural, Debug)]
pub enum ChannelPoll {
    Delivered(Event),
    TimedOut,
    Disconnected,
}

/// What the loop must do next.
#[derive(Clone, Copy, PartialEq, Eq, Structural, Debug)]
pub enum LoopStep {
    /// No terminal condition: poll again.
    Continue,
    /// The child exited on its own: run the post-exit sweep (pids only, no
    /// group targeting) and exit with the given code.
    ExitedSweep { exit_code: u8 },
    /// A signal arrived or the parent vanished: run the aggressive sweep
    /// (groups included), reap the child with a bounded wait, and exit with
    /// the given code.
    TerminateSweep { exit_code: u8 },
    /// The coordination channel broke: supervision is unmanaged; abort.
    Fail,
}

/// The step the loop takes for a given poll: `child_status` is
/// `Some((code, signal))` once the child has exited (checked first), and
/// `channel` is what the wait on the event channel yielded otherwise.
pub open spec fn next_step_spec(
    child_status: Option<(Option<i32>, Option<i32>)>,
    channel: ChannelPoll,
) -> LoopStep {
    match child_status {
        Option::Some((code, signal)) => LoopStep::ExitedSweep {
            exit_code: status_exit_spec(code, signal) as u8,
        },
        Option::None => match channel {
            ChannelPoll::Delivered(Event::Signal(n)) => LoopStep::TerminateSweep {
                exit_code: signal_exit_spec(n as int) as u8,
            },
            ChannelPoll::Delivered(Event::ParentGone) => LoopStep::TerminateSweep {
                exit_code: signal_exit_spec(HANGUP_SIGNAL as int) as u8,
            },
            ChannelPoll::TimedOut => LoopStep::Continue,
            ChannelPoll::Disconnected => LoopStep::Fail,
        },
    }
}

/// Decides the loop's next step. A child exit wins over anything on the
/// channel; a delivered signal or a vanished parent each terminate with the
/// matching exit code (parent loss counts as a hang-up); a timeout
/// continues; a disconnected channel is a fatal internal error.
pub fn next_step(
    child_status: Option<(Option<i32>, Option<i32>)>,
    channel: ChannelPoll,
) -> (step: LoopStep)
    ensures
        step == next_step_spec(child_status, channel),
{
    match child_status {
        Option::Some((code, signal)) => LoopStep::ExitedSweep {
            exit_code: exit_code_from_status(code, signal),
        },
        Option::None => match channel {
            ChannelPoll::Delivered(Event::Signal(n)) => LoopStep::TerminateSweep {
                exit_code: exit_code_from_signal(n),
            },
            ChannelPoll::Delivered(Event::ParentGone) => LoopStep::TerminateSweep {
                exit_code: exit_code_from_signal(HANGUP_SIGNAL),
            },
            ChannelPoll::TimedOut => LoopStep::Continue,
            ChannelPoll::Disconnected => LoopStep::Fail,
        },
    }
}

/// Whether the watchdog's poll must report the parent as gone: it changed,
/// or it became the reaper pid (1).
pub fn parent_vanished(original_parent: i32, current_parent: i32) -> (gone: bool)
    ensures
        gone == (current_parent != original_parent || current_parent == 1),
{
    current_parent != original_parent || current_parent == 1
}

/// Whether the parent watchdog is armed at all: only when its toggle is set
/// and the process is attached to an interactive terminal on either side.
pub fn watchdog_armed(
    toggle_set: bool,
    stdin_is_terminal: bool,
    stdout_is_terminal: bool,
) -> (armed: bool)
    ensures
        armed == (toggle_set && (stdin_is_terminal || stdout_is_terminal)),
{
    toggle_set && (stdin_is_terminal || stdout_is_terminal)
}

/// Whether the observation cadence has elapsed and the tracker must
/// re-observe.
pub fn observe_due(elapsed_ms: u64) -> (due: bool)
    ensures
        due == (elapsed_ms >= OBSERVE_INTERVAL_MS),
{
    elapsed_ms >= OBSERVE_INTERVAL_MS
}

} // verus!
