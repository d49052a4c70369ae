//! Derivation of the supervisor's own exit code from what became of the
//! supervised child: its normal exit code, or the signal that ended it.

use vstd::prelude::*;

verus! {

/// The exit code that stands for termination by `sig`, following the POSIX
/// `128 + signal` convention, clamped to the status-byte range.
pub open spec fn signal_exit_spec(sig: int) -> int {
    if 128 + sig < 0 {
        0
    } else if 128 + sig > 255 {
        255
    } else {
        128 + sig
    }
}

/// The exit code for a child whose status carried `code` (if it exited
/// normally) or `signal` (if a signal ended it). A signal takes precedence;
/// an unreadable status falls back to 1.
pub open spec fn status_exit_spec(code: Option<i32>, signal: Option<i32>) -> int {
    match signal {
        Option::Some(sig) => signal_exit_spec(sig as int),
        Option::None => match code {
            Option::Some(c) => if c < 0 {
                0
            } else if c > 255 {
                255
            } else {
                c as int
            },
            Option::None => 1,
        },
    }
}

/// Exit code reported when the supervisor itself was stopped by signal
/// `signal_number`: `128 + signal`, clamped to a status byte.
pub fn exit_code_from_signal(signal_number: i32) -> (code: u8)
    ensures
        code as int == signal_exit_spec(signal_number as int),
{
    let wide: i64 = 128i64 + signal_number as i64;
    if wide < 0 {
        0
    } else if wide > 255 {
        255
    } else {
        wide as u8
    }
}

/// Exit code for a child whose status has been read: `code` is the normal
/// exit code if any, `signal` the terminating signal if any. A signal maps to
/// `128 + signal`; a normal code is clamped to a status byte; a status that
/// carries neither maps to 1.
pub fn exit_code_from_status(code: Option<i32>, signal: Option<i32>) -> (out: u8)
    ensures
        out as int == status_exit_spec(code, signal),
{
    match signal {
        Option::Some(sig) => exit_code_from_signal(sig),
        Option::None => match code {
            Option::Some(c) => {
                if c < 0 {
                    0
                } else if c > 255 {
                    255
                } else {
                    c as u8
                }
            },
            Option::None => 1,
        },
    }
}

} // verus!
