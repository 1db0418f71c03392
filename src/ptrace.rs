//! Values exchanged with the kernel debug interface: wait statuses and the
//! registers the engine reads.

use vstd::prelude::*;

verus! {

/// The trace was asked to stop by a termination signal.
#[derive(Debug, PartialEq, Eq, Structural)]
pub struct SignaledError;

/// What a wait for a traced thread reported.
#[derive(Clone, Copy, Debug, PartialEq, Eq, Structural)]
pub enum WaitPidResult {
    /// The thread exited with this code.
    Exited(u8),
    /// The thread was killed by this signal.
    Signaled(u8),
    /// The thread stopped with this signal.
    Stopped(u8),
    /// The thread spawned a new thread.
    EventClone,
}

/// The registers of a stopped thread that the engine reads.
#[derive(Clone, Copy, Debug, PartialEq, Eq, Structural)]
pub struct Registers {
    /// Instruction pointer.
    pub rip: u64,
    /// Return value.
    pub rax: u64,
    /// First integer argument.
    pub rdi: u64,
    /// Second integer argument.
    pub rsi: u64,
    /// System call number at a system-call stop.
    pub orig_rax: u64,
}

pub const SIGTRAP: u8 = 5;

pub const SIGSTOP: u8 = 19;

pub const PTRACE_EVENT_CLONE: i32 = 3;

/// How a raw wait status reads: a clone event when the event field (bits 16
/// and up) says so; else exited (low seven bits zero) with the code in bits
/// 8 to 15; else killed (low seven bits from 1 to 126) by the signal in the
/// low seven bits; else stopped (low byte `0x7f`) by the signal in bits 8 to
/// 15; else nothing known.
pub open spec fn wait_status_spec(status: i32) -> Option<WaitPidResult> {
    if status >> 16 == PTRACE_EVENT_CLONE {
        Some(WaitPidResult::EventClone)
    } else if status & 0x7f == 0 {
        Some(WaitPidResult::Exited(((status >> 8) & 0xff) as u8))
    } else if 1 <= status & 0x7f <= 126 {
        Some(WaitPidResult::Signaled((status & 0x7f) as u8))
    } else if status & 0xff == 0x7f {
        Some(WaitPidResult::Stopped(((status >> 8) & 0xff) as u8))
    } else {
        None
    }
}

/// Decodes a raw wait status; none for a status of no known form.
pub fn decode_wait_status(status: i32) -> (r: Option<WaitPidResult>)
    ensures
        r == wait_status_spec(status),
{
    if status >> 16 == PTRACE_EVENT_CLONE {
        return Some(WaitPidResult::EventClone);
    }
    let low = status & 0x7f;
    let high = (status >> 8) & 0xff;
    assert(0 <= status & 0x7f <= 0x7f) by (bit_vector);
    assert(0 <= (status >> 8) & 0xff <= 0xff) by (bit_vector);
    if low == 0 {
        Some(WaitPidResult::Exited(high as u8))
    } else if 1 <= low && low <= 126 {
        Some(WaitPidResult::Signaled(low as u8))
    } else if status & 0xff == 0x7f {
        Some(WaitPidResult::Stopped(high as u8))
    } else {
        None
    }
}

/// The next step while waiting for a given signal on a thread.
#[derive(Clone, Copy, Debug, PartialEq, Eq, Structural)]
pub enum WaitStep {
    /// The awaited signal arrived.
    Done,
    /// Another signal arrived: resume the thread delivering it, and wait on.
    Forward(u8),
    /// The thread ended before the signal came.
    Ended,
}

/// What to do with the wait result `status` while waiting for the signal
/// `wait_signal`.
pub fn wait_for_signal(wait_signal: u8, status: WaitPidResult) -> (r: WaitStep)
    ensures
        r == match status {
            WaitPidResult::Stopped(s) => if s == wait_signal {
                WaitStep::Done
            } else {
                WaitStep::Forward(s)
            },
            _ => WaitStep::Ended,
        },
{
    match status {
        WaitPidResult::Stopped(signal) => {
            if signal == wait_signal {
                WaitStep::Done
            } else {
                WaitStep::Forward(signal)
            }
        },
        _ => WaitStep::Ended,
    }
}

} // verus!
