//! The decisions of the trace loop: what each stop means and what to do
//! about a trap.

use crate::breakpoint::{BreakpointCallback, SyscallCallback};
use crate::context::TraceContext;
use crate::ptrace::{Registers, WaitPidResult, SIGTRAP};
use vstd::prelude::*;
use vstd::wrapping::u64_specs::wrapping_sub;

verus! {

/// What to do about a thread that trapped.
#[derive(Clone, Copy, Debug, PartialEq, Eq, Structural)]
pub struct TrapPlan {
    /// The trap byte: one before the instruction pointer.
    pub address: u64,
    /// A breakpoint is recorded at `address`: move the instruction pointer
    /// back to it, and step through it after the callbacks.
    pub breakpoint: bool,
    /// The breakpoint callback to run.
    pub callback: Option<BreakpointCallback>,
    /// The callback runs as the thread's one-shot, which is cleared after.
    pub one_shot: bool,
    /// The system-call intercept to run, after which the thread's
    /// in-system-call flag flips.
    pub syscall: Option<SyscallCallback>,
    /// The intercepted call is completing (the thread was inside it).
    pub syscall_complete: bool,
    /// The address space changed: read the layout again, re-index the
    /// symbols and resolve the breakpoints.
    pub refresh_process_map: bool,
}

/// What a trap of thread `tid` with registers `regs` means; `preceding` are
/// the two bytes before the instruction pointer.  At a recorded breakpoint,
/// a one-shot registered for the thread always runs its callback, and a
/// persistent one runs it unless the thread already has an event in
/// progress (allocators may call themselves).  Elsewhere, when the bytes are
/// the `syscall` instruction (`0F 05`) and its number is intercepted, the
/// intercept runs, told whether the thread was inside the call.
pub open spec fn trap_plan(
    context: &TraceContext,
    tid: u32,
    regs: Registers,
    preceding: (u8, u8),
) -> TrapPlan {
    let address = wrapping_sub(regs.rip, 1);
    let bps = context.breakpoint_set.breakpoints@;
    if bps.contains_key(address) {
        let b = bps[address];
        let one_shot = b.one_shot_threads@.contains(tid);
        let fires = one_shot || (b.persist && !context.events.kinds().contains_key(tid));
        TrapPlan {
            address,
            breakpoint: true,
            callback: if fires {
                Some(b.callback)
            } else {
                None
            },
            one_shot,
            syscall: None,
            syscall_complete: false,
            refresh_process_map: false,
        }
    } else {
        let intercepts = context.breakpoint_set.syscall_intercepts@;
        let id = regs.orig_rax as i64;
        if preceding == (0x0Fu8, 0x05u8) && intercepts.contains_key(id) {
            let complete = context.in_syscall(tid);
            TrapPlan {
                address,
                breakpoint: false,
                callback: None,
                one_shot: false,
                syscall: Some(intercepts[id]),
                syscall_complete: complete,
                refresh_process_map: intercepts[id] == SyscallCallback::Mmap && complete,
            }
        } else {
            TrapPlan {
                address,
                breakpoint: false,
                callback: None,
                one_shot: false,
                syscall: None,
                syscall_complete: false,
                refresh_process_map: false,
            }
        }
    }
}

/// Decides what to do about a trap of thread `tid`, whose registers are
/// `regs` and whose two bytes before the instruction pointer are
/// `preceding`.
pub fn on_breakpoint(context: &TraceContext, tid: u32, regs: &Registers, preceding: (u8, u8)) -> (r:
    TrapPlan)
    ensures
        r == trap_plan(context, tid, *regs, preceding),
{
    let address = regs.rip.wrapping_sub(1);
    match context.breakpoint_set.breakpoints.get(&address) {
        Some(breakpoint) => {
            let one_shot = breakpoint.one_shot_threads.contains(&tid);
            let fires = one_shot || (breakpoint.persist && !context.events.is_event_in_progress(
                tid,
            ));
            TrapPlan {
                address,
                breakpoint: true,
                callback: if fires {
                    Some(breakpoint.callback)
                } else {
                    None
                },
                one_shot,
                syscall: None,
                syscall_complete: false,
                refresh_process_map: false,
            }
        },
        None => {
            let id = regs.orig_rax as i64;
            let intercept = if preceding.0 == 0x0F && preceding.1 == 0x05 {
                context.breakpoint_set.syscall_intercept(id)
            } else {
                None
            };
            match intercept {
                Some(callback) => {
                    let complete = match context.thread_context.get(&tid) {
                        Some(c) => c.in_syscall,
                        None => false,
                    };
                    TrapPlan {
                        address,
                        breakpoint: false,
                        callback: None,
                        one_shot: false,
                        syscall: Some(callback),
                        syscall_complete: complete,
                        refresh_process_map: callback == SyscallCallback::Mmap && complete,
                    }
                },
                None => TrapPlan {
                    address,
                    breakpoint: false,
                    callback: None,
                    one_shot: false,
                    syscall: None,
                    syscall_complete: false,
                    refresh_process_map: false,
                },
            }
        },
    }
}

/// What to do after a wait in the trace loop.
#[derive(Clone, Copy, Debug, PartialEq, Eq, Structural)]
pub enum LoopAction {
    /// The thread trapped: handle the trap, then resume it swallowing the
    /// signal, stopping at its next system call.
    HandleTrap(u32),
    /// The thread stopped with another signal: resume it delivering it.
    Forward(u32, u8),
    /// The thread spawned one: wait for the new thread's first stop, then
    /// resume both.
    AdoptThread(u32),
    /// A thread other than the main one ended.
    ThreadEnded(u32),
    /// The main thread ended: the trace is complete.
    Finish,
}

/// What the trace loop of the process whose main thread is `pid` does when
/// the wait reports `status` for thread `status_pid`.
pub fn trace_loop_action(pid: u32, status_pid: u32, status: WaitPidResult) -> (r: LoopAction)
    ensures
        r == match status {
            WaitPidResult::Stopped(s) => if s == SIGTRAP {
                LoopAction::HandleTrap(status_pid)
            } else {
                LoopAction::Forward(status_pid, s)
            },
            WaitPidResult::EventClone => LoopAction::AdoptThread(status_pid),
            _ => if status_pid == pid {
                LoopAction::Finish
            } else {
                LoopAction::ThreadEnded(status_pid)
            },
        },
{
    match status {
        WaitPidResult::Stopped(signal) => {
            if signal == SIGTRAP {
                LoopAction::HandleTrap(status_pid)
            } else {
                LoopAction::Forward(status_pid, signal)
            }
        },
        WaitPidResult::EventClone => LoopAction::AdoptThread(status_pid),
        _ => {
            if status_pid == pid {
                LoopAction::Finish
            } else {
                LoopAction::ThreadEnded(status_pid)
            }
        },
    }
}

/// The signal to deliver when detaching from a thread whose last wait
/// reported `status`: its stop signal, or none (0).
pub fn detach_signal(status: WaitPidResult) -> (r: u8)
    ensures
        r == match status {
            WaitPidResult::Stopped(s) => s,
            _ => 0,
        },
{
    match status {
        WaitPidResult::Stopped(signal) => signal,
        _ => 0,
    }
}

} // verus!
