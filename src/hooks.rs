//! The intercepts of the C allocator, and what each one does with the
//! registers and stack of the thread that hit it.

use crate::breakpoint::{BreakpointCallback, BreakpointSet, SyscallCallback};
use crate::context::TraceContext;
use crate::ptrace::Registers;
use crate::record::{completion_records, CompletedEvent, EventType, NoEventInProgress, RecordInProgress};
use crate::unwind::StackEntry;
use crate::word::word_address;
use std::collections::HashMap;
use vstd::prelude::*;
use vstd::wrapping::u64_specs::wrapping_mul;

verus! {

/// The x86_64 system call number of `mmap`.
pub const SYS_MMAP: i64 = 9;

/// What a hit on an allocator hook asks for.
#[derive(Clone, Copy, Debug, PartialEq, Eq, Structural)]
pub struct HookAction {
    /// Install a one-shot return breakpoint for the thread at this address.
    pub return_breakpoint: Option<u64>,
    /// Open an event of this kind on the thread, with its stack.
    pub start: Option<EventType>,
    /// Then complete the thread's event with this address.
    pub complete: Option<u64>,
}

/// The hooks on the allocator's entry points and the `mmap` intercept.
pub fn add_hooks(breakpoint_set: &mut BreakpointSet)
    requires
        old(breakpoint_set).wf(),
    ensures
        final(breakpoint_set).wf(),
        final(breakpoint_set).syscall_intercepts@ == old(breakpoint_set).syscall_intercepts@.insert(
            SYS_MMAP,
            SyscallCallback::Mmap,
        ),
        final(breakpoint_set).breakpoints@ == old(breakpoint_set).breakpoints@,
        final(breakpoint_set).bindings@.len() == old(breakpoint_set).bindings@.len() + 4,
        forall|i: int|
            0 <= i < old(breakpoint_set).bindings@.len() ==> #[trigger] final(breakpoint_set).bindings@[i] == old(breakpoint_set).bindings@[i],
        ({
            let n = old(breakpoint_set).bindings@.len() as int;
            let b = final(breakpoint_set).bindings@;
            &&& b[n].function_name@ == "malloc"@ && b[n].callback == BreakpointCallback::Malloc
            &&& b[n + 1].function_name@ == "calloc"@ && b[n + 1].callback
                == BreakpointCallback::Calloc
            &&& b[n + 2].function_name@ == "realloc"@ && b[n + 2].callback
                == BreakpointCallback::Realloc
            &&& b[n + 3].function_name@ == "free"@ && b[n + 3].callback == BreakpointCallback::Free
        }),
{
    breakpoint_set.add_syscall_intercept(SYS_MMAP, SyscallCallback::Mmap);
    breakpoint_set.breakpoint_on("malloc", BreakpointCallback::Malloc);
    breakpoint_set.breakpoint_on("calloc", BreakpointCallback::Calloc);
    breakpoint_set.breakpoint_on("realloc", BreakpointCallback::Realloc);
    breakpoint_set.breakpoint_on("free", BreakpointCallback::Free);
}

impl BreakpointCallback {
    /// The hook reads the thread's stack: every entry hook does, the return
    /// hook does not.
    pub fn needs_stack(&self) -> (r: bool)
        ensures
            r == (*self != BreakpointCallback::AllocationReturn),
    {
        match self {
            BreakpointCallback::AllocationReturn => false,
            _ => true,
        }
    }
}

/// What the hook `callback` does for a thread with registers `regs` and
/// stack `stack` (innermost first).  An allocator entry (`malloc` with the
/// size in the first argument, `calloc` with count times unit size modulo
/// 2^64, `realloc` with the old block and the new size) opens its event and
/// traps the return address, the second frame, when the stack has two
/// frames at least; `free` opens and at once completes its event with the
/// address freed; the return hook completes the thread's event with the
/// returned address.
pub open spec fn hook_action_spec(
    callback: BreakpointCallback,
    regs: Registers,
    stack: Seq<StackEntry>,
) -> HookAction {
    let none = HookAction { return_breakpoint: None, start: None, complete: None };
    let entry = |kind: EventType|
        if stack.len() >= 2 {
            HookAction { return_breakpoint: Some(stack[1].address), start: Some(kind), complete: None }
        } else {
            none
        };
    match callback {
        BreakpointCallback::Malloc => entry(EventType::Alloc(regs.rdi)),
        BreakpointCallback::Calloc => entry(EventType::Alloc(wrapping_mul(regs.rdi, regs.rsi))),
        BreakpointCallback::Realloc => entry(EventType::Realloc(regs.rdi, regs.rsi)),
        BreakpointCallback::Free => HookAction {
            return_breakpoint: None,
            start: Some(EventType::Free),
            complete: Some(regs.rdi),
        },
        BreakpointCallback::AllocationReturn => HookAction {
            return_breakpoint: None,
            start: None,
            complete: Some(regs.rax),
        },
    }
}

/// What the hook `callback` does for a thread with registers `regs` and
/// stack `stack`.
pub fn hook_action(callback: BreakpointCallback, regs: &Registers, stack: &Vec<StackEntry>) -> (r:
    HookAction)
    ensures
        r == hook_action_spec(callback, *regs, stack@),
{
    let none = HookAction { return_breakpoint: None, start: None, complete: None };
    match callback {
        BreakpointCallback::Malloc => {
            if stack.len() >= 2 {
                HookAction {
                    return_breakpoint: Some(stack[1].address),
                    start: Some(EventType::Alloc(regs.rdi)),
                    complete: None,
                }
            } else {
                none
            }
        },
        BreakpointCallback::Calloc => {
            if stack.len() >= 2 {
                HookAction {
                    return_breakpoint: Some(stack[1].address),
                    start: Some(EventType::Alloc(regs.rdi.wrapping_mul(regs.rsi))),
                    complete: None,
                }
            } else {
                none
            }
        },
        BreakpointCallback::Realloc => {
            if stack.len() >= 2 {
                HookAction {
                    return_breakpoint: Some(stack[1].address),
                    start: Some(EventType::Realloc(regs.rdi, regs.rsi)),
                    complete: None,
                }
            } else {
                none
            }
        },
        BreakpointCallback::Free => HookAction {
            return_breakpoint: None,
            start: Some(EventType::Free),
            complete: Some(regs.rdi),
        },
        BreakpointCallback::AllocationReturn => HookAction {
            return_breakpoint: None,
            start: None,
            complete: Some(regs.rax),
        },
    }
}

impl TraceContext {
    /// Carries out `action` for thread `tid` whose stack is `stack`: the
    /// return breakpoint (edited into `words`), then the event opening, then
    /// its completion, whose records are handed back.
    pub fn apply_hook(
        &mut self,
        words: &mut HashMap<u64, u64>,
        tid: u32,
        action: HookAction,
        stack: Vec<StackEntry>,
    ) -> (r: Result<Option<CompletedEvent>, NoEventInProgress>)
        requires
            old(self).wf(),
            action.return_breakpoint matches Some(a) ==> old(words)@.contains_key(word_address(a)),
        ensures
            final(self).wf(),
            final(self).pid == old(self).pid,
            final(self).process_map == old(self).process_map,
            final(self).symbol_index == old(self).symbol_index,
            final(self).thread_context == old(self).thread_context,
            final(self).breakpoint_set.bindings@ == old(self).breakpoint_set.bindings@,
            match action.return_breakpoint {
                Some(a) => {
                    &&& final(self).breakpoint_set.breakpoints@.dom() == old(self).breakpoint_set.breakpoints@.dom().insert(a)
                    &&& final(self).breakpoint_set.breakpoints@[a].one_shot_threads@.contains(tid)
                    &&& !old(self).breakpoint_set.breakpoints@.contains_key(a)
                        ==> final(self).breakpoint_set.breakpoints@[a].callback
                        == BreakpointCallback::AllocationReturn
                    &&& old(self).breakpoint_set.installed_in(old(words)@) ==> final(self).breakpoint_set.installed_in(final(words)@)
                },
                None => final(self).breakpoint_set == old(self).breakpoint_set && final(words)@
                    == old(words)@,
            },
            ({
                let opened = match action.start {
                    Some(k) => old(self).events.kinds().insert(tid, k),
                    None => old(self).events.kinds(),
                };
                let stored = match action.start {
                    Some(k) => old(self).events.record_in_progress@.insert(
                        tid,
                        (RecordInProgress { allocation: k, callstack: stack }),
                    ),
                    None => old(self).events.record_in_progress@,
                };
                &&& final(self).events.record_in_progress@ == match action.complete {
                    Some(_) => stored.remove(tid),
                    None => stored,
                }
                &&& match action.complete {
                    None => final(self).events.kinds() == opened && r == Ok::<
                        Option<CompletedEvent>,
                        NoEventInProgress,
                    >(None),
                    Some(x) => {
                        &&& final(self).events.kinds() == opened.remove(tid)
                        &&& match r {
                            Ok(Some(done)) => opened.contains_key(tid) && done.records@
                                == completion_records(opened[tid], x) && done.callstack@ == match action.start {
                                Some(_) => stack@,
                                None => old(self).events.record_in_progress@[tid].callstack@,
                            },
                            Ok(None) => false,
                            Err(e) => !opened.contains_key(tid) && e == NoEventInProgress { tid },
                        }
                    },
                }
            }),
    {
        match action.return_breakpoint {
            Some(address) => {
                self.breakpoint_set.add_one_shot_breakpoint(
                    words,
                    tid,
                    address,
                    BreakpointCallback::AllocationReturn,
                );
            },
            None => {},
        }
        match action.start {
            Some(kind) => {
                self.events.start_event(tid, kind, stack);
            },
            None => {},
        }
        match action.complete {
            Some(address) => match self.events.complete_event(tid, address) {
                Ok(done) => Ok(Some(done)),
                Err(e) => Err(e),
            },
            None => Ok(None),
        }
    }
}

} // verus!
