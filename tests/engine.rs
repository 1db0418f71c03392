use allocscope::breakpoint::{BreakpointCallback, BreakpointSet, SyscallCallback};
use allocscope::context::TraceContext;
use allocscope::hooks::{add_hooks, hook_action, HookAction};
use allocscope::process_map::ProcessMap;
use allocscope::ptrace::{decode_wait_status, wait_for_signal, Registers, WaitPidResult, WaitStep};
use allocscope::record::{completion, AllocationRecord, EventTracker, EventType, NoEventInProgress};
use allocscope::trace::{detach_signal, on_breakpoint, trace_loop_action, LoopAction};
use allocscope::unwind::StackEntry;
use std::collections::HashMap;

fn frame(address: u64, name: &str) -> StackEntry {
    StackEntry { address, name: name.to_string(), offset: 0 }
}

fn regs(rip: u64, rax: u64, rdi: u64, rsi: u64, orig_rax: u64) -> Registers {
    Registers { rip, rax, rdi, rsi, orig_rax }
}

fn alloc_rec(address: u64, size: u64) -> AllocationRecord {
    AllocationRecord { allocation: true, address, size: Some(size) }
}

fn free_rec(address: u64) -> AllocationRecord {
    AllocationRecord { allocation: false, address, size: None }
}

#[test]
fn completion_policy() {
    assert_eq!(completion(EventType::Alloc(16), 0x1000), vec![alloc_rec(0x1000, 16)]);
    assert_eq!(completion(EventType::Alloc(16), 0), vec![]);
    assert_eq!(completion(EventType::Free, 0x1000), vec![free_rec(0x1000)]);
    assert_eq!(completion(EventType::Free, 0), vec![]);
    assert_eq!(completion(EventType::Realloc(0x10, 32), 0x20), vec![free_rec(0x10), alloc_rec(0x20, 32)]);
    assert_eq!(completion(EventType::Realloc(0x10, 32), 0), vec![]);
    assert_eq!(completion(EventType::Realloc(0x10, 0), 0), vec![free_rec(0x10)]);
    assert_eq!(completion(EventType::Realloc(0, 32), 0x20), vec![alloc_rec(0x20, 32)]);
}

#[test]
fn one_event_per_thread() {
    let mut events = EventTracker::new();
    assert!(!events.is_event_in_progress(3));
    events.start_event(3, EventType::Alloc(8), vec![frame(1, "a")]);
    events.start_event(3, EventType::Alloc(64), vec![frame(2, "b"), frame(3, "c")]);
    assert!(events.is_event_in_progress(3));
    assert_eq!(events.record_in_progress.len(), 1);
    let done = events.complete_event(3, 0x500).unwrap();
    assert_eq!(done.records, vec![alloc_rec(0x500, 64)]);
    assert_eq!(done.callstack.len(), 2);
    assert!(!events.is_event_in_progress(3));
    assert_eq!(events.complete_event(3, 0x500).unwrap_err(), NoEventInProgress { tid: 3 });
}

#[test]
fn hook_actions() {
    let stack = vec![frame(0x7000_0100, "malloc"), frame(0x40_1234, "main")];
    let r = regs(0, 0, 1024 * 1024, 0, 0);
    assert_eq!(
        hook_action(BreakpointCallback::Malloc, &r, &stack),
        HookAction { return_breakpoint: Some(0x40_1234), start: Some(EventType::Alloc(1048576)), complete: None }
    );
    let r = regs(0, 0, 3, 5, 0);
    assert_eq!(hook_action(BreakpointCallback::Calloc, &r, &stack).start, Some(EventType::Alloc(15)));
    let r = regs(0, 0, u64::MAX, 2, 0);
    assert_eq!(
        hook_action(BreakpointCallback::Calloc, &r, &stack).start,
        Some(EventType::Alloc(u64::MAX - 1))
    );
    let r = regs(0, 0, 0x10, 64, 0);
    assert_eq!(hook_action(BreakpointCallback::Realloc, &r, &stack).start, Some(EventType::Realloc(0x10, 64)));
    assert_eq!(
        hook_action(BreakpointCallback::Free, &r, &stack),
        HookAction { return_breakpoint: None, start: Some(EventType::Free), complete: Some(0x10) }
    );
    let r = regs(0, 0x9000, 0, 0, 0);
    assert_eq!(
        hook_action(BreakpointCallback::AllocationReturn, &r, &vec![]),
        HookAction { return_breakpoint: None, start: None, complete: Some(0x9000) }
    );
    let short = vec![frame(1, "malloc")];
    assert_eq!(
        hook_action(BreakpointCallback::Malloc, &regs(0, 0, 8, 0, 0), &short),
        HookAction { return_breakpoint: None, start: None, complete: None }
    );
    assert!(!BreakpointCallback::AllocationReturn.needs_stack());
    assert!(BreakpointCallback::Free.needs_stack());
}

fn context_with_malloc() -> (TraceContext, HashMap<u64, u64>) {
    let mut set = BreakpointSet::new();
    add_hooks(&mut set);
    let mut words: HashMap<u64, u64> = HashMap::new();
    words.insert(0x7000_0100, 0x9090_9090_9090_9090);
    set.add_breakpoint(&mut words, 1, 0x7000_0100, BreakpointCallback::Malloc, true);
    let map = ProcessMap::new(b"").unwrap();
    (TraceContext::new(100, set, map), words)
}

#[test]
fn malloc_cycle() {
    let (mut ctx, mut words) = context_with_malloc();
    assert!(ctx.ensure_thread_context(100));
    assert!(!ctx.ensure_thread_context(100));
    // Entry of malloc: the trap leaves the instruction pointer one past 0xCC.
    let r = regs(0x7000_0101, 0, 4096, 0, 0);
    let plan = on_breakpoint(&ctx, 100, &r, (0, 0xCC));
    assert!(plan.breakpoint);
    assert_eq!(plan.address, 0x7000_0100);
    assert_eq!(plan.callback, Some(BreakpointCallback::Malloc));
    assert!(!plan.one_shot);
    let stack = vec![frame(0x7000_0100, "malloc"), frame(0x40_1234, "main")];
    let action = hook_action(BreakpointCallback::Malloc, &r, &stack);
    words.insert(0x40_1230, 0x1111_1111_1111_1111);
    assert_eq!(ctx.apply_hook(&mut words, 100, action, stack).unwrap().is_none(), true);
    assert!(ctx.events.is_event_in_progress(100));
    assert_eq!(ctx.events.record_in_progress[&100].callstack[1].name, "main");
    // A nested malloc while the event is open does not fire.
    let plan = on_breakpoint(&ctx, 100, &r, (0, 0xCC));
    assert_eq!(plan.callback, None);
    // Return from malloc.
    let ret = regs(0x40_1235, 0x5555_0000, 0, 0, 0);
    let plan = on_breakpoint(&ctx, 100, &ret, (0x11, 0xCC));
    assert_eq!(plan.callback, Some(BreakpointCallback::AllocationReturn));
    assert!(plan.one_shot);
    let action = hook_action(BreakpointCallback::AllocationReturn, &ret, &vec![]);
    let done = ctx.apply_hook(&mut words, 100, action, vec![]).unwrap().unwrap();
    assert_eq!(done.records, vec![alloc_rec(0x5555_0000, 4096)]);
    assert_eq!(done.callstack.len(), 2);
    assert!(ctx.breakpoint_set.remove_one_shot_breakpoint(100, 0x40_1234).is_ok());
    let plan = on_breakpoint(&ctx, 100, &ret, (0x11, 0xCC));
    assert_eq!(plan.callback, None);
    assert!(plan.breakpoint);
}

#[test]
fn syscall_stops_toggle() {
    let (mut ctx, _) = context_with_malloc();
    ctx.ensure_thread_context(5);
    let r = regs(0x7fff_0010, 0, 0, 0, 9);
    let plan = on_breakpoint(&ctx, 5, &r, (0x0F, 0x05));
    assert_eq!(plan.syscall, Some(SyscallCallback::Mmap));
    assert!(!plan.syscall_complete);
    assert!(!plan.refresh_process_map);
    ctx.toggle_in_syscall(5).unwrap();
    let plan = on_breakpoint(&ctx, 5, &r, (0x0F, 0x05));
    assert!(plan.syscall_complete);
    assert!(plan.refresh_process_map);
    ctx.toggle_in_syscall(5).unwrap();
    assert!(!ctx.get_thread_context(5).unwrap().in_syscall);
    let other = regs(0x7fff_0010, 0, 0, 0, 1);
    assert_eq!(on_breakpoint(&ctx, 5, &other, (0x0F, 0x05)).syscall, None);
    assert_eq!(on_breakpoint(&ctx, 5, &r, (0x90, 0x05)).syscall, None);
    ctx.get_thread_context_mut(5).unwrap().in_syscall = true;
    assert!(ctx.get_thread_context(5).unwrap().in_syscall);
    assert!(ctx.get_thread_context_mut(6).is_err());
    assert!(ctx.toggle_in_syscall(6).is_err());
    assert!(ctx.get_thread_context(6).is_err());
}

#[test]
fn update_process_map_resolves_new_symbols() {
    let (mut ctx, _) = context_with_malloc();
    let map = ProcessMap::new(b"7000000000-7000004000 r-xp 00001000 08:01 9 /lib/libc.so.6\n").unwrap();
    let mut index = allocscope::symbol_index::SymbolIndex::new();
    let symbols = vec![allocscope::symbol_index::ElfSymbol {
        name: Some("calloc".to_string()),
        address: 0x1200,
        size: 0x10,
    }];
    index.add_elf_symbols(&map.entries[0], &vec![(0x1000, 0x1000)], &symbols);
    let needed = ctx.breakpoint_set.words_to_resolve(&index);
    let mut words: HashMap<u64, u64> = HashMap::new();
    for w in needed {
        words.insert(w, 0);
    }
    ctx.update_process_map(map, index, &mut words);
    assert_eq!(ctx.process_map.entries.len(), 1);
    assert_eq!(ctx.breakpoint_set.breakpoints[&0x70_0000_0200].callback, BreakpointCallback::Calloc);
    assert!(ctx.breakpoint_set.breakpoints.contains_key(&0x7000_0100));
    assert_eq!(words[&0x70_0000_0200], 0xCC);
}

#[test]
fn free_completes_at_once() {
    let (mut ctx, mut words) = context_with_malloc();
    let stack = vec![frame(0x7000_0200, "free"), frame(0x40_0000, "main")];
    let action = hook_action(BreakpointCallback::Free, &regs(0, 0, 0x5555_0000, 0, 0), &stack);
    let done = ctx.apply_hook(&mut words, 9, action, stack).unwrap().unwrap();
    assert_eq!(done.records, vec![free_rec(0x5555_0000)]);
    assert_eq!(done.callstack.len(), 2);
    assert_eq!(done.callstack[0].name, "free");
    assert!(!ctx.events.is_event_in_progress(9));
}

#[test]
fn wait_statuses() {
    assert_eq!(decode_wait_status(0x0300), Some(WaitPidResult::Exited(3)));
    assert_eq!(decode_wait_status(0x0009), Some(WaitPidResult::Signaled(9)));
    assert_eq!(decode_wait_status(0x057f), Some(WaitPidResult::Stopped(5)));
    assert_eq!(decode_wait_status(0x3057f), Some(WaitPidResult::EventClone));
    assert_eq!(decode_wait_status(0x00ff), None);
    assert_eq!(wait_for_signal(19, WaitPidResult::Stopped(19)), WaitStep::Done);
    assert_eq!(wait_for_signal(19, WaitPidResult::Stopped(5)), WaitStep::Forward(5));
    assert_eq!(wait_for_signal(19, WaitPidResult::Exited(0)), WaitStep::Ended);
}

#[test]
fn loop_actions() {
    assert_eq!(trace_loop_action(1, 2, WaitPidResult::Stopped(5)), LoopAction::HandleTrap(2));
    assert_eq!(trace_loop_action(1, 2, WaitPidResult::Stopped(11)), LoopAction::Forward(2, 11));
    assert_eq!(trace_loop_action(1, 2, WaitPidResult::EventClone), LoopAction::AdoptThread(2));
    assert_eq!(trace_loop_action(1, 2, WaitPidResult::Exited(0)), LoopAction::ThreadEnded(2));
    assert_eq!(trace_loop_action(1, 1, WaitPidResult::Signaled(9)), LoopAction::Finish);
    assert_eq!(detach_signal(WaitPidResult::Stopped(2)), 2);
    assert_eq!(detach_signal(WaitPidResult::Exited(2)), 0);
}

#[test]
fn loop_of_mallocs_and_frees() {
    // A program that mallocs 1 MiB and frees it, 1024 times.
    let mut events = EventTracker::new();
    let mut live: i64 = 0;
    let mut peak: i64 = 0;
    let mut blocks = 0;
    for i in 0..1024u64 {
        events.start_event(1, EventType::Alloc(1024 * 1024), vec![]);
        for r in events.complete_event(1, 0x1000 + i).unwrap().records {
            assert!(r.allocation);
            live += r.size.unwrap() as i64;
            blocks += 1;
        }
        peak = peak.max(live);
        events.start_event(1, EventType::Free, vec![]);
        for r in events.complete_event(1, 0x1000 + i).unwrap().records {
            assert!(!r.allocation);
            live -= 1024 * 1024;
        }
    }
    assert_eq!(blocks, 1024);
    assert_eq!(peak, 1024 * 1024);
    assert_eq!(live, 0);
}

#[test]
fn realloc_chain_frees_each_previous_block() {
    // A buffer grown by realloc twenty times.
    let mut events = EventTracker::new();
    let mut prev: u64 = 0;
    let mut allocations = 0;
    let mut frees = Vec::new();
    for i in 1..=20u64 {
        events.start_event(1, EventType::Realloc(prev, i * 1024), vec![]);
        let next = 0x10_0000 * i;
        let records = events.complete_event(1, next).unwrap().records;
        if prev == 0 {
            assert_eq!(records, vec![alloc_rec(next, i * 1024)]);
        } else {
            assert_eq!(records, vec![free_rec(prev), alloc_rec(next, i * 1024)]);
            frees.push(prev);
        }
        allocations += records.iter().filter(|r| r.allocation).count();
        prev = next;
    }
    assert_eq!(allocations, 20);
    assert_eq!(frees.len(), 19);
}

#[test]
fn threads_keep_separate_events() {
    let mut events = EventTracker::new();
    for tid in 1..=8u32 {
        events.start_event(tid, EventType::Alloc(tid as u64), vec![]);
    }
    assert_eq!(events.record_in_progress.len(), 8);
    for tid in (1..=8u32).rev() {
        let done = events.complete_event(tid, 0x1000 * tid as u64).unwrap();
        assert_eq!(done.records, vec![alloc_rec(0x1000 * tid as u64, tid as u64)]);
    }
    assert!(events.record_in_progress.is_empty());
}
