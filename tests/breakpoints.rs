use allocscope::breakpoint::{BreakpointCallback, BreakpointSet};
use allocscope::word::{insert_breakpoint_instruction, peekbyte, remove_breakpoint_instruction};
use std::collections::HashMap;

#[test]
fn insert_writes_one_byte() {
    let code: u64 = 0x1122_3344_5566_7788;
    let w = insert_breakpoint_instruction(code, 0x1003);
    assert_eq!(w, 0x1122_3344_CC66_7788);
    assert_eq!(peekbyte(w, 0x1003), 0xCC);
    assert_eq!(peekbyte(w, 0x1002), 0x66);
}

#[test]
fn install_uninstall_round_trip() {
    let code: u64 = 0x0102_0304_0506_0708;
    for a in 0x2000u64..0x2008 {
        let w = insert_breakpoint_instruction(code, a);
        assert_eq!(remove_breakpoint_instruction(w, a, code), code);
    }
}

#[test]
fn two_breakpoints_in_one_word() {
    let mut set = BreakpointSet::new();
    let mut words: HashMap<u64, u64> = HashMap::new();
    words.insert(0x4000, 0x1111_2222_3333_4444);
    set.add_breakpoint(&mut words, 1, 0x4001, BreakpointCallback::Malloc, true);
    set.add_breakpoint(&mut words, 1, 0x4006, BreakpointCallback::Free, true);
    let w = words[&0x4000];
    assert_eq!(peekbyte(w, 0x4001), 0xCC);
    assert_eq!(peekbyte(w, 0x4006), 0xCC);
    let first = &set.breakpoints[&0x4001];
    first.remove_breakpoint_instruction(&mut words);
    let w = words[&0x4000];
    assert_eq!(peekbyte(w, 0x4001), 0x44);
    assert_eq!(peekbyte(w, 0x4006), 0xCC);
    set.clear_breakpoints(&mut words);
    assert_eq!(words[&0x4000], 0x1111_2222_3333_4444);
    assert!(set.breakpoints.is_empty() && set.installed.is_empty());
}

use allocscope::hooks::add_hooks;
use allocscope::symbol_index::{ElfSymbol, SymbolIndex};
use allocscope::process_map::ProcessMapEntry;

fn libc_like_index() -> SymbolIndex {
    let entry = ProcessMapEntry {
        begin: 0x7000_0000,
        end: 0x7000_4000,
        offset: 0x1000,
        filename: Some("/usr/lib/libc.so.6".to_string()),
    };
    let segments = vec![(0x0u64, 0x0u64), (0x1000u64, 0x1000u64)];
    let symbols = vec![
        ElfSymbol { name: Some("malloc".to_string()), address: 0x1100, size: 0x40 },
        ElfSymbol { name: Some("free".to_string()), address: 0x1103, size: 0x20 },
        ElfSymbol { name: Some("calloc".to_string()), address: 0x9000, size: 0x20 },
    ];
    let mut index = SymbolIndex::new();
    index.add_elf_symbols(&entry, &segments, &symbols);
    index
}

#[test]
fn resolve_installs_every_bound_address() {
    let index = libc_like_index();
    let mut set = BreakpointSet::new();
    add_hooks(&mut set);
    let needed = set.words_to_resolve(&index);
    let mut words: HashMap<u64, u64> = HashMap::new();
    for w in needed {
        words.insert(w, 0x9090_9090_9090_9090);
    }
    set.resolve_breakpoints(&mut words, &index);
    assert_eq!(set.breakpoints.len(), 2);
    assert!(set.breakpoints.contains_key(&0x7000_0100));
    assert!(set.breakpoints.contains_key(&0x7000_0103));
    assert_eq!(set.breakpoints[&0x7000_0100].callback, BreakpointCallback::Malloc);
    assert_eq!(set.breakpoints[&0x7000_0103].callback, BreakpointCallback::Free);
    let w = words[&0x7000_0100];
    assert_eq!(peekbyte(w, 0x7000_0100), 0xCC);
    assert_eq!(peekbyte(w, 0x7000_0103), 0xCC);
    assert_eq!(peekbyte(w, 0x7000_0101), 0x90);
    // Resolving again keeps the saved originals.
    set.resolve_breakpoints(&mut words, &index);
    assert_eq!(set.breakpoints[&0x7000_0100].original_instruction, 0x9090_9090_9090_9090);
    assert_eq!(set.breakpoints[&0x7000_0103].original_instruction, 0x9090_9090_9090_90CC);
    set.clear_breakpoints(&mut words);
    assert_eq!(words[&0x7000_0100], 0x9090_9090_9090_9090);
}

#[test]
fn one_shot_bookkeeping() {
    let mut set = BreakpointSet::new();
    let mut words: HashMap<u64, u64> = HashMap::new();
    words.insert(0x5000, 0);
    set.add_one_shot_breakpoint(&mut words, 7, 0x5005, BreakpointCallback::AllocationReturn);
    set.add_one_shot_breakpoint(&mut words, 8, 0x5005, BreakpointCallback::AllocationReturn);
    let b = &set.breakpoints[&0x5005];
    assert!(!b.persist);
    assert!(b.one_shot_threads.contains(&7) && b.one_shot_threads.contains(&8));
    assert_eq!(b.original_instruction, 0);
    assert!(set.remove_one_shot_breakpoint(7, 0x5005).is_ok());
    assert!(!set.breakpoints[&0x5005].one_shot_threads.contains(&7));
    assert!(set.breakpoints[&0x5005].one_shot_threads.contains(&8));
    assert!(set.remove_one_shot_breakpoint(7, 0x6000).is_err());
    assert_eq!(peekbyte(words[&0x5000], 0x5005), 0xCC);
}

#[test]
fn step_through_restores_then_reinstalls() {
    let mut set = BreakpointSet::new();
    let mut words: HashMap<u64, u64> = HashMap::new();
    words.insert(0x8000, 0x0011_2233_4455_6677);
    set.add_breakpoint(&mut words, 1, 0x8002, BreakpointCallback::Malloc, true);
    let installed = words[&0x8000];
    let b = &set.breakpoints[&0x8002];
    b.remove_breakpoint_instruction(&mut words);
    assert_eq!(words[&0x8000], 0x0011_2233_4455_6677);
    b.insert_breakpoint_instruction(&mut words);
    assert_eq!(words[&0x8000], installed);
}

#[test]
fn syscall_intercepts_replace() {
    let mut set = BreakpointSet::new();
    add_hooks(&mut set);
    assert_eq!(set.syscall_intercept(9), Some(allocscope::breakpoint::SyscallCallback::Mmap));
    assert_eq!(set.syscall_intercept(10), None);
    assert_eq!(set.bindings.len(), 4);
    assert_eq!(set.bindings[0].function_name, "malloc");
    assert_eq!(set.bindings[3].function_name, "free");
}
