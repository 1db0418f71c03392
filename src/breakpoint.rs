//! The installed software breakpoints of one traced process, the name
//! bindings waiting for symbols, and the system-call intercepts.
//!
//! Memory edits are made on `words`, an image of the target's aligned words
//! (aligned address to contents): the caller reads the words an operation
//! needs, lets the set edit them, and writes back those that changed.

use crate::symbol_index::SymbolIndex;
use crate::word::{
    byte_at, byte_position, insert_breakpoint_instruction, lemma_position_bound, lemma_same_slot,
    mem_byte, remove_breakpoint_instruction, replaces_byte, word_address, BREAKPOINT_BYTE,
};
use std::collections::{HashMap, HashSet};
use vstd::prelude::*;

verus! {

/// What to do when a breakpoint is hit.
#[derive(Clone, Copy, Debug, PartialEq, Eq, Structural)]
pub enum BreakpointCallback {
    /// Entry of `malloc`.
    Malloc,
    /// Entry of `calloc`.
    Calloc,
    /// Entry of `realloc`.
    Realloc,
    /// Entry of `free`.
    Free,
    /// Return from `malloc`, `calloc` or `realloc`.
    AllocationReturn,
}

/// What to do when a system call is intercepted, on entry and on exit.
#[derive(Clone, Copy, Debug, PartialEq, Eq, Structural)]
pub enum SyscallCallback {
    /// `mmap`: the address space changed.
    Mmap,
}

/// An installed breakpoint.
#[derive(Debug)]
pub struct Breakpoint {
    /// The byte that traps.
    pub address: u64,
    /// The aligned word at `address`, read just before `0xCC` was first
    /// written there.
    pub original_instruction: u64,
    pub callback: BreakpointCallback,
    /// False for one-shot breakpoints.
    pub persist: bool,
    /// Threads that still expect this one-shot breakpoint to fire.
    pub one_shot_threads: HashSet<u32>,
}

/// A function name waiting for its addresses, and its callback.
#[derive(Debug)]
pub struct BreakpointLooseBinding {
    pub function_name: String,
    pub callback: BreakpointCallback,
}

/// The breakpoints of a traced process.
#[derive(Debug)]
pub struct BreakpointSet {
    pub bindings: Vec<BreakpointLooseBinding>,
    pub breakpoints: HashMap<u64, Breakpoint>,
    pub syscall_intercepts: HashMap<i64, SyscallCallback>,
    /// Addresses of `breakpoints`, in the order they were installed.
    pub installed: Vec<u64>,
}

/// No breakpoint is recorded at `address`.
#[derive(Debug, PartialEq, Eq, Structural)]
pub struct BreakpointMissing {
    pub address: u64,
}

impl Breakpoint {
    /// Restores the original byte at this breakpoint's address in `words`,
    /// leaving the rest of the aligned word as it is.
    pub fn remove_breakpoint_instruction(&self, words: &mut HashMap<u64, u64>)
        requires
            old(words)@.contains_key(word_address(self.address)),
        ensures
            final(words)@.dom() == old(words)@.dom(),
            replaces_byte(
                final(words)@[word_address(self.address)],
                old(words)@[word_address(self.address)],
                byte_position(self.address),
                byte_at(self.original_instruction, byte_position(self.address)),
            ),
            forall|k: u64| k != word_address(self.address) ==> #[trigger] final(words)@[k] == old(words)@[k],
    {
        let wa = self.address & !7u64;
        let code = *words.get(&wa).unwrap();
        let w = remove_breakpoint_instruction(code, self.address, self.original_instruction);
        words.insert(wa, w);
        assert(final(words)@.dom() =~= old(words)@.dom());
    }

    /// Writes the breakpoint byte at this breakpoint's address in `words`
    /// again, leaving the rest of the aligned word as it is.
    pub fn insert_breakpoint_instruction(&self, words: &mut HashMap<u64, u64>)
        requires
            old(words)@.contains_key(word_address(self.address)),
        ensures
            final(words)@.dom() == old(words)@.dom(),
            replaces_byte(
                final(words)@[word_address(self.address)],
                old(words)@[word_address(self.address)],
                byte_position(self.address),
                BREAKPOINT_BYTE,
            ),
            forall|k: u64| k != word_address(self.address) ==> #[trigger] final(words)@[k] == old(words)@[k],
    {
        let wa = self.address & !7u64;
        let code = *words.get(&wa).unwrap();
        let w = insert_breakpoint_instruction(code, self.address);
        words.insert(wa, w);
        assert(final(words)@.dom() =~= old(words)@.dom());
    }
}

/// Writing byte `v` at `address` keeps the byte of every other address.
pub proof fn lemma_write_keeps_others(
    words: Map<u64, u64>,
    address: u64,
    w: u64,
    v: u8,
    other: u64,
)
    requires
        words.contains_key(word_address(address)),
        replaces_byte(w, words[word_address(address)], byte_position(address), v),
    ensures
        other != address ==> mem_byte(words.insert(word_address(address), w), other) == mem_byte(
            words,
            other,
        ),
        mem_byte(words.insert(word_address(address), w), address) == v,
{
    lemma_position_bound(address);
    lemma_position_bound(other);
    if word_address(other) == word_address(address) {
        if byte_position(other) == byte_position(address) {
            lemma_same_slot(other, address);
        }
    }
}

impl BreakpointSet {
    /// `installed` lists the recorded addresses once each, and each
    /// breakpoint is filed under its own address.
    pub open spec fn wf(&self) -> bool {
        &&& self.installed@.no_duplicates()
        &&& forall|a: u64|
            #![trigger self.breakpoints@.contains_key(a)]
            #![trigger self.installed@.contains(a)]
            self.breakpoints@.contains_key(a) <==> self.installed@.contains(a)
        &&& forall|a: u64| #[trigger]
            self.breakpoints@.contains_key(a) ==> self.breakpoints@[a].address == a
    }

    /// Every recorded breakpoint is in place in the memory image `words`:
    /// its aligned word is there and holds `0xCC` at its address.
    pub open spec fn installed_in(&self, words: Map<u64, u64>) -> bool {
        forall|a: u64| #[trigger]
            self.breakpoints@.contains_key(a) ==> words.contains_key(word_address(a)) && mem_byte(
                words,
                a,
            ) == BREAKPOINT_BYTE
    }

    /// A set with no breakpoints, bindings or intercepts.
    pub fn new() -> (r: BreakpointSet)
        ensures
            r.wf(),
            r.bindings@.len() == 0,
            r.breakpoints@ == Map::<u64, Breakpoint>::empty(),
            r.syscall_intercepts@ == Map::<i64, SyscallCallback>::empty(),
    {
        BreakpointSet {
            bindings: Vec::new(),
            breakpoints: HashMap::new(),
            syscall_intercepts: HashMap::new(),
            installed: Vec::new(),
        }
    }

    /// Records a breakpoint at `address`.  When none is there yet, the
    /// current aligned word is saved as the original and `0xCC` is written
    /// at `address` in `words`.  When one is there, its saved word is kept
    /// (so an earlier `0xCC` is never taken for the original).  Either way a
    /// one-shot request adds `tid` to the threads the breakpoint fires for.
    pub fn add_breakpoint(
        &mut self,
        words: &mut HashMap<u64, u64>,
        tid: u32,
        address: u64,
        callback: BreakpointCallback,
        persist: bool,
    )
        requires
            old(self).wf(),
            old(words)@.contains_key(word_address(address)),
        ensures
            final(self).wf(),
            final(self).bindings@ == old(self).bindings@,
            final(self).syscall_intercepts@ == old(self).syscall_intercepts@,
            final(self).breakpoints@.dom() == old(self).breakpoints@.dom().insert(address),
            forall|a: u64|
                a != address && old(self).breakpoints@.contains_key(a)
                    ==> #[trigger] final(self).breakpoints@[a] == old(self).breakpoints@[a],
            final(words)@.dom() == old(words)@.dom(),
            forall|k: u64| k != word_address(address) ==> #[trigger] final(words)@[k] == old(words)@[k],
            ({
                let b = final(self).breakpoints@[address];
                let one_shot = if persist {
                    Set::<u32>::empty()
                } else {
                    set![tid]
                };
                if old(self).breakpoints@.contains_key(address) {
                    let ob = old(self).breakpoints@[address];
                    &&& final(words)@ == old(words)@
                    &&& b.address == ob.address
                    &&& b.original_instruction == ob.original_instruction
                    &&& b.callback == ob.callback
                    &&& b.persist == ob.persist
                    &&& b.one_shot_threads@ == ob.one_shot_threads@.union(one_shot)
                } else {
                    &&& replaces_byte(
                        final(words)@[word_address(address)],
                        old(words)@[word_address(address)],
                        byte_position(address),
                        BREAKPOINT_BYTE,
                    )
                    &&& b.address == address
                    &&& b.original_instruction == old(words)@[word_address(address)]
                    &&& b.callback == callback
                    &&& b.persist == persist
                    &&& b.one_shot_threads@ == one_shot
                }
            }),
            old(self).installed_in(old(words)@) ==> final(self).installed_in(final(words)@),
    {
        let wa = address & !7u64;
        if !self.breakpoints.contains_key(&address) {
            let code = *words.get(&wa).unwrap();
            let w = insert_breakpoint_instruction(code, address);
            words.insert(wa, w);
            let mut one_shot_threads: HashSet<u32> = HashSet::new();
            if !persist {
                one_shot_threads.insert(tid);
            }
            let breakpoint = Breakpoint {
                address,
                original_instruction: code,
                callback,
                persist,
                one_shot_threads,
            };
            self.breakpoints.insert(address, breakpoint);
            self.installed.push(address);
            proof {
                assert(final(words)@.dom() =~= old(words)@.dom());
                assert(self.breakpoints@.dom() =~= old(self).breakpoints@.dom().insert(address));
                assert(self.breakpoints@[address].one_shot_threads@ =~= (if persist {
                    Set::<u32>::empty()
                } else {
                    set![tid]
                }));
                assert forall|a: u64| #[trigger] self.installed@.contains(a) implies self.breakpoints@.contains_key(a) by {
                    if a != address {
                        let j = choose|j: int| 0 <= j < self.installed@.len() && self.installed@[j] == a;
                        assert(old(self).installed@[j] == a);
                    }
                }
                assert forall|a: u64| #[trigger] self.breakpoints@.contains_key(a) implies self.installed@.contains(a) by {
                    if a != address {
                        assert(old(self).installed@.contains(a));
                        let j = choose|j: int| 0 <= j < old(self).installed@.len() && old(self).installed@[j] == a;
                        assert(self.installed@[j] == a);
                    } else {
                        assert(self.installed@[self.installed@.len() - 1] == a);
                    }
                }
                if old(self).installed_in(old(words)@) {
                    assert forall|a: u64| #[trigger] self.breakpoints@.contains_key(a) implies final(words)@.contains_key(word_address(a))
                        && mem_byte(final(words)@, a) == BREAKPOINT_BYTE by {
                        lemma_write_keeps_others(old(words)@, address, w, BREAKPOINT_BYTE, a);
                    }
                }
            }
        } else {
            if !persist {
                let removed = self.breakpoints.remove(&address);
                match removed {
                    Some(mut breakpoint) => {
                        breakpoint.one_shot_threads.insert(tid);
                        self.breakpoints.insert(address, breakpoint);
                    },
                    None => {},
                }
                proof {
                    assert(self.breakpoints@.dom() =~= old(self).breakpoints@.dom().insert(address));
                    assert(self.breakpoints@[address].one_shot_threads@ =~= old(self).breakpoints@[address].one_shot_threads@.union(set![tid]));
                }
            } else {
                assert(old(self).breakpoints@[address].one_shot_threads@ =~= old(self).breakpoints@[address].one_shot_threads@.union(Set::<u32>::empty()));
                assert(self.breakpoints@.dom() =~= old(self).breakpoints@.dom().insert(address));
            }
        }
    }

    /// Records a one-shot breakpoint at `address` for thread `tid`, as
    /// `add_breakpoint` does; used at the return address of an allocator.
    pub fn add_one_shot_breakpoint(
        &mut self,
        words: &mut HashMap<u64, u64>,
        tid: u32,
        address: u64,
        callback: BreakpointCallback,
    )
        requires
            old(self).wf(),
            old(words)@.contains_key(word_address(address)),
        ensures
            final(self).wf(),
            final(self).bindings@ == old(self).bindings@,
            final(self).syscall_intercepts@ == old(self).syscall_intercepts@,
            final(self).breakpoints@.dom() == old(self).breakpoints@.dom().insert(address),
            final(self).breakpoints@[address].one_shot_threads@.contains(tid),
            forall|a: u64|
                a != address && old(self).breakpoints@.contains_key(a)
                    ==> #[trigger] final(self).breakpoints@[a] == old(self).breakpoints@[a],
            final(words)@.dom() == old(words)@.dom(),
            forall|k: u64| k != word_address(address) ==> #[trigger] final(words)@[k] == old(words)@[k],
            old(self).breakpoints@.contains_key(address) ==> {
                let b = final(self).breakpoints@[address];
                let ob = old(self).breakpoints@[address];
                &&& final(words)@ == old(words)@
                &&& b.one_shot_threads@ == ob.one_shot_threads@.insert(tid)
                &&& b.address == ob.address
                &&& b.original_instruction == ob.original_instruction
                &&& b.persist == ob.persist
                &&& b.callback == ob.callback
            },
            !old(self).breakpoints@.contains_key(address) ==> {
                let b = final(self).breakpoints@[address];
                &&& replaces_byte(
                    final(words)@[word_address(address)],
                    old(words)@[word_address(address)],
                    byte_position(address),
                    BREAKPOINT_BYTE,
                )
                &&& b.address == address
                &&& b.original_instruction == old(words)@[word_address(address)]
                &&& b.one_shot_threads@ == set![tid]
                &&& !b.persist
                &&& b.callback == callback
            },
            old(self).installed_in(old(words)@) ==> final(self).installed_in(final(words)@),
    {
        self.add_breakpoint(words, tid, address, callback, false);
        proof {
            if old(self).breakpoints@.contains_key(address) {
                assert(old(self).breakpoints@[address].one_shot_threads@.union(set![tid])
                    =~= old(self).breakpoints@[address].one_shot_threads@.insert(tid));
            }
        }
    }

    /// Stops the one-shot breakpoint at `address` from firing for thread
    /// `tid`.  The trap stays in memory.
    pub fn remove_one_shot_breakpoint(&mut self, tid: u32, address: u64) -> (r: Result<
        (),
        BreakpointMissing,
    >)
        requires
            old(self).wf(),
        ensures
            final(self).wf(),
            final(self).bindings@ == old(self).bindings@,
            final(self).syscall_intercepts@ == old(self).syscall_intercepts@,
            final(self).installed@ == old(self).installed@,
            final(self).breakpoints@.dom() == old(self).breakpoints@.dom(),
            r is Err <==> !old(self).breakpoints@.contains_key(address),
            r == Err::<(), BreakpointMissing>(BreakpointMissing { address }) ==> final(self).breakpoints@
                == old(self).breakpoints@,
            forall|a: u64|
                a != address && old(self).breakpoints@.contains_key(a)
                    ==> #[trigger] final(self).breakpoints@[a] == old(self).breakpoints@[a],
            r is Ok ==> {
                let b = final(self).breakpoints@[address];
                let ob = old(self).breakpoints@[address];
                &&& b.one_shot_threads@ == ob.one_shot_threads@.remove(tid)
                &&& b.address == ob.address
                &&& b.original_instruction == ob.original_instruction
                &&& b.callback == ob.callback
                &&& b.persist == ob.persist
            },
            forall|words: Map<u64, u64>|
                old(self).installed_in(words) ==> #[trigger] final(self).installed_in(words),
    {
        match self.breakpoints.remove(&address) {
            Some(mut breakpoint) => {
                breakpoint.one_shot_threads.remove(&tid);
                self.breakpoints.insert(address, breakpoint);
                assert(self.breakpoints@.dom() =~= old(self).breakpoints@.dom());
                Ok(())
            },
            None => {
                assert(self.breakpoints@ =~= old(self).breakpoints@);
                Err(BreakpointMissing { address })
            },
        }
    }

    /// Asks for a breakpoint at every address of the function `function_name`
    /// once its symbols are known.
    pub fn breakpoint_on(&mut self, function_name: &str, callback: BreakpointCallback)
        requires
            old(self).wf(),
        ensures
            final(self).wf(),
            final(self).bindings@.len() == old(self).bindings@.len() + 1,
            forall|i: int|
                0 <= i < old(self).bindings@.len() ==> #[trigger] final(self).bindings@[i]
                    == old(self).bindings@[i],
            final(self).bindings@.last().function_name@ == function_name@,
            final(self).bindings@.last().callback == callback,
            final(self).breakpoints@ == old(self).breakpoints@,
            final(self).installed@ == old(self).installed@,
            final(self).syscall_intercepts@ == old(self).syscall_intercepts@,
    {
        self.bindings.push(
            BreakpointLooseBinding { function_name: function_name.to_owned(), callback: callback },
        );
    }

    /// Intercepts the system call numbered `syscall_id` with `callback`,
    /// replacing an earlier intercept of it.
    pub fn add_syscall_intercept(&mut self, syscall_id: i64, callback: SyscallCallback)
        requires
            old(self).wf(),
        ensures
            final(self).wf(),
            final(self).syscall_intercepts@ == old(self).syscall_intercepts@.insert(syscall_id, callback),
            final(self).bindings@ == old(self).bindings@,
            final(self).breakpoints@ == old(self).breakpoints@,
            final(self).installed@ == old(self).installed@,
    {
        self.syscall_intercepts.insert(syscall_id, callback);
    }

    /// The intercept of the system call numbered `syscall_id`, if any.
    pub fn syscall_intercept(&self, syscall_id: i64) -> (r: Option<SyscallCallback>)
        ensures
            r == (if self.syscall_intercepts@.contains_key(syscall_id) {
                Some(self.syscall_intercepts@[syscall_id])
            } else {
                None
            }),
    {
        match self.syscall_intercepts.get(&syscall_id) {
            Some(c) => Some(*c),
            None => None,
        }
    }

    /// Every address that the bindings resolve to in `index`: for each
    /// binding, the address of each symbol of its name.
    pub open spec fn resolves_to(&self, index: &SymbolIndex, address: u64) -> bool {
        exists|i: int, j: int|
            0 <= i < self.bindings@.len() && 0 <= j < index.named(self.bindings@[i].function_name@).len()
                && #[trigger] index.named(self.bindings@[i].function_name@)[j].1 == address
    }

    /// Some binding with callback `callback` resolves to `address` in
    /// `index`.
    pub open spec fn binds(&self, index: &SymbolIndex, address: u64, callback: BreakpointCallback) -> bool {
        exists|i: int, j: int|
            0 <= i < self.bindings@.len() && 0 <= j < index.named(self.bindings@[i].function_name@).len()
                && #[trigger] index.named(self.bindings@[i].function_name@)[j].1 == address
                && self.bindings@[i].callback == callback
    }

    /// The breakpoint at `address` is one that resolving against `index`
    /// added: persistent, for no thread in particular, with the callback of
    /// a binding that resolves there.
    pub open spec fn resolved_breakpoint(&self, index: &SymbolIndex, b: &Breakpoint, address: u64) -> bool {
        &&& b.persist
        &&& b.one_shot_threads@ == Set::<u32>::empty()
        &&& self.binds(index, address, b.callback)
    }

    /// `words` holds the aligned word of every address that resolving
    /// against `index` may touch: those of the bindings' symbols and those of
    /// the recorded breakpoints.
    pub open spec fn ready_to_resolve(&self, index: &SymbolIndex, words: Map<u64, u64>) -> bool {
        &&& forall|i: int, j: int|
            0 <= i < self.bindings@.len() && 0 <= j < index.named(self.bindings@[i].function_name@).len()
                ==> words.contains_key(
                word_address(#[trigger] index.named(self.bindings@[i].function_name@)[j].1),
            )
        &&& forall|a: u64| #[trigger]
            self.breakpoints@.contains_key(a) ==> words.contains_key(word_address(a))
    }

    /// The aligned word addresses that `resolve_breakpoints` needs in its
    /// memory image.
    pub fn words_to_resolve(&self, index: &SymbolIndex) -> (r: Vec<u64>)
        requires
            self.wf(),
        ensures
            forall|words: Map<u64, u64>|
                (forall|i: int| 0 <= i < r@.len() ==> words.contains_key(#[trigger] r@[i]))
                    ==> #[trigger] self.ready_to_resolve(index, words),
    {
        let mut r: Vec<u64> = Vec::new();
        let mut i: usize = 0;
        while i < self.bindings.len()
            invariant
                i <= self.bindings@.len(),
                forall|i2: int, j: int|
                    0 <= i2 < i && 0 <= j < index.named(self.bindings@[i2].function_name@).len()
                        ==> r@.contains(word_address(#[trigger] index.named(self.bindings@[i2].function_name@)[j].1)),
            decreases self.bindings@.len() - i,
        {
            let ghost named = index.named(self.bindings@[i as int].function_name@);
            match index.symbols_by_name.get(self.bindings[i].function_name.as_str()) {
                Some(symbols) => {
                    let mut j: usize = 0;
                    while j < symbols.len()
                        invariant
                            j <= symbols@.len(),
                            named.len() == symbols@.len(),
                            forall|j2: int| 0 <= j2 < symbols@.len() ==> #[trigger] named[j2].1 == symbols@[j2].address,
                            forall|i2: int, j2: int|
                                0 <= i2 < i && 0 <= j2 < index.named(self.bindings@[i2].function_name@).len()
                                    ==> r@.contains(word_address(#[trigger] index.named(self.bindings@[i2].function_name@)[j2].1)),
                            forall|j2: int| 0 <= j2 < j ==> r@.contains(word_address(#[trigger] named[j2].1)),
                        decreases symbols@.len() - j,
                    {
                        let ghost before = r@;
                        r.push(symbols[j].address & !7u64);
                        proof {
                            assert(r@[r@.len() - 1] == word_address(named[j as int].1));
                            assert forall|x: u64| before.contains(x) implies r@.contains(x) by {
                                let k = choose|k: int| 0 <= k < before.len() && before[k] == x;
                                assert(r@[k] == x);
                            }
                        }
                        j += 1;
                    }
                },
                None => {},
            }
            i += 1;
        }
        let mut k: usize = 0;
        while k < self.installed.len()
            invariant
                self.wf(),
                k <= self.installed@.len(),
                forall|i2: int, j: int|
                    0 <= i2 < self.bindings@.len() && 0 <= j < index.named(self.bindings@[i2].function_name@).len()
                        ==> r@.contains(word_address(#[trigger] index.named(self.bindings@[i2].function_name@)[j].1)),
                forall|k2: int| 0 <= k2 < k ==> r@.contains(word_address(#[trigger] self.installed@[k2])),
            decreases self.installed@.len() - k,
        {
            let ghost before = r@;
            r.push(self.installed[k] & !7u64);
            proof {
                assert(r@[r@.len() - 1] == word_address(self.installed@[k as int]));
                assert forall|x: u64| before.contains(x) implies r@.contains(x) by {
                    let k3 = choose|k3: int| 0 <= k3 < before.len() && before[k3] == x;
                    assert(r@[k3] == x);
                }
            }
            k += 1;
        }
        proof {
            assert forall|words: Map<u64, u64>|
                (forall|i2: int| 0 <= i2 < r@.len() ==> words.contains_key(#[trigger] r@[i2]))
                    implies #[trigger] self.ready_to_resolve(index, words) by {
                assert forall|a: u64| #[trigger] self.breakpoints@.contains_key(a) implies words.contains_key(word_address(a)) by {
                    assert(self.installed@.contains(a));
                    let k2 = choose|k2: int| 0 <= k2 < self.installed@.len() && self.installed@[k2] == a;
                    assert(r@.contains(word_address(self.installed@[k2])));
                }
            }
        }
        r
    }

    /// Writes the breakpoint byte again at every recorded address in
    /// `words`, in the order installed.
    pub fn rebind_breakpoints(&self, words: &mut HashMap<u64, u64>)
        requires
            self.wf(),
            forall|a: u64| #[trigger]
                self.breakpoints@.contains_key(a) ==> old(words)@.contains_key(word_address(a)),
        ensures
            final(words)@.dom() == old(words)@.dom(),
            self.installed_in(final(words)@),
            forall|x: u64|
                !self.breakpoints@.contains_key(x) && old(words)@.contains_key(word_address(x))
                    ==> #[trigger] mem_byte(final(words)@, x) == mem_byte(old(words)@, x),
    {
        let mut k: usize = 0;
        while k < self.installed.len()
            invariant
                self.wf(),
                k <= self.installed@.len(),
                words@.dom() == old(words)@.dom(),
                forall|a: u64| #[trigger]
                    self.breakpoints@.contains_key(a) ==> words@.contains_key(word_address(a)),
                forall|k2: int|
                    0 <= k2 < k ==> mem_byte(words@, #[trigger] self.installed@[k2]) == BREAKPOINT_BYTE,
                forall|x: u64|
                    !self.breakpoints@.contains_key(x) && old(words)@.contains_key(word_address(x))
                        ==> #[trigger] mem_byte(words@, x) == mem_byte(old(words)@, x),
            decreases self.installed@.len() - k,
        {
            let address = self.installed[k];
            proof {
                assert(self.installed@.contains(address));
            }
            let ghost before = words@;
            let wa = address & !7u64;
            let code = *words.get(&wa).unwrap();
            let w = insert_breakpoint_instruction(code, address);
            words.insert(wa, w);
            proof {
                assert(words@.dom() =~= before.dom());
                assert forall|k2: int| 0 <= k2 < k + 1 implies mem_byte(words@, #[trigger] self.installed@[k2])
                    == BREAKPOINT_BYTE by {
                    lemma_write_keeps_others(before, address, w, BREAKPOINT_BYTE, self.installed@[k2]);
                    if k2 < k {
                        assert(self.installed@[k2] != address);
                    }
                }
                assert forall|x: u64|
                    !self.breakpoints@.contains_key(x) && old(words)@.contains_key(word_address(x))
                        implies #[trigger] mem_byte(words@, x) == mem_byte(old(words)@, x) by {
                    lemma_write_keeps_others(before, address, w, BREAKPOINT_BYTE, x);
                }
            }
            k += 1;
        }
        proof {
            assert forall|a: u64| #[trigger] self.breakpoints@.contains_key(a) implies words@.contains_key(word_address(a))
                && mem_byte(words@, a) == BREAKPOINT_BYTE by {
                assert(self.installed@.contains(a));
                let k2 = choose|k2: int| 0 <= k2 < self.installed@.len() && self.installed@[k2] == a;
                assert(mem_byte(words@, self.installed@[k2]) == BREAKPOINT_BYTE);
            }
        }
    }

    /// What resolving against `index` leaves: `after` from `self`, and the
    /// memory image `after_words` from `before_words`.  Every address that
    /// a binding resolves to has a breakpoint; the earlier breakpoints are
    /// kept as they were; each new one is persistent, has the callback of a
    /// binding that resolves there and saved the byte found there; every
    /// breakpoint is in place and no other byte changed.
    pub open spec fn resolution(
        &self,
        after: &BreakpointSet,
        index: &SymbolIndex,
        before_words: Map<u64, u64>,
        after_words: Map<u64, u64>,
    ) -> bool {
        &&& after.wf()
        &&& after.bindings@ == self.bindings@
        &&& after.syscall_intercepts@ == self.syscall_intercepts@
        &&& after_words.dom() == before_words.dom()
        &&& forall|a: u64|
            self.breakpoints@.contains_key(a) ==> #[trigger] after.breakpoints@[a]
                == self.breakpoints@[a]
        &&& forall|a: u64| #[trigger]
            after.breakpoints@.contains_key(a) <==> self.breakpoints@.contains_key(a)
                || self.resolves_to(index, a)
        &&& forall|a: u64|
            #[trigger] after.breakpoints@.contains_key(a) && !self.breakpoints@.contains_key(a)
                ==> self.resolved_breakpoint(index, &after.breakpoints@[a], a)
        &&& forall|i: int, j: int|
            0 <= i < after.bindings@.len() && 0 <= j < index.named(
                after.bindings@[i].function_name@,
            ).len() ==> after.breakpoints@.contains_key(
                #[trigger] index.named(after.bindings@[i].function_name@)[j].1,
            )
        &&& after.installed_in(after_words)
        &&& forall|x: u64|
            !after.breakpoints@.contains_key(x) && before_words.contains_key(word_address(x))
                ==> #[trigger] mem_byte(after_words, x) == mem_byte(before_words, x)
        &&& forall|a: u64|
            #[trigger] after.breakpoints@.contains_key(a) && !self.breakpoints@.contains_key(a)
                ==> byte_at(after.breakpoints@[a].original_instruction, byte_position(a))
                == mem_byte(before_words, a)
    }

    /// Installs a persistent breakpoint, with the binding's callback, at
    /// every address of every binding's function in `index` that has none
    /// yet; then writes the breakpoint byte again at every recorded address,
    /// in case a freshly mapped image lost it.
    pub fn resolve_breakpoints(&mut self, words: &mut HashMap<u64, u64>, index: &SymbolIndex)
        requires
            old(self).wf(),
            old(self).ready_to_resolve(index, old(words)@),
        ensures
            old(self).resolution(final(self), index, old(words)@, final(words)@),
    {
        let ghost old_self = *self;
        let mut i: usize = 0;
        while i < self.bindings.len()
            invariant
                self.wf(),
                i <= self.bindings@.len(),
                self.bindings@ == old_self.bindings@,
                self.syscall_intercepts@ == old_self.syscall_intercepts@,
                words@.dom() == old(words)@.dom(),
                old_self.ready_to_resolve(index, old(words)@),
                forall|x: u64|
                    !self.breakpoints@.contains_key(x) && old(words)@.contains_key(word_address(x))
                        ==> #[trigger] mem_byte(words@, x) == mem_byte(old(words)@, x),
                forall|a: u64|
                    #[trigger] self.breakpoints@.contains_key(a) && !old_self.breakpoints@.contains_key(a)
                        ==> byte_at(self.breakpoints@[a].original_instruction, byte_position(a))
                        == mem_byte(old(words)@, a),
                forall|a: u64| #[trigger]
                    self.breakpoints@.contains_key(a) ==> words@.contains_key(word_address(a)),
                forall|a: u64|
                    old_self.breakpoints@.contains_key(a) ==> #[trigger] self.breakpoints@[a]
                        == old_self.breakpoints@[a],
                forall|a: u64| #[trigger]
                    self.breakpoints@.contains_key(a) ==> old_self.breakpoints@.contains_key(a)
                        || old_self.resolves_to(index, a),
                forall|a: u64| #[trigger]
                    old_self.breakpoints@.contains_key(a) ==> self.breakpoints@.contains_key(a),
                forall|a: u64|
                    #[trigger] self.breakpoints@.contains_key(a) && !old_self.breakpoints@.contains_key(a)
                        ==> old_self.resolved_breakpoint(index, &self.breakpoints@[a], a),
                forall|i2: int, j: int|
                    0 <= i2 < i && 0 <= j < index.named(self.bindings@[i2].function_name@).len()
                        ==> self.breakpoints@.contains_key(
                        #[trigger] index.named(self.bindings@[i2].function_name@)[j].1,
                    ),
            decreases self.bindings@.len() - i,
        {
            let ghost named = index.named(self.bindings@[i as int].function_name@);
            let callback = self.bindings[i].callback;
            match index.symbols_by_name.get(self.bindings[i].function_name.as_str()) {
                Some(symbols) => {
                    let mut j: usize = 0;
                    while j < symbols.len()
                        invariant
                            self.wf(),
                            i < self.bindings@.len(),
                            j <= symbols@.len(),
                            named == index.named(self.bindings@[i as int].function_name@),
                            named.len() == symbols@.len(),
                            forall|j2: int| 0 <= j2 < symbols@.len() ==> #[trigger] named[j2].1 == symbols@[j2].address,
                            self.bindings@ == old_self.bindings@,
                            self.syscall_intercepts@ == old_self.syscall_intercepts@,
                            words@.dom() == old(words)@.dom(),
                            old_self.ready_to_resolve(index, old(words)@),
                            forall|x: u64|
                                !self.breakpoints@.contains_key(x) && old(words)@.contains_key(word_address(x))
                                    ==> #[trigger] mem_byte(words@, x) == mem_byte(old(words)@, x),
                            forall|a: u64|
                                #[trigger] self.breakpoints@.contains_key(a) && !old_self.breakpoints@.contains_key(a)
                                    ==> byte_at(self.breakpoints@[a].original_instruction, byte_position(a))
                                    == mem_byte(old(words)@, a),
                            forall|a: u64| #[trigger]
                                self.breakpoints@.contains_key(a) ==> words@.contains_key(word_address(a)),
                            forall|a: u64|
                                old_self.breakpoints@.contains_key(a) ==> #[trigger] self.breakpoints@[a]
                                    == old_self.breakpoints@[a],
                            forall|a: u64| #[trigger]
                                self.breakpoints@.contains_key(a) ==> old_self.breakpoints@.contains_key(a)
                                    || old_self.resolves_to(index, a),
                            forall|a: u64| #[trigger]
                                old_self.breakpoints@.contains_key(a) ==> self.breakpoints@.contains_key(a),
                            forall|a: u64|
                                #[trigger] self.breakpoints@.contains_key(a) && !old_self.breakpoints@.contains_key(a)
                                    ==> old_self.resolved_breakpoint(index, &self.breakpoints@[a], a),
                            callback == self.bindings@[i as int].callback,
                            forall|i2: int, j2: int|
                                0 <= i2 < i && 0 <= j2 < index.named(self.bindings@[i2].function_name@).len()
                                    ==> self.breakpoints@.contains_key(
                                    #[trigger] index.named(self.bindings@[i2].function_name@)[j2].1,
                                ),
                            forall|j2: int| 0 <= j2 < j ==> self.breakpoints@.contains_key(#[trigger] named[j2].1),
                        decreases symbols@.len() - j,
                    {
                        let address = symbols[j].address;
                        proof {
                            assert(named[j as int].1 == address);
                            assert(old_self.resolves_to(index, address));
                            assert(old(words)@.contains_key(word_address(named[j as int].1)));
                        }
                        if !self.breakpoints.contains_key(&address) {
                            let ghost before = words@;
                            proof {
                                assert(mem_byte(before, address) == mem_byte(old(words)@, address));
                            }
                            self.add_breakpoint(words, 0, address, callback, true);
                            proof {
                                let wa = word_address(address);
                                assert(self.breakpoints@[address].original_instruction == before[wa]);
                                assert(byte_at(self.breakpoints@[address].original_instruction, byte_position(address))
                                    == mem_byte(old(words)@, address));
                                assert(words@ =~= before.insert(wa, words@[wa]));
                                assert forall|x: u64|
                                    !self.breakpoints@.contains_key(x) && old(words)@.contains_key(word_address(x))
                                        implies #[trigger] mem_byte(words@, x) == mem_byte(old(words)@, x) by {
                                    lemma_write_keeps_others(before, address, words@[wa], BREAKPOINT_BYTE, x);
                                }
                                assert(self.breakpoints@[address].one_shot_threads@ =~= Set::<u32>::empty());
                                assert(index.named(old_self.bindings@[i as int].function_name@)[j as int].1 == address);
                                assert(old_self.binds(index, address, callback));
                            }
                        }
                    j += 1;
                    }
                },
                None => {
                    assert(named.len() == 0);
                },
            }
            i += 1;
        }
        self.rebind_breakpoints(words);
        proof {
            assert forall|a: u64| #[trigger] self.breakpoints@.contains_key(a) <==> old_self.breakpoints@.contains_key(a)
                || old_self.resolves_to(index, a) by {
                if old_self.resolves_to(index, a) {
                    let (i2, j2) = choose|i2: int, j2: int|
                        0 <= i2 < old_self.bindings@.len() && 0 <= j2 < index.named(old_self.bindings@[i2].function_name@).len()
                            && #[trigger] index.named(old_self.bindings@[i2].function_name@)[j2].1 == a;
                    assert(self.breakpoints@.contains_key(index.named(self.bindings@[i2].function_name@)[j2].1));
                }
            }
        }
    }

    /// Restores the original byte of every recorded breakpoint in `words`,
    /// in the order installed, and forgets every breakpoint, so the target
    /// runs untraced.  Bindings and intercepts stay.
    pub fn clear_breakpoints(&mut self, words: &mut HashMap<u64, u64>)
        requires
            old(self).wf(),
            forall|a: u64| #[trigger]
                old(self).breakpoints@.contains_key(a) ==> old(words)@.contains_key(word_address(a)),
        ensures
            final(self).wf(),
            final(self).breakpoints@.is_empty(),
            final(self).bindings@ == old(self).bindings@,
            final(self).syscall_intercepts@ == old(self).syscall_intercepts@,
            final(words)@.dom() == old(words)@.dom(),
            forall|a: u64| #[trigger]
                old(self).breakpoints@.contains_key(a) ==> mem_byte(final(words)@, a) == byte_at(
                    old(self).breakpoints@[a].original_instruction,
                    byte_position(a),
                ),
            forall|x: u64|
                !old(self).breakpoints@.contains_key(x) && old(words)@.contains_key(word_address(x))
                    ==> #[trigger] mem_byte(final(words)@, x) == mem_byte(old(words)@, x),
    {
        self.restore_originals(words);
        self.breakpoints.clear();
        self.installed.clear();
        assert(self.installed@ =~= Seq::<u64>::empty());
    }

    /// Restores the original byte of every recorded breakpoint in `words`,
    /// in the order installed.
    fn restore_originals(&self, words: &mut HashMap<u64, u64>)
        requires
            self.wf(),
            forall|a: u64| #[trigger]
                self.breakpoints@.contains_key(a) ==> old(words)@.contains_key(word_address(a)),
        ensures
            final(words)@.dom() == old(words)@.dom(),
            forall|a: u64| #[trigger]
                self.breakpoints@.contains_key(a) ==> mem_byte(final(words)@, a) == byte_at(
                    self.breakpoints@[a].original_instruction,
                    byte_position(a),
                ),
            forall|x: u64|
                !self.breakpoints@.contains_key(x) && old(words)@.contains_key(word_address(x))
                    ==> #[trigger] mem_byte(final(words)@, x) == mem_byte(old(words)@, x),
    {
        let mut k: usize = 0;
        while k < self.installed.len()
            invariant
                self.wf(),
                k <= self.installed@.len(),
                words@.dom() == old(words)@.dom(),
                forall|a: u64| #[trigger]
                    self.breakpoints@.contains_key(a) ==> words@.contains_key(word_address(a)),
                forall|k2: int|
                    0 <= k2 < k ==> mem_byte(words@, #[trigger] self.installed@[k2]) == byte_at(
                        self.breakpoints@[self.installed@[k2]].original_instruction,
                        byte_position(self.installed@[k2]),
                    ),
                forall|x: u64|
                    !self.breakpoints@.contains_key(x) && old(words)@.contains_key(word_address(x))
                        ==> #[trigger] mem_byte(words@, x) == mem_byte(old(words)@, x),
            decreases self.installed@.len() - k,
        {
            let address = self.installed[k];
            proof {
                assert(self.installed@.contains(address));
            }
            let ghost before = words@;
            match self.breakpoints.get(&address) {
                Some(breakpoint) => {
                    breakpoint.remove_breakpoint_instruction(words);
                    proof {
                        assert(words@ =~= before.insert(word_address(address), words@[word_address(address)]));
                        let v = byte_at(breakpoint.original_instruction, byte_position(address));
                        assert forall|k2: int| 0 <= k2 < k + 1 implies mem_byte(words@, #[trigger] self.installed@[k2])
                            == byte_at(
                                self.breakpoints@[self.installed@[k2]].original_instruction,
                                byte_position(self.installed@[k2]),
                            ) by {
                            lemma_write_keeps_others(before, address, words@[word_address(address)], v, self.installed@[k2]);
                            if k2 < k {
                                assert(self.installed@[k2] != address);
                            }
                        }
                        assert forall|x: u64|
                            !self.breakpoints@.contains_key(x) && old(words)@.contains_key(word_address(x))
                                implies #[trigger] mem_byte(words@, x) == mem_byte(old(words)@, x) by {
                            lemma_write_keeps_others(before, address, words@[word_address(address)], v, x);
                        }
                    }
                },
                None => {},
            }
            k += 1;
        }
        proof {
            assert forall|a: u64| #[trigger] self.breakpoints@.contains_key(a) implies mem_byte(words@, a) == byte_at(
                self.breakpoints@[a].original_instruction,
                byte_position(a),
            ) by {
                assert(self.installed@.contains(a));
                let k2 = choose|k2: int| 0 <= k2 < self.installed@.len() && self.installed@[k2] == a;
                assert(mem_byte(words@, self.installed@[k2]) == byte_at(
                    self.breakpoints@[self.installed@[k2]].original_instruction,
                    byte_position(self.installed@[k2]),
                ));
            }
        }
    }
}

/// Uninstalling one breakpoint restores its own byte and keeps every other
/// installed breakpoint in place, also those in the same aligned word.
pub proof fn lemma_uninstall_keeps_other_breakpoints(
    set: &BreakpointSet,
    words: Map<u64, u64>,
    address: u64,
    w: u64,
)
    requires
        set.installed_in(words),
        set.breakpoints@.contains_key(address),
        replaces_byte(
            w,
            words[word_address(address)],
            byte_position(address),
            byte_at(set.breakpoints@[address].original_instruction, byte_position(address)),
        ),
    ensures
        ({
            let after = words.insert(word_address(address), w);
            &&& mem_byte(after, address) == byte_at(
                set.breakpoints@[address].original_instruction,
                byte_position(address),
            )
            &&& forall|b: u64|
                b != address && #[trigger] set.breakpoints@.contains_key(b) ==> mem_byte(after, b)
                    == BREAKPOINT_BYTE
        }),
{
    let v = byte_at(set.breakpoints@[address].original_instruction, byte_position(address));
    lemma_write_keeps_others(words, address, w, v, address);
    assert forall|b: u64|
        b != address && #[trigger] set.breakpoints@.contains_key(b) implies mem_byte(
        words.insert(word_address(address), w),
        b,
    ) == BREAKPOINT_BYTE by {
        lemma_write_keeps_others(words, address, w, v, b);
    }
}

} // verus!
