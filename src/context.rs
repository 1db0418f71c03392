//! The state of one traced process and of each of its threads.

use crate::breakpoint::BreakpointSet;
use crate::process_map::ProcessMap;
use crate::record::EventTracker;
use crate::symbol_index::SymbolIndex;
use std::collections::hash_map::Entry;
use std::collections::HashMap;
use vstd::prelude::*;

verus! {

/// State of one traced thread.
#[derive(Clone, Copy, Debug, PartialEq, Eq, Structural)]
pub struct TraceThreadContext {
    /// The thread is between the entry and the exit stop of a system call.
    pub in_syscall: bool,
}

/// No state is recorded for the thread.
#[derive(Debug, PartialEq, Eq, Structural)]
pub struct MissingThreadContext {
    pub tid: u32,
}

/// State of a traced process.
pub struct TraceContext {
    /// The main thread.
    pub pid: u32,
    pub breakpoint_set: BreakpointSet,
    /// Allocation events in progress.
    pub events: EventTracker,
    /// The address-space layout as last read.
    pub process_map: ProcessMap,
    /// The symbols of the binaries in `process_map`.
    pub symbol_index: SymbolIndex,
    /// Each thread seen so far.
    pub thread_context: HashMap<u32, TraceThreadContext>,
}

impl TraceContext {
    pub open spec fn wf(&self) -> bool {
        self.breakpoint_set.wf() && self.symbol_index.wf()
    }

    /// The in-system-call flag of thread `tid`; false for a thread not seen.
    pub open spec fn in_syscall(&self, tid: u32) -> bool {
        self.thread_context@.contains_key(tid) && self.thread_context@[tid].in_syscall
    }

    /// The context for tracing process `pid` with the breakpoints
    /// `breakpoint_set`, its layout being `process_map`; no symbols, threads
    /// or events yet.
    pub fn new(pid: u32, breakpoint_set: BreakpointSet, process_map: ProcessMap) -> (r:
        TraceContext)
        requires
            breakpoint_set.wf(),
        ensures
            r.wf(),
            r.pid == pid,
            r.breakpoint_set == breakpoint_set,
            r.process_map == process_map,
            r.symbol_index.model().0.is_empty(),
            r.symbol_index.model().1.is_empty(),
            r.events.kinds().is_empty(),
            r.thread_context@.is_empty(),
    {
        TraceContext {
            pid,
            breakpoint_set,
            events: EventTracker::new(),
            process_map,
            symbol_index: SymbolIndex::new(),
            thread_context: HashMap::new(),
        }
    }

    /// Creates the state of thread `tid`, not in a system call, unless it
    /// exists; returns whether it was created.
    pub fn ensure_thread_context(&mut self, tid: u32) -> (r: bool)
        ensures
            r == !old(self).thread_context@.contains_key(tid),
            final(self).thread_context@ == if r {
                old(self).thread_context@.insert(tid, TraceThreadContext { in_syscall: false })
            } else {
                old(self).thread_context@
            },
            final(self).pid == old(self).pid,
            final(self).breakpoint_set == old(self).breakpoint_set,
            final(self).events == old(self).events,
            final(self).process_map == old(self).process_map,
            final(self).symbol_index == old(self).symbol_index,
    {
        if !self.thread_context.contains_key(&tid) {
            self.thread_context.insert(tid, TraceThreadContext { in_syscall: false });
            true
        } else {
            false
        }
    }

    /// The state of thread `tid`.
    pub fn get_thread_context(&self, tid: u32) -> (r: Result<
        &TraceThreadContext,
        MissingThreadContext,
    >)
        ensures
            match r {
                Ok(c) => self.thread_context@.contains_key(tid) && *c == self.thread_context@[tid],
                Err(e) => !self.thread_context@.contains_key(tid) && e == MissingThreadContext { tid },
            },
    {
        match self.thread_context.get(&tid) {
            Some(c) => Ok(c),
            None => Err(MissingThreadContext { tid }),
        }
    }

    /// The state of thread `tid`, to be changed in place.
    pub fn get_thread_context_mut(&mut self, tid: u32) -> (r: Result<
        &mut TraceThreadContext,
        MissingThreadContext,
    >)
        ensures
            match r {
                Ok(c) => {
                    &&& old(self).thread_context@.contains_key(tid)
                    &&& *c == old(self).thread_context@[tid]
                    &&& final(self).thread_context@ == old(self).thread_context@.insert(tid, *final(c))
                },
                Err(e) => {
                    &&& !old(self).thread_context@.contains_key(tid)
                    &&& e == MissingThreadContext { tid }
                    &&& final(self).thread_context@ == old(self).thread_context@
                },
            },
            final(self).pid == old(self).pid,
            final(self).breakpoint_set == old(self).breakpoint_set,
            final(self).events == old(self).events,
            final(self).process_map == old(self).process_map,
            final(self).symbol_index == old(self).symbol_index,
    {
        match self.thread_context.entry(tid) {
            Entry::Occupied(entry) => Ok(entry.into_mut()),
            Entry::Vacant(_) => Err(MissingThreadContext { tid }),
        }
    }

    /// Flips the in-system-call flag of thread `tid`, at a system-call stop.
    pub fn toggle_in_syscall(&mut self, tid: u32) -> (r: Result<(), MissingThreadContext>)
        ensures
            r is Ok <==> old(self).thread_context@.contains_key(tid),
            r is Ok ==> final(self).thread_context@ == old(self).thread_context@.insert(
                tid,
                TraceThreadContext { in_syscall: !old(self).thread_context@[tid].in_syscall },
            ),
            r is Err ==> final(self).thread_context@ == old(self).thread_context@,
            final(self).pid == old(self).pid,
            final(self).breakpoint_set == old(self).breakpoint_set,
            final(self).events == old(self).events,
            final(self).process_map == old(self).process_map,
            final(self).symbol_index == old(self).symbol_index,
    {
        match self.thread_context.get(&tid) {
            Some(c) => {
                let flipped = TraceThreadContext { in_syscall: !c.in_syscall };
                self.thread_context.insert(tid, flipped);
                Ok(())
            },
            None => Err(MissingThreadContext { tid }),
        }
    }

    /// Takes `process_map` as the new layout and `symbol_index`, the index
    /// of its binaries, as the new symbols, and resolves the breakpoints
    /// against them in the memory image `words`, which holds every word that
    /// `words_to_resolve` names for that index.
    pub fn update_process_map(
        &mut self,
        process_map: ProcessMap,
        symbol_index: SymbolIndex,
        words: &mut HashMap<u64, u64>,
    )
        requires
            old(self).wf(),
            symbol_index.wf(),
            old(self).breakpoint_set.ready_to_resolve(&symbol_index, old(words)@),
        ensures
            final(self).wf(),
            final(self).process_map == process_map,
            final(self).symbol_index == symbol_index,
            old(self).breakpoint_set.resolution(
                &final(self).breakpoint_set,
                &symbol_index,
                old(words)@,
                final(words)@,
            ),
            final(self).pid == old(self).pid,
            final(self).events == old(self).events,
            final(self).thread_context == old(self).thread_context,
    {
        self.process_map = process_map;
        self.symbol_index = symbol_index;
        self.breakpoint_set.resolve_breakpoints(words, &self.symbol_index);
    }
}

} // verus!
