//! Allocation events in progress on each thread, and what completing one
//! records.

use crate::unwind::StackEntry;
use std::collections::HashMap;
use vstd::prelude::*;

verus! {

/// The kind of an allocation event.
#[derive(Clone, Copy, Debug, PartialEq, Eq, Structural)]
pub enum EventType {
    /// An allocation of the given size.
    Alloc(u64),
    /// A reallocation of the block at the first address to the given size.
    Realloc(u64, u64),
    /// A release of a block.
    Free,
}

/// An event opened on a thread and not yet completed.
#[derive(Debug)]
pub struct RecordInProgress {
    pub allocation: EventType,
    /// The stack when the event opened.
    pub callstack: Vec<StackEntry>,
}

/// One record of the event stream: an allocation of `size` bytes at
/// `address`, or (with `allocation` false and no size) a free of the block
/// at `address`.
#[derive(Clone, Copy, Debug, PartialEq, Eq, Structural)]
pub struct AllocationRecord {
    pub allocation: bool,
    pub address: u64,
    pub size: Option<u64>,
}

/// A completed event: the stack it opened with and the records it yields.
#[derive(Debug)]
pub struct CompletedEvent {
    pub callstack: Vec<StackEntry>,
    pub records: Vec<AllocationRecord>,
}

/// Completing an event on a thread that has none in progress.
#[derive(Debug, PartialEq, Eq, Structural)]
pub struct NoEventInProgress {
    pub tid: u32,
}

/// The events in progress, at most one per thread.
#[derive(Debug)]
pub struct EventTracker {
    pub record_in_progress: HashMap<u32, RecordInProgress>,
}

pub open spec fn alloc_record(address: u64, size: u64) -> AllocationRecord {
    AllocationRecord { allocation: true, address, size: Some(size) }
}

pub open spec fn free_record(address: u64) -> AllocationRecord {
    AllocationRecord { allocation: false, address, size: None }
}

/// What completing an event of kind `allocation` with the address `result`
/// records.  An allocation is recorded when the result is not null; a free
/// (completed with the address it was given) when that address is not null;
/// a reallocation frees the old block when it had one and either the result
/// is not null or the new size is zero, and then records the new block when
/// the result is not null.
pub open spec fn completion_records(allocation: EventType, result: u64) -> Seq<AllocationRecord> {
    match allocation {
        EventType::Alloc(size) => if result != 0 {
            seq![alloc_record(result, size)]
        } else {
            Seq::empty()
        },
        EventType::Free => if result != 0 {
            seq![free_record(result)]
        } else {
            Seq::empty()
        },
        EventType::Realloc(prev, size) => {
            let freed = if prev != 0 && (result != 0 || size == 0) {
                seq![free_record(prev)]
            } else {
                Seq::empty()
            };
            if result != 0 {
                freed.push(alloc_record(result, size))
            } else {
                freed
            }
        },
    }
}

/// The records that completing an event of kind `allocation` with the
/// address `result` yields.
pub fn completion(allocation: EventType, result: u64) -> (r: Vec<AllocationRecord>)
    ensures
        r@ == completion_records(allocation, result),
{
    let mut records: Vec<AllocationRecord> = Vec::new();
    match allocation {
        EventType::Alloc(size) => {
            if result != 0 {
                records.push(AllocationRecord { allocation: true, address: result, size: Some(size) });
            }
        },
        EventType::Free => {
            if result != 0 {
                records.push(AllocationRecord { allocation: false, address: result, size: None });
            }
        },
        EventType::Realloc(prev, size) => {
            if prev != 0 && (result != 0 || size == 0) {
                records.push(AllocationRecord { allocation: false, address: prev, size: None });
            }
            if result != 0 {
                records.push(AllocationRecord { allocation: true, address: result, size: Some(size) });
            }
        },
    }
    assert(records@ =~= completion_records(allocation, result));
    records
}

/// A reallocation of a block that existed, completed with a non-null
/// result, yields exactly one free of the old block followed by exactly one
/// allocation of the new one.
pub proof fn lemma_realloc_completion(prev: u64, size: u64, result: u64)
    requires
        prev != 0,
        result != 0,
    ensures
        completion_records(EventType::Realloc(prev, size), result) == seq![
            free_record(prev),
            alloc_record(result, size),
        ],
{
    assert(completion_records(EventType::Realloc(prev, size), result) =~= seq![
        free_record(prev),
        alloc_record(result, size),
    ]);
}

impl EventTracker {
    /// The kind of the event in progress on each thread.
    pub open spec fn kinds(&self) -> Map<u32, EventType> {
        self.record_in_progress@.map_values(|r: RecordInProgress| r.allocation)
    }

    /// No event in progress.
    pub fn new() -> (r: EventTracker)
        ensures
            r.kinds() == Map::<u32, EventType>::empty(),
    {
        let r = EventTracker { record_in_progress: HashMap::new() };
        assert(r.kinds() =~= Map::<u32, EventType>::empty());
        r
    }

    /// Thread `tid` has an event in progress.
    pub fn is_event_in_progress(&self, tid: u32) -> (r: bool)
        ensures
            r == self.kinds().contains_key(tid),
    {
        self.record_in_progress.contains_key(&tid)
    }

    /// Opens an event of kind `allocation` on thread `tid`, with the stack
    /// `callstack`; an event already open there is dropped.
    pub fn start_event(&mut self, tid: u32, allocation: EventType, callstack: Vec<StackEntry>)
        ensures
            final(self).kinds() == old(self).kinds().insert(tid, allocation),
            final(self).record_in_progress@ == old(self).record_in_progress@.insert(
                tid,
                (RecordInProgress { allocation, callstack }),
            ),
            final(self).record_in_progress@[tid].callstack@ == callstack@,
    {
        self.record_in_progress.insert(tid, RecordInProgress { allocation, callstack });
        assert(self.kinds() =~= old(self).kinds().insert(tid, allocation));
    }

    /// Completes the event in progress on thread `tid` with the address
    /// `result` (for a free: the address freed), yielding its stack and its
    /// records.
    pub fn complete_event(&mut self, tid: u32, result: u64) -> (r: Result<
        CompletedEvent,
        NoEventInProgress,
    >)
        ensures
            final(self).kinds() == old(self).kinds().remove(tid),
            final(self).record_in_progress@ == old(self).record_in_progress@.remove(tid),
            r is Err ==> final(self).record_in_progress@ == old(self).record_in_progress@,
            match r {
                Ok(done) => {
                    &&& old(self).kinds().contains_key(tid)
                    &&& done.records@ == completion_records(old(self).kinds()[tid], result)
                    &&& done.callstack@ == old(self).record_in_progress@[tid].callstack@
                },
                Err(e) => !old(self).kinds().contains_key(tid) && e == NoEventInProgress { tid },
            },
    {
        let removed = self.record_in_progress.remove(&tid);
        assert(self.kinds() =~= old(self).kinds().remove(tid));
        if removed.is_none() {
            assert(self.record_in_progress@ =~= old(self).record_in_progress@);
        }
        match removed {
            Some(record) => {
                let records = completion(record.allocation, result);
                Ok(CompletedEvent { callstack: record.callstack, records })
            },
            None => Err(NoEventInProgress { tid }),
        }
    }
}

} // verus!
