//! Naming the frames of an unwound stack, and the word cache that serves the
//! unwinder's memory reads.

use crate::process_map::{ProcessMap, ProcessMapEntry};
use crate::symbol_index::{enclosing_symbol, SymbolIndex};
use std::collections::HashMap;
use vstd::prelude::*;
use vstd::string::StringExecFns;
use vstd::wrapping::u64_specs::wrapping_add;

verus! {

/// One frame of a stack, innermost first.
#[derive(Debug)]
pub struct StackEntry {
    /// The frame's instruction address.
    pub address: u64,
    /// The enclosing function, or `[file]` for the file mapped there, or
    /// empty when neither is known.
    pub name: String,
    /// Offset of `address` from the start of the function (or in the file).
    pub offset: u64,
}

/// What `Path::file_name` gives for `path`: its last component, none when
/// the path ends in `..` or has no component.
pub uninterp spec fn file_name_of(path: Seq<char>) -> Option<Seq<char>>;

/// Relies on `std::path::Path::file_name`; the component of a `str` path is
/// valid UTF-8, so converting it back to a string loses nothing.
#[verifier::external_body]
pub(crate) fn file_name(path: &str) -> (r: Option<String>)
    ensures
        match r {
            Some(s) => file_name_of(path@) == Some(s@),
            None => file_name_of(path@) is None,
        },
{
    std::path::Path::new(path).file_name().and_then(|n| n.to_str()).map(|n| n.to_string())
}

/// The frame name and offset for `address` inside `entry`, whose file has
/// the last path component `basename`: `[basename]`, and the offset in the
/// file (modulo 2^64).
pub fn mapped_file_frame(basename: &str, entry: &ProcessMapEntry, address: u64) -> (r: (
    String,
    u64,
))
    requires
        entry.begin <= address,
    ensures
        r.0@ == seq!['['] + basename@ + seq![']'],
        r.1 == wrapping_add((address - entry.begin) as u64, entry.offset),
{
    let mut name = "[".to_owned();
    name.append(basename);
    name.append("]");
    proof {
        reveal_strlit("[");
        reveal_strlit("]");
    }
    (name, (address - entry.begin).wrapping_add(entry.offset))
}

/// The name and offset of the frame at `address`: the enclosing function
/// and the offset into it; failing that, the file mapped there as
/// `[basename]` and the offset in the file; failing that, an empty name and
/// offset 0.
pub fn get_function_by_address(
    process_map: &ProcessMap,
    symbol_index: &SymbolIndex,
    address: u64,
) -> (r: (String, u64))
    requires
        symbol_index.wf(),
    ensures
        match enclosing_symbol(symbol_index.model().1, address) {
            Some(s) => r.0@ == s.0 && r.1 == address - s.1,
            None => {
                let first = choose|i: int|
                    0 <= i < process_map.entries@.len() && (#[trigger] process_map.entries@[i]).covers(
                        address,
                    ) && forall|j: int|
                        0 <= j < i ==> !(#[trigger] process_map.entries@[j]).covers(address);
                let e = process_map.entries@[first];
                if exists|i: int|
                    0 <= i < process_map.entries@.len() && (
                    #[trigger] process_map.entries@[i]).covers(address) {
                    match e.filename {
                        Some(f) => match file_name_of(f@) {
                            Some(b) => r.0@ == seq!['['] + b + seq![']'] && r.1 == wrapping_add(
                                (address - e.begin) as u64,
                                e.offset,
                            ),
                            None => r.0@.len() == 0 && r.1 == 0,
                        },
                        None => r.0@.len() == 0 && r.1 == 0,
                    }
                } else {
                    r.0@.len() == 0 && r.1 == 0
                }
            },
        },
{
    match symbol_index.get_function_by_address(address) {
        Some(symbol) => {
            return (symbol.name, address - symbol.address);
        },
        None => {},
    }
    match process_map.entry_for_address(address) {
        Some(entry) => {
            proof {
                let i = choose|i: int|
                    0 <= i < process_map.entries@.len() && process_map.entries@[i] == *entry
                        && entry.covers(address) && forall|j: int|
                        0 <= j < i ==> !(#[trigger] process_map.entries@[j]).covers(address);
                let first = choose|i: int|
                    0 <= i < process_map.entries@.len() && (#[trigger] process_map.entries@[i]).covers(
                        address,
                    ) && forall|j: int|
                        0 <= j < i ==> !(#[trigger] process_map.entries@[j]).covers(address);
                if first < i {
                    assert(!process_map.entries@[first].covers(address));
                } else if first > i {
                    assert(!process_map.entries@[i].covers(address));
                }
            }
            match &entry.filename {
                Some(filename) => match file_name(filename.as_str()) {
                    Some(basename) => {
                        return mapped_file_frame(basename.as_str(), entry, address);
                    },
                    None => {},
                },
                None => {},
            }
        },
        None => {},
    }
    (String::new(), 0)
}

/// The memory-read cache of one stack walk: every word read so far, and the
/// most recent read on its own, which the unwinder asks for again and again.
pub struct CrawlContext {
    cache: HashMap<u64, u64>,
    previous: Option<(u64, u64)>,
}

impl CrawlContext {
    /// The words known so far, by address.
    pub closed spec fn known(&self) -> Map<u64, u64> {
        self.cache@
    }

    pub closed spec fn wf(&self) -> bool {
        match self.previous {
            Some((a, v)) => self.cache@.contains_key(a) && self.cache@[a] == v,
            None => true,
        }
    }

    /// An empty cache.
    pub fn new() -> (r: CrawlContext)
        ensures
            r.wf(),
            r.known() == Map::<u64, u64>::empty(),
    {
        CrawlContext { cache: HashMap::new(), previous: None }
    }

    /// The word at `address` if it was read before in this walk.
    pub fn lookup(&mut self, address: u64) -> (r: Option<u64>)
        requires
            old(self).wf(),
        ensures
            final(self).wf(),
            final(self).known() == old(self).known(),
            r == (if old(self).known().contains_key(address) {
                Some(old(self).known()[address])
            } else {
                None
            }),
    {
        match self.previous {
            Some((a, v)) => {
                if a == address {
                    return Some(v);
                }
            },
            None => {},
        }
        match self.cache.get(&address) {
            Some(v) => {
                let v = *v;
                self.previous = Some((address, v));
                Some(v)
            },
            None => None,
        }
    }

    /// Remembers that the word at `address` is `value`.
    pub fn record(&mut self, address: u64, value: u64)
        requires
            old(self).wf(),
        ensures
            final(self).wf(),
            final(self).known() == old(self).known().insert(address, value),
    {
        self.cache.insert(address, value);
        self.previous = Some((address, value));
    }
}

} // verus!
