//! Symbols of the binaries mapped into the target, indexed by name and by
//! address.

use crate::process_map::{ProcessMap, ProcessMapEntry};
use object::{Object, ObjectSegment, ObjectSymbol};
use std::collections::BTreeMap;
use vstd::hash_map::StringHashMap;
use vstd::prelude::*;
use vstd::wrapping::u64_specs::wrapping_sub;

verus! {

/// A function mapped into the target.
#[derive(Debug)]
pub struct SymbolInfo {
    pub name: String,
    /// Address in the target's address space.
    pub address: u64,
    /// Length of the function in bytes.
    pub size: u64,
}

/// A symbol as an object file lists it: its name (none when the name is not
/// valid UTF-8), its value and its size.
#[derive(Debug)]
pub struct ElfSymbol {
    pub name: Option<String>,
    pub address: u64,
    pub size: u64,
}

/// Two views over the symbols of the mapped binaries.
pub struct SymbolIndex {
    /// Every symbol of each name, in the order indexed.  A name may have
    /// several copies (two linked images of one library).
    pub symbols_by_name: StringHashMap<Vec<SymbolInfo>>,
    /// The symbol at each address; a later symbol at an address replaces an
    /// earlier one.
    pub symbols_by_address: BTreeMap<u64, SymbolInfo>,
}

/// The contents of an index: name to symbols, and address to symbol.
pub type IndexModel = (Map<Seq<char>, Seq<SymbolView>>, Map<u64, SymbolView>);

/// What an object file's loadable segments are: virtual address and start of
/// the file range of each, in file order; none when the data is not an
/// object file.
pub uninterp spec fn elf_segments_of(data: Seq<u8>) -> Option<Seq<(u64, u64)>>;

/// What an object file's static then dynamic symbol tables list: name (none
/// when not UTF-8), value and size of each; none when the data is not an
/// object file.
pub uninterp spec fn elf_symbols_of(data: Seq<u8>) -> Option<Seq<(Option<Seq<char>>, u64, u64)>>;

/// The plain values of a list of symbols.
pub open spec fn elf_symbols_view(s: Seq<ElfSymbol>) -> Seq<(Option<Seq<char>>, u64, u64)> {
    s.map_values(|e: ElfSymbol| e@)
}

impl View for ElfSymbol {
    type V = (Option<Seq<char>>, u64, u64);

    open spec fn view(&self) -> (Option<Seq<char>>, u64, u64) {
        (
            match self.name {
                Some(n) => Some(n@),
                None => None,
            },
            self.address,
            self.size,
        )
    }
}

/// Relies on `object::File::parse` and `Object::segments`, with
/// `ObjectSegment::address` and `ObjectSegment::file_range`.
#[verifier::external_body]
fn elf_segments(data: &[u8]) -> (r: Option<Vec<(u64, u64)>>)
    ensures
        match r {
            Some(v) => elf_segments_of(data@) == Some(v@),
            None => elf_segments_of(data@) is None,
        },
{
    let file = object::File::parse(data).ok()?;
    Some(file.segments().map(|s| (s.address(), s.file_range().0)).collect())
}

/// Relies on `object::File::parse`, `Object::symbols` and
/// `Object::dynamic_symbols`, with `ObjectSymbol::name`, `address` and
/// `size`.
#[verifier::external_body]
fn elf_symbols(data: &[u8]) -> (r: Option<Vec<ElfSymbol>>)
    ensures
        match r {
            Some(v) => elf_symbols_of(data@) == Some(elf_symbols_view(v@)),
            None => elf_symbols_of(data@) is None,
        },
{
    let file = object::File::parse(data).ok()?;
    let all = file.symbols().chain(file.dynamic_symbols());
    Some(
        all.map(
            |s| ElfSymbol { name: s.name().ok().map(|n| n.to_string()), address: s.address(), size: s.size() },
        ).collect(),
    )
}

/// The keys of `dom` in `(low, high]`.
pub open spec fn keys_between(dom: Set<u64>, low: u64, high: u64) -> Set<u64> {
    dom.filter(|k: u64| low < k && k <= high)
}

/// `k` is one of the `n` greatest keys of `dom` that are at most `t`.
pub open spec fn near_below(dom: Set<u64>, k: u64, t: u64, n: nat) -> bool {
    dom.contains(k) && k <= t && keys_between(dom, k, t).len() < n
}

/// Relies on `BTreeMap::range`, which walks the keys in `..=t` in ascending
/// order: reversed and cut after `n`, these are the `n` greatest keys at most
/// `t`, greatest first.
#[verifier::external_body]
fn keys_at_or_below(m: &BTreeMap<u64, SymbolInfo>, t: u64, n: usize) -> (r: Vec<u64>)
    ensures
        forall|i: int, j: int| 0 <= i < j < r@.len() ==> r@[i] > r@[j],
        forall|k: u64| r@.contains(k) <==> near_below(m@.dom(), k, t, n as nat),
{
    m.range(..=t).rev().take(n).map(|(k, _)| *k).collect()
}

/// A symbol as the index holds it: name, target-space address and size.
pub type SymbolView = (Seq<char>, u64, u64);

/// A symbol as an object file lists it: name (none when not UTF-8), value
/// and size.
pub type ElfSymbolView = (Option<Seq<char>>, u64, u64);

/// `s` covers the target-space address `t`: `t` lies in
/// `[address, address + size)`.
pub open spec fn encloses(s: SymbolView, t: u64) -> bool {
    s.1 <= t && t - s.1 < s.2
}

/// `k` is the address of the symbol that encloses `t`: among the four
/// greatest symbol addresses at most `t`, the greatest whose symbol covers
/// `t`.
pub open spec fn is_enclosing_key(m: Map<u64, SymbolView>, k: u64, t: u64) -> bool {
    &&& near_below(m.dom(), k, t, 4)
    &&& encloses(m[k], t)
    &&& forall|k2: u64|
        near_below(m.dom(), k2, t, 4) && k2 > k ==> !encloses(#[trigger] m[k2], t)
}

/// The symbol that encloses `t`, if any.
pub open spec fn enclosing_symbol(m: Map<u64, SymbolView>, t: u64) -> Option<SymbolView> {
    if exists|k: u64| is_enclosing_key(m, k, t) {
        Some(m[choose|k: u64| is_enclosing_key(m, k, t)])
    } else {
        None
    }
}

/// At most one key is the enclosing one.
proof fn lemma_enclosing_key_unique(m: Map<u64, SymbolView>, k1: u64, k2: u64, t: u64)
    requires
        is_enclosing_key(m, k1, t),
        is_enclosing_key(m, k2, t),
    ensures
        k1 == k2,
{
}

/// The first segment whose file range starts at `offset`, from position `i`
/// on, gives the load bias `address - file offset` (modulo 2^64).
pub open spec fn rebase_from(segments: Seq<(u64, u64)>, offset: u64, i: int) -> Option<u64>
    decreases segments.len() - i,
{
    if i < 0 || i >= segments.len() {
        None
    } else if segments[i].1 == offset {
        Some(wrapping_sub(segments[i].0, segments[i].1))
    } else {
        rebase_from(segments, offset, i + 1)
    }
}

/// Where a symbol of value `value` lands in the target for the mapping
/// `entry` of a file with load bias `rebase`; none when outside the mapping.
pub open spec fn symbol_target(entry: &ProcessMapEntry, rebase: u64, value: u64) -> Option<u64> {
    let sv = wrapping_sub(value, rebase);
    if entry.offset <= sv && sv - entry.offset < entry.end - entry.begin {
        Some((entry.begin + (sv - entry.offset)) as u64)
    } else {
        None
    }
}

/// The index `idx` after recording the symbol `sym` of the mapping `entry`.
pub open spec fn with_symbol(
    idx: IndexModel,
    entry: &ProcessMapEntry,
    rebase: u64,
    sym: ElfSymbolView,
) -> IndexModel {
    match (sym.0, symbol_target(entry, rebase, sym.1)) {
        (Some(n), Some(t)) => {
            let info = (n, t, sym.2);
            let prev = if idx.0.contains_key(n) {
                idx.0[n]
            } else {
                Seq::empty()
            };
            (idx.0.insert(n, prev.push(info)), idx.1.insert(t, info))
        },
        _ => idx,
    }
}

/// The index `idx` after recording each of `syms` in turn.
pub open spec fn with_symbols(
    idx: IndexModel,
    entry: &ProcessMapEntry,
    rebase: u64,
    syms: Seq<ElfSymbolView>,
) -> IndexModel
    decreases syms.len(),
{
    if syms.len() == 0 {
        idx
    } else {
        with_symbol(with_symbols(idx, entry, rebase, syms.drop_last()), entry, rebase, syms.last())
    }
}

/// The index `idx` after recording the symbols `syms` of the object file of
/// `entry`, whose segments are `segments`; unchanged when no segment's file
/// range starts at the mapping's offset.
pub open spec fn with_elf(
    idx: IndexModel,
    entry: &ProcessMapEntry,
    segments: Seq<(u64, u64)>,
    syms: Seq<ElfSymbolView>,
) -> IndexModel {
    match rebase_from(segments, entry.offset, 0) {
        Some(r) => with_symbols(idx, entry, r, syms),
        None => idx,
    }
}

/// The index `idx` after recording the symbols of the file `data` that
/// backs `entry`; unchanged when the file cannot be parsed.
pub open spec fn with_file(idx: IndexModel, entry: &ProcessMapEntry, data: Seq<u8>) -> IndexModel {
    match (elf_segments_of(data), elf_symbols_of(data)) {
        (Some(segs), Some(syms)) => with_elf(idx, entry, segs, syms),
        _ => idx,
    }
}

/// The index `idx` after recording, for each mapping of `entries` from the
/// first on, the file contents read for it (none when it names no file or
/// the file could not be read).
pub open spec fn with_files(
    idx: IndexModel,
    entries: Seq<ProcessMapEntry>,
    contents: Seq<Option<Vec<u8>>>,
) -> IndexModel
    decreases entries.len(),
{
    if entries.len() == 0 || contents.len() == 0 {
        idx
    } else {
        let before = with_files(idx, entries.drop_last(), contents.drop_last());
        match contents.last() {
            Some(d) => with_file(before, &entries.last(), d@),
            None => before,
        }
    }
}

impl View for SymbolInfo {
    type V = SymbolView;

    open spec fn view(&self) -> SymbolView {
        (self.name@, self.address, self.size)
    }
}

impl SymbolInfo {
    /// A copy of this symbol.
    pub fn copy(&self) -> (r: SymbolInfo)
        ensures
            r == *self,
    {
        SymbolInfo { name: self.name.clone(), address: self.address, size: self.size }
    }
}

impl SymbolIndex {
    pub open spec fn model(&self) -> IndexModel {
        (
            self.symbols_by_name@.map_values(|v: Vec<SymbolInfo>| v@.map_values(|s: SymbolInfo| s@)),
            self.symbols_by_address@.map_values(|s: SymbolInfo| s@),
        )
    }

    /// Each symbol is filed under its own address.
    pub open spec fn wf(&self) -> bool {
        forall|k: u64| #[trigger]
            self.symbols_by_address@.contains_key(k) ==> self.symbols_by_address@[k].address == k
    }

    /// The symbols named `name`, in the order indexed.
    pub open spec fn named(&self, name: Seq<char>) -> Seq<SymbolView> {
        if self.model().0.contains_key(name) {
            self.model().0[name]
        } else {
            Seq::empty()
        }
    }

    /// An empty index.
    pub fn new() -> (r: SymbolIndex)
        ensures
            r.wf(),
            r.model().0 == Map::<Seq<char>, Seq<SymbolView>>::empty(),
            r.model().1 == Map::<u64, SymbolView>::empty(),
    {
        let r = SymbolIndex { symbols_by_name: StringHashMap::new(), symbols_by_address: BTreeMap::new() };
        assert(r.model().0 =~= Map::<Seq<char>, Seq<SymbolView>>::empty());
        assert(r.model().1 =~= Map::<u64, SymbolView>::empty());
        r
    }

    /// The index of the binaries of `process_map`; `contents[i]` is what was
    /// read from the file backing entry `i` (none when it names no file or
    /// the file could not be read).
    pub fn from_process_map(process_map: &ProcessMap, contents: &Vec<Option<Vec<u8>>>) -> (r:
        SymbolIndex)
        requires
            contents@.len() == process_map.entries@.len(),
        ensures
            r.wf(),
            r.model() == with_files(
                (Map::<Seq<char>, Seq<SymbolView>>::empty(), Map::<u64, SymbolView>::empty()),
                process_map.entries@,
                contents@,
            ),
    {
        let mut index = SymbolIndex::new();
        index.add_symbols(process_map, contents);
        index
    }

    /// Records `sym`, a symbol of the object file backing `entry` whose load
    /// bias is `rebase`, when it has a name and lands inside the mapping.
    pub fn add_symbol(&mut self, entry: &ProcessMapEntry, rebase: u64, sym: &ElfSymbol)
        requires
            old(self).wf(),
        ensures
            final(self).wf(),
            final(self).model() == with_symbol(old(self).model(), entry, rebase, sym@),
    {
        match &sym.name {
            Some(name) => {
                let sv = sym.address.wrapping_sub(rebase);
                if sv >= entry.offset && entry.end >= entry.begin && sv - entry.offset < entry.end
                    - entry.begin {
                    let address = entry.begin + (sv - entry.offset);
                    let info = SymbolInfo { name: name.clone(), address, size: sym.size };
                    let mut list: Vec<SymbolInfo> = Vec::new();
                    match self.symbols_by_name.get(name.as_str()) {
                        Some(prev) => {
                            let mut i: usize = 0;
                            while i < prev.len()
                                invariant
                                    i <= prev@.len(),
                                    list@.len() == i,
                                    forall|j: int| 0 <= j < i ==> list@[j] == prev@[j],
                                decreases prev@.len() - i,
                            {
                                list.push(prev[i].copy());
                                i += 1;
                            }
                            assert(list@ =~= prev@);
                        },
                        None => {},
                    }
                    let ghost before = list@;
                    list.push(info.copy());
                    let ghost after = list@;
                    self.symbols_by_name.insert(name.clone(), list);
                    self.symbols_by_address.insert(address, info);
                    proof {
                        let old_m = old(self).model();
                        let n = name@;
                        let inf = (n, address, sym.size);
                        let prev_v = if old_m.0.contains_key(n) {
                            old_m.0[n]
                        } else {
                            Seq::empty()
                        };
                        assert(before.map_values(|s: SymbolInfo| s@) =~= prev_v);
                        assert(after.map_values(|s: SymbolInfo| s@) =~= prev_v.push(inf));
                        assert(self.symbols_by_name@ == old(self).symbols_by_name@.insert(n, self.symbols_by_name@[n]));
                        assert(self.symbols_by_name@[n]@ == after);
                        assert(self.model().0 =~= old_m.0.insert(n, prev_v.push(inf)));
                        assert(self.model().1 =~= old_m.1.insert(address, inf));
                    }
                }
            },
            None => {},
        }
    }

    /// Records the symbols `symbols` of the object file backing `entry`,
    /// whose loadable segments are `segments` (virtual address and file
    /// offset of each).  The load bias comes from the first segment whose
    /// file range starts at the mapping's offset; without one nothing is
    /// recorded.
    pub fn add_elf_symbols(
        &mut self,
        entry: &ProcessMapEntry,
        segments: &Vec<(u64, u64)>,
        symbols: &Vec<ElfSymbol>,
    )
        requires
            old(self).wf(),
        ensures
            final(self).wf(),
            final(self).model() == with_elf(
                old(self).model(),
                entry,
                segments@,
                elf_symbols_view(symbols@),
            ),
    {
        let mut found: Option<u64> = None;
        let mut i: usize = 0;
        while i < segments.len() && found.is_none()
            invariant
                i <= segments@.len(),
                found is None ==> rebase_from(segments@, entry.offset, 0) == rebase_from(
                    segments@,
                    entry.offset,
                    i as int,
                ),
                found is Some ==> found == rebase_from(segments@, entry.offset, 0),
            decreases segments@.len() - i,
        {
            if segments[i].1 == entry.offset {
                found = Some(segments[i].0.wrapping_sub(segments[i].1));
            }
            i += 1;
        }
        let rebase = match found {
            Some(r) => r,
            None => {
                return;
            },
        };
        let ghost start = self.model();
        let ghost syms = elf_symbols_view(symbols@);
        let mut k: usize = 0;
        while k < symbols.len()
            invariant
                k <= symbols@.len(),
                syms == elf_symbols_view(symbols@),
                self.wf(),
                self.model() == with_symbols(start, entry, rebase, syms.take(k as int)),
            decreases symbols@.len() - k,
        {
            self.add_symbol(entry, rebase, &symbols[k]);
            proof {
                assert(syms.take(k as int + 1).drop_last() =~= syms.take(k as int));
            }
            k += 1;
        }
        assert(syms.take(k as int) =~= syms);
    }

    /// Records the symbols of `data`, the contents of the file backing
    /// `entry`; nothing when the file cannot be parsed.
    pub fn add_entry_symbols(&mut self, entry: &ProcessMapEntry, data: &[u8])
        requires
            old(self).wf(),
        ensures
            final(self).wf(),
            final(self).model() == with_file(old(self).model(), entry, data@),
    {
        match elf_segments(data) {
            Some(segments) => match elf_symbols(data) {
                Some(symbols) => self.add_elf_symbols(entry, &segments, &symbols),
                None => {},
            },
            None => {},
        }
    }

    /// Records the symbols of every mapping of `process_map`; `contents[i]`
    /// is what was read from the file backing entry `i` (none when it names
    /// no file or the file could not be read).
    pub fn add_symbols(&mut self, process_map: &ProcessMap, contents: &Vec<Option<Vec<u8>>>)
        requires
            old(self).wf(),
            contents@.len() == process_map.entries@.len(),
        ensures
            final(self).wf(),
            final(self).model() == with_files(
                old(self).model(),
                process_map.entries@,
                contents@,
            ),
    {
        let ghost start = self.model();
        let mut i: usize = 0;
        while i < process_map.entries.len()
            invariant
                i <= process_map.entries@.len(),
                contents@.len() == process_map.entries@.len(),
                self.wf(),
                self.model() == with_files(
                    start,
                    process_map.entries@.take(i as int),
                    contents@.take(i as int),
                ),
            decreases process_map.entries@.len() - i,
        {
            match &contents[i] {
                Some(data) => self.add_entry_symbols(&process_map.entries[i], data.as_slice()),
                None => {},
            }
            proof {
                assert(process_map.entries@.take(i as int + 1).drop_last() =~= process_map.entries@.take(
                    i as int,
                ));
                assert(contents@.take(i as int + 1).drop_last() =~= contents@.take(i as int));
            }
            i += 1;
        }
        assert(process_map.entries@.take(i as int) =~= process_map.entries@);
        assert(contents@.take(i as int) =~= contents@);
    }

    /// The function enclosing `address`: of the four greatest symbol
    /// addresses at most `address`, greatest first, the first whose symbol
    /// covers it.  Looking past the nearest one skips small labels that sit
    /// in front of a function.
    pub fn get_function_by_address(&self, address: u64) -> (r: Option<SymbolInfo>)
        requires
            self.wf(),
        ensures
            match r {
                Some(s) => enclosing_symbol(self.model().1, address) == Some(s@),
                None => enclosing_symbol(self.model().1, address) is None,
            },
    {
        let keys = keys_at_or_below(&self.symbols_by_address, address, 4);
        let ghost m = self.model().1;
        assert(m.dom() =~= self.symbols_by_address@.dom());
        let mut i: usize = 0;
        while i < keys.len()
            invariant
                i <= keys@.len(),
                m == self.model().1,
                m.dom() == self.symbols_by_address@.dom(),
                forall|a: int, b: int| 0 <= a < b < keys@.len() ==> keys@[a] > keys@[b],
                forall|k: u64| keys@.contains(k) <==> near_below(m.dom(), k, address, 4),
                forall|j: int| 0 <= j < i ==> m.contains_key(keys@[j]),
                forall|j: int| 0 <= j < i ==> !encloses(#[trigger] m[keys@[j]], address),
            decreases keys@.len() - i,
        {
            let k = keys[i];
            assert(keys@.contains(k));
            match self.symbols_by_address.get(&k) {
                Some(info) => {
                    if info.address <= address && address - info.address < info.size {
                        assert forall|k2: u64|
                            near_below(m.dom(), k2, address, 4) && k2 > k implies !encloses(
                            #[trigger] m[k2],
                            address,
                        ) by {
                            assert(keys@.contains(k2));
                            let j = choose|j: int| 0 <= j < keys@.len() && keys@[j] == k2;
                            if j >= i {
                                if j > i {
                                    assert(keys@[i as int] > keys@[j]);
                                }
                            }
                        }
                        assert(m[k] == info@);
                        assert(near_below(m.dom(), k, address, 4));
                        let r = info.copy();
                        assert(r@ == m[k] && encloses(m[k], address));
                        assert(is_enclosing_key(m, k, address));
                        proof {
                            let k1 = choose|k1: u64| is_enclosing_key(m, k1, address);
                            lemma_enclosing_key_unique(m, k, k1, address);
                        }
                        return Some(r);
                    }
                },
                None => {},
            }
            i += 1;
        }
        assert forall|k: u64| near_below(m.dom(), k, address, 4) implies !encloses(
            #[trigger] m[k],
            address,
        ) by {
            assert(keys@.contains(k));
            let j = choose|j: int| 0 <= j < keys@.len() && keys@[j] == k;
        }
        assert(!exists|k: u64| is_enclosing_key(m, k, address));
        None
    }
}

} // verus!
