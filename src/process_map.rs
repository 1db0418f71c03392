//! The target's address-space layout, as listed in its per-process mapping
//! file.

use vstd::prelude::*;
use vstd::utf8::{decode_utf8, valid_utf8};

verus! {

/// Why a mapping listing could not be read.
#[derive(Clone, Copy, Debug, PartialEq, Eq, Structural)]
pub enum MapParseError {
    /// A line has no address range.
    MissingAddressRange,
    /// An address range has no end.
    MissingRangeEnd,
    /// A line has no file offset.
    MissingMappingOffset,
    /// A number is not hexadecimal or does not fit in 64 bits.
    InvalidNumber,
    /// A file name is not valid UTF-8.
    InvalidFilename,
}

/// An entry as plain values: begin, end, offset and file name.
pub type EntryView = (u64, u64, u64, Option<Seq<char>>);

/// ASCII white space.
pub open spec fn is_space(b: u8) -> bool {
    b == 32 || (9 <= b && b <= 13)
}

/// The number of bytes of `s` before the first one that `stop` holds of
/// (all of `s` when there is none).
pub open spec fn prefix_len(s: Seq<u8>, stop: spec_fn(u8) -> bool) -> nat
    decreases s.len(),
{
    if s.len() == 0 || stop(s[0]) {
        0
    } else {
        1 + prefix_len(s.drop_first(), stop)
    }
}

pub open spec fn newline() -> spec_fn(u8) -> bool {
    |b: u8| b == 10
}

pub open spec fn space() -> spec_fn(u8) -> bool {
    |b: u8| is_space(b)
}

pub open spec fn dash() -> spec_fn(u8) -> bool {
    |b: u8| b == 45
}

/// The lines of `s`: split at each newline; a final newline ends the last
/// line rather than starting an empty one.
pub open spec fn lines(s: Seq<u8>) -> Seq<Seq<u8>>
    decreases s.len(),
{
    if s.len() == 0 {
        seq![]
    } else {
        let n = prefix_len(s, newline()) as int;
        if n >= s.len() {
            seq![s]
        } else {
            seq![s.take(n)] + lines(s.skip(n + 1))
        }
    }
}

pub proof fn lemma_prefix_len_bound(s: Seq<u8>, stop: spec_fn(u8) -> bool)
    ensures
        prefix_len(s, stop) <= s.len(),
    decreases s.len(),
{
    if s.len() > 0 && !stop(s[0]) {
        lemma_prefix_len_bound(s.drop_first(), stop);
    }
}

#[via_fn]
proof fn tokens_decreases(s: Seq<u8>) {
    lemma_prefix_len_bound(s, space());
}

/// The maximal runs of non-space bytes of `s`, in order.
pub open spec fn tokens(s: Seq<u8>) -> Seq<Seq<u8>>
    decreases s.len() via tokens_decreases
{
    if s.len() == 0 {
        seq![]
    } else if is_space(s[0]) {
        tokens(s.drop_first())
    } else {
        let n = prefix_len(s, space()) as int;
        seq![s.take(n)] + tokens(s.skip(n))
    }
}

/// The value of a hexadecimal digit.
pub open spec fn hex_digit(b: u8) -> Option<nat> {
    if 48 <= b <= 57 {
        Some((b - 48) as nat)
    } else if 97 <= b <= 102 {
        Some((b - 87) as nat)
    } else if 65 <= b <= 70 {
        Some((b - 55) as nat)
    } else {
        None
    }
}

/// The value of the hexadecimal digits `s`, none if one is not a digit.
pub open spec fn hex_value(s: Seq<u8>) -> Option<nat>
    decreases s.len(),
{
    if s.len() == 0 {
        Some(0)
    } else {
        match (hex_value(s.drop_last()), hex_digit(s.last())) {
            (Some(v), Some(d)) => Some(v * 16 + d),
            _ => None,
        }
    }
}

/// A hexadecimal number as `u64::from_str_radix` reads one: an optional `+`
/// then at least one digit, with a value below 2^64.
pub open spec fn parse_hex(s: Seq<u8>) -> Option<u64> {
    let digits = if s.len() > 1 && s[0] == 43 {
        s.drop_first()
    } else {
        s
    };
    if digits.len() == 0 {
        None
    } else {
        match hex_value(digits) {
            Some(v) => if v <= u64::MAX {
                Some(v as u64)
            } else {
                None
            },
            None => None,
        }
    }
}

/// One line of the listing: `begin-end perms offset dev inode [file]`.
pub open spec fn parse_line(line: Seq<u8>) -> Result<EntryView, MapParseError> {
    let t = tokens(line);
    if t.len() == 0 {
        Err(MapParseError::MissingAddressRange)
    } else {
        let range = t[0];
        let d = prefix_len(range, dash()) as int;
        let rest = range.skip(d + 1);
        let end_token = rest.take(prefix_len(rest, dash()) as int);
        match parse_hex(range.take(d)) {
            None => Err(MapParseError::InvalidNumber),
            Some(begin) => if d >= range.len() {
                Err(MapParseError::MissingRangeEnd)
            } else {
                match parse_hex(end_token) {
                    None => Err(MapParseError::InvalidNumber),
                    Some(end) => if t.len() < 3 {
                        Err(MapParseError::MissingMappingOffset)
                    } else {
                        match parse_hex(t[2]) {
                            None => Err(MapParseError::InvalidNumber),
                            Some(offset) => if t.len() < 6 {
                                Ok((begin, end, offset, None))
                            } else if valid_utf8(t[5]) {
                                Ok((begin, end, offset, Some(decode_utf8(t[5]))))
                            } else {
                                Err(MapParseError::InvalidFilename)
                            },
                        }
                    },
                }
            },
        }
    }
}

/// The entries of the lines `ls`, or the error of the first line that fails.
pub open spec fn parse_lines(ls: Seq<Seq<u8>>) -> Result<Seq<EntryView>, MapParseError>
    decreases ls.len(),
{
    if ls.len() == 0 {
        Ok(seq![])
    } else {
        match parse_line(ls[0]) {
            Err(e) => Err(e),
            Ok(e) => match parse_lines(ls.drop_first()) {
                Err(x) => Err(x),
                Ok(rest) => Ok(seq![e] + rest),
            },
        }
    }
}

/// The entries of the listing `text`, one per line, or the error of the
/// first line that fails.
pub open spec fn parse_map(text: Seq<u8>) -> Result<Seq<EntryView>, MapParseError> {
    parse_lines(lines(text))
}

/// `done` followed by the entries of `rest`, or the error of `rest`.
pub open spec fn after(done: Seq<EntryView>, rest: Result<Seq<EntryView>, MapParseError>) -> Result<
    Seq<EntryView>,
    MapParseError,
> {
    match rest {
        Ok(r) => Ok(done + r),
        Err(e) => Err(e),
    }
}

pub open spec fn entries_view(entries: Seq<ProcessMapEntry>) -> Seq<EntryView> {
    entries.map_values(|e: ProcessMapEntry| e.view())
}

/// Relies on `String::from_utf8`: the decoded text exactly when the bytes
/// are valid UTF-8.
#[verifier::external_body]
fn utf8_string(bytes: &[u8]) -> (r: Option<String>)
    ensures
        match r {
            Some(s) => valid_utf8(bytes@) && s@ == decode_utf8(bytes@),
            None => !valid_utf8(bytes@),
        },
{
    String::from_utf8(bytes.to_vec()).ok()
}

/// One mapped region of the target: `[begin, end)`, backed by `filename`
/// from file offset `offset` on.
#[derive(Debug)]
pub struct ProcessMapEntry {
    pub begin: u64,
    pub end: u64,
    pub offset: u64,
    pub filename: Option<String>,
}

/// All mapped regions of the target, in the order the kernel lists them.
#[derive(Debug)]
pub struct ProcessMap {
    pub entries: Vec<ProcessMapEntry>,
}

/// A prefix of digits that is not a number leaves the whole not a number;
/// one that is bounds the whole from below.
proof fn lemma_hex_prefix(s: Seq<u8>, k: int)
    requires
        0 <= k <= s.len(),
    ensures
        match hex_value(s.take(k)) {
            None => hex_value(s) is None,
            Some(v) => hex_value(s) is None || hex_value(s).unwrap() >= v,
        },
    decreases s.len(),
{
    if k == s.len() {
        assert(s.take(k) =~= s);
    } else {
        lemma_hex_prefix(s.drop_last(), k);
        assert(s.drop_last().take(k) =~= s.take(k));
    }
}

/// One more byte of the run before a stop byte.
proof fn lemma_prefix_step(text: Seq<u8>, i: int, end: int, stop: spec_fn(u8) -> bool)
    requires
        0 <= i < end <= text.len(),
    ensures
        stop(text[i]) ==> prefix_len(text.subrange(i, end), stop) == 0,
        !stop(text[i]) ==> prefix_len(text.subrange(i, end), stop) == 1 + prefix_len(
            text.subrange(i + 1, end),
            stop,
        ),
{
    assert(text.subrange(i, end).drop_first() =~= text.subrange(i + 1, end));
}

/// The end of the run of bytes in `[from, end)` that are not newlines.
fn find_newline(text: &[u8], from: usize, end: usize) -> (r: usize)
    requires
        from <= end <= text@.len(),
    ensures
        from <= r <= end,
        r - from == prefix_len(text@.subrange(from as int, end as int), newline()),
{
    let mut i = from;
    while i < end && text[i] != 10
        invariant
            from <= i <= end <= text@.len(),
            prefix_len(text@.subrange(from as int, end as int), newline()) == (i - from) + prefix_len(
                text@.subrange(i as int, end as int),
                newline(),
            ),
        decreases end - i,
    {
        proof {
            lemma_prefix_step(text@, i as int, end as int, newline());
        }
        i += 1;
    }
    proof {
        if i < end {
            lemma_prefix_step(text@, i as int, end as int, newline());
        }
    }
    i
}

/// The end of the run of bytes in `[from, end)` that are not `-`.
fn find_dash(text: &[u8], from: usize, end: usize) -> (r: usize)
    requires
        from <= end <= text@.len(),
    ensures
        from <= r <= end,
        r - from == prefix_len(text@.subrange(from as int, end as int), dash()),
{
    let mut i = from;
    while i < end && text[i] != 45
        invariant
            from <= i <= end <= text@.len(),
            prefix_len(text@.subrange(from as int, end as int), dash()) == (i - from) + prefix_len(
                text@.subrange(i as int, end as int),
                dash(),
            ),
        decreases end - i,
    {
        proof {
            lemma_prefix_step(text@, i as int, end as int, dash());
        }
        i += 1;
    }
    proof {
        if i < end {
            lemma_prefix_step(text@, i as int, end as int, dash());
        }
    }
    i
}

fn is_space_byte(b: u8) -> (r: bool)
    ensures
        r == is_space(b),
{
    b == 32 || (9 <= b && b <= 13)
}

/// The first token of `[from, end)`: its start and end, or `end` twice when
/// there is none.
fn next_token(text: &[u8], from: usize, end: usize) -> (r: (usize, usize))
    requires
        from <= end <= text@.len(),
    ensures
        from <= r.0 <= r.1 <= end,
        r.0 == end ==> r.1 == end && tokens(text@.subrange(from as int, end as int)) == Seq::<
            Seq<u8>,
        >::empty(),
        r.0 < end ==> r.0 < r.1 && tokens(text@.subrange(from as int, end as int)) == seq![
            text@.subrange(r.0 as int, r.1 as int),
        ] + tokens(text@.subrange(r.1 as int, end as int)),
{
    let mut i = from;
    while i < end && is_space_byte(text[i])
        invariant
            from <= i <= end <= text@.len(),
            tokens(text@.subrange(from as int, end as int)) == tokens(
                text@.subrange(i as int, end as int),
            ),
        decreases end - i,
    {
        assert(text@.subrange(i as int, end as int).drop_first() =~= text@.subrange(
            i as int + 1,
            end as int,
        ));
        i += 1;
    }
    if i == end {
        assert(text@.subrange(i as int, end as int).len() == 0);
        return (end, end);
    }
    let mut j = i;
    while j < end && !is_space_byte(text[j])
        invariant
            i <= j <= end <= text@.len(),
            prefix_len(text@.subrange(i as int, end as int), space()) == (j - i) + prefix_len(
                text@.subrange(j as int, end as int),
                space(),
            ),
        decreases end - j,
    {
        proof {
            lemma_prefix_step(text@, j as int, end as int, space());
        }
        j += 1;
    }
    proof {
        if j < end {
            lemma_prefix_step(text@, j as int, end as int, space());
        }
        lemma_prefix_step(text@, i as int, end as int, space());
        let sub = text@.subrange(i as int, end as int);
        assert(sub.take(j - i) =~= text@.subrange(i as int, j as int));
        assert(sub.skip(j - i) =~= text@.subrange(j as int, end as int));
    }
    (i, j)
}

/// Reads the hexadecimal number in `[from, end)` as `u64::from_str_radix`
/// does.
fn parse_hex_range(text: &[u8], from: usize, end: usize) -> (r: Option<u64>)
    requires
        from <= end <= text@.len(),
    ensures
        r == parse_hex(text@.subrange(from as int, end as int)),
{
    let ghost s = text@.subrange(from as int, end as int);
    let start = if end - from > 1 && text[from] == 43 {
        from + 1
    } else {
        from
    };
    let ghost digits = text@.subrange(start as int, end as int);
    assert(digits =~= (if s.len() > 1 && s[0] == 43 {
        s.drop_first()
    } else {
        s
    }));
    if start == end {
        return None;
    }
    let mut acc: u64 = 0;
    let mut i = start;
    while i < end
        invariant
            start <= i <= end <= text@.len(),
            digits == text@.subrange(start as int, end as int),
            s == text@.subrange(from as int, end as int),
            digits.len() > 0,
            digits == (if s.len() > 1 && s[0] == 43 {
                s.drop_first()
            } else {
                s
            }),
            hex_value(text@.subrange(start as int, i as int)) == Some(acc as nat),
        decreases end - i,
    {
        let b = text[i];
        let d: u64 = if 48 <= b && b <= 57 {
            (b - 48) as u64
        } else if 97 <= b && b <= 102 {
            (b - 87) as u64
        } else if 65 <= b && b <= 70 {
            (b - 55) as u64
        } else {
            proof {
                let p = text@.subrange(start as int, i as int + 1);
                assert(p.drop_last() =~= text@.subrange(start as int, i as int));
                assert(p.last() == b);
                assert(hex_digit(b) is None);
                assert(hex_value(p) is None);
                assert(digits.take(i - start + 1) =~= p);
                lemma_hex_prefix(digits, i - start + 1);
            }
            return None;
        };
        proof {
            let p = text@.subrange(start as int, i as int + 1);
            assert(p.drop_last() =~= text@.subrange(start as int, i as int));
            assert(hex_value(p) == Some((acc as nat) * 16 + (d as nat)));
            assert(digits.take(i - start + 1) =~= p);
            lemma_hex_prefix(digits, i - start + 1);
        }
        if acc > (u64::MAX - d) / 16 {
            assert((acc as nat) * 16 + (d as nat) > u64::MAX) by (nonlinear_arith)
                requires
                    acc > (u64::MAX - d) / 16,
                    d <= 15,
            ;
            return None;
        }
        assert((acc as nat) * 16 + (d as nat) <= u64::MAX) by (nonlinear_arith)
            requires
                acc <= (u64::MAX - d) / 16,
                d <= 15,
        ;
        acc = acc * 16 + d;
        i += 1;
    }
    assert(text@.subrange(start as int, i as int) =~= digits);
    Some(acc)
}

/// Reads the line `[from, end)` of the listing.
fn parse_line_range(text: &[u8], from: usize, end: usize) -> (r: Result<
    ProcessMapEntry,
    MapParseError,
>)
    requires
        from <= end <= text@.len(),
    ensures
        match r {
            Ok(e) => parse_line(text@.subrange(from as int, end as int)) == Ok::<
                EntryView,
                MapParseError,
            >(e.view()),
            Err(x) => parse_line(text@.subrange(from as int, end as int)) == Err::<
                EntryView,
                MapParseError,
            >(x),
        },
{
    let ghost line = text@.subrange(from as int, end as int);
    let mut found: Vec<(usize, usize)> = Vec::new();
    let mut cur = from;
    let mut more = true;
    while more && found.len() < 6
        invariant
            from <= cur <= end <= text@.len(),
            found@.len() <= 6,
            forall|k: int| 0 <= k < found@.len() ==> from <= (#[trigger] found@[k]).0 < found@[k].1 <= end,
            tokens(line) == found@.map_values(
                |p: (usize, usize)| text@.subrange(p.0 as int, p.1 as int),
            ) + tokens(text@.subrange(cur as int, end as int)),
            !more ==> tokens(text@.subrange(cur as int, end as int)).len() == 0,
        decreases 6 - found@.len(), (if more { 1int } else { 0int }),
    {
        let (a, b) = next_token(text, cur, end);
        if a == end {
            more = false;
        } else {
            let ghost before = found@;
            found.push((a, b));
            proof {
                assert(found@.map_values(|p: (usize, usize)| text@.subrange(p.0 as int, p.1 as int))
                    =~= before.map_values(|p: (usize, usize)| text@.subrange(p.0 as int, p.1 as int))
                    + seq![text@.subrange(a as int, b as int)]);
            }
            cur = b;
        }
    }
    let ghost t = tokens(line);
    proof {
        let f = found@.map_values(|p: (usize, usize)| text@.subrange(p.0 as int, p.1 as int));
        if found@.len() < 6 {
            assert(t =~= f);
        }
        assert(forall|k: int| 0 <= k < found@.len() ==> t[k] == #[trigger] f[k]);
        assert(t.len() >= found@.len());
    }
    if found.len() == 0 {
        return Err(MapParseError::MissingAddressRange);
    }
    let (r0, r1) = found[0];
    let d = find_dash(text, r0, r1);
    proof {
        let range = t[0];
        assert(range =~= text@.subrange(r0 as int, r1 as int));
        assert(range.take(d - r0) =~= text@.subrange(r0 as int, d as int));
    }
    let begin = match parse_hex_range(text, r0, d) {
        Some(v) => v,
        None => {
            return Err(MapParseError::InvalidNumber);
        },
    };
    if d >= r1 {
        return Err(MapParseError::MissingRangeEnd);
    }
    let e = find_dash(text, d + 1, r1);
    proof {
        let range = t[0];
        let rest = range.skip(d - r0 + 1);
        assert(rest =~= text@.subrange(d + 1, r1 as int));
        assert(rest.take(e - d - 1) =~= text@.subrange(d + 1, e as int));
    }
    let end_address = match parse_hex_range(text, d + 1, e) {
        Some(v) => v,
        None => {
            return Err(MapParseError::InvalidNumber);
        },
    };
    if found.len() < 3 {
        return Err(MapParseError::MissingMappingOffset);
    }
    let (o0, o1) = found[2];
    let offset = match parse_hex_range(text, o0, o1) {
        Some(v) => v,
        None => {
            return Err(MapParseError::InvalidNumber);
        },
    };
    if found.len() < 6 {
        return Ok(ProcessMapEntry { begin, end: end_address, offset, filename: None });
    }
    let (f0, f1) = found[5];
    let filename = match utf8_string(&text[f0..f1]) {
        Some(name) => name,
        None => {
            return Err(MapParseError::InvalidFilename);
        },
    };
    Ok(ProcessMapEntry { begin, end: end_address, offset, filename: Some(filename) })
}

impl ProcessMapEntry {
    pub open spec fn view(&self) -> EntryView {
        (
            self.begin,
            self.end,
            self.offset,
            match self.filename {
                Some(f) => Some(f@),
                None => None,
            },
        )
    }

    /// The region covers `address`.
    pub open spec fn covers(&self, address: u64) -> bool {
        self.begin <= address && address < self.end
    }
}

impl ProcessMap {
    /// Reads the per-process mapping listing `text`: one entry per line,
    /// `begin-end perms offset dev inode [file]`, numbers in hexadecimal,
    /// fields separated by ASCII white space.
    pub fn new(text: &[u8]) -> (r: Result<ProcessMap, MapParseError>)
        ensures
            match r {
                Ok(m) => parse_map(text@) == Ok::<Seq<EntryView>, MapParseError>(
                    entries_view(m.entries@),
                ),
                Err(e) => parse_map(text@) == Err::<Seq<EntryView>, MapParseError>(e),
            },
    {
        let mut entries: Vec<ProcessMapEntry> = Vec::new();
        let len = text.len();
        let mut pos: usize = 0;
        assert(text@.subrange(0, len as int) =~= text@);
        while pos < len
            invariant
                pos <= len == text@.len(),
                parse_map(text@) == after(
                    entries_view(entries@),
                    parse_lines(lines(text@.subrange(pos as int, len as int))),
                ),
            decreases len - pos,
        {
            let nl = find_newline(text, pos, len);
            let ghost sub = text@.subrange(pos as int, len as int);
            let ghost n = nl - pos;
            proof {
                assert(sub.take(n) =~= text@.subrange(pos as int, nl as int));
                if nl < len {
                    assert(sub.skip(n + 1) =~= text@.subrange(nl + 1, len as int));
                } else {
                    assert(sub.take(n) =~= sub);
                }
            }
            let ghost ls = lines(sub);
            let ghost next = if nl < len {
                text@.subrange(nl + 1, len as int)
            } else {
                Seq::<u8>::empty()
            };
            proof {
                assert(ls[0] == text@.subrange(pos as int, nl as int));
                assert(ls.drop_first() =~= lines(next));
            }
            match parse_line_range(text, pos, nl) {
                Ok(entry) => {
                    let ghost before = entries@;
                    let ghost ev = entry.view();
                    entries.push(entry);
                    if nl < len {
                        pos = nl + 1;
                    } else {
                        pos = len;
                    }
                    proof {
                        assert(text@.subrange(pos as int, len as int) =~= next);
                        assert(entries_view(entries@) =~= entries_view(before) + seq![ev]);
                        match parse_lines(lines(next)) {
                            Ok(rest) => {
                                assert(entries_view(before) + (seq![ev] + rest) =~= entries_view(
                                    entries@,
                                ) + rest);
                            },
                            Err(_) => {},
                        }
                    }
                },
                Err(e) => {
                    return Err(e);
                },
            }
        }
        assert(text@.subrange(pos as int, len as int).len() == 0);
        assert(entries_view(entries@) + Seq::<EntryView>::empty() =~= entries_view(entries@));
        Ok(ProcessMap { entries })
    }

    /// The first entry that covers `address`, scanning in listing order.
    pub fn entry_for_address(&self, address: u64) -> (r: Option<&ProcessMapEntry>)
        ensures
            match r {
                Some(e) => exists|i: int|
                    0 <= i < self.entries@.len() && self.entries@[i] == *e && e.covers(address)
                        && forall|j: int| 0 <= j < i ==> !(#[trigger] self.entries@[j]).covers(address),
                None => forall|j: int|
                    0 <= j < self.entries@.len() ==> !(#[trigger] self.entries@[j]).covers(address),
            },
    {
        let mut i: usize = 0;
        while i < self.entries.len()
            invariant
                i <= self.entries@.len(),
                forall|j: int| 0 <= j < i ==> !(#[trigger] self.entries@[j]).covers(address),
            decreases self.entries@.len() - i,
        {
            let entry = &self.entries[i];
            if address >= entry.begin && address < entry.end {
                return Some(entry);
            }
            i += 1;
        }
        None
    }
}

} // verus!
