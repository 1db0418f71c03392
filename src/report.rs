//! Text rendering of the viewer's rows, and reading the rendered report.

use std::collections::HashSet;
use vstd::prelude::*;
use vstd::string::{StrSliceExecFns, StringExecFns};
use vstd::utf8::encode_utf8;

verus! {

/// The identifier of a stack entry of a trace.
pub type StackEntryId = u64;

/// The order of rows among siblings.
#[derive(Clone, Copy, Debug, PartialEq, Eq, Structural)]
pub enum SortMode {
    /// In trace order.
    TraceOrder,
    /// By peak concurrent bytes, largest first.
    Bytes,
    /// By blocks allocated, most first.
    Blocks,
    /// By blocks never freed, most first.
    Leaks,
}

/// A row of the call tree: one stack frame location and the totals of it
/// and its descendants.
#[derive(Debug)]
pub struct StackEntryRow {
    pub id: StackEntryId,
    /// How many ancestors the row has.
    pub depth: usize,
    /// Entry `d` is true if this row descends from the last child at depth
    /// `d`.
    pub final_child_of_depth: Vec<bool>,
    pub has_children: bool,
    pub address: u64,
    pub function: String,
    pub offset: u64,
    /// Peak bytes allocated at once.
    pub maximum_size: u64,
    /// Blocks allocated.
    pub total_blocks: u64,
    /// Blocks never freed.
    pub unfreed_blocks: u64,
}

/// One line of a rendered report.
#[derive(Debug)]
pub struct ReportLine {
    pub bytes: String,
    pub blocks: String,
    pub leaks: String,
    /// The tree drawing in front of the name.
    pub tree: String,
    pub name: String,
}

pub open spec fn digit_char(d: nat) -> char {
    if d < 10 {
        ((d + 48) as u8) as char
    } else {
        ((d + 87) as u8) as char
    }
}

#[via_fn]
proof fn digits_decreases(n: nat, base: nat) {
    if !(base < 2 || n < base) {
        assert(n / base < n) by (nonlinear_arith)
            requires
                base >= 2,
                n >= base,
        ;
    }
}

/// The digits of `n` in base `base`, most significant first, without
/// leading zeros ("0" for zero).
pub open spec fn digits(n: nat, base: nat) -> Seq<char>
    decreases n via digits_decreases
{
    if base < 2 || n < base {
        seq![digit_char(n)]
    } else {
        digits(n / base, base).push(digit_char(n % base))
    }
}

/// `s` right-aligned in a field of `width` characters.
pub open spec fn padded(s: Seq<char>, width: nat) -> Seq<char> {
    if s.len() < width {
        Seq::new((width - s.len()) as nat, |i: int| ' ') + s
    } else {
        s
    }
}

fn digit_str(d: u64) -> (r: &'static str)
    requires
        d < 16,
    ensures
        r@ == seq![digit_char(d as nat)],
{
    proof {
        reveal_strlit("0");
        reveal_strlit("1");
        reveal_strlit("2");
        reveal_strlit("3");
        reveal_strlit("4");
        reveal_strlit("5");
        reveal_strlit("6");
        reveal_strlit("7");
        reveal_strlit("8");
        reveal_strlit("9");
        reveal_strlit("a");
        reveal_strlit("b");
        reveal_strlit("c");
        reveal_strlit("d");
        reveal_strlit("e");
        reveal_strlit("f");
    }
    let r = if d == 0 {
        "0"
    } else if d == 1 {
        "1"
    } else if d == 2 {
        "2"
    } else if d == 3 {
        "3"
    } else if d == 4 {
        "4"
    } else if d == 5 {
        "5"
    } else if d == 6 {
        "6"
    } else if d == 7 {
        "7"
    } else if d == 8 {
        "8"
    } else if d == 9 {
        "9"
    } else if d == 10 {
        "a"
    } else if d == 11 {
        "b"
    } else if d == 12 {
        "c"
    } else if d == 13 {
        "d"
    } else if d == 14 {
        "e"
    } else {
        "f"
    };
    assert(r@ =~= seq![digit_char(d as nat)]);
    r
}

/// Appends the digits of `n` in base `base` to `s`.
fn push_digits(s: &mut String, n: u64, base: u64)
    requires
        base == 10 || base == 16,
    ensures
        final(s)@ == old(s)@ + digits(n as nat, base as nat),
    decreases n,
{
    if n >= base {
        push_digits(s, n / base, base);
    } else {
        assert(n % base == n) by (nonlinear_arith)
            requires
                n < base,
        ;
    }
    s.append(digit_str(n % base));
    assert(s@ =~= old(s)@ + digits(n as nat, base as nat));
}

/// Appends `width - len` spaces to `s`.
fn push_spaces(s: &mut String, count: usize)
    ensures
        final(s)@ == old(s)@ + Seq::new(count as nat, |i: int| ' '),
{
    let mut k: usize = 0;
    while k < count
        invariant
            k <= count,
            s@ == old(s)@ + Seq::new(k as nat, |i: int| ' '),
        decreases count - k,
    {
        proof {
            reveal_strlit(" ");
        }
        s.append(" ");
        k += 1;
        assert(s@ =~= old(s)@ + Seq::new(k as nat, |i: int| ' '));
    }
}

/// The decimal digits of `n`, right-aligned in `width` characters.
fn padded_decimal(n: u64, width: usize) -> (r: String)
    ensures
        r@ == padded(digits(n as nat, 10), width as nat),
{
    let mut d = String::new();
    push_digits(&mut d, n, 10);
    assert(d@ =~= digits(n as nat, 10));
    let len = d.as_str().unicode_len();
    if len < width {
        let mut r = String::new();
        push_spaces(&mut r, width - len);
        r.append(d.as_str());
        assert(r@ =~= padded(digits(n as nat, 10), width as nat));
        r
    } else {
        d
    }
}

/// A table value in five columns: the number itself below 99999, else the
/// number of units of `divisor` (`k`), of `divisor`^2 (`M`), ^3 (`G`), ^4
/// (`T`) or ^5 (`P`) in four columns with the unit letter, taking the first
/// unit whose count is below 9999.
pub open spec fn table_value(value: nat, divisor: nat) -> Seq<char> {
    let d1 = value / divisor;
    let d2 = d1 / divisor;
    let d3 = d2 / divisor;
    let d4 = d3 / divisor;
    let d5 = d4 / divisor;
    if value < 99999 {
        padded(digits(value, 10), 5)
    } else if d1 < 9999 {
        padded(digits(d1, 10), 4).push('k')
    } else if d2 < 9999 {
        padded(digits(d2, 10), 4).push('M')
    } else if d3 < 9999 {
        padded(digits(d3, 10), 4).push('G')
    } else if d4 < 9999 {
        padded(digits(d4, 10), 4).push('T')
    } else {
        padded(digits(d5, 10), 4).push('P')
    }
}

/// Formats `value` for a five-column table cell, scaling by `divisor`.
pub fn format_table_value(value: u64, divisor: u64) -> (r: String)
    requires
        divisor > 0,
    ensures
        r@ == table_value(value as nat, divisor as nat),
{
    let d1 = value / divisor;
    let d2 = d1 / divisor;
    let d3 = d2 / divisor;
    let d4 = d3 / divisor;
    let d5 = d4 / divisor;
    if value < 99999 {
        return padded_decimal(value, 5);
    }
    let (n, unit) = if d1 < 9999 {
        (d1, "k")
    } else if d2 < 9999 {
        (d2, "M")
    } else if d3 < 9999 {
        (d3, "G")
    } else if d4 < 9999 {
        (d4, "T")
    } else {
        (d5, "P")
    };
    proof {
        reveal_strlit("k");
        reveal_strlit("M");
        reveal_strlit("G");
        reveal_strlit("T");
        reveal_strlit("P");
    }
    let mut r = padded_decimal(n, 4);
    r.append(unit);
    assert(r@ =~= table_value(value as nat, divisor as nat));
    r
}

/// The tree drawing for column `d` of a row at `depth` whose ancestors'
/// last-child flags are `finals`: `+-` in the last column, blank under a
/// last child, a bar elsewhere.
pub open spec fn tree_piece(d: int, depth: int, finals: Seq<bool>) -> Seq<char> {
    if d == depth - 1 {
        "+-"@
    } else if finals[d] {
        "  "@
    } else {
        "| "@
    }
}

/// The tree drawing of the first `k` columns.
pub open spec fn tree_indent(k: nat, depth: int, finals: Seq<bool>) -> Seq<char>
    decreases k,
{
    if k == 0 {
        seq![]
    } else {
        tree_indent((k - 1) as nat, depth, finals) + tree_piece(k - 1, depth, finals)
    }
}

/// The label of a row: `function + 0xOFFSET`, or the function alone at
/// offset 0, or `0xADDRESS` without a function name.
pub open spec fn function_label(function: Seq<char>, offset: u64, address: u64) -> Seq<char> {
    if function.len() > 0 {
        if offset > 0 {
            function + " + 0x"@ + digits(offset as nat, 16)
        } else {
            function
        }
    } else {
        "0x"@ + digits(address as nat, 16)
    }
}

/// The collapsed set holds `id`.
pub open spec fn is_collapsed(collapsed: Option<&HashSet<StackEntryId>>, id: StackEntryId) -> bool {
    match collapsed {
        Some(h) => h@.contains(id),
        None => false,
    }
}

/// The function column of a row: the tree drawing, a marker (`-` for a
/// leaf, `#` for a collapsed row with children, `|` otherwise), a space and
/// the label.
pub open spec fn tree_row(collapsed: Option<&HashSet<StackEntryId>>, entry: &StackEntryRow) -> Seq<
    char,
> {
    let marker = if entry.has_children {
        if is_collapsed(collapsed, entry.id) {
            "#"@
        } else {
            "|"@
        }
    } else {
        "-"@
    };
    tree_indent(entry.depth as nat, entry.depth as int, entry.final_child_of_depth@) + marker + " "@
        + function_label(entry.function@, entry.offset, entry.address)
}

/// Formats the function column of `entry`, drawing its place in the call
/// tree.
pub fn format_function_tree_row(
    collapsed: Option<&HashSet<StackEntryId>>,
    entry: &StackEntryRow,
) -> (r: String)
    requires
        entry.depth == 0 || entry.final_child_of_depth@.len() >= entry.depth - 1,
    ensures
        r@ == tree_row(collapsed, entry),
{
    proof {
        reveal_strlit("+-");
        reveal_strlit("  ");
        reveal_strlit("| ");
        reveal_strlit(" + 0x");
        reveal_strlit("0x");
        reveal_strlit("#");
        reveal_strlit("|");
        reveal_strlit("-");
        reveal_strlit(" ");
    }
    let mut r = String::new();
    let mut d: usize = 0;
    while d < entry.depth
        invariant
            d <= entry.depth,
            entry.depth == 0 || entry.final_child_of_depth@.len() >= entry.depth - 1,
            r@ == tree_indent(d as nat, entry.depth as int, entry.final_child_of_depth@),
        decreases entry.depth - d,
    {
        let piece = if d == entry.depth - 1 {
            "+-"
        } else if entry.final_child_of_depth[d] {
            "  "
        } else {
            "| "
        };
        r.append(piece);
        d += 1;
    }
    let marker = if entry.has_children {
        let c = match collapsed {
            Some(h) => h.contains(&entry.id),
            None => false,
        };
        if c {
            "#"
        } else {
            "|"
        }
    } else {
        "-"
    };
    r.append(marker);
    r.append(" ");
    if entry.function.as_str().unicode_len() > 0 {
        r.append(entry.function.as_str());
        if entry.offset > 0 {
            r.append(" + 0x");
            push_digits(&mut r, entry.offset, 16);
        }
    } else {
        r.append("0x");
        push_digits(&mut r, entry.address, 16);
    }
    assert(r@ =~= tree_row(collapsed, entry));
    r
}

/// The length in bytes of the tree drawing of a report line.
pub open spec fn tree_len(line: ReportLine) -> usize {
    encode_utf8(line.tree@).len() as usize
}

/// The index of the top leaf of a report sorted by peak bytes: from the
/// first line, follow the lines while each draws a deeper tree than the one
/// before; none for an empty report.
pub fn find_top_leaf_index(trace: &Vec<ReportLine>) -> (r: Option<usize>)
    ensures
        match r {
            None => trace@.len() == 0,
            Some(ix) => {
                &&& ix < trace@.len()
                &&& forall|j: int| 0 <= j < ix ==> tree_len(#[trigger] trace@[j + 1]) > tree_len(trace@[j])
                &&& ix + 1 == trace@.len() || tree_len(trace@[ix + 1]) <= tree_len(trace@[ix as int])
            },
        },
{
    if trace.len() == 0 {
        return None;
    }
    let mut ix: usize = 0;
    let mut going = true;
    while going && ix < trace.len() - 1
        invariant
            ix < trace@.len(),
            forall|j: int| 0 <= j < ix ==> tree_len(#[trigger] trace@[j + 1]) > tree_len(trace@[j]),
            !going ==> ix + 1 < trace@.len() && tree_len(trace@[ix + 1]) <= tree_len(trace@[ix as int]),
        decreases trace@.len() - ix, (if going { 1int } else { 0int }),
    {
        let next = trace[ix + 1].tree.as_str().len();
        let here = trace[ix].tree.as_str().len();
        assert(next == tree_len(trace@[ix + 1]));
        assert(here == tree_len(trace@[ix as int]));
        if next <= here {
            going = false;
        } else {
            ix += 1;
        }
    }
    Some(ix)
}

/// What `rustc_demangle::demangle` prints for `s`: the demangled Rust
/// symbol, or `s` itself when it is not one.
pub uninterp spec fn rust_demangled(s: Seq<char>) -> Seq<char>;

/// Relies on `rustc_demangle::demangle`, printed through its `Display`.
#[verifier::external_body]
fn rust_demangle(s: &str) -> (r: String)
    ensures
        r@ == rust_demangled(s@),
{
    rustc_demangle::demangle(s).to_string()
}

/// The display name of the function `name`: its C++ demangling `cplus`
/// when it has one, else `name`, then demangled as a Rust symbol.
pub fn demangle_function_name(name: &str, cplus: Option<String>) -> (r: String)
    ensures
        r@ == rust_demangled(
            match cplus {
                Some(c) => c@,
                None => name@,
            },
        ),
{
    match cplus {
        Some(c) => rust_demangle(c.as_str()),
        None => rust_demangle(name),
    }
}

} // verus!
