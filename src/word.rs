//! Byte-precise instruction substitution within 8-byte aligned machine words.
//!
//! The kernel debug interface reads and writes target memory one aligned
//! 8-byte word at a time, while an x86_64 software breakpoint is the single
//! byte `0xCC` at an arbitrary address.  These functions compute the word to
//! write back so that exactly one byte position changes.

use vstd::prelude::*;

verus! {

/// The x86_64 `int3` instruction.
pub const BREAKPOINT_BYTE: u8 = 0xCC;

/// The aligned word address that holds the byte at `address`.
pub open spec fn word_address(address: u64) -> u64 {
    address & !7u64
}

/// The position (0 to 7) of the byte at `address` inside its aligned word.
pub open spec fn byte_position(address: u64) -> u64 {
    address & 7u64
}

/// Byte `i` (0 is the least significant, as in little-endian memory) of `w`.
pub open spec fn byte_at(w: u64, i: u64) -> u8 {
    ((w >> (i * 8)) & 0xffu64) as u8
}

/// `r` is `w` with the byte at position `i` replaced by `v` and every other
/// byte kept.
pub open spec fn replaces_byte(r: u64, w: u64, i: u64, v: u8) -> bool {
    forall|j: u64| j < 8 ==> #[trigger] byte_at(r, j) == (if j == i { v } else { byte_at(w, j) })
}

pub proof fn lemma_position_bound(address: u64)
    ensures
        byte_position(address) < 8,
{
    assert(address & 7u64 < 8) by (bit_vector);
}

proof fn lemma_insert_byte(code: u64, s: u64, j: u64)
    requires
        s < 8,
        j < 8,
    ensures
        byte_at((0xCCu64 << (s * 8)) | (code & !(0xFFu64 << (s * 8))), j) == (if j == s {
            0xCCu8
        } else {
            byte_at(code, j)
        }),
{
    assert(byte_at((0xCCu64 << (s * 8)) | (code & !(0xFFu64 << (s * 8))), j) == (if j == s {
        0xCCu8
    } else {
        byte_at(code, j)
    })) by (bit_vector)
        requires
            s < 8,
            j < 8,
    ;
}

proof fn lemma_restore_byte(code: u64, original: u64, s: u64, j: u64)
    requires
        s < 8,
        j < 8,
    ensures
        byte_at((original & (0xFFu64 << (s * 8))) | (code & !(0xFFu64 << (s * 8))), j) == (if j
            == s {
            byte_at(original, j)
        } else {
            byte_at(code, j)
        }),
{
    assert(byte_at((original & (0xFFu64 << (s * 8))) | (code & !(0xFFu64 << (s * 8))), j) == (
    if j == s {
        byte_at(original, j)
    } else {
        byte_at(code, j)
    })) by (bit_vector)
        requires
            s < 8,
            j < 8,
    ;
}

/// Two words with the same eight bytes are the same word.
pub proof fn lemma_bytes_determine_word(a: u64, b: u64)
    requires
        forall|j: u64| j < 8 ==> #[trigger] byte_at(a, j) == byte_at(b, j),
    ensures
        a == b,
{
    assert(byte_at(a, 0) == byte_at(b, 0));
    assert(byte_at(a, 1) == byte_at(b, 1));
    assert(byte_at(a, 2) == byte_at(b, 2));
    assert(byte_at(a, 3) == byte_at(b, 3));
    assert(byte_at(a, 4) == byte_at(b, 4));
    assert(byte_at(a, 5) == byte_at(b, 5));
    assert(byte_at(a, 6) == byte_at(b, 6));
    assert(byte_at(a, 7) == byte_at(b, 7));
    assert(a == b) by (bit_vector)
        requires
            byte_at(a, 0) == byte_at(b, 0),
            byte_at(a, 1) == byte_at(b, 1),
            byte_at(a, 2) == byte_at(b, 2),
            byte_at(a, 3) == byte_at(b, 3),
            byte_at(a, 4) == byte_at(b, 4),
            byte_at(a, 5) == byte_at(b, 5),
            byte_at(a, 6) == byte_at(b, 6),
            byte_at(a, 7) == byte_at(b, 7),
    ;
}

/// Two addresses in the same aligned word at the same position are equal.
pub proof fn lemma_same_slot(a: u64, b: u64)
    requires
        word_address(a) == word_address(b),
        byte_position(a) == byte_position(b),
    ensures
        a == b,
{
    assert(a == b) by (bit_vector)
        requires
            a & !7u64 == b & !7u64,
            a & 7u64 == b & 7u64,
    ;
}

/// The byte at `address` in a memory image `words` that maps aligned word
/// addresses to their contents.
pub open spec fn mem_byte(words: Map<u64, u64>, address: u64) -> u8 {
    byte_at(words[word_address(address)], byte_position(address))
}

/// Writing the breakpoint byte at `address` into `w` and then restoring
/// that byte from `w` gives `w` back: a peek, an install and an uninstall
/// leave the aligned word as it was.
pub proof fn lemma_install_uninstall_round_trip(w: u64, address: u64, installed: u64, restored: u64)
    requires
        replaces_byte(installed, w, byte_position(address), BREAKPOINT_BYTE),
        replaces_byte(restored, installed, byte_position(address), byte_at(w, byte_position(address))),
    ensures
        restored == w,
{
    assert forall|j: u64| j < 8 implies #[trigger] byte_at(restored, j) == byte_at(w, j) by {}
    lemma_bytes_determine_word(restored, w);
}

/// Stepping through a breakpoint restores the original byte and then writes
/// the breakpoint byte again: when the word held the breakpoint byte at
/// `address` before, it holds exactly the same word afterwards, whatever
/// byte was restored in between.
pub proof fn lemma_step_through_restores_word(
    w: u64,
    address: u64,
    original: u64,
    uninstalled: u64,
    reinstalled: u64,
)
    requires
        byte_at(w, byte_position(address)) == BREAKPOINT_BYTE,
        replaces_byte(
            uninstalled,
            w,
            byte_position(address),
            byte_at(original, byte_position(address)),
        ),
        replaces_byte(reinstalled, uninstalled, byte_position(address), BREAKPOINT_BYTE),
    ensures
        reinstalled == w,
        byte_at(reinstalled, byte_position(address)) == BREAKPOINT_BYTE,
{
    lemma_position_bound(address);
    assert forall|j: u64| j < 8 implies #[trigger] byte_at(reinstalled, j) == byte_at(w, j) by {}
    lemma_bytes_determine_word(reinstalled, w);
}

/// The word to write at `word_address(address)` so that the byte at
/// `address` becomes `0xCC`, given the word `code` currently there.
pub fn insert_breakpoint_instruction(code: u64, address: u64) -> (r: u64)
    ensures
        replaces_byte(r, code, byte_position(address), BREAKPOINT_BYTE),
{
    let s = address & 7;
    proof {
        lemma_position_bound(address);
    }
    let shift = s * 8;
    let r = (0xCCu64 << shift) | (code & !(0xFFu64 << shift));
    assert forall|j: u64| j < 8 implies #[trigger] byte_at(r, j) == (if j == s {
        BREAKPOINT_BYTE
    } else {
        byte_at(code, j)
    }) by {
        lemma_insert_byte(code, s, j);
    }
    r
}

/// The word to write at `word_address(address)` so that the byte at
/// `address` gets back its value in `original`, given the word `code`
/// currently there.  Only that one byte is restored: other breakpoints may
/// share the word.
pub fn remove_breakpoint_instruction(code: u64, address: u64, original: u64) -> (r: u64)
    ensures
        replaces_byte(r, code, byte_position(address), byte_at(original, byte_position(address))),
{
    let s = address & 7;
    proof {
        lemma_position_bound(address);
    }
    let shift = s * 8;
    let r = (original & (0xFFu64 << shift)) | (code & !(0xFFu64 << shift));
    assert forall|j: u64| j < 8 implies #[trigger] byte_at(r, j) == (if j == s {
        byte_at(original, s)
    } else {
        byte_at(code, j)
    }) by {
        lemma_restore_byte(code, original, s, j);
    }
    r
}

/// The byte at `address`, taken from the aligned word `word` read at
/// `word_address(address)`.
pub fn peekbyte(word: u64, address: u64) -> (r: u8)
    ensures
        r == byte_at(word, byte_position(address)),
{
    let s = address & 7;
    proof {
        lemma_position_bound(address);
    }
    (#[verifier::truncate] (((word >> (s * 8)) & 0xFF) as u8))
}

} // verus!
