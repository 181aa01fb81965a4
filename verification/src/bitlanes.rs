//! 8-bit mask helpers for one rank/file/diagonal slice of the board,
//! including diagonal extraction and trimming to true diagonal length.

use vstd::prelude::*;
use crate::Bitboard;
use crate::Bitlane;
use crate::bits::bit64;
use crate::bits::bit8;
use crate::bits::lemma_bit64_slice8;
use crate::bits::lemma_bit8_and_not;
use crate::bits::lemma_bit8_not;
use crate::bits::lemma_bit8_only;
use crate::bits::lemma_bit8_trim;
use crate::misc::diag_base;
use crate::misc::diag_len;
use crate::misc::lemma_diag_base_bounds;
use crate::misc::lemma_diag_base_closed;
use crate::misc::measure_diagonal;
use crate::misc::partial_diamond_figurate;

verus! {

/// The lane with no square marked.
pub const EMPTY: Bitlane = 0;

/// The lane with all eight squares marked.
pub const OPAQUE: Bitlane = 0b1111_1111;

/// The 8 bits of `board` starting at bit `k`, as a lane.
pub open spec fn spec_slice(k: int, board: u64) -> u8 {
    (board >> (k as u64)) as u8
}

/// The lane `l` with every bit at or above `len` cleared.
pub open spec fn spec_trim(l: u8, len: int) -> u8 {
    l & (0xffu8 >> ((8 - len) as u8))
}

/// The right-aligned lane of diagonal `d`: the bits of the diagonal-major
/// board from the diagonal's base offset, trimmed to its true length.
pub open spec fn spec_slice_d(d: int, board: u64) -> u8 {
    spec_trim(spec_slice(diag_base(d), board), diag_len(d))
}

/// A lane with exactly the square `ordinal` marked.
pub fn only(ordinal: usize) -> (r: Bitlane)
    requires
        ordinal < 8,
    ensures
        r == 1u8 << (ordinal as u8),
        forall|i: int| bit8(r, i) == (i == ordinal as int),
{
    proof {
        lemma_bit8_only(ordinal as u8);
    }
    1u8 << (ordinal as u8)
}

/// A lane with every square but `ordinal` marked.
pub fn except(ordinal: usize) -> (r: Bitlane)
    requires
        ordinal < 8,
    ensures
        r == !(1u8 << (ordinal as u8)),
        forall|i: int| 0 <= i < 8 ==> bit8(r, i) == (i != ordinal as int),
{
    let o = only(ordinal);
    proof {
        lemma_bit8_not(o);
    }
    !o
}

/// Unmarks the square `ordinal` of `template`.
pub fn exclude(ordinal: usize, template: Bitlane) -> (r: Bitlane)
    requires
        ordinal < 8,
    ensures
        forall|i: int| #[trigger] bit8(r, i) == (bit8(template, i) && i != ordinal as int),
{
    let o = only(ordinal);
    proof {
        lemma_bit8_and_not(template, o);
    }
    template & !o
}

/// Produces the lane beginning at bit `ordinal` of `board`; bits beyond
/// bit 63 read as zero.
pub fn slice(ordinal: usize, board: Bitboard) -> (r: Bitlane)
    requires
        ordinal < 64,
    ensures
        r == spec_slice(ordinal as int, board),
        forall|j: int| #[trigger] bit8(r, j) == (0 <= j < 8 && ordinal + j < 64 && bit64(
            board,
            ordinal + j,
        )),
{
    proof {
        lemma_bit64_slice8(board, ordinal as u64);
    }
    (board >> (ordinal as u64)) as Bitlane
}

/// Clears every bit of `bitlane` at or above `length`, the true square
/// count of a short lane.
pub fn trim_to(bitlane: Bitlane, length: u8) -> (r: Bitlane)
    requires
        1 <= length <= 8,
    ensures
        r == spec_trim(bitlane, length as int),
        forall|j: int| #[trigger] bit8(r, j) == (bit8(bitlane, j) && j < length as int),
{
    proof {
        lemma_bit8_trim(bitlane, length);
    }
    bitlane & (OPAQUE >> (8 - length) as u8)
}

/// Produces the lane encapsulating the whole diagonal `dordinal` of a
/// diagonal-major board. The lane is right-aligned, so that bit 0 is the
/// first square on the diagonal; bits beyond the diagonal's true square
/// count are unmarked.
pub fn slice_d(dordinal: usize, bitboard: Bitboard) -> (r: Bitlane)
    requires
        dordinal <= 14,
    ensures
        r == spec_slice_d(dordinal as int, bitboard),
        forall|j: int| #[trigger] bit8(r, j) == (0 <= j < diag_len(dordinal as int) && bit64(
            bitboard,
            diag_base(dordinal as int) + j,
        )),
{
    proof {
        lemma_diag_base_closed(dordinal as int);
        lemma_diag_base_bounds(dordinal as int);
    }
    let base = partial_diamond_figurate(8, dordinal);
    let lane = slice(base, bitboard);
    let length = measure_diagonal(8, dordinal);
    let trimmed = trim_to(lane, length as u8);
    trimmed
}

/// The marked squares of `l` below bit `n`, in ascending order.
pub open spec fn bits_asc8(l: u8, n: int) -> Seq<u32>
    decreases n,
{
    if n <= 0 {
        Seq::empty()
    } else {
        bits_asc8(l, n - 1) + if bit8(l, n - 1) {
            seq![(n - 1) as u32]
        } else {
            Seq::empty()
        }
    }
}

/// Every square in the enumeration is marked and below the cut.
pub proof fn lemma_bits_asc8_elements(l: u8, n: int)
    requires
        0 <= n <= 8,
    ensures
        forall|i: int| 0 <= i < bits_asc8(l, n).len() ==> bit8(
            l,
            #[trigger] bits_asc8(l, n)[i] as int,
        ) && bits_asc8(l, n)[i] < n,
    decreases n,
{
    if n > 0 {
        lemma_bits_asc8_elements(l, n - 1);
        let s = bits_asc8(l, n);
        let sp = bits_asc8(l, n - 1);
        assert forall|i: int| 0 <= i < s.len() implies bit8(l, #[trigger] s[i] as int) && s[i]
            < n by {
            if i < sp.len() {
                assert(s[i] == sp[i]);
            } else {
                assert(s[i] == (n - 1) as u32);
            }
        }
    }
}

/// Enumerates every marked square of `bitlane`, each exactly once, in
/// ascending order.
pub fn scan_n(bitlane: Bitlane) -> (r: Vec<u32>)
    ensures
        r@ == bits_asc8(bitlane, 8),
{
    let mut found: Vec<u32> = Vec::new();
    let mut i: usize = 0;
    while i < 8
        invariant
            i <= 8,
            found@ == bits_asc8(bitlane, i as int),
        decreases 8 - i,
    {
        if bitlane & (1u8 << (i as u8)) != 0 {
            found.push(i as u32);
        }
        i += 1;
    }
    found
}

} // verus!
