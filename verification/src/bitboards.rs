//! 64-bit mask helpers: single-bit mask construction and removal,
//! bounds-safe batch construction, and enumeration of set bits.

use vstd::prelude::*;
use crate::Bitboard;
use crate::bits::bit64;
use crate::bits::lemma_bit64_and_not;
use crate::bits::lemma_bit64_not;
use crate::bits::lemma_bit64_only;
use crate::locate::RankwiseSquareOrdinal;

verus! {

/// A board with no square marked.
pub fn empty() -> (r: Bitboard)
    ensures
        r == 0u64,
{
    0
}

/// The mask a single ordinal translates to when it lies on the board:
/// one marked square in range, an empty board outside it.
pub open spec fn spec_only_n(ordinal: i64) -> u64 {
    if 0 <= ordinal < 64 {
        1u64 << (ordinal as u64)
    } else {
        0u64
    }
}

/// A board with exactly the square `ordinal` marked.
pub fn only(ordinal: RankwiseSquareOrdinal) -> (r: Bitboard)
    requires
        ordinal < 64,
    ensures
        r == 1u64 << (ordinal as u64),
        forall|i: int| bit64(r, i) == (i == ordinal as int),
{
    proof {
        lemma_bit64_only(ordinal as u64);
    }
    1u64 << ordinal
}

/// A board with every square but `ordinal` marked.
pub fn except(ordinal: RankwiseSquareOrdinal) -> (r: Bitboard)
    requires
        ordinal < 64,
    ensures
        r == !(1u64 << (ordinal as u64)),
        forall|i: int| 0 <= i < 64 ==> bit64(r, i) == (i != ordinal as int),
{
    let o = only(ordinal);
    proof {
        lemma_bit64_not(o);
    }
    !o
}

/// Unmarks the square `ordinal` of `template`.
pub fn exclude(ordinal: RankwiseSquareOrdinal, template: Bitboard) -> (r: Bitboard)
    requires
        ordinal < 64,
    ensures
        forall|i: int| #[trigger] bit64(r, i) == (bit64(template, i) && i != ordinal as int),
{
    let o = only(ordinal);
    proof {
        lemma_bit64_and_not(template, o);
    }
    template & !o
}

/// Builds one mask per provisional ordinal, each with either zero or one
/// square marked: ordinals outside 0..64 yield a board with no square
/// marked instead of failing, so that offset patterns reaching past the
/// edge of the board are silently discarded.
pub fn only_n(ordinals: &Vec<i64>) -> (r: Vec<Bitboard>)
    ensures
        r@.len() == ordinals@.len(),
        forall|k: int| 0 <= k < ordinals@.len() ==> r@[k] == spec_only_n(ordinals@[k]),
{
    let mut boards: Vec<Bitboard> = Vec::new();
    let mut k: usize = 0;
    while k < ordinals.len()
        invariant
            k <= ordinals@.len(),
            boards@.len() == k,
            forall|j: int| 0 <= j < k ==> boards@[j] == spec_only_n(ordinals@[j]),
        decreases ordinals@.len() - k,
    {
        let o = ordinals[k];
        if 0 <= o && o < 64 {
            boards.push(1u64 << (o as u64));
        } else {
            boards.push(0u64);
        }
        k += 1;
    }
    boards
}

/// The marked squares of `b` below bit `n`, in ascending order.
pub open spec fn bits_asc64(b: u64, n: int) -> Seq<u32>
    decreases n,
{
    if n <= 0 {
        Seq::empty()
    } else {
        bits_asc64(b, n - 1) + if bit64(b, n - 1) {
            seq![(n - 1) as u32]
        } else {
            Seq::empty()
        }
    }
}

/// Every square in the enumeration is marked and below the cut.
pub proof fn lemma_bits_asc64_elements(b: u64, n: int)
    requires
        0 <= n <= 64,
    ensures
        forall|i: int| 0 <= i < bits_asc64(b, n).len() ==> bit64(
            b,
            #[trigger] bits_asc64(b, n)[i] as int,
        ) && bits_asc64(b, n)[i] < n,
    decreases n,
{
    if n > 0 {
        lemma_bits_asc64_elements(b, n - 1);
        let s = bits_asc64(b, n);
        let sp = bits_asc64(b, n - 1);
        assert forall|i: int| 0 <= i < s.len() implies bit64(b, #[trigger] s[i] as int) && s[i]
            < n by {
            if i < sp.len() {
                assert(s[i] == sp[i]);
            } else {
                assert(s[i] == (n - 1) as u32);
            }
        }
    }
}

/// Enumerates every marked square of `bitboard`, each exactly once, in
/// ascending order.
pub fn scan_n(bitboard: Bitboard) -> (r: Vec<u32>)
    ensures
        r@ == bits_asc64(bitboard, 64),
{
    let mut found: Vec<u32> = Vec::new();
    let mut i: usize = 0;
    while i < 64
        invariant
            i <= 64,
            found@ == bits_asc64(bitboard, i as int),
        decreases 64 - i,
    {
        if bitboard & (1u64 << (i as u64)) != 0 {
            found.push(i as u32);
        }
        i += 1;
    }
    found
}

} // verus!
