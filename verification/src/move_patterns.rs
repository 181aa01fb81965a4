//! Offset patterns for leaping pieces (knight, king, pawn capture) and
//! their vectorized instantiation at an origin square with edge-of-board
//! clamping.

use vstd::prelude::*;
use crate::Bitboard;
use crate::PieceColor;
use crate::bitboards::only_n;
use crate::bitboards::spec_only_n;
use crate::bits::bit64;
use crate::bits::lemma_bit64_only;
use crate::bits::lemma_bit64_or;
use crate::bits::lemma_bit64_zero;
use crate::locate::RankwiseSquareOrdinal;
use crate::locate::file_of;
use crate::locate::rank_of;
use crate::locate::split_rwc;

verus! {

/// A fixed list of (rank-offset, file-offset) pairs describing a leaper's
/// relative destinations, column by column.
pub struct Pattern {
    pub ranks: Vec<i8>,
    pub files: Vec<i8>,
}

impl Pattern {
    /// Both columns list one entry per offset.
    pub open spec fn wf(self) -> bool {
        self.ranks@.len() == self.files@.len()
    }
}

/// The square reached from `origin` by moving `dr` ranks and `df` files,
/// or nothing when that leaves the board on any edge.
pub open spec fn offset_dest(origin: int, dr: int, df: int) -> Option<int> {
    let r = rank_of(origin) + dr;
    let f = file_of(origin) + df;
    if 0 <= r < 8 && 0 <= f < 8 {
        Option::Some(r * 8 + f)
    } else {
        Option::None
    }
}

/// Whether some offset of the pattern carries `origin` to the in-bounds
/// square `s`.
pub open spec fn pattern_hits(origin: int, ranks: Seq<i8>, files: Seq<i8>, s: int) -> bool {
    exists|k: int|
        0 <= k < ranks.len() && #[trigger] offset_dest(origin, ranks[k] as int, files[k] as int)
            == Option::<int>::Some(s)
}

/// Applies every offset of `pattern` to `origin` in parallel, producing
/// one provisional rank-major ordinal per offset. The value falls below 0
/// or above 63 when the origin is close enough to the board's ends for
/// the offset to overflow it vertically.
pub fn translate_n(origin: RankwiseSquareOrdinal, pattern: &Pattern) -> (r: Vec<i64>)
    requires
        origin < 64,
        pattern.wf(),
    ensures
        r@.len() == pattern.ranks@.len(),
        forall|k: int| 0 <= k < r@.len() ==> r@[k] == origin + 8 * (pattern.ranks@[k] as int) + (
        pattern.files@[k] as int),
{
    let mut ordinals: Vec<i64> = Vec::new();
    let mut k: usize = 0;
    while k < pattern.ranks.len()
        invariant
            k <= pattern.ranks@.len(),
            pattern.wf(),
            origin < 64,
            ordinals@.len() == k,
            forall|j: int| 0 <= j < k ==> ordinals@[j] == origin + 8 * (pattern.ranks@[j] as int) + (
            pattern.files@[j] as int),
        decreases pattern.ranks@.len() - k,
    {
        let dr = pattern.ranks[k] as i64;
        let df = pattern.files[k] as i64;
        ordinals.push(origin as i64 + 8 * dr + df);
        k += 1;
    }
    ordinals
}

/// Marks, on a single board, every in-bounds destination the pattern
/// reaches from `origin`. Offsets that leave the board vertically clamp to
/// an empty board; offsets that would cross a rank boundary horizontally
/// and alias to a square on the wrong side are discarded as well.
pub fn instantiate_pattern(origin: RankwiseSquareOrdinal, pattern: &Pattern) -> (r: Bitboard)
    requires
        origin < 64,
        pattern.wf(),
    ensures
        forall|s: int| #[trigger] bit64(r, s) == pattern_hits(
            origin as int,
            pattern.ranks@,
            pattern.files@,
            s,
        ),
{
    let ordinals = translate_n(origin, pattern);
    let boards = only_n(&ordinals);
    let (rank, file) = split_rwc(origin);
    let mut destinations: Bitboard = 0;
    proof {
        lemma_bit64_zero();
    }
    let mut k: usize = 0;
    while k < boards.len()
        invariant
            k <= boards@.len(),
            pattern.wf(),
            origin < 64,
            rank == rank_of(origin as int),
            file == file_of(origin as int),
            boards@.len() == pattern.ranks@.len(),
            ordinals@.len() == pattern.ranks@.len(),
            forall|j: int| 0 <= j < boards@.len() ==> #[trigger] boards@[j] == spec_only_n(
                ordinals@[j],
            ),
            forall|j: int| 0 <= j < ordinals@.len() ==> #[trigger] ordinals@[j] == origin + 8 * (
            pattern.ranks@[j] as int) + (pattern.files@[j] as int),
            forall|s: int| #[trigger] bit64(destinations, s) == exists|j: int|
                0 <= j < k && offset_dest(
                    origin as int,
                    pattern.ranks@[j] as int,
                    pattern.files@[j] as int,
                ) == Option::<int>::Some(s),
        decreases boards@.len() - k,
    {
        let df = pattern.files[k] as i64;
        let dest_file = file as i64 + df;
        let ghost prev = destinations;
        let ghost dr_k = pattern.ranks@[k as int] as int;
        let ghost df_k = pattern.files@[k as int] as int;
        let ghost dest_k = offset_dest(origin as int, dr_k, df_k);
        if 0 <= dest_file && dest_file < 8 {
            proof {
                lemma_bit64_or(destinations, boards@[k as int]);
                let t = ordinals@[k as int];
                assert(t == 8 * (rank_of(origin as int) + dr_k) + (file_of(origin as int) + df_k))
                    by {
                    assert(origin as int == 8 * rank_of(origin as int) + file_of(origin as int));
                }
                if 0 <= t < 64 {
                    lemma_bit64_only(t as u64);
                    assert(0 <= rank_of(origin as int) + dr_k < 8);
                    assert(dest_k == Option::<int>::Some(t as int));
                } else {
                    lemma_bit64_zero();
                    assert(!(0 <= rank_of(origin as int) + dr_k < 8));
                    assert(dest_k is None);
                }
            }
            destinations = destinations | boards[k];
            assert forall|s: int| #[trigger] bit64(destinations, s) == exists|j: int|
                0 <= j < k + 1 && offset_dest(
                    origin as int,
                    pattern.ranks@[j] as int,
                    pattern.files@[j] as int,
                ) == Option::<int>::Some(s) by {
                if bit64(destinations, s) {
                    if bit64(prev, s) {
                        let j = choose|j: int|
                            0 <= j < k && offset_dest(
                                origin as int,
                                pattern.ranks@[j] as int,
                                pattern.files@[j] as int,
                            ) == Option::<int>::Some(s);
                        assert(0 <= j < k + 1 && offset_dest(
                            origin as int,
                            pattern.ranks@[j] as int,
                            pattern.files@[j] as int,
                        ) == Option::<int>::Some(s));
                    } else {
                        assert(dest_k == Option::<int>::Some(s));
                        assert(offset_dest(
                            origin as int,
                            pattern.ranks@[k as int] as int,
                            pattern.files@[k as int] as int,
                        ) == Option::<int>::Some(s));
                    }
                } else {
                    assert(!bit64(prev, s));
                }
            }
        } else {
            proof {
                assert(dest_k is None);
                assert forall|s: int| #[trigger] bit64(destinations, s) == exists|j: int|
                    0 <= j < k + 1 && offset_dest(
                        origin as int,
                        pattern.ranks@[j] as int,
                        pattern.files@[j] as int,
                    ) == Option::<int>::Some(s) by {
                    if bit64(destinations, s) {
                        let j = choose|j: int|
                            0 <= j < k && offset_dest(
                                origin as int,
                                pattern.ranks@[j] as int,
                                pattern.files@[j] as int,
                            ) == Option::<int>::Some(s);
                        assert(0 <= j < k + 1 && offset_dest(
                            origin as int,
                            pattern.ranks@[j] as int,
                            pattern.files@[j] as int,
                        ) == Option::<int>::Some(s));
                    } else {
                        if exists|j: int|
                            0 <= j < k + 1 && offset_dest(
                                origin as int,
                                pattern.ranks@[j] as int,
                                pattern.files@[j] as int,
                            ) == Option::<int>::Some(s) {
                            let j = choose|j: int|
                                0 <= j < k + 1 && offset_dest(
                                    origin as int,
                                    pattern.ranks@[j] as int,
                                    pattern.files@[j] as int,
                                ) == Option::<int>::Some(s);
                            assert(j < k);
                        }
                    }
                }
            }
        }
        k += 1;
    }
    destinations
}

/// The eight knight offsets, in the order they are instantiated.
pub open spec fn knight_ranks() -> Seq<i8> {
    seq![2i8, 1i8, -2i8, -1i8, 2i8, 1i8, -1i8, -2i8]
}

pub open spec fn knight_files() -> Seq<i8> {
    seq![-1i8, -2i8, -1i8, -2i8, 1i8, 2i8, 2i8, 1i8]
}

/// The eight king offsets, in the order they are instantiated.
pub open spec fn king_ranks() -> Seq<i8> {
    seq![0i8, 0i8, 1i8, -1i8, -1i8, 1i8, 1i8, -1i8]
}

pub open spec fn king_files() -> Seq<i8> {
    seq![-1i8, 1i8, 0i8, 0i8, -1i8, -1i8, 1i8, 1i8]
}

/// The rank direction a pawn of `color` advances in: White pawns move
/// toward higher ranks, Black pawns toward lower ones.
pub open spec fn pawn_direction(color: PieceColor) -> int {
    match color {
        PieceColor::Black => -1,
        PieceColor::White => 1,
    }
}

/// The two pawn-capture offsets for `color`: one file to each side, one
/// rank forward from that color's own perspective.
pub open spec fn pawn_capture_ranks(color: PieceColor) -> Seq<i8> {
    seq![pawn_direction(color) as i8, pawn_direction(color) as i8]
}

pub open spec fn pawn_capture_files() -> Seq<i8> {
    seq![-1i8, 1i8]
}

/// Builds the knight's eight-offset pattern.
pub fn compile_knight_pattern() -> (r: Pattern)
    ensures
        r.wf(),
        r.ranks@ == knight_ranks(),
        r.files@ == knight_files(),
{
    let mut files: Vec<i8> = Vec::new();
    let mut ranks: Vec<i8> = Vec::new();
    files.push(-1);
    ranks.push(2);  // rankwise, queenside, toward Black
    files.push(-2);
    ranks.push(1);  // filewise, queenside, toward Black
    files.push(-1);
    ranks.push(-2);  // rankwise, queenside, toward White
    files.push(-2);
    ranks.push(-1);  // filewise, queenside, toward White
    files.push(1);
    ranks.push(2);  // rankwise, kingside, toward Black
    files.push(2);
    ranks.push(1);  // filewise, kingside, toward Black
    files.push(2);
    ranks.push(-1);  // filewise, kingside, toward White
    files.push(1);
    ranks.push(-2);  // rankwise, kingside, toward White
    proof {
        assert(ranks@ =~= knight_ranks());
        assert(files@ =~= knight_files());
    }
    Pattern { ranks, files }
}

/// Builds the king's eight-offset pattern: the four cardinal neighbours,
/// then the four diagonal ones.
pub fn compile_king_pattern() -> (r: Pattern)
    ensures
        r.wf(),
        r.ranks@ == king_ranks(),
        r.files@ == king_files(),
{
    let mut files: Vec<i8> = Vec::new();
    let mut ranks: Vec<i8> = Vec::new();
    files.push(-1);
    ranks.push(0);  // queenside
    files.push(1);
    ranks.push(0);  // kingside
    files.push(0);
    ranks.push(1);  // toward Black
    files.push(0);
    ranks.push(-1);  // toward White
    files.push(-1);
    ranks.push(-1);  // queenside, toward White
    files.push(-1);
    ranks.push(1);  // queenside, toward Black
    files.push(1);
    ranks.push(1);  // kingside, toward Black
    files.push(1);
    ranks.push(-1);  // kingside, toward White
    proof {
        assert(ranks@ =~= king_ranks());
        assert(files@ =~= king_files());
    }
    Pattern { ranks, files }
}

/// Builds the two-offset pawn-capture pattern for `color`, one square
/// diagonally forward on each side, where forward depends on the color.
pub fn compile_pawn_capture_pattern(color: PieceColor) -> (r: Pattern)
    ensures
        r.wf(),
        r.ranks@ == pawn_capture_ranks(color),
        r.files@ == pawn_capture_files(),
{
    let direction: i8 = match color {
        PieceColor::Black => -1,
        PieceColor::White => 1,
    };
    let mut files: Vec<i8> = Vec::new();
    let mut ranks: Vec<i8> = Vec::new();
    files.push(-1);
    ranks.push(direction);
    files.push(1);
    ranks.push(direction);
    proof {
        assert(ranks@ =~= pawn_capture_ranks(color));
        assert(files@ =~= pawn_capture_files());
    }
    Pattern { ranks, files }
}

/// The pawn-capture pattern a pawn of `color` attacks with.
pub fn lookup_pawn_capture_pattern(color: PieceColor) -> (r: Pattern)
    ensures
        r.wf(),
        r.ranks@ == pawn_capture_ranks(color),
        r.files@ == pawn_capture_files(),
{
    compile_pawn_capture_pattern(color)
}

} // verus!
