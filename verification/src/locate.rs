//! The coordinate locator: bidirectional maps between the canonical
//! rank-major square index and the diagonal, anti-diagonal and file-major
//! coordinate systems, plus rank/file decomposition.

use vstd::prelude::*;
use crate::misc::diag_len;

verus! {

pub type Rank = usize;

pub type File = usize;

/// A natural number in 0..64 denoting a square's location under
/// [`BoardLayout::Rankwise`]: square `rank * 8 + file`, with rank 0 the
/// rank White's pieces start on and file 0 the queenside edge.
pub type RankwiseSquareOrdinal = usize;

/// A natural number in 0..64 denoting a square's location under
/// [`BoardLayout::Filewise`]: square `file * 8 + rank`.
pub type FilewiseSquareOrdinal = usize;

/// Index of a diagonal, 0..15, counted from the corner square 7.
pub type Diagonal = usize;

/// Index of an anti-diagonal, 0..15, counted from the corner square 0.
pub type Antidiagonal = usize;

/// The four linearizations of the 64 squares. Each makes one family of
/// lines contiguous: under a layout, ordinal + 1 is the next square along
/// the line of interest.
#[derive(Copy, Clone, PartialEq, Eq, Structural, Debug)]
pub enum BoardLayout {
    /// Squares ordered anti-diagonal by anti-diagonal.
    Antidiagonal,
    /// Squares ordered diagonal by diagonal.
    Diagonal,
    /// Squares ordered rank by rank: the canonical system.
    Rankwise,
    /// Squares ordered file by file.
    Filewise,
}

/// Either an *anti-diagonal square coordinate* or a *diagonal square
/// coordinate*: the index of the line, and the distance in squares from
/// the line's first square.
#[derive(Copy, Clone, PartialEq, Eq, Structural, Debug)]
pub struct DiagonalSquareCoordinate {
    pub diagonal: usize,
    pub offset: usize,
}

pub open spec fn rank_of(s: int) -> int {
    s / 8
}

pub open spec fn file_of(s: int) -> int {
    s % 8
}

/// Index of the diagonal through square `s`: `rank + (7 - file)`.
pub open spec fn diag_of(s: int) -> int {
    rank_of(s) + 7 - file_of(s)
}

/// Index of the anti-diagonal through square `s`: `rank + file`.
pub open spec fn ad_of(s: int) -> int {
    rank_of(s) + file_of(s)
}

/// Rank of the first square of diagonal (or anti-diagonal) `d`.
pub open spec fn diag_base_rank(d: int) -> int {
    if d <= 7 {
        0
    } else {
        d - 7
    }
}

/// Distance of square `s` from the first square of its diagonal.
pub open spec fn diag_offset_of(s: int) -> int {
    rank_of(s) - diag_base_rank(diag_of(s))
}

/// Distance of square `s` from the first square of its anti-diagonal.
pub open spec fn ad_offset_of(s: int) -> int {
    rank_of(s) - diag_base_rank(ad_of(s))
}

/// The rank-major square at offset `o` along diagonal `d`; consecutive
/// squares of a diagonal are 9 apart.
pub open spec fn spec_rev_d(d: int, o: int) -> int {
    (diag_base_rank(d) + o) * 8 + (if d <= 7 {
        7 - d
    } else {
        0
    }) + o
}

/// The rank-major square at offset `o` along anti-diagonal `d`;
/// consecutive squares of an anti-diagonal are 7 apart.
pub open spec fn spec_rev_ad(d: int, o: int) -> int {
    (diag_base_rank(d) + o) * 8 + (if d <= 7 {
        d
    } else {
        7
    }) - o
}

/// The file-major ordinal of the rank-major square `s`.
pub open spec fn fw_pos(s: int) -> int {
    file_of(s) * 8 + rank_of(s)
}

/// Every valid square has a diagonal coordinate within bounds, and the
/// reverse map carries it back: half of the round-trip law.
pub proof fn lemma_locate_d_props(s: int)
    requires
        0 <= s < 64,
    ensures
        0 <= diag_of(s) <= 14,
        0 <= diag_offset_of(s) < diag_len(diag_of(s)),
        spec_rev_d(diag_of(s), diag_offset_of(s)) == s,
{
    assert(s == 8 * (s / 8) + (s % 8));
}

/// The anti-diagonal counterpart of [`lemma_locate_d_props`].
pub proof fn lemma_locate_ad_props(s: int)
    requires
        0 <= s < 64,
    ensures
        0 <= ad_of(s) <= 14,
        0 <= ad_offset_of(s) < diag_len(ad_of(s)),
        spec_rev_ad(ad_of(s), ad_offset_of(s)) == s,
{
    assert(s == 8 * (s / 8) + (s % 8));
}

/// A valid diagonal coordinate maps to a square on that very diagonal, at
/// that very offset: the other half of the round-trip law.
pub proof fn lemma_rev_d_props(d: int, o: int)
    requires
        0 <= d <= 14,
        0 <= o < diag_len(d),
    ensures
        0 <= spec_rev_d(d, o) < 64,
        rank_of(spec_rev_d(d, o)) == diag_base_rank(d) + o,
        file_of(spec_rev_d(d, o)) == (if d <= 7 {
            7 - d
        } else {
            0
        }) + o,
        diag_of(spec_rev_d(d, o)) == d,
        diag_offset_of(spec_rev_d(d, o)) == o,
{
    let r = diag_base_rank(d) + o;
    let f = (if d <= 7 {
        7 - d
    } else {
        0
    }) + o;
    let s = r * 8 + f;
    assert(0 <= f < 8);
    assert(0 <= r < 8);
    assert(s / 8 == r && s % 8 == f) by {
        assert(s == 8 * r + f);
    }
}

/// The anti-diagonal counterpart of [`lemma_rev_d_props`].
pub proof fn lemma_rev_ad_props(d: int, o: int)
    requires
        0 <= d <= 14,
        0 <= o < diag_len(d),
    ensures
        0 <= spec_rev_ad(d, o) < 64,
        rank_of(spec_rev_ad(d, o)) == diag_base_rank(d) + o,
        file_of(spec_rev_ad(d, o)) == (if d <= 7 {
            d
        } else {
            7
        }) - o,
        ad_of(spec_rev_ad(d, o)) == d,
        ad_offset_of(spec_rev_ad(d, o)) == o,
{
    let r = diag_base_rank(d) + o;
    let f = (if d <= 7 {
        d
    } else {
        7
    }) - o;
    let s = r * 8 + f;
    assert(0 <= f < 8);
    assert(0 <= r < 8);
    assert(s / 8 == r && s % 8 == f) by {
        assert(s == 8 * r + f);
    }
}

/// Splits a rank-major ordinal into its rank and file.
pub fn split_rwc(sordinal: RankwiseSquareOrdinal) -> (r: (Rank, File))
    requires
        sordinal < 64,
    ensures
        r.0 == rank_of(sordinal as int),
        r.1 == file_of(sordinal as int),
        r.0 < 8 && r.1 < 8,
{
    let rank: usize = sordinal / 8;
    let file: usize = sordinal % 8;
    (rank, file)
}

/// Splits a file-major ordinal into its rank and file.
pub fn split_fwc(sordinal: FilewiseSquareOrdinal) -> (r: (Rank, File))
    requires
        sordinal < 64,
    ensures
        r.0 == sordinal as int % 8,
        r.1 == sordinal as int / 8,
        r.0 < 8 && r.1 < 8,
{
    let rank: usize = sordinal % 8;
    let file: usize = sordinal / 8;
    (rank, file)
}

/// The *anti-diagonal square coordinate* of a rank-major square ordinal:
/// the anti-diagonal through the square, and the distance from that
/// anti-diagonal's first square.
pub fn locate_ad(sordinal: RankwiseSquareOrdinal) -> (r: DiagonalSquareCoordinate)
    requires
        sordinal < 64,
    ensures
        r.diagonal == ad_of(sordinal as int),
        r.offset == ad_offset_of(sordinal as int),
        r.diagonal <= 14,
        r.offset < diag_len(r.diagonal as int),
        spec_rev_ad(r.diagonal as int, r.offset as int) == sordinal,
{
    proof {
        lemma_locate_ad_props(sordinal as int);
    }
    let (rank, file) = split_rwc(sordinal);
    let antidiagonal: Antidiagonal = rank + file;
    let offset = if antidiagonal <= 7 {
        rank
    } else {
        rank - (antidiagonal - 7)
    };
    DiagonalSquareCoordinate { diagonal: antidiagonal, offset }
}

/// The *diagonal square coordinate* of a rank-major square ordinal: the
/// diagonal through the square, and the distance from that diagonal's
/// first square.
pub fn locate_d(sordinal: RankwiseSquareOrdinal) -> (r: DiagonalSquareCoordinate)
    requires
        sordinal < 64,
    ensures
        r.diagonal == diag_of(sordinal as int),
        r.offset == diag_offset_of(sordinal as int),
        r.diagonal <= 14,
        r.offset < diag_len(r.diagonal as int),
        spec_rev_d(r.diagonal as int, r.offset as int) == sordinal,
{
    proof {
        lemma_locate_d_props(sordinal as int);
    }
    let (rank, file) = split_rwc(sordinal);
    let diagonal: Diagonal = rank + 7 - file;
    let offset = if diagonal <= 7 {
        rank
    } else {
        rank - (diagonal - 7)
    };
    DiagonalSquareCoordinate { diagonal, offset }
}

/// The rank-major ordinal of a *diagonal square coordinate*.
pub fn reverse_locate_d(dordinal: DiagonalSquareCoordinate) -> (r: RankwiseSquareOrdinal)
    requires
        dordinal.diagonal <= 14,
        (dordinal.offset as int) < diag_len(dordinal.diagonal as int),
    ensures
        r == spec_rev_d(dordinal.diagonal as int, dordinal.offset as int),
        r < 64,
        diag_of(r as int) == dordinal.diagonal,
        diag_offset_of(r as int) == dordinal.offset,
{
    proof {
        lemma_rev_d_props(dordinal.diagonal as int, dordinal.offset as int);
    }
    let base_file = 7 - (if dordinal.diagonal < 7 {
        dordinal.diagonal
    } else {
        7
    });
    let base_rank = if dordinal.diagonal > 7 {
        dordinal.diagonal - 7
    } else {
        0
    };
    base_file + (base_rank * 8) + (dordinal.offset * 9)
}

/// The rank-major ordinal of an *anti-diagonal square coordinate*.
pub fn reverse_locate_ad(dordinal: DiagonalSquareCoordinate) -> (r: RankwiseSquareOrdinal)
    requires
        dordinal.diagonal <= 14,
        (dordinal.offset as int) < diag_len(dordinal.diagonal as int),
    ensures
        r == spec_rev_ad(dordinal.diagonal as int, dordinal.offset as int),
        r < 64,
        ad_of(r as int) == dordinal.diagonal,
        ad_offset_of(r as int) == dordinal.offset,
{
    proof {
        lemma_rev_ad_props(dordinal.diagonal as int, dordinal.offset as int);
    }
    let base_file = if dordinal.diagonal < 7 {
        dordinal.diagonal
    } else {
        7
    };
    let base_rank = if dordinal.diagonal > 7 {
        dordinal.diagonal - 7
    } else {
        0
    };
    base_file + (base_rank * 8) + (dordinal.offset * 7)
}

/// The file-major ordinal of a rank-major square ordinal: a transpose.
pub fn locate_fw(ordinal: RankwiseSquareOrdinal) -> (r: FilewiseSquareOrdinal)
    requires
        ordinal < 64,
    ensures
        r == fw_pos(ordinal as int),
        r < 64,
{
    let (rank, file) = split_rwc(ordinal);
    file * 8 + rank
}

/// The rank-major ordinal of a file-major square ordinal: the transpose
/// back.
pub fn reverse_locate_fw(ordinal: FilewiseSquareOrdinal) -> (r: RankwiseSquareOrdinal)
    requires
        ordinal < 64,
    ensures
        r < 64,
        fw_pos(r as int) == ordinal,
        r == (ordinal as int % 8) * 8 + ordinal as int / 8,
{
    let (rank, file) = split_fwc(ordinal);
    proof {
        let s = (ordinal as int % 8) * 8 + ordinal as int / 8;
        assert(s / 8 == ordinal as int % 8 && s % 8 == ordinal as int / 8) by {
            assert(s == 8 * (ordinal as int % 8) + ordinal as int / 8);
            assert(ordinal as int == 8 * (ordinal as int / 8) + ordinal as int % 8);
        }
    }
    rank * 8 + file
}

/// Round-trip law, diagonal side: locating any canonical square and
/// reversing the coordinate restores the square.
pub proof fn lemma_locate_d_round_trip(s: int)
    requires
        0 <= s < 64,
    ensures
        spec_rev_d(diag_of(s), diag_offset_of(s)) == s,
{
    lemma_locate_d_props(s);
}

/// Round-trip law, anti-diagonal side: locating any canonical square and
/// reversing the coordinate restores the square.
pub proof fn lemma_locate_ad_round_trip(s: int)
    requires
        0 <= s < 64,
    ensures
        spec_rev_ad(ad_of(s), ad_offset_of(s)) == s,
{
    lemma_locate_ad_props(s);
}

} // verus!
