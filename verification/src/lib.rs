//! Pseudo-legal chess move generation over multi-layout bitmask boards.
//!
//! For a single piece of a given kind and color on a given square, the
//! library computes the complete set of pseudo-legal destination squares on
//! an 8x8 board, given the occupancy of every square by either color.
//! Sliding-piece attacks are answered by lane projection and a bidirectional
//! obstruction scan; leaper attacks by offset-pattern instantiation with
//! edge-of-board clamping.

use vstd::prelude::*;

pub mod bitboards;
pub mod bitlanes;
pub mod bits;
pub mod locate;
pub mod misc;
pub mod move_patterns;
pub mod movegen;
pub mod obstruct;

use crate::bitboards::bits_asc64;
use crate::bitlanes::bits_asc8;
use crate::bits::bit64;
use crate::locate::BoardLayout;

verus! {

/// 64-bit mask; bit `i` set means square `i` (rank-major) is marked.
pub type Bitboard = u64;

/// 8-bit mask for one line (rank, file, diagonal or anti-diagonal) of at
/// most 8 squares, right-aligned so bit 0 is the first square of the line.
pub type Bitlane = u8;

#[derive(Copy, Clone, PartialEq, Eq, Structural, Debug)]
pub enum PieceKind {
    Rook,
    Knight,
    Bishop,
    Queen,
    King,
    Pawn,
}

#[derive(Copy, Clone, PartialEq, Eq, Structural, Debug)]
pub enum PieceColor {
    Black,
    White,
}

pub open spec fn spec_opponent(color: PieceColor) -> PieceColor {
    match color {
        PieceColor::Black => PieceColor::White,
        PieceColor::White => PieceColor::Black,
    }
}

/// The color of the other side.
pub fn opponent(color: PieceColor) -> (r: PieceColor)
    ensures
        r == spec_opponent(color),
{
    match color {
        PieceColor::Black => PieceColor::White,
        PieceColor::White => PieceColor::Black,
    }
}

/// One logical occupancy under a single layout: which squares each color
/// holds, and which squares each piece kind stands on, in that layout's
/// square numbering.
#[derive(Copy, Clone, PartialEq, Eq, Structural, Debug)]
pub struct Board {
    pub black: Bitboard,
    pub white: Bitboard,
    pub rooks: Bitboard,
    pub knights: Bitboard,
    pub bishops: Bitboard,
    pub queens: Bitboard,
    pub kings: Bitboard,
    pub pawns: Bitboard,
}

/// Four parallel representations of the same logical occupancy, one per
/// [`BoardLayout`], each permuted so that its lines of interest are
/// contiguous bit runs. The owner of board state keeps the four in
/// agreement; this crate only reads a consistent snapshot.
#[derive(Copy, Clone, PartialEq, Eq, Structural, Debug)]
pub struct RotatableBoard {
    pub antidiagonal: Board,
    pub diagonal: Board,
    pub rankwise: Board,
    pub filewise: Board,
}

pub open spec fn spec_rotate(rboard: RotatableBoard, orientation: BoardLayout) -> Board {
    match orientation {
        BoardLayout::Antidiagonal => rboard.antidiagonal,
        BoardLayout::Diagonal => rboard.diagonal,
        BoardLayout::Rankwise => rboard.rankwise,
        BoardLayout::Filewise => rboard.filewise,
    }
}

/// The view of the logical occupancy arranged under `orientation`.
pub fn rotate(rboard: &RotatableBoard, orientation: BoardLayout) -> (r: &Board)
    ensures
        *r == spec_rotate(*rboard, orientation),
{
    match orientation {
        BoardLayout::Antidiagonal => &rboard.antidiagonal,
        BoardLayout::Diagonal => &rboard.diagonal,
        BoardLayout::Rankwise => &rboard.rankwise,
        BoardLayout::Filewise => &rboard.filewise,
    }
}

pub open spec fn spec_select_color(board: Board, color: PieceColor) -> Bitboard {
    match color {
        PieceColor::Black => board.black,
        PieceColor::White => board.white,
    }
}

pub open spec fn spec_select_kind(board: Board, kind: PieceKind) -> Bitboard {
    match kind {
        PieceKind::Rook => board.rooks,
        PieceKind::Knight => board.knights,
        PieceKind::Bishop => board.bishops,
        PieceKind::Queen => board.queens,
        PieceKind::King => board.kings,
        PieceKind::Pawn => board.pawns,
    }
}

pub open spec fn spec_select_all(board: Board) -> Bitboard {
    board.black | board.white
}

/// The squares holding a piece of the given color and kind.
pub fn select_species(color: PieceColor, kind: PieceKind, board: &Board) -> (r: Bitboard)
    ensures
        r == spec_select_color(*board, color) & spec_select_kind(*board, kind),
{
    let color_mask = select_color(board, color);
    let kind_mask = match kind {
        PieceKind::Rook => board.rooks,
        PieceKind::Knight => board.knights,
        PieceKind::Bishop => board.bishops,
        PieceKind::Queen => board.queens,
        PieceKind::King => board.kings,
        PieceKind::Pawn => board.pawns,
    };
    color_mask & kind_mask
}

/// The squares occupied by either color.
pub fn select_all(board: &Board) -> (r: Bitboard)
    ensures
        r == spec_select_all(*board),
{
    board.black | board.white
}

/// The squares occupied by the given color.
pub fn select_color(board: &Board, color: PieceColor) -> (r: Bitboard)
    ensures
        r == spec_select_color(*board, color),
{
    match color {
        PieceColor::Black => board.black,
        PieceColor::White => board.white,
    }
}

/// Whether the square `origin` is occupied by either color.
pub fn is_occupied(board: &Board, origin: usize) -> (r: bool)
    requires
        origin < 64,
    ensures
        r == bit64(spec_select_all(*board), origin as int),
{
    let all = select_all(board);
    let occupied = all & (1u64 << (origin as u64)) != 0;
    proof {
        assert((origin as int) as u64 == origin as u64);
    }
    occupied
}

/// Lists the marked squares of a board, each exactly once, ascending.
pub fn enumerate_bitboard(board: Bitboard) -> (r: Vec<u8>)
    ensures
        r@.len() == bits_asc64(board, 64).len(),
        forall|i: int| 0 <= i < r@.len() ==> r@[i] == #[trigger] bits_asc64(board, 64)[i] as u8,
{
    let list = crate::bitboards::scan_n(board);
    proof {
        crate::bitboards::lemma_bits_asc64_elements(board, 64);
    }
    let mut occupants: Vec<u8> = Vec::new();
    let mut k: usize = 0;
    while k < list.len()
        invariant
            k <= list@.len(),
            list@ == bits_asc64(board, 64),
            forall|i: int| 0 <= i < list@.len() ==> #[trigger] list@[i] < 64,
            occupants@.len() == k,
            forall|i: int| 0 <= i < k ==> occupants@[i] == #[trigger] list@[i] as u8,
        decreases list@.len() - k,
    {
        occupants.push(list[k] as u8);
        k += 1;
    }
    occupants
}

/// Lists the marked squares of a lane, each exactly once, ascending.
pub fn enumerate_bitlane(bitlane: Bitlane) -> (r: Vec<u8>)
    ensures
        r@.len() == bits_asc8(bitlane, 8).len(),
        forall|i: int| 0 <= i < r@.len() ==> r@[i] == #[trigger] bits_asc8(bitlane, 8)[i] as u8,
{
    let list = crate::bitlanes::scan_n(bitlane);
    proof {
        crate::bitlanes::lemma_bits_asc8_elements(bitlane, 8);
    }
    let mut occupants: Vec<u8> = Vec::new();
    let mut k: usize = 0;
    while k < list.len()
        invariant
            k <= list@.len(),
            list@ == bits_asc8(bitlane, 8),
            forall|i: int| 0 <= i < list@.len() ==> #[trigger] list@[i] < 8,
            occupants@.len() == k,
            forall|i: int| 0 <= i < k ==> occupants@[i] == #[trigger] list@[i] as u8,
        decreases list@.len() - k,
    {
        occupants.push(list[k] as u8);
        k += 1;
    }
    occupants
}

/// A packed pair of board locations: bits 0-5 hold the origin square, bits
/// 6-11 the destination square, bits 12-15 are unused. The coordinates are
/// read in whatever layout the producing context used.
#[derive(Copy, Clone, PartialEq, Eq, Structural, Debug)]
pub struct Translation {
    pub data: u16,
}

/// The translation packing origin `o` and destination `d`, both in 0..64.
pub open spec fn spec_translation(o: int, d: int) -> Translation {
    Translation { data: (o + d * 64) as u16 }
}

impl Translation {
    pub open spec fn spec_origin(self) -> int {
        (self.data & 63) as int
    }

    pub open spec fn spec_destination(self) -> int {
        ((self.data >> 6) & 63) as int
    }

    /// The origin square the translation departs from.
    pub fn origin(self) -> (r: usize)
        ensures
            r == self.spec_origin(),
            r < 64,
    {
        proof {
            lemma_translation_bounds(self);
        }
        (self.data & 63) as usize
    }

    /// The destination square the translation arrives at.
    pub fn destination(self) -> (r: usize)
        ensures
            r == self.spec_destination(),
            r < 64,
    {
        proof {
            lemma_translation_bounds(self);
        }
        ((self.data >> 6) & 63) as usize
    }

    /// Packs an origin and a destination, silently truncating either to
    /// its low 6 bits; callers must guarantee valid inputs.
    pub fn new(origin: usize, destination: usize) -> (r: Self)
        ensures
            r == spec_translation(origin as int % 64, destination as int % 64),
    {
        let o6 = (origin & 63) as u16;
        let d6 = (destination & 63) as u16;
        proof {
            assert((((origin & 63) as u16) | ((((destination & 63) as u16)) << 6)) == (((origin
                % 64) + (destination % 64) * 64) as u16)) by (bit_vector);
        }
        let data = o6 | (d6 << 6);
        Translation { data }
    }
}

/// Both fields of any translation decode to squares on the board.
pub proof fn lemma_translation_bounds(t: Translation)
    ensures
        0 <= t.spec_origin() < 64,
        0 <= t.spec_destination() < 64,
{
    let x = t.data;
    assert((x & 63) < 64 && ((x >> 6) & 63) < 64) by (bit_vector);
}

/// Packing squares in 0..64 and reading them back is the identity.
pub proof fn lemma_translation_fields(o: int, d: int)
    requires
        0 <= o < 64,
        0 <= d < 64,
    ensures
        spec_translation(o, d).spec_origin() == o,
        spec_translation(o, d).spec_destination() == d,
{
    let ou = o as u16;
    let du = d as u16;
    assert(((((ou + du * 64) as u16) & 63) == ou) && (((((ou + du * 64) as u16) >> 6) & 63) == du))
        by (bit_vector)
        requires
            ou < 64 && du < 64,
    ;
    assert(spec_translation(o, d).data == (ou + du * 64) as u16);
}

} // verus!
