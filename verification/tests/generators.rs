//! Move generator tests: literal scenarios and exhaustive comparisons
//! against independent rank/file reference generators.

use pseudolegal::Board;
use pseudolegal::PieceColor;
use pseudolegal::RotatableBoard;
use pseudolegal::Translation;
use pseudolegal::locate::locate_ad;
use pseudolegal::locate::locate_d;
use pseudolegal::locate::locate_fw;
use pseudolegal::misc::partial_diamond_figurate;
use pseudolegal::movegen::MovingPiece;
use pseudolegal::movegen::bishop;
use pseudolegal::movegen::king;
use pseudolegal::movegen::knight;
use pseudolegal::movegen::pawn_2step;
use pseudolegal::movegen::pawn_capture;
use pseudolegal::movegen::pawn_step;
use pseudolegal::movegen::queen;
use pseudolegal::movegen::rook;

fn empty_board() -> Board {
    Board { black: 0, white: 0, rooks: 0, knights: 0, bishops: 0, queens: 0, kings: 0, pawns: 0 }
}

/// Marks one square, under every layout, in the mask the closure picks.
fn place(rboard: &mut RotatableBoard, square: usize, color: PieceColor) {
    let d = locate_d(square);
    let ad = locate_ad(square);
    let d_bit = partial_diamond_figurate(8, d.diagonal) + d.offset;
    let ad_bit = partial_diamond_figurate(8, ad.diagonal) + ad.offset;
    let fw_bit = locate_fw(square);
    match color {
        PieceColor::Black => {
            rboard.rankwise.black |= 1 << square;
            rboard.diagonal.black |= 1 << d_bit;
            rboard.antidiagonal.black |= 1 << ad_bit;
            rboard.filewise.black |= 1 << fw_bit;
        }
        PieceColor::White => {
            rboard.rankwise.white |= 1 << square;
            rboard.diagonal.white |= 1 << d_bit;
            rboard.antidiagonal.white |= 1 << ad_bit;
            rboard.filewise.white |= 1 << fw_bit;
        }
    }
}

fn board_with(black: &[usize], white: &[usize]) -> RotatableBoard {
    let mut rboard = RotatableBoard {
        antidiagonal: empty_board(),
        diagonal: empty_board(),
        rankwise: empty_board(),
        filewise: empty_board(),
    };
    for &s in black {
        place(&mut rboard, s, PieceColor::Black);
    }
    for &s in white {
        place(&mut rboard, s, PieceColor::White);
    }
    rboard
}

fn destinations_of(moves: &[Translation], origin: usize) -> Vec<usize> {
    let mut dests: Vec<usize> = Vec::new();
    for t in moves {
        assert_eq!(t.origin(), origin);
        dests.push(t.destination());
    }
    dests.sort();
    dests
}

fn sorted(mut v: Vec<usize>) -> Vec<usize> {
    v.sort();
    v
}

/// Independent reference for sliding pieces: walk each direction square
/// by square over rank/file coordinates, stopping at (and including) the
/// first occupied square, then drop own-color destinations.
fn reference_slider(
    origin: usize,
    directions: &[(i32, i32)],
    all: u64,
    own: u64,
) -> Vec<usize> {
    let mut dests: Vec<usize> = Vec::new();
    let rank = (origin / 8) as i32;
    let file = (origin % 8) as i32;
    for &(dr, df) in directions {
        let mut r = rank + dr;
        let mut f = file + df;
        while (0..8).contains(&r) && (0..8).contains(&f) {
            let s = (r * 8 + f) as usize;
            if own & (1u64 << s) == 0 {
                dests.push(s);
            }
            if all & (1u64 << s) != 0 {
                break;
            }
            r += dr;
            f += df;
        }
    }
    dests.sort();
    dests
}

/// Independent reference for leapers, over rank/file coordinates, so
/// that no horizontal wraparound can slip in.
fn reference_leaper(origin: usize, offsets: &[(i32, i32)], own: u64) -> Vec<usize> {
    let mut dests: Vec<usize> = Vec::new();
    let rank = (origin / 8) as i32;
    let file = (origin % 8) as i32;
    for &(dr, df) in offsets {
        let r = rank + dr;
        let f = file + df;
        if (0..8).contains(&r) && (0..8).contains(&f) {
            let s = (r * 8 + f) as usize;
            if own & (1u64 << s) == 0 {
                dests.push(s);
            }
        }
    }
    dests.sort();
    dests
}

const KNIGHT_OFFSETS: [(i32, i32); 8] =
    [(2, -1), (1, -2), (-2, -1), (-1, -2), (2, 1), (1, 2), (-1, 2), (-2, 1)];

const KING_OFFSETS: [(i32, i32); 8] =
    [(0, -1), (0, 1), (1, 0), (-1, 0), (-1, -1), (1, -1), (1, 1), (-1, 1)];

const ROOK_DIRECTIONS: [(i32, i32); 4] = [(0, 1), (0, -1), (1, 0), (-1, 0)];

const BISHOP_DIRECTIONS: [(i32, i32); 4] = [(1, 1), (1, -1), (-1, 1), (-1, -1)];

#[test]
fn rook_on_empty_board_generates_fourteen_moves() {
    let rboard = board_with(&[], &[]);
    let mut moves: Vec<Translation> = Vec::new();
    rook(MovingPiece { origin: 0, color: PieceColor::White }, &rboard, &mut moves);
    let dests = destinations_of(&moves, 0);
    assert_eq!(dests.len(), 14);
    assert_eq!(dests, vec![1, 2, 3, 4, 5, 6, 7, 8, 16, 24, 32, 40, 48, 56]);
}

#[test]
fn bishop_in_corner_on_empty_board_generates_seven_moves() {
    let rboard = board_with(&[], &[]);
    let mut moves: Vec<Translation> = Vec::new();
    bishop(MovingPiece { origin: 0, color: PieceColor::White }, &rboard, &mut moves);
    let dests = destinations_of(&moves, 0);
    assert_eq!(dests.len(), 7);
    assert_eq!(dests, vec![9, 18, 27, 36, 45, 54, 63]);
}

#[test]
fn bishop_includes_capture_and_stops_at_blockers() {
    // White bishop at 27; an enemy at 45 is a capture destination, the
    // squares beyond it are not; an own piece at 9 blocks that ray
    // before itself.
    let rboard = board_with(&[45], &[27, 9]);
    let mut moves: Vec<Translation> = Vec::new();
    bishop(MovingPiece { origin: 27, color: PieceColor::White }, &rboard, &mut moves);
    let dests = destinations_of(&moves, 27);
    let all = rboard.rankwise.black | rboard.rankwise.white;
    let expected = reference_slider(27, &BISHOP_DIRECTIONS, all, rboard.rankwise.white);
    assert_eq!(dests, expected);
    assert!(dests.contains(&45));
    assert!(!dests.contains(&54));
    assert!(!dests.contains(&9));
    assert!(dests.contains(&18));
}

#[test]
fn sliders_match_reference_on_scattered_boards() {
    let boards = [
        board_with(&[], &[]),
        board_with(&[18, 21, 44, 63], &[0, 9, 36, 57]),
        board_with(&[1, 8, 10, 17], &[54, 62, 55, 46]),
    ];
    for rboard in &boards {
        let all = rboard.rankwise.black | rboard.rankwise.white;
        for origin in 0..64usize {
            for color in [PieceColor::Black, PieceColor::White] {
                let own = match color {
                    PieceColor::Black => rboard.rankwise.black,
                    PieceColor::White => rboard.rankwise.white,
                };
                let mut rook_moves: Vec<Translation> = Vec::new();
                rook(MovingPiece { origin, color }, rboard, &mut rook_moves);
                assert_eq!(
                    destinations_of(&rook_moves, origin),
                    reference_slider(origin, &ROOK_DIRECTIONS, all, own)
                );
                let mut bishop_moves: Vec<Translation> = Vec::new();
                bishop(MovingPiece { origin, color }, rboard, &mut bishop_moves);
                assert_eq!(
                    destinations_of(&bishop_moves, origin),
                    reference_slider(origin, &BISHOP_DIRECTIONS, all, own)
                );
            }
        }
    }
}

#[test]
fn queen_is_rook_then_bishop() {
    let rboard = board_with(&[18, 44], &[9, 36]);
    let origin = 27;
    let mpiece = MovingPiece { origin, color: PieceColor::Black };
    let mut queen_moves: Vec<Translation> = Vec::new();
    queen(mpiece, &rboard, &mut queen_moves);
    let mut expected: Vec<Translation> = Vec::new();
    rook(mpiece, &rboard, &mut expected);
    bishop(mpiece, &rboard, &mut expected);
    assert_eq!(queen_moves, expected);
}

#[test]
fn knight_matches_reference_on_all_origins() {
    let rboard = board_with(&[27, 42], &[12, 33]);
    for origin in 0..64usize {
        for color in [PieceColor::Black, PieceColor::White] {
            let own = match color {
                PieceColor::Black => rboard.rankwise.black,
                PieceColor::White => rboard.rankwise.white,
            };
            let mut moves: Vec<Translation> = Vec::new();
            knight(MovingPiece { origin, color }, &rboard, &mut moves);
            assert_eq!(
                destinations_of(&moves, origin),
                reference_leaper(origin, &KNIGHT_OFFSETS, own)
            );
        }
    }
}

#[test]
fn king_matches_reference_on_all_origins() {
    let rboard = board_with(&[27, 42], &[12, 33]);
    for origin in 0..64usize {
        for color in [PieceColor::Black, PieceColor::White] {
            let own = match color {
                PieceColor::Black => rboard.rankwise.black,
                PieceColor::White => rboard.rankwise.white,
            };
            let mut moves: Vec<Translation> = Vec::new();
            king(MovingPiece { origin, color }, &rboard, &mut moves);
            assert_eq!(
                destinations_of(&moves, origin),
                reference_leaper(origin, &KING_OFFSETS, own)
            );
        }
    }
}

#[test]
fn knight_near_the_edge_does_not_wrap_files() {
    let rboard = board_with(&[], &[]);
    // Knight on file 0: a naive ordinal offset of -2 files would alias
    // to an in-range square on the far side of the board.
    let mut moves: Vec<Translation> = Vec::new();
    knight(MovingPiece { origin: 8, color: PieceColor::White }, &rboard, &mut moves);
    assert_eq!(destinations_of(&moves, 8), vec![2, 18, 25]);
    let mut moves: Vec<Translation> = Vec::new();
    knight(MovingPiece { origin: 55, color: PieceColor::Black }, &rboard, &mut moves);
    assert_eq!(destinations_of(&moves, 55), vec![38, 45, 61]);
}

#[test]
fn pawn_step_forward_onto_empty_square() {
    let rboard = board_with(&[], &[]);
    let mut moves: Vec<Translation> = Vec::new();
    pawn_step(MovingPiece { origin: 11, color: PieceColor::White }, &rboard, &mut moves);
    assert_eq!(destinations_of(&moves, 11), vec![19]);
    let mut moves: Vec<Translation> = Vec::new();
    pawn_step(MovingPiece { origin: 51, color: PieceColor::Black }, &rboard, &mut moves);
    assert_eq!(destinations_of(&moves, 51), vec![43]);
}

#[test]
fn pawn_step_blocked_or_off_board_yields_nothing() {
    let rboard = board_with(&[19], &[]);
    let mut moves: Vec<Translation> = Vec::new();
    pawn_step(MovingPiece { origin: 11, color: PieceColor::White }, &rboard, &mut moves);
    assert_eq!(moves.len(), 0);
    // Last-rank pawns have no forward square; no failure, no move.
    let empty = board_with(&[], &[]);
    let mut moves: Vec<Translation> = Vec::new();
    pawn_step(MovingPiece { origin: 59, color: PieceColor::White }, &empty, &mut moves);
    assert_eq!(moves.len(), 0);
    let mut moves: Vec<Translation> = Vec::new();
    pawn_step(MovingPiece { origin: 3, color: PieceColor::Black }, &empty, &mut moves);
    assert_eq!(moves.len(), 0);
}

#[test]
fn blocked_pawn_double_step_yields_nothing() {
    // White pawn on its birth rank; an opposing piece on the square
    // directly ahead blocks the double step although the destination two
    // ranks ahead is empty.
    let rboard = board_with(&[19], &[]);
    let mut moves: Vec<Translation> = Vec::new();
    pawn_2step(MovingPiece { origin: 11, color: PieceColor::White }, &rboard, &mut moves);
    assert_eq!(moves.len(), 0);
}

#[test]
fn pawn_double_step_from_birth_rank() {
    let rboard = board_with(&[], &[]);
    let mut moves: Vec<Translation> = Vec::new();
    pawn_2step(MovingPiece { origin: 11, color: PieceColor::White }, &rboard, &mut moves);
    assert_eq!(destinations_of(&moves, 11), vec![27]);
    let mut moves: Vec<Translation> = Vec::new();
    pawn_2step(MovingPiece { origin: 51, color: PieceColor::Black }, &rboard, &mut moves);
    assert_eq!(destinations_of(&moves, 51), vec![35]);
}

#[test]
fn pawn_double_step_blocked_at_destination_or_wrong_rank() {
    let rboard = board_with(&[27], &[]);
    let mut moves: Vec<Translation> = Vec::new();
    pawn_2step(MovingPiece { origin: 11, color: PieceColor::White }, &rboard, &mut moves);
    assert_eq!(moves.len(), 0);
    let empty = board_with(&[], &[]);
    let mut moves: Vec<Translation> = Vec::new();
    pawn_2step(MovingPiece { origin: 19, color: PieceColor::White }, &empty, &mut moves);
    assert_eq!(moves.len(), 0);
}

#[test]
fn pawn_capture_requires_an_opposing_occupant() {
    // Both diagonally-forward squares empty: no capture.
    let empty = board_with(&[], &[]);
    let mut moves: Vec<Translation> = Vec::new();
    pawn_capture(MovingPiece { origin: 11, color: PieceColor::White }, &empty, &mut moves);
    assert_eq!(moves.len(), 0);
    // An opposing piece on one of them: exactly one capture, toward it.
    let rboard = board_with(&[18], &[]);
    let mut moves: Vec<Translation> = Vec::new();
    pawn_capture(MovingPiece { origin: 11, color: PieceColor::White }, &rboard, &mut moves);
    assert_eq!(destinations_of(&moves, 11), vec![18]);
    // An own piece there is no capture either.
    let rboard = board_with(&[], &[20]);
    let mut moves: Vec<Translation> = Vec::new();
    pawn_capture(MovingPiece { origin: 11, color: PieceColor::White }, &rboard, &mut moves);
    assert_eq!(moves.len(), 0);
}

#[test]
fn pawn_captures_go_forward_per_color() {
    let rboard = board_with(&[18, 20], &[2, 4]);
    // White captures toward higher ranks.
    let mut moves: Vec<Translation> = Vec::new();
    pawn_capture(MovingPiece { origin: 11, color: PieceColor::White }, &rboard, &mut moves);
    assert_eq!(destinations_of(&moves, 11), vec![18, 20]);
    // Black captures toward lower ranks: from 11 those are 2 and 4.
    let mut moves: Vec<Translation> = Vec::new();
    pawn_capture(MovingPiece { origin: 11, color: PieceColor::Black }, &rboard, &mut moves);
    assert_eq!(destinations_of(&moves, 11), vec![2, 4]);
}

#[test]
fn no_generator_emits_an_own_color_destination() {
    let rboard = board_with(&[18, 21, 44, 63, 1, 9], &[0, 12, 36, 57, 53, 28]);
    for origin in 0..64usize {
        for color in [PieceColor::Black, PieceColor::White] {
            let own = match color {
                PieceColor::Black => rboard.rankwise.black,
                PieceColor::White => rboard.rankwise.white,
            };
            let mpiece = MovingPiece { origin, color };
            let mut moves: Vec<Translation> = Vec::new();
            queen(mpiece, &rboard, &mut moves);
            knight(mpiece, &rboard, &mut moves);
            king(mpiece, &rboard, &mut moves);
            pawn_step(mpiece, &rboard, &mut moves);
            pawn_2step(mpiece, &rboard, &mut moves);
            pawn_capture(mpiece, &rboard, &mut moves);
            for t in &moves {
                assert_eq!(own & (1u64 << t.destination()), 0);
            }
        }
    }
}

#[test]
fn generators_are_deterministic() {
    let rboard = board_with(&[18, 44, 1], &[0, 36, 57]);
    for origin in [0usize, 11, 27, 63] {
        let mpiece = MovingPiece { origin, color: PieceColor::White };
        let mut first: Vec<Translation> = Vec::new();
        queen(mpiece, &rboard, &mut first);
        knight(mpiece, &rboard, &mut first);
        king(mpiece, &rboard, &mut first);
        pawn_step(mpiece, &rboard, &mut first);
        pawn_2step(mpiece, &rboard, &mut first);
        pawn_capture(mpiece, &rboard, &mut first);
        let mut second: Vec<Translation> = Vec::new();
        queen(mpiece, &rboard, &mut second);
        knight(mpiece, &rboard, &mut second);
        king(mpiece, &rboard, &mut second);
        pawn_step(mpiece, &rboard, &mut second);
        pawn_2step(mpiece, &rboard, &mut second);
        pawn_capture(mpiece, &rboard, &mut second);
        assert_eq!(first, second);
    }
}

#[test]
fn generators_append_without_clearing() {
    let rboard = board_with(&[], &[]);
    let mut moves: Vec<Translation> = Vec::new();
    rook(MovingPiece { origin: 0, color: PieceColor::White }, &rboard, &mut moves);
    let before = moves.clone();
    bishop(MovingPiece { origin: 0, color: PieceColor::White }, &rboard, &mut moves);
    assert_eq!(&moves[..before.len()], &before[..]);
    assert_eq!(moves.len(), before.len() + 7);
}

#[test]
fn sliders_respect_lane_occupancy_across_layouts() {
    // A rook and bishop query on a crowded, consistent board, checked
    // against the rank/file reference; exercises every layout at once.
    let rboard = board_with(
        &sorted(vec![3, 10, 24, 31, 38, 45, 52, 59]),
        &sorted(vec![4, 13, 22, 35, 40, 49, 58, 63]),
    );
    let all = rboard.rankwise.black | rboard.rankwise.white;
    for origin in [0usize, 7, 27, 36, 56, 63] {
        for color in [PieceColor::Black, PieceColor::White] {
            let own = match color {
                PieceColor::Black => rboard.rankwise.black,
                PieceColor::White => rboard.rankwise.white,
            };
            let mpiece = MovingPiece { origin, color };
            let mut rook_moves: Vec<Translation> = Vec::new();
            rook(mpiece, &rboard, &mut rook_moves);
            assert_eq!(
                destinations_of(&rook_moves, origin),
                reference_slider(origin, &ROOK_DIRECTIONS, all, own)
            );
            let mut bishop_moves: Vec<Translation> = Vec::new();
            bishop(mpiece, &rboard, &mut bishop_moves);
            assert_eq!(
                destinations_of(&bishop_moves, origin),
                reference_slider(origin, &BISHOP_DIRECTIONS, all, own)
            );
        }
    }
}
