//! Board selection and rotation tests.

use pseudolegal::Board;
use pseudolegal::PieceColor;
use pseudolegal::PieceKind;
use pseudolegal::RotatableBoard;
use pseudolegal::is_occupied;
use pseudolegal::locate::BoardLayout;
use pseudolegal::opponent;
use pseudolegal::rotate;
use pseudolegal::select_all;
use pseudolegal::select_color;
use pseudolegal::select_species;

fn sample_board() -> Board {
    Board {
        black: 0b1100,
        white: 0b0011_0000,
        rooks: 0b0001_0100,
        knights: 0,
        bishops: 0b1000,
        queens: 0b0010_0000,
        kings: 0,
        pawns: 0,
    }
}

#[test]
fn opponent_swaps_colors() {
    assert_eq!(opponent(PieceColor::Black), PieceColor::White);
    assert_eq!(opponent(PieceColor::White), PieceColor::Black);
}

#[test]
fn select_color_and_all() {
    let board = sample_board();
    assert_eq!(select_color(&board, PieceColor::Black), 0b1100);
    assert_eq!(select_color(&board, PieceColor::White), 0b0011_0000);
    assert_eq!(select_all(&board), 0b0011_1100);
}

#[test]
fn select_species_intersects_color_and_kind() {
    let board = sample_board();
    assert_eq!(select_species(PieceColor::Black, PieceKind::Rook, &board), 0b0100);
    assert_eq!(select_species(PieceColor::White, PieceKind::Rook, &board), 0b0001_0000);
    assert_eq!(select_species(PieceColor::Black, PieceKind::Bishop, &board), 0b1000);
    assert_eq!(select_species(PieceColor::White, PieceKind::Queen, &board), 0b0010_0000);
    assert_eq!(select_species(PieceColor::Black, PieceKind::Queen, &board), 0);
}

#[test]
fn is_occupied_reads_the_combined_masks() {
    let board = sample_board();
    assert!(is_occupied(&board, 2));
    assert!(is_occupied(&board, 5));
    assert!(!is_occupied(&board, 0));
    assert!(!is_occupied(&board, 63));
}

#[test]
fn rotate_picks_the_requested_layout() {
    let a = sample_board();
    let mut b = sample_board();
    b.black = 0b1;
    let mut c = sample_board();
    c.white = 0b10;
    let mut d = sample_board();
    d.rooks = 0b100;
    let rboard = RotatableBoard { antidiagonal: a, diagonal: b, rankwise: c, filewise: d };
    assert_eq!(rotate(&rboard, BoardLayout::Antidiagonal), &a);
    assert_eq!(rotate(&rboard, BoardLayout::Diagonal), &b);
    assert_eq!(rotate(&rboard, BoardLayout::Rankwise), &c);
    assert_eq!(rotate(&rboard, BoardLayout::Filewise), &d);
}
