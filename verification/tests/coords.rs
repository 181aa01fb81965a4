//! Coordinate locator, figurate math, mask helper and translation tests.

use pseudolegal::Translation;
use pseudolegal::bitboards;
use pseudolegal::bitlanes;
use pseudolegal::enumerate_bitboard;
use pseudolegal::enumerate_bitlane;
use pseudolegal::locate::DiagonalSquareCoordinate;
use pseudolegal::locate::locate_ad;
use pseudolegal::locate::locate_d;
use pseudolegal::locate::locate_fw;
use pseudolegal::locate::reverse_locate_ad;
use pseudolegal::locate::reverse_locate_d;
use pseudolegal::locate::reverse_locate_fw;
use pseudolegal::locate::split_fwc;
use pseudolegal::locate::split_rwc;
use pseudolegal::misc::measure_diagonal;
use pseudolegal::misc::partial_diamond_figurate;
use pseudolegal::misc::triangle;

#[test]
fn round_trip_diagonal_all_squares() {
    for s in 0..64usize {
        assert_eq!(reverse_locate_d(locate_d(s)), s);
    }
}

#[test]
fn round_trip_antidiagonal_all_squares() {
    for s in 0..64usize {
        assert_eq!(reverse_locate_ad(locate_ad(s)), s);
    }
}

#[test]
fn round_trip_filewise_all_squares() {
    for s in 0..64usize {
        assert_eq!(reverse_locate_fw(locate_fw(s)), s);
        assert_eq!(locate_fw(reverse_locate_fw(s)), s);
    }
}

#[test]
fn locate_d_matches_rank_file_definition() {
    for s in 0..64usize {
        let (rank, file) = split_rwc(s);
        let c = locate_d(s);
        assert_eq!(c.diagonal, rank + 7 - file);
        let base_rank = if c.diagonal > 7 { c.diagonal - 7 } else { 0 };
        assert_eq!(c.offset, rank - base_rank);
    }
}

#[test]
fn locate_ad_matches_rank_file_definition() {
    for s in 0..64usize {
        let (rank, file) = split_rwc(s);
        let c = locate_ad(s);
        assert_eq!(c.diagonal, rank + file);
        let base_rank = if c.diagonal > 7 { c.diagonal - 7 } else { 0 };
        assert_eq!(c.offset, rank - base_rank);
    }
}

#[test]
fn locate_corner_values() {
    let c = locate_d(0);
    assert_eq!((c.diagonal, c.offset), (7, 0));
    let c = locate_d(63);
    assert_eq!((c.diagonal, c.offset), (7, 7));
    let c = locate_ad(0);
    assert_eq!((c.diagonal, c.offset), (0, 0));
    let c = locate_ad(63);
    assert_eq!((c.diagonal, c.offset), (14, 0));
    assert_eq!(reverse_locate_d(DiagonalSquareCoordinate { diagonal: 7, offset: 3 }), 27);
    assert_eq!(reverse_locate_ad(DiagonalSquareCoordinate { diagonal: 7, offset: 3 }), 28);
}

#[test]
fn split_rwc_and_fwc() {
    assert_eq!(split_rwc(27), (3, 3));
    assert_eq!(split_rwc(12), (1, 4));
    assert_eq!(split_fwc(12), (4, 1));
    assert_eq!(locate_fw(12), 4 * 8 + 1);
}

#[test]
fn triangle_values() {
    assert_eq!(triangle(0), 0);
    assert_eq!(triangle(1), 1);
    assert_eq!(triangle(7), 28);
    assert_eq!(triangle(8), 36);
}

#[test]
fn partial_diamond_figurate_values() {
    let expected: [usize; 16] = [0, 1, 3, 6, 10, 15, 21, 28, 36, 43, 49, 54, 58, 61, 63, 64];
    for d in 0..16usize {
        assert_eq!(partial_diamond_figurate(8, d), expected[d]);
    }
}

#[test]
fn measure_diagonal_values() {
    for d in 0..15usize {
        let expected = if d <= 7 { d + 1 } else { 15 - d };
        assert_eq!(measure_diagonal(8, d), expected);
    }
}

#[test]
fn translation_packs_six_bit_fields() {
    let t = Translation::new(5, 40);
    assert_eq!(t.origin(), 5);
    assert_eq!(t.destination(), 40);
    assert_eq!(t.data, (5u16) | (40u16 << 6));
}

#[test]
fn translation_truncates_to_low_six_bits() {
    let t = Translation::new(64 + 3, 128 + 5);
    assert_eq!(t.origin(), 3);
    assert_eq!(t.destination(), 5);
}

#[test]
fn bitboard_mask_helpers() {
    assert_eq!(bitboards::empty(), 0);
    assert_eq!(bitboards::only(0), 1);
    assert_eq!(bitboards::only(63), 1u64 << 63);
    assert_eq!(bitboards::except(0), !1u64);
    assert_eq!(bitboards::exclude(2, 0b111), 0b011);
}

#[test]
fn bitboard_only_n_clamps_out_of_range_ordinals() {
    let boards = bitboards::only_n(&vec![-1, 0, 63, 64, 100, -100]);
    assert_eq!(boards, vec![0, 1, 1u64 << 63, 0, 0, 0]);
}

#[test]
fn bitboard_scan_ascending() {
    assert_eq!(bitboards::scan_n(0), Vec::<u32>::new());
    assert_eq!(bitboards::scan_n(0b1010_0001), vec![0, 5, 7]);
    assert_eq!(bitboards::scan_n(1u64 << 63), vec![63]);
    let full = bitboards::scan_n(u64::MAX);
    assert_eq!(full.len(), 64);
    for (i, v) in full.iter().enumerate() {
        assert_eq!(*v as usize, i);
    }
}

#[test]
fn bitlane_mask_helpers() {
    assert_eq!(bitlanes::only(0), 1);
    assert_eq!(bitlanes::only(7), 0b1000_0000);
    assert_eq!(bitlanes::except(0), 0b1111_1110);
    assert_eq!(bitlanes::exclude(1, 0b11), 0b01);
    assert_eq!(bitlanes::scan_n(0b0101_0000), vec![4, 6]);
}

#[test]
fn bitlane_slice_reads_eight_bits() {
    let board: u64 = 0xff00;
    assert_eq!(bitlanes::slice(8, board), 0xff);
    assert_eq!(bitlanes::slice(0, board), 0);
    // Bits beyond bit 63 read as zero.
    assert_eq!(bitlanes::slice(60, 0xf000_0000_0000_0000), 0x0f);
}

#[test]
fn bitlane_trim_to_clears_high_bits() {
    assert_eq!(bitlanes::trim_to(0xff, 3), 0b111);
    assert_eq!(bitlanes::trim_to(0xff, 8), 0xff);
    assert_eq!(bitlanes::trim_to(0b1010_1010, 4), 0b1010);
}

#[test]
fn bitlane_slice_d_extracts_and_trims_a_diagonal() {
    // The main diagonal's lane starts at bit 28 of a diagonal-major board
    // and is 8 squares long.
    let board: u64 = 1u64 << (28 + 3);
    assert_eq!(bitlanes::slice_d(7, board), 0b1000);
    // Diagonal 1 holds two squares at bits 1 and 2; spill-over from the
    // next diagonal is masked off.
    let board: u64 = 0b1110;
    assert_eq!(bitlanes::slice_d(1, board), 0b11);
}

#[test]
fn enumerate_matches_scan() {
    assert_eq!(enumerate_bitboard(0b1001), vec![0, 3]);
    assert_eq!(enumerate_bitboard(1u64 << 63), vec![63]);
    assert_eq!(enumerate_bitlane(0b1001_0001), vec![0, 4, 7]);
    assert_eq!(enumerate_bitlane(0), Vec::<u8>::new());
}
