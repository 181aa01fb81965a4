//! Obstruction table tests: the compiled table against an independent
//! direct bidirectional scan.

use pseudolegal::obstruct::compile_obstruction_lookup_table;
use pseudolegal::obstruct::lookup_unobstructed_squares;
use pseudolegal::obstruct::search_unobstructed;

/// An independent reference: scan outward from `origin` in both
/// directions, marking squares until just after the first occupied one.
fn reference_scan(origin: usize, occupancy: u8) -> u8 {
    let mut destinations: u8 = 0;
    let mut i = origin;
    while i < 7 {
        i += 1;
        destinations |= 1 << i;
        if occupancy & (1 << i) != 0 {
            break;
        }
    }
    let mut i = origin;
    while i > 0 {
        i -= 1;
        destinations |= 1 << i;
        if occupancy & (1 << i) != 0 {
            break;
        }
    }
    destinations
}

#[test]
fn obstruction_table_matches_direct_scan() {
    let table = compile_obstruction_lookup_table();
    assert_eq!(table.len(), 2048);
    for origin in 0..8usize {
        for occupancy in 0..256usize {
            let expected = reference_scan(origin, occupancy as u8);
            assert_eq!(table[origin * 256 + occupancy], expected);
        }
    }
}

#[test]
fn search_matches_direct_scan() {
    for origin in 0..8usize {
        for occupancy in 0..256usize {
            assert_eq!(
                search_unobstructed(origin, occupancy as u8),
                reference_scan(origin, occupancy as u8)
            );
        }
    }
}

#[test]
fn lookup_reads_the_compiled_table() {
    let table = compile_obstruction_lookup_table();
    for origin in 0..8usize {
        for occupancy in 0..256usize {
            assert_eq!(
                lookup_unobstructed_squares(&table, origin, occupancy as u8),
                search_unobstructed(origin, occupancy as u8)
            );
        }
    }
}

#[test]
fn scan_on_empty_lane_reaches_everything_but_origin() {
    assert_eq!(search_unobstructed(0, 0), 0b1111_1110);
    assert_eq!(search_unobstructed(7, 0), 0b0111_1111);
    assert_eq!(search_unobstructed(3, 0), 0b1111_0111);
}

#[test]
fn scan_includes_first_blocker_and_stops_behind_it() {
    // Blocker three squares up: it is reachable, squares beyond are not.
    assert_eq!(search_unobstructed(0, 0b0000_1000), 0b0000_1110);
    // Blockers on both sides of an interior origin.
    assert_eq!(search_unobstructed(4, 0b0100_0100), 0b0110_1100);
    // A blocker on the origin square itself does not matter.
    assert_eq!(search_unobstructed(2, 0b0000_0100), 0b1111_1011);
}
