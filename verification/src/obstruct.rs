//! The obstruction table: which squares of a lane a sliding piece can
//! reach from a given origin, scanning outward in both directions up to
//! and including the first occupied square.

use vstd::prelude::*;
use crate::Bitlane;
use crate::bits::bit8;
use crate::bits::lemma_bit8_ext;
use crate::bits::lemma_bit8_only;
use crate::bits::lemma_bit8_or;
use crate::bits::lemma_bit8_zero;

verus! {

/// Square `dest` of a lane is reachable from `origin` under `occupancy`:
/// it differs from the origin and every square strictly between the two is
/// unoccupied. The first occupied square in a direction is itself
/// reachable (a capture destination); everything beyond it is not.
pub open spec fn lane_reach(occupancy: u8, origin: int, dest: int) -> bool {
    &&& 0 <= dest < 8
    &&& dest != origin
    &&& forall|m: int| origin < m < dest || dest < m < origin ==> !bit8(occupancy, m)
}

/// Computes the lane of all destinations reachable from `origin` by the
/// bounded bidirectional scan: outward in each direction, marking squares
/// until just after the first occupied one.
pub fn search_unobstructed(origin: usize, occupancy: Bitlane) -> (r: Bitlane)
    requires
        origin < 8,
    ensures
        forall|j: int| #[trigger] bit8(r, j) == lane_reach(occupancy, origin as int, j),
{
    let mut destinations: Bitlane = 0;
    proof {
        lemma_bit8_zero();
    }
    let mut open_path = true;
    let mut j: usize = origin + 1;
    while j < 8
        invariant
            origin < 8,
            origin + 1 <= j <= 8,
            open_path == (forall|m: int| origin < m < j ==> !bit8(occupancy, m)),
            forall|k: int| #[trigger] bit8(destinations, k) == (origin < k < j && (forall|m: int|
                origin < m < k ==> !bit8(occupancy, m))),
        decreases 8 - j,
    {
        if open_path {
            proof {
                lemma_bit8_only(j as u8);
                lemma_bit8_or(destinations, 1u8 << (j as u8));
            }
            destinations = destinations | (1u8 << (j as u8));
        }
        let occupied = occupancy & (1u8 << (j as u8)) != 0;
        proof {
            assert((j as int) as u8 == j as u8);
            assert(occupied == bit8(occupancy, j as int));
        }
        if occupied {
            open_path = false;
        }
        j += 1;
    }
    let ghost up = destinations;
    let mut open_path = true;
    let mut j: usize = origin;
    while j > 0
        invariant
            origin < 8,
            j <= origin,
            open_path == (forall|m: int| j <= m < origin ==> !bit8(occupancy, m)),
            forall|k: int| #[trigger] bit8(destinations, k) == (bit8(up, k) || (j <= k < origin && (
            forall|m: int| k < m < origin ==> !bit8(occupancy, m)))),
        decreases j,
    {
        j -= 1;
        if open_path {
            proof {
                lemma_bit8_only(j as u8);
                lemma_bit8_or(destinations, 1u8 << (j as u8));
            }
            destinations = destinations | (1u8 << (j as u8));
        }
        let occupied = occupancy & (1u8 << (j as u8)) != 0;
        proof {
            assert((j as int) as u8 == j as u8);
            assert(occupied == bit8(occupancy, j as int));
        }
        if occupied {
            open_path = false;
        }
    }
    destinations
}

/// A well-formed obstruction table: entry `origin * 256 + occupancy` holds
/// the scan result for that origin and lane occupancy.
pub open spec fn obstruction_table_wf(t: Seq<u8>) -> bool {
    &&& t.len() == 2048
    &&& forall|i: int, j: int| 0 <= i < 2048 ==> #[trigger] bit8(t[i], j) == lane_reach(
        (i % 256) as u8,
        i / 256,
        j,
    )
}

/// Builds the full 8 x 256 obstruction lookup table by performing the
/// bounded bidirectional scan for every origin and occupancy combination.
pub fn compile_obstruction_lookup_table() -> (r: Vec<u8>)
    ensures
        obstruction_table_wf(r@),
{
    let mut table: Vec<u8> = Vec::new();
    let mut i: usize = 0;
    while i < 2048
        invariant
            i <= 2048,
            table@.len() == i,
            forall|n: int, j: int| 0 <= n < i ==> #[trigger] bit8(table@[n], j) == lane_reach(
                (n % 256) as u8,
                n / 256,
                j,
            ),
        decreases 2048 - i,
    {
        let origin = i / 256;
        let occupancy = (i % 256) as u8;
        let entry = search_unobstructed(origin, occupancy);
        table.push(entry);
        i += 1;
    }
    table
}

/// Reads the lane of unobstructed squares for `origin` and `occupancy`
/// out of a compiled table: pure array indexing, no scanning.
pub fn lookup_unobstructed_squares(table: &Vec<u8>, origin: usize, occupancy: Bitlane) -> (r:
    Bitlane)
    requires
        origin < 8,
        obstruction_table_wf(table@),
    ensures
        forall|j: int| #[trigger] bit8(r, j) == lane_reach(occupancy, origin as int, j),
{
    let key = origin * 256 + (occupancy as usize);
    table[key]
}

/// Obstruction table correctness: a compiled table's entry for any origin
/// and occupancy equals any mask obtained by the direct bidirectional
/// scan, bit for bit and as a value.
pub proof fn lemma_obstruction_table_correct(t: Seq<u8>, scanned: u8, origin: int, occupancy: u8)
    requires
        obstruction_table_wf(t),
        0 <= origin < 8,
        forall|j: int| #[trigger] bit8(scanned, j) == lane_reach(occupancy, origin, j),
    ensures
        t[origin * 256 + occupancy] == scanned,
{
    let e = t[origin * 256 + occupancy];
    assert((origin * 256 + occupancy) % 256 == occupancy && (origin * 256 + occupancy) / 256
        == origin) by {
        assert(origin * 256 + occupancy == 256 * origin + occupancy);
    }
    assert(forall|j: int| bit8(e, j) == lane_reach(occupancy, origin, j));
    lemma_bit8_ext(e, scanned);
}

} // verus!
