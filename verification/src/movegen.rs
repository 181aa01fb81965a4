//! The move generator: per-piece-kind pseudo-legal move enumeration,
//! combining lane extraction, the obstruction scan and pattern
//! instantiation, emitting packed origin-to-destination pairs.

use vstd::prelude::*;
use crate::Board;
use crate::PieceColor;
use crate::RotatableBoard;
use crate::Translation;
use crate::bits::bit64;
use crate::bits::bit8;
use crate::bits::lemma_bit64_and;
use crate::bits::lemma_bit64_and_not;
use crate::bits::lemma_bit64_or;
use crate::bits::lemma_bit8_and_not;
use crate::is_occupied;
use crate::move_patterns::Pattern;
use crate::move_patterns::compile_king_pattern;
use crate::move_patterns::compile_knight_pattern;
use crate::move_patterns::instantiate_pattern;
use crate::move_patterns::king_files;
use crate::move_patterns::king_ranks;
use crate::move_patterns::knight_files;
use crate::move_patterns::knight_ranks;
use crate::move_patterns::lookup_pawn_capture_pattern;
use crate::move_patterns::offset_dest;
use crate::move_patterns::pattern_hits;
use crate::move_patterns::pawn_capture_files;
use crate::move_patterns::pawn_capture_ranks;
use crate::move_patterns::pawn_direction;
use crate::bitlanes::slice;
use crate::bitlanes::slice_d;
use crate::bitlanes::trim_to;
use crate::locate::BoardLayout;
use crate::locate::DiagonalSquareCoordinate;
use crate::locate::RankwiseSquareOrdinal;
use crate::locate::ad_of;
use crate::locate::ad_offset_of;
use crate::locate::diag_of;
use crate::locate::diag_offset_of;
use crate::locate::file_of;
use crate::locate::fw_pos;
use crate::locate::lemma_rev_ad_props;
use crate::locate::lemma_rev_d_props;
use crate::locate::locate_ad;
use crate::locate::locate_d;
use crate::locate::rank_of;
use crate::locate::reverse_locate_ad;
use crate::locate::reverse_locate_d;
use crate::locate::spec_rev_ad;
use crate::locate::spec_rev_d;
use crate::locate::split_rwc;
use crate::misc::diag_base;
use crate::misc::diag_len;
use crate::misc::measure_diagonal;
use crate::obstruct::lane_reach;
use crate::obstruct::search_unobstructed;
use crate::rotate;
use crate::select_all;
use crate::select_color;
use crate::spec_select_all;
use crate::spec_select_color;
use crate::spec_translation;

verus! {

/// The piece a single generation query is about: where it stands (in
/// rank-major numbering) and whose side it is on. Its actual presence on
/// the board is not required.
#[derive(Copy, Clone, PartialEq, Eq, Structural, Debug)]
pub struct MovingPiece {
    pub origin: RankwiseSquareOrdinal,
    pub color: PieceColor,
}

/// Position of square `s` in the diagonal-major layout: its diagonal's
/// lane base plus its offset along the diagonal.
pub open spec fn d_pos(s: int) -> int {
    diag_base(diag_of(s)) + diag_offset_of(s)
}

/// Position of square `s` in the anti-diagonal-major layout.
pub open spec fn ad_pos(s: int) -> int {
    diag_base(ad_of(s)) + ad_offset_of(s)
}

/// One color's four mask views agree: for every square, the bit under the
/// rank-major layout equals the corresponding permuted bit under the
/// diagonal-major, anti-diagonal-major and file-major layouts.
pub open spec fn views_agree(rw: u64, dg: u64, adg: u64, fw: u64) -> bool {
    forall|s: int|
        0 <= s < 64 ==> {
            &&& #[trigger] bit64(dg, d_pos(s)) == bit64(rw, s)
            &&& bit64(adg, ad_pos(s)) == bit64(rw, s)
            &&& bit64(fw, fw_pos(s)) == bit64(rw, s)
        }
}

/// The consistency invariant of a rotatable occupancy snapshot: all four
/// layouts represent the same logical occupancy, for each color. The
/// owner of board state maintains it; the generators only rely on it.
pub open spec fn consistent(rboard: RotatableBoard) -> bool {
    &&& views_agree(
        rboard.rankwise.black,
        rboard.diagonal.black,
        rboard.antidiagonal.black,
        rboard.filewise.black,
    )
    &&& views_agree(
        rboard.rankwise.white,
        rboard.diagonal.white,
        rboard.antidiagonal.white,
        rboard.filewise.white,
    )
}

/// On a consistent snapshot, the combined occupancy and each color's
/// occupancy agree across layouts square by square.
pub proof fn lemma_consistent_at(rboard: RotatableBoard, color: PieceColor, s: int)
    requires
        consistent(rboard),
        0 <= s < 64,
    ensures
        bit64(spec_select_all(rboard.diagonal), d_pos(s)) == bit64(
            spec_select_all(rboard.rankwise),
            s,
        ),
        bit64(spec_select_all(rboard.antidiagonal), ad_pos(s)) == bit64(
            spec_select_all(rboard.rankwise),
            s,
        ),
        bit64(spec_select_all(rboard.filewise), fw_pos(s)) == bit64(
            spec_select_all(rboard.rankwise),
            s,
        ),
        bit64(spec_select_color(rboard.diagonal, color), d_pos(s)) == bit64(
            spec_select_color(rboard.rankwise, color),
            s,
        ),
        bit64(spec_select_color(rboard.antidiagonal, color), ad_pos(s)) == bit64(
            spec_select_color(rboard.rankwise, color),
            s,
        ),
        bit64(spec_select_color(rboard.filewise, color), fw_pos(s)) == bit64(
            spec_select_color(rboard.rankwise, color),
            s,
        ),
{
    lemma_bit64_or(rboard.diagonal.black, rboard.diagonal.white);
    lemma_bit64_or(rboard.antidiagonal.black, rboard.antidiagonal.white);
    lemma_bit64_or(rboard.filewise.black, rboard.filewise.white);
    lemma_bit64_or(rboard.rankwise.black, rboard.rankwise.white);
}

/// The translations emitted for destination slots `0..n`, in ascending
/// slot order: one translation departing at `origin` for every slot the
/// destination function accepts.
pub open spec fn emitted(origin: int, dests: spec_fn(int) -> Option<int>, n: int) -> Seq<
    Translation,
>
    decreases n,
{
    if n <= 0 {
        Seq::empty()
    } else {
        emitted(origin, dests, n - 1) + match dests(n - 1) {
            Option::Some(d) => seq![spec_translation(origin, d)],
            Option::None => Seq::empty(),
        }
    }
}

/// Every translation emitted departs from the origin, and its destination
/// satisfies whatever `p` the destination function guarantees.
pub proof fn lemma_emitted_elements(
    origin: int,
    dests: spec_fn(int) -> Option<int>,
    n: int,
    p: spec_fn(int) -> bool,
)
    requires
        0 <= origin < 64,
        forall|o: int| #[trigger] dests(o) matches Option::Some(v) ==> 0 <= v < 64 && p(v),
    ensures
        forall|i: int|
            0 <= i < emitted(origin, dests, n).len() ==> {
                &&& (#[trigger] emitted(origin, dests, n)[i]).spec_origin() == origin
                &&& 0 <= emitted(origin, dests, n)[i].spec_destination() < 64
                &&& p(emitted(origin, dests, n)[i].spec_destination())
            },
    decreases n,
{
    if n > 0 {
        lemma_emitted_elements(origin, dests, n - 1, p);
        let s = emitted(origin, dests, n);
        let sp = emitted(origin, dests, n - 1);
        assert forall|i: int| 0 <= i < s.len() implies {
            &&& (#[trigger] s[i]).spec_origin() == origin
            &&& 0 <= s[i].spec_destination() < 64
            &&& p(s[i].spec_destination())
        } by {
            if i < sp.len() {
                assert(s[i] == sp[i]);
            } else {
                let v = dests(n - 1)->Some_0;
                assert(s[i] == spec_translation(origin, v));
                crate::lemma_translation_fields(origin, v);
            }
        }
    }
}

/// The rank-major square on rank `r` and file `f`.
pub open spec fn sq_at(r: int, f: int) -> int {
    8 * r + f
}

/// A clear path along the origin's rank between the origin's file and
/// file `o`: no square strictly between the two is occupied.
pub open spec fn rank_path_clear(origin: int, all: u64, o: int) -> bool {
    forall|m: int|
        file_of(origin) < m < o || o < m < file_of(origin) ==> !bit64(
            all,
            #[trigger] sq_at(rank_of(origin), m),
        )
}

/// A clear path along the origin's file between the origin's rank and
/// rank `o`.
pub open spec fn file_path_clear(origin: int, all: u64, o: int) -> bool {
    forall|m: int|
        rank_of(origin) < m < o || o < m < rank_of(origin) ==> !bit64(
            all,
            #[trigger] sq_at(m, file_of(origin)),
        )
}

/// Destination files along the origin's rank a sliding piece may move to.
pub open spec fn rook_rank_dests(origin: int, all: u64, own: u64) -> spec_fn(int) -> Option<int> {
    |o: int|
        if 0 <= o < 8 && o != file_of(origin) && rank_path_clear(origin, all, o) && !bit64(
            own,
            sq_at(rank_of(origin), o),
        ) {
            Option::Some(sq_at(rank_of(origin), o))
        } else {
            Option::None
        }
}

/// Destination ranks along the origin's file a sliding piece may move to.
pub open spec fn rook_file_dests(origin: int, all: u64, own: u64) -> spec_fn(int) -> Option<int> {
    |o: int|
        if 0 <= o < 8 && o != rank_of(origin) && file_path_clear(origin, all, o) && !bit64(
            own,
            sq_at(o, file_of(origin)),
        ) {
            Option::Some(sq_at(o, file_of(origin)))
        } else {
            Option::None
        }
}

/// Every pseudo-legal rook move from `origin`: the moves along its rank
/// in ascending file order, then the moves along its file in ascending
/// rank order. `all` and `own` are the rank-major combined and own-color
/// occupancy masks.
pub open spec fn spec_rook_moves(origin: int, all: u64, own: u64) -> Seq<Translation> {
    emitted(origin, rook_rank_dests(origin, all, own), 8) + emitted(
        origin,
        rook_file_dests(origin, all, own),
        8,
    )
}

/// A clear path along the origin's diagonal between the origin's offset
/// and offset `o`: no square strictly between the two is occupied.
pub open spec fn diag_path_clear(origin: int, all: u64, o: int) -> bool {
    forall|m: int|
        diag_offset_of(origin) < m < o || o < m < diag_offset_of(origin) ==> !bit64(
            all,
            #[trigger] spec_rev_d(diag_of(origin), m),
        )
}

/// A clear path along the origin's anti-diagonal.
pub open spec fn ad_path_clear(origin: int, all: u64, o: int) -> bool {
    forall|m: int|
        ad_offset_of(origin) < m < o || o < m < ad_offset_of(origin) ==> !bit64(
            all,
            #[trigger] spec_rev_ad(ad_of(origin), m),
        )
}

/// Destination slots along the origin's diagonal a sliding piece may move
/// to: within the diagonal's true length, distinct from the origin,
/// reachable before any blocker, and not held by the mover's own color.
pub open spec fn bishop_diag_dests(origin: int, all: u64, own: u64) -> spec_fn(int) -> Option<
    int,
> {
    |o: int|
        if 0 <= o < diag_len(diag_of(origin)) && o != diag_offset_of(origin) && diag_path_clear(
            origin,
            all,
            o,
        ) && !bit64(own, spec_rev_d(diag_of(origin), o)) {
            Option::Some(spec_rev_d(diag_of(origin), o))
        } else {
            Option::None
        }
}

/// Destination slots along the origin's anti-diagonal.
pub open spec fn bishop_ad_dests(origin: int, all: u64, own: u64) -> spec_fn(int) -> Option<int> {
    |o: int|
        if 0 <= o < diag_len(ad_of(origin)) && o != ad_offset_of(origin) && ad_path_clear(
            origin,
            all,
            o,
        ) && !bit64(own, spec_rev_ad(ad_of(origin), o)) {
            Option::Some(spec_rev_ad(ad_of(origin), o))
        } else {
            Option::None
        }
}

/// Every pseudo-legal bishop move from `origin`: the moves along its
/// diagonal in ascending offset order, then the moves along its
/// anti-diagonal in ascending offset order. `all` and `own` are the
/// rank-major combined and own-color occupancy masks.
pub open spec fn spec_bishop_moves(origin: int, all: u64, own: u64) -> Seq<Translation> {
    emitted(origin, bishop_diag_dests(origin, all, own), 8) + emitted(
        origin,
        bishop_ad_dests(origin, all, own),
        8,
    )
}

/// Generates all pseudo-legal moves for a bishop of `mpiece.color` fixed
/// at `mpiece.origin`, appending them to `moves`. A bishop need not
/// actually stand there; the snapshot is read, never altered.
pub fn bishop(mpiece: MovingPiece, board: &RotatableBoard, moves: &mut Vec<Translation>)
    requires
        mpiece.origin < 64,
        consistent(*board),
    ensures
        final(moves)@ == old(moves)@ + spec_bishop_moves(
            mpiece.origin as int,
            spec_select_all(board.rankwise),
            spec_select_color(board.rankwise, mpiece.color),
        ),
{
    let origin = mpiece.origin;
    let ghost all = spec_select_all(board.rankwise);
    let ghost own = spec_select_color(board.rankwise, mpiece.color);
    let ghost prior = moves@;

    // Diagonal half.
    let diagonal_coordinate = locate_d(origin);
    let ghost dd = diag_of(origin as int);
    let ghost o0 = diag_offset_of(origin as int);
    let diagonal_board = rotate(board, BoardLayout::Diagonal);
    let diagonal_occupancy = slice_d(diagonal_coordinate.diagonal, select_all(diagonal_board));
    let diagonal_unobstructed = search_unobstructed(diagonal_coordinate.offset, diagonal_occupancy);
    let diagonal_length = measure_diagonal(8, diagonal_coordinate.diagonal);
    let diagonal_trimmed = trim_to(diagonal_unobstructed, diagonal_length as u8);
    let diagonal_own = slice_d(
        diagonal_coordinate.diagonal,
        select_color(diagonal_board, mpiece.color),
    );
    let diagonal_destinations = diagonal_trimmed & !diagonal_own;
    proof {
        lemma_bit8_and_not(diagonal_trimmed, diagonal_own);
    }
    let ghost ddests = bishop_diag_dests(origin as int, all, own);
    proof {
        assert forall|o: int| 0 <= o < 8 implies ddests(o) == (if bit8(diagonal_destinations, o) {
            Option::Some(spec_rev_d(dd, o))
        } else {
            Option::<int>::None
        }) by {
            if o < diag_len(dd) {
                lemma_rev_d_props(dd, o);
                lemma_consistent_at(*board, mpiece.color, spec_rev_d(dd, o));
                assert(d_pos(spec_rev_d(dd, o)) == diag_base(dd) + o);
                assert(bit8(diagonal_own, o) == bit64(own, spec_rev_d(dd, o)));
                assert forall|m: int| o0 < m < o || o < m < o0 implies bit8(diagonal_occupancy, m)
                    == bit64(all, #[trigger] spec_rev_d(dd, m)) by {
                    lemma_rev_d_props(dd, m);
                    lemma_consistent_at(*board, mpiece.color, spec_rev_d(dd, m));
                    assert(d_pos(spec_rev_d(dd, m)) == diag_base(dd) + m);
                }
                if o != o0 {
                    if diag_path_clear(origin as int, all, o) {
                        assert forall|m: int| o0 < m < o || o < m < o0 implies !bit8(
                            diagonal_occupancy,
                            m,
                        ) by {
                            assert(!bit64(all, spec_rev_d(dd, m)));
                        }
                        assert(lane_reach(diagonal_occupancy, o0, o));
                    } else {
                        let m = choose|m: int|
                            (o0 < m < o || o < m < o0) && bit64(
                                all,
                                #[trigger] spec_rev_d(dd, m),
                            );
                        assert(bit8(diagonal_occupancy, m));
                        assert(!lane_reach(diagonal_occupancy, o0, o));
                    }
                } else {
                    assert(!lane_reach(diagonal_occupancy, o0, o));
                }
            }
        }
    }
    let mut o: usize = 0;
    while o < 8
        invariant
            o <= 8,
            diagonal_coordinate.diagonal == dd,
            0 <= dd <= 14,
            forall|j: int|
                0 <= j < 8 ==> #[trigger] ddests(j) == (if bit8(diagonal_destinations, j) {
                    Option::Some(spec_rev_d(dd, j))
                } else {
                    Option::<int>::None
                }),
            forall|j: int| bit8(diagonal_destinations, j) ==> 0 <= j < diag_len(dd),
            mpiece.origin < 64,
            moves@ == prior + emitted(mpiece.origin as int, ddests, o as int),
        decreases 8 - o,
    {
        if diagonal_destinations & (1u8 << (o as u8)) != 0 {
            proof {
                assert(bit8(diagonal_destinations, o as int));
            }
            let destination = reverse_locate_d(
                DiagonalSquareCoordinate { diagonal: diagonal_coordinate.diagonal, offset: o },
            );
            let translation = Translation::new(mpiece.origin, destination);
            moves.push(translation);
            proof {
                assert(translation == spec_translation(mpiece.origin as int, destination as int));
                assert(emitted(mpiece.origin as int, ddests, o + 1) == emitted(
                    mpiece.origin as int,
                    ddests,
                    o as int,
                ) + seq![spec_translation(mpiece.origin as int, spec_rev_d(dd, o as int))]);
                assert(moves@ =~= prior + emitted(mpiece.origin as int, ddests, o + 1));
            }
        } else {
            proof {
                assert(!bit8(diagonal_destinations, o as int));
                assert(emitted(mpiece.origin as int, ddests, o + 1) =~= emitted(
                    mpiece.origin as int,
                    ddests,
                    o as int,
                ));
            }
        }
        o += 1;
    }
    let ghost mid = moves@;

    // Anti-diagonal half.
    let antidiagonal_coordinate = locate_ad(origin);
    let ghost ad = ad_of(origin as int);
    let ghost a0 = ad_offset_of(origin as int);
    let antidiagonal_board = rotate(board, BoardLayout::Antidiagonal);
    let antidiagonal_occupancy = slice_d(
        antidiagonal_coordinate.diagonal,
        select_all(antidiagonal_board),
    );
    let antidiagonal_unobstructed = search_unobstructed(
        antidiagonal_coordinate.offset,
        antidiagonal_occupancy,
    );
    let antidiagonal_length = measure_diagonal(8, antidiagonal_coordinate.diagonal);
    let antidiagonal_trimmed = trim_to(antidiagonal_unobstructed, antidiagonal_length as u8);
    let antidiagonal_own = slice_d(
        antidiagonal_coordinate.diagonal,
        select_color(antidiagonal_board, mpiece.color),
    );
    let antidiagonal_destinations = antidiagonal_trimmed & !antidiagonal_own;
    proof {
        lemma_bit8_and_not(antidiagonal_trimmed, antidiagonal_own);
    }
    let ghost adests = bishop_ad_dests(origin as int, all, own);
    proof {
        assert forall|o: int| 0 <= o < 8 implies adests(o) == (if bit8(
            antidiagonal_destinations,
            o,
        ) {
            Option::Some(spec_rev_ad(ad, o))
        } else {
            Option::<int>::None
        }) by {
            if o < diag_len(ad) {
                lemma_rev_ad_props(ad, o);
                lemma_consistent_at(*board, mpiece.color, spec_rev_ad(ad, o));
                assert(ad_pos(spec_rev_ad(ad, o)) == diag_base(ad) + o);
                assert(bit8(antidiagonal_own, o) == bit64(own, spec_rev_ad(ad, o)));
                assert forall|m: int| a0 < m < o || o < m < a0 implies bit8(
                    antidiagonal_occupancy,
                    m,
                ) == bit64(all, #[trigger] spec_rev_ad(ad, m)) by {
                    lemma_rev_ad_props(ad, m);
                    lemma_consistent_at(*board, mpiece.color, spec_rev_ad(ad, m));
                    assert(ad_pos(spec_rev_ad(ad, m)) == diag_base(ad) + m);
                }
                if o != a0 {
                    if ad_path_clear(origin as int, all, o) {
                        assert forall|m: int| a0 < m < o || o < m < a0 implies !bit8(
                            antidiagonal_occupancy,
                            m,
                        ) by {
                            assert(!bit64(all, spec_rev_ad(ad, m)));
                        }
                        assert(lane_reach(antidiagonal_occupancy, a0, o));
                    } else {
                        let m = choose|m: int|
                            (a0 < m < o || o < m < a0) && bit64(
                                all,
                                #[trigger] spec_rev_ad(ad, m),
                            );
                        assert(bit8(antidiagonal_occupancy, m));
                        assert(!lane_reach(antidiagonal_occupancy, a0, o));
                    }
                } else {
                    assert(!lane_reach(antidiagonal_occupancy, a0, o));
                }
            }
        }
    }
    let mut o: usize = 0;
    while o < 8
        invariant
            o <= 8,
            antidiagonal_coordinate.diagonal == ad,
            0 <= ad <= 14,
            forall|j: int|
                0 <= j < 8 ==> #[trigger] adests(j) == (if bit8(antidiagonal_destinations, j) {
                    Option::Some(spec_rev_ad(ad, j))
                } else {
                    Option::<int>::None
                }),
            forall|j: int| bit8(antidiagonal_destinations, j) ==> 0 <= j < diag_len(ad),
            mpiece.origin < 64,
            moves@ == mid + emitted(mpiece.origin as int, adests, o as int),
        decreases 8 - o,
    {
        if antidiagonal_destinations & (1u8 << (o as u8)) != 0 {
            proof {
                assert(bit8(antidiagonal_destinations, o as int));
            }
            let destination = reverse_locate_ad(
                DiagonalSquareCoordinate { diagonal: antidiagonal_coordinate.diagonal, offset: o },
            );
            let translation = Translation::new(mpiece.origin, destination);
            moves.push(translation);
            proof {
                assert(translation == spec_translation(mpiece.origin as int, destination as int));
                assert(emitted(mpiece.origin as int, adests, o + 1) == emitted(
                    mpiece.origin as int,
                    adests,
                    o as int,
                ) + seq![spec_translation(mpiece.origin as int, spec_rev_ad(ad, o as int))]);
                assert(moves@ =~= mid + emitted(mpiece.origin as int, adests, o + 1));
            }
        } else {
            proof {
                assert(!bit8(antidiagonal_destinations, o as int));
                assert(emitted(mpiece.origin as int, adests, o + 1) =~= emitted(
                    mpiece.origin as int,
                    adests,
                    o as int,
                ));
            }
        }
        o += 1;
    }
    proof {
        assert(moves@ =~= prior + spec_bishop_moves(mpiece.origin as int, all, own));
    }
}

/// Generates all pseudo-legal moves for a rook of `mpiece.color` fixed at
/// `mpiece.origin`, appending them to `moves`. A rook need not actually
/// stand there; the snapshot is read, never altered.
pub fn rook(mpiece: MovingPiece, board: &RotatableBoard, moves: &mut Vec<Translation>)
    requires
        mpiece.origin < 64,
        consistent(*board),
    ensures
        final (moves)@ == old(moves)@ + spec_rook_moves(
            mpiece.origin as int,
            spec_select_all(board.rankwise),
            spec_select_color(board.rankwise, mpiece.color),
        ),
{
    let origin = mpiece.origin;
    let ghost all = spec_select_all(board.rankwise);
    let ghost own = spec_select_color(board.rankwise, mpiece.color);
    let ghost prior = moves@;
    let (rank, file) = split_rwc(origin);

    // Rank half: the rank-major layout already holds each rank contiguously.
    let rankwise_board = rotate(board, BoardLayout::Rankwise);
    let rank_occupancy = slice(rank * 8, select_all(rankwise_board));
    let rank_unobstructed = search_unobstructed(file, rank_occupancy);
    let rank_own = slice(rank * 8, select_color(rankwise_board, mpiece.color));
    let rank_destinations = rank_unobstructed & !rank_own;
    proof {
        lemma_bit8_and_not(rank_unobstructed, rank_own);
    }
    let ghost rdests = rook_rank_dests(origin as int, all, own);
    proof {
        assert forall|o: int| 0 <= o < 8 implies rdests(o) == (if bit8(rank_destinations, o) {
            Option::Some(sq_at(rank as int, o))
        } else {
            Option::<int>::None
        }) by {
            assert(bit8(rank_own, o) == bit64(own, sq_at(rank as int, o)));
            assert forall|m: int| file < m < o || o < m < file implies bit8(rank_occupancy, m)
                == bit64(all, #[trigger] sq_at(rank as int, m)) by {}
            if o != file {
                if rank_path_clear(origin as int, all, o) {
                    assert forall|m: int| file < m < o || o < m < file implies !bit8(
                        rank_occupancy,
                        m,
                    ) by {
                        assert(!bit64(all, sq_at(rank as int, m)));
                    }
                    assert(lane_reach(rank_occupancy, file as int, o));
                } else {
                    let m = choose|m: int|
                        (file < m < o || o < m < file) && bit64(all, #[trigger] sq_at(rank as int, m));
                    assert(bit8(rank_occupancy, m));
                    assert(!lane_reach(rank_occupancy, file as int, o));
                }
            } else {
                assert(!lane_reach(rank_occupancy, file as int, o));
            }
        }
    }
    let mut o: usize = 0;
    while o < 8
        invariant
            o <= 8,
            rank == rank_of(origin as int),
            rank < 8,
            origin == mpiece.origin,
            forall|j: int|
                0 <= j < 8 ==> #[trigger] rdests(j) == (if bit8(rank_destinations, j) {
                    Option::Some(sq_at(rank as int, j))
                } else {
                    Option::<int>::None
                }),
            mpiece.origin < 64,
            moves@ == prior + emitted(mpiece.origin as int, rdests, o as int),
        decreases 8 - o,
    {
        if rank_destinations & (1u8 << (o as u8)) != 0 {
            proof {
                assert(bit8(rank_destinations, o as int));
            }
            let destination: RankwiseSquareOrdinal = rank * 8 + o;
            let translation = Translation::new(mpiece.origin, destination);
            moves.push(translation);
            proof {
                assert(destination == sq_at(rank as int, o as int));
                assert(translation == spec_translation(mpiece.origin as int, destination as int));
                assert(emitted(mpiece.origin as int, rdests, o + 1) == emitted(
                    mpiece.origin as int,
                    rdests,
                    o as int,
                ) + seq![spec_translation(mpiece.origin as int, sq_at(rank as int, o as int))]);
                assert(moves@ =~= prior + emitted(mpiece.origin as int, rdests, o + 1));
            }
        } else {
            proof {
                assert(!bit8(rank_destinations, o as int));
                assert(emitted(mpiece.origin as int, rdests, o + 1) =~= emitted(
                    mpiece.origin as int,
                    rdests,
                    o as int,
                ));
            }
        }
        o += 1;
    }
    let ghost mid = moves@;

    // File half: the file-major layout holds each file contiguously.
    let filewise_board = rotate(board, BoardLayout::Filewise);
    let file_occupancy = slice(file * 8, select_all(filewise_board));
    let file_unobstructed = search_unobstructed(rank, file_occupancy);
    let file_own = slice(file * 8, select_color(filewise_board, mpiece.color));
    let file_destinations = file_unobstructed & !file_own;
    proof {
        lemma_bit8_and_not(file_unobstructed, file_own);
    }
    let ghost fdests = rook_file_dests(origin as int, all, own);
    proof {
        assert forall|o: int| 0 <= o < 8 implies fdests(o) == (if bit8(file_destinations, o) {
            Option::Some(sq_at(o, file as int))
        } else {
            Option::<int>::None
        }) by {
            assert forall|m: int| 0 <= m < 8 implies bit8(file_occupancy, m) == bit64(
                all,
                #[trigger] sq_at(m, file as int),
            ) && bit8(file_own, m) == bit64(own, sq_at(m, file as int)) by {
                let s = sq_at(m, file as int);
                assert(s / 8 == m && s % 8 == file) by {
                    assert(s == 8 * m + file);
                }
                assert(fw_pos(s) == file * 8 + m);
                lemma_consistent_at(*board, mpiece.color, s);
            }
            if o != rank {
                if file_path_clear(origin as int, all, o) {
                    assert forall|m: int| rank < m < o || o < m < rank implies !bit8(
                        file_occupancy,
                        m,
                    ) by {
                        assert(!bit64(all, sq_at(m, file as int)));
                    }
                    assert(lane_reach(file_occupancy, rank as int, o));
                } else {
                    let m = choose|m: int|
                        (rank < m < o || o < m < rank) && bit64(all, #[trigger] sq_at(m, file as int));
                    assert(bit8(file_occupancy, m));
                    assert(!lane_reach(file_occupancy, rank as int, o));
                }
            } else {
                assert(!lane_reach(file_occupancy, rank as int, o));
            }
        }
    }
    let mut o: usize = 0;
    while o < 8
        invariant
            o <= 8,
            file == file_of(origin as int),
            file < 8,
            origin == mpiece.origin,
            forall|j: int|
                0 <= j < 8 ==> #[trigger] fdests(j) == (if bit8(file_destinations, j) {
                    Option::Some(sq_at(j, file as int))
                } else {
                    Option::<int>::None
                }),
            mpiece.origin < 64,
            moves@ == mid + emitted(mpiece.origin as int, fdests, o as int),
        decreases 8 - o,
    {
        if file_destinations & (1u8 << (o as u8)) != 0 {
            proof {
                assert(bit8(file_destinations, o as int));
            }
            let destination: RankwiseSquareOrdinal = o * 8 + file;
            let translation = Translation::new(mpiece.origin, destination);
            moves.push(translation);
            proof {
                assert(destination == sq_at(o as int, file as int));
                assert(translation == spec_translation(mpiece.origin as int, destination as int));
                assert(emitted(mpiece.origin as int, fdests, o + 1) == emitted(
                    mpiece.origin as int,
                    fdests,
                    o as int,
                ) + seq![spec_translation(mpiece.origin as int, sq_at(o as int, file as int))]);
                assert(moves@ =~= mid + emitted(mpiece.origin as int, fdests, o + 1));
            }
        } else {
            proof {
                assert(!bit8(file_destinations, o as int));
                assert(emitted(mpiece.origin as int, fdests, o + 1) =~= emitted(
                    mpiece.origin as int,
                    fdests,
                    o as int,
                ));
            }
        }
        o += 1;
    }
    proof {
        assert(moves@ =~= prior + spec_rook_moves(mpiece.origin as int, all, own));
    }
}

/// Every pseudo-legal queen move from `origin`: the rook moves, then the
/// bishop moves.
pub open spec fn spec_queen_moves(origin: int, all: u64, own: u64) -> Seq<Translation> {
    spec_rook_moves(origin, all, own) + spec_bishop_moves(origin, all, own)
}

/// Generates all pseudo-legal moves for a queen of `mpiece.color` fixed
/// at `mpiece.origin`: the rook moves followed by the bishop moves.
pub fn queen(mpiece: MovingPiece, board: &RotatableBoard, moves: &mut Vec<Translation>)
    requires
        mpiece.origin < 64,
        consistent(*board),
    ensures
        final (moves)@ == old(moves)@ + spec_queen_moves(
            mpiece.origin as int,
            spec_select_all(board.rankwise),
            spec_select_color(board.rankwise, mpiece.color),
        ),
{
    let ghost prior = moves@;
    rook(mpiece, board, moves);
    bishop(mpiece, board, moves);
    proof {
        assert(moves@ =~= prior + spec_queen_moves(
            mpiece.origin as int,
            spec_select_all(board.rankwise),
            spec_select_color(board.rankwise, mpiece.color),
        ));
    }
}

/// Destination squares a leaper with the given offset pattern may move
/// to: any in-bounds square its pattern reaches that the mover's own
/// color does not hold.
pub open spec fn leaper_dests(origin: int, ranks: Seq<i8>, files: Seq<i8>, own: u64) -> spec_fn(
    int,
) -> Option<int> {
    |s: int|
        if pattern_hits(origin, ranks, files, s) && !bit64(own, s) {
            Option::Some(s)
        } else {
            Option::None
        }
}

/// Every pseudo-legal move of a leaper with the given offset pattern, in
/// ascending destination order.
pub open spec fn spec_leaper_moves(origin: int, ranks: Seq<i8>, files: Seq<i8>, own: u64) -> Seq<
    Translation,
> {
    emitted(origin, leaper_dests(origin, ranks, files, own), 64)
}

/// Generates all pseudo-legal moves of a leaper of `mpiece.color` at
/// `mpiece.origin` whose relative destinations are `move_pattern`,
/// appending them to `moves`.
pub fn pattern(
    mpiece: MovingPiece,
    board: &RotatableBoard,
    moves: &mut Vec<Translation>,
    move_pattern: &Pattern,
)
    requires
        mpiece.origin < 64,
        move_pattern.wf(),
    ensures
        final (moves)@ == old(moves)@ + spec_leaper_moves(
            mpiece.origin as int,
            move_pattern.ranks@,
            move_pattern.files@,
            spec_select_color(board.rankwise, mpiece.color),
        ),
{
    let ghost own = spec_select_color(board.rankwise, mpiece.color);
    let ghost prior = moves@;
    let instantiated = instantiate_pattern(mpiece.origin, move_pattern);
    let own_mask = select_color(rotate(board, BoardLayout::Rankwise), mpiece.color);
    let destinations = instantiated & !own_mask;
    proof {
        lemma_bit64_and_not(instantiated, own_mask);
    }
    let ghost ldests = leaper_dests(mpiece.origin as int, move_pattern.ranks@, move_pattern.files@, own);
    proof {
        assert forall|j: int| 0 <= j < 64 implies #[trigger] ldests(j) == (if bit64(
            destinations,
            j,
        ) {
            Option::Some(j)
        } else {
            Option::<int>::None
        }) by {}
    }
    let mut s: usize = 0;
    while s < 64
        invariant
            s <= 64,
            mpiece.origin < 64,
            forall|j: int|
                0 <= j < 64 ==> #[trigger] ldests(j) == (if bit64(destinations, j) {
                    Option::Some(j)
                } else {
                    Option::<int>::None
                }),
            moves@ == prior + emitted(mpiece.origin as int, ldests, s as int),
        decreases 64 - s,
    {
        if destinations & (1u64 << (s as u64)) != 0 {
            proof {
                assert((s as int) as u64 == s as u64);
                assert(bit64(destinations, s as int));
            }
            let translation = Translation::new(mpiece.origin, s);
            moves.push(translation);
            proof {
                assert(translation == spec_translation(mpiece.origin as int, s as int));
                assert(emitted(mpiece.origin as int, ldests, s + 1) == emitted(
                    mpiece.origin as int,
                    ldests,
                    s as int,
                ) + seq![spec_translation(mpiece.origin as int, s as int)]);
                assert(moves@ =~= prior + emitted(mpiece.origin as int, ldests, s + 1));
            }
        } else {
            proof {
                assert((s as int) as u64 == s as u64);
                assert(!bit64(destinations, s as int));
                assert(emitted(mpiece.origin as int, ldests, s + 1) =~= emitted(
                    mpiece.origin as int,
                    ldests,
                    s as int,
                ));
            }
        }
        s += 1;
    }
}

/// Generates all pseudo-legal knight moves from `mpiece.origin`.
pub fn knight(mpiece: MovingPiece, board: &RotatableBoard, moves: &mut Vec<Translation>)
    requires
        mpiece.origin < 64,
    ensures
        final (moves)@ == old(moves)@ + spec_leaper_moves(
            mpiece.origin as int,
            knight_ranks(),
            knight_files(),
            spec_select_color(board.rankwise, mpiece.color),
        ),
{
    let knight_pattern = compile_knight_pattern();
    pattern(mpiece, board, moves, &knight_pattern);
}

/// Generates all pseudo-legal king moves from `mpiece.origin` (castling
/// aside, which is no concern of this generator).
pub fn king(mpiece: MovingPiece, board: &RotatableBoard, moves: &mut Vec<Translation>)
    requires
        mpiece.origin < 64,
    ensures
        final (moves)@ == old(moves)@ + spec_leaper_moves(
            mpiece.origin as int,
            king_ranks(),
            king_files(),
            spec_select_color(board.rankwise, mpiece.color),
        ),
{
    let king_pattern = compile_king_pattern();
    pattern(mpiece, board, moves, &king_pattern);
}

/// The single pseudo-legal forward step of a pawn, if any: one square
/// ahead in the pawn's color's direction, legal only when that square is
/// on the board and unoccupied.
pub open spec fn spec_pawn_step_moves(origin: int, color: PieceColor, all: u64) -> Seq<
    Translation,
> {
    let r = rank_of(origin) + pawn_direction(color);
    if 0 <= r < 8 && !bit64(all, sq_at(r, file_of(origin))) {
        seq![spec_translation(origin, sq_at(r, file_of(origin)))]
    } else {
        Seq::empty()
    }
}

/// Generates the pawn's single forward step, when its destination lies on
/// the board and is unoccupied.
pub fn pawn_step(mpiece: MovingPiece, board: &RotatableBoard, moves: &mut Vec<Translation>)
    requires
        mpiece.origin < 64,
    ensures
        final (moves)@ == old(moves)@ + spec_pawn_step_moves(
            mpiece.origin as int,
            mpiece.color,
            spec_select_all(board.rankwise),
        ),
{
    let ghost prior = moves@;
    let (origin_rank, origin_file) = split_rwc(mpiece.origin);
    let direction = lookup_pawn_direction(mpiece.color);
    let destination_rank = origin_rank as i8 + direction;
    if 0 <= destination_rank && destination_rank < 8 {
        let destination: RankwiseSquareOrdinal = 8 * (destination_rank as usize) + origin_file;
        let rankwise_board = rotate(board, BoardLayout::Rankwise);
        if !is_occupied(rankwise_board, destination) {
            let translation = Translation::new(mpiece.origin, destination);
            moves.push(translation);
            proof {
                assert(destination == sq_at(
                    rank_of(mpiece.origin as int) + pawn_direction(mpiece.color),
                    file_of(mpiece.origin as int),
                ));
                assert(translation == spec_translation(mpiece.origin as int, destination as int));
                assert(moves@ =~= prior + spec_pawn_step_moves(
                    mpiece.origin as int,
                    mpiece.color,
                    spec_select_all(board.rankwise),
                ));
            }
        } else {
            proof {
                assert(moves@ =~= prior + spec_pawn_step_moves(
                    mpiece.origin as int,
                    mpiece.color,
                    spec_select_all(board.rankwise),
                ));
            }
        }
    } else {
        proof {
            assert(moves@ =~= prior + spec_pawn_step_moves(
                mpiece.origin as int,
                mpiece.color,
                spec_select_all(board.rankwise),
            ));
        }
    }
}

/// The rank a pawn of `color` starts the game on.
pub open spec fn pawn_birth_rank(color: PieceColor) -> int {
    match color {
        PieceColor::Black => 6,
        PieceColor::White => 1,
    }
}

/// The rank direction a pawn of `color` advances in.
pub fn lookup_pawn_direction(color: PieceColor) -> (r: i8)
    ensures
        r as int == pawn_direction(color),
{
    match color {
        PieceColor::Black => -1,
        PieceColor::White => 1,
    }
}

/// The rank a pawn of `color` starts the game on.
pub fn lookup_pawn_birth_rank(color: PieceColor) -> (r: i8)
    ensures
        r as int == pawn_birth_rank(color),
{
    match color {
        PieceColor::Black => 6,
        PieceColor::White => 1,
    }
}

/// The pseudo-legal double step of a pawn, if any: legal only from the
/// color's birth rank, and only when both the intermediate square and the
/// destination square are unoccupied — a piece on the intermediate square
/// blocks the double step even if the destination is empty.
pub open spec fn spec_pawn_2step_moves(origin: int, color: PieceColor, all: u64) -> Seq<
    Translation,
> {
    let birth = pawn_birth_rank(color);
    let lava = birth + pawn_direction(color);
    let dst = birth + 2 * pawn_direction(color);
    if rank_of(origin) == birth && !bit64(all, sq_at(lava, file_of(origin))) && !bit64(
        all,
        sq_at(dst, file_of(origin)),
    ) {
        seq![spec_translation(origin, sq_at(dst, file_of(origin)))]
    } else {
        Seq::empty()
    }
}

/// Generates the pawn's double step from its birth rank, blocked
/// independently by the intermediate square and by the destination.
pub fn pawn_2step(mpiece: MovingPiece, board: &RotatableBoard, moves: &mut Vec<Translation>)
    requires
        mpiece.origin < 64,
    ensures
        final (moves)@ == old(moves)@ + spec_pawn_2step_moves(
            mpiece.origin as int,
            mpiece.color,
            spec_select_all(board.rankwise),
        ),
{
    let ghost prior = moves@;
    let ghost all = spec_select_all(board.rankwise);
    let rankwise_board = rotate(board, BoardLayout::Rankwise);
    let direction = lookup_pawn_direction(mpiece.color);
    let birth_rank = lookup_pawn_birth_rank(mpiece.color);
    let lava_rank = (birth_rank + direction) as usize;
    let destination_rank = (birth_rank + 2 * direction) as usize;
    let (origin_rank, origin_file) = split_rwc(mpiece.origin);
    let destination: RankwiseSquareOrdinal = destination_rank * 8 + origin_file;
    if origin_rank != birth_rank as usize {
        proof {
            assert(moves@ =~= prior + spec_pawn_2step_moves(mpiece.origin as int, mpiece.color, all));
        }
        return ;
    }
    // A piece on the intermediate square blocks the double step outright.
    if is_occupied(rankwise_board, lava_rank * 8 + origin_file) {
        proof {
            assert(lava_rank * 8 + origin_file == sq_at(
                pawn_birth_rank(mpiece.color) + pawn_direction(mpiece.color),
                file_of(mpiece.origin as int),
            ));
            assert(moves@ =~= prior + spec_pawn_2step_moves(mpiece.origin as int, mpiece.color, all));
        }
        return ;
    }
    // So does a piece on the destination square.
    if is_occupied(rankwise_board, destination) {
        proof {
            assert(destination == sq_at(
                pawn_birth_rank(mpiece.color) + 2 * pawn_direction(mpiece.color),
                file_of(mpiece.origin as int),
            ));
            assert(moves@ =~= prior + spec_pawn_2step_moves(mpiece.origin as int, mpiece.color, all));
        }
        return ;
    }
    let translation = Translation::new(mpiece.origin, destination);
    moves.push(translation);
    proof {
        assert(destination == sq_at(
            pawn_birth_rank(mpiece.color) + 2 * pawn_direction(mpiece.color),
            file_of(mpiece.origin as int),
        ));
        assert(translation == spec_translation(mpiece.origin as int, destination as int));
        assert(moves@ =~= prior + spec_pawn_2step_moves(mpiece.origin as int, mpiece.color, all));
    }
}

/// Destination squares of a pawn capture: a square the capture pattern
/// reaches, held by the opposing color — an empty destination is not a
/// legal capture, unlike every other piece kind.
pub open spec fn pawn_capture_dests(origin: int, color: PieceColor, all: u64, own: u64) -> spec_fn(
    int,
) -> Option<int> {
    |s: int|
        if pattern_hits(origin, pawn_capture_ranks(color), pawn_capture_files(), s) && !bit64(
            own,
            s,
        ) && bit64(all, s) {
            Option::Some(s)
        } else {
            Option::None
        }
}

/// Every pseudo-legal pawn capture from `origin`, in ascending
/// destination order.
pub open spec fn spec_pawn_capture_moves(origin: int, color: PieceColor, all: u64, own: u64) -> Seq<
    Translation,
> {
    emitted(origin, pawn_capture_dests(origin, color, all, own), 64)
}

/// Generates the pawn's captures: diagonally forward squares that hold an
/// opposing piece.
pub fn pawn_capture(mpiece: MovingPiece, board: &RotatableBoard, moves: &mut Vec<Translation>)
    requires
        mpiece.origin < 64,
    ensures
        final (moves)@ == old(moves)@ + spec_pawn_capture_moves(
            mpiece.origin as int,
            mpiece.color,
            spec_select_all(board.rankwise),
            spec_select_color(board.rankwise, mpiece.color),
        ),
{
    let ghost all = spec_select_all(board.rankwise);
    let ghost own = spec_select_color(board.rankwise, mpiece.color);
    let ghost prior = moves@;
    let rankwise_board = rotate(board, BoardLayout::Rankwise);
    let capture_pattern = lookup_pawn_capture_pattern(mpiece.color);
    let instantiated = instantiate_pattern(mpiece.origin, &capture_pattern);
    let own_mask = select_color(rankwise_board, mpiece.color);
    let all_mask = select_all(rankwise_board);
    let unblocked = instantiated & !own_mask;
    let destinations = unblocked & all_mask;
    proof {
        lemma_bit64_and_not(instantiated, own_mask);
        lemma_bit64_and(unblocked, all_mask);
    }
    let ghost cdests = pawn_capture_dests(mpiece.origin as int, mpiece.color, all, own);
    proof {
        assert forall|j: int| 0 <= j < 64 implies #[trigger] cdests(j) == (if bit64(
            destinations,
            j,
        ) {
            Option::Some(j)
        } else {
            Option::<int>::None
        }) by {}
    }
    let mut s: usize = 0;
    while s < 64
        invariant
            s <= 64,
            mpiece.origin < 64,
            forall|j: int|
                0 <= j < 64 ==> #[trigger] cdests(j) == (if bit64(destinations, j) {
                    Option::Some(j)
                } else {
                    Option::<int>::None
                }),
            moves@ == prior + emitted(mpiece.origin as int, cdests, s as int),
        decreases 64 - s,
    {
        if destinations & (1u64 << (s as u64)) != 0 {
            proof {
                assert((s as int) as u64 == s as u64);
                assert(bit64(destinations, s as int));
            }
            let translation = Translation::new(mpiece.origin, s);
            moves.push(translation);
            proof {
                assert(translation == spec_translation(mpiece.origin as int, s as int));
                assert(emitted(mpiece.origin as int, cdests, s + 1) == emitted(
                    mpiece.origin as int,
                    cdests,
                    s as int,
                ) + seq![spec_translation(mpiece.origin as int, s as int)]);
                assert(moves@ =~= prior + emitted(mpiece.origin as int, cdests, s + 1));
            }
        } else {
            proof {
                assert((s as int) as u64 == s as u64);
                assert(!bit64(destinations, s as int));
                assert(emitted(mpiece.origin as int, cdests, s + 1) =~= emitted(
                    mpiece.origin as int,
                    cdests,
                    s as int,
                ));
            }
        }
        s += 1;
    }
}

/// Own-color blocking, sliding pieces: no bishop move lands on a square
/// the mover's own color holds, and every move departs from the origin.
pub proof fn lemma_bishop_blocks_own_color(origin: int, all: u64, own: u64)
    requires
        0 <= origin < 64,
    ensures
        forall|i: int|
            0 <= i < spec_bishop_moves(origin, all, own).len() ==> !bit64(
                own,
                (#[trigger] spec_bishop_moves(origin, all, own)[i]).spec_destination(),
            ) && spec_bishop_moves(origin, all, own)[i].spec_origin() == origin,
{
    let p = |v: int| !bit64(own, v);
    let df = bishop_diag_dests(origin, all, own);
    let af = bishop_ad_dests(origin, all, own);
    crate::locate::lemma_locate_d_props(origin);
    crate::locate::lemma_locate_ad_props(origin);
    assert forall|o: int| (#[trigger] df(o)) is Some implies 0 <= df(o)->Some_0 < 64 && p(
        df(o)->Some_0,
    ) by {
        lemma_rev_d_props(diag_of(origin), o);
    }
    assert forall|o: int| (#[trigger] af(o)) is Some implies 0 <= af(o)->Some_0 < 64 && p(
        af(o)->Some_0,
    ) by {
        lemma_rev_ad_props(ad_of(origin), o);
    }
    lemma_emitted_elements(origin, df, 8, p);
    lemma_emitted_elements(origin, af, 8, p);
    let s = spec_bishop_moves(origin, all, own);
    let a = emitted(origin, df, 8);
    let b = emitted(origin, af, 8);
    assert forall|i: int| 0 <= i < s.len() implies !bit64(
        own,
        (#[trigger] s[i]).spec_destination(),
    ) && s[i].spec_origin() == origin by {
        if i < a.len() {
            assert(s[i] == a[i]);
        } else {
            assert(s[i] == b[i - a.len()]);
        }
    }
}

/// Own-color blocking, rook.
pub proof fn lemma_rook_blocks_own_color(origin: int, all: u64, own: u64)
    requires
        0 <= origin < 64,
    ensures
        forall|i: int|
            0 <= i < spec_rook_moves(origin, all, own).len() ==> !bit64(
                own,
                (#[trigger] spec_rook_moves(origin, all, own)[i]).spec_destination(),
            ) && spec_rook_moves(origin, all, own)[i].spec_origin() == origin,
{
    let p = |v: int| !bit64(own, v);
    let rf = rook_rank_dests(origin, all, own);
    let ff = rook_file_dests(origin, all, own);
    assert forall|o: int| (#[trigger] rf(o)) is Some implies 0 <= rf(o)->Some_0 < 64 && p(
        rf(o)->Some_0,
    ) by {}
    assert forall|o: int| (#[trigger] ff(o)) is Some implies 0 <= ff(o)->Some_0 < 64 && p(
        ff(o)->Some_0,
    ) by {}
    lemma_emitted_elements(origin, rf, 8, p);
    lemma_emitted_elements(origin, ff, 8, p);
    let s = spec_rook_moves(origin, all, own);
    let a = emitted(origin, rf, 8);
    let b = emitted(origin, ff, 8);
    assert forall|i: int| 0 <= i < s.len() implies !bit64(
        own,
        (#[trigger] s[i]).spec_destination(),
    ) && s[i].spec_origin() == origin by {
        if i < a.len() {
            assert(s[i] == a[i]);
        } else {
            assert(s[i] == b[i - a.len()]);
        }
    }
}

/// Own-color blocking, queen.
pub proof fn lemma_queen_blocks_own_color(origin: int, all: u64, own: u64)
    requires
        0 <= origin < 64,
    ensures
        forall|i: int|
            0 <= i < spec_queen_moves(origin, all, own).len() ==> !bit64(
                own,
                (#[trigger] spec_queen_moves(origin, all, own)[i]).spec_destination(),
            ) && spec_queen_moves(origin, all, own)[i].spec_origin() == origin,
{
    lemma_rook_blocks_own_color(origin, all, own);
    lemma_bishop_blocks_own_color(origin, all, own);
    let s = spec_queen_moves(origin, all, own);
    let a = spec_rook_moves(origin, all, own);
    let b = spec_bishop_moves(origin, all, own);
    assert forall|i: int| 0 <= i < s.len() implies !bit64(
        own,
        (#[trigger] s[i]).spec_destination(),
    ) && s[i].spec_origin() == origin by {
        if i < a.len() {
            assert(s[i] == a[i]);
        } else {
            assert(s[i] == b[i - a.len()]);
        }
    }
}

/// Own-color blocking, leapers: holds for any offset pattern, so in
/// particular for the knight and the king.
pub proof fn lemma_leaper_blocks_own_color(origin: int, ranks: Seq<i8>, files: Seq<i8>, own: u64)
    requires
        0 <= origin < 64,
    ensures
        forall|i: int|
            0 <= i < spec_leaper_moves(origin, ranks, files, own).len() ==> !bit64(
                own,
                (#[trigger] spec_leaper_moves(origin, ranks, files, own)[i]).spec_destination(),
            ) && spec_leaper_moves(origin, ranks, files, own)[i].spec_origin() == origin,
{
    let p = |v: int| !bit64(own, v);
    let lf = leaper_dests(origin, ranks, files, own);
    assert forall|o: int| (#[trigger] lf(o)) is Some implies 0 <= lf(o)->Some_0 < 64 && p(
        lf(o)->Some_0,
    ) by {
        if lf(o) is Some {
            let k = choose|k: int|
                0 <= k < ranks.len() && #[trigger] offset_dest(
                    origin,
                    ranks[k] as int,
                    files[k] as int,
                ) == Option::<int>::Some(o);
            assert(0 <= o < 64);
        }
    }
    lemma_emitted_elements(origin, lf, 64, p);
}

/// Own-color blocking, pawn captures.
pub proof fn lemma_pawn_capture_blocks_own_color(origin: int, color: PieceColor, all: u64, own: u64)
    requires
        0 <= origin < 64,
    ensures
        forall|i: int|
            0 <= i < spec_pawn_capture_moves(origin, color, all, own).len() ==> !bit64(
                own,
                (#[trigger] spec_pawn_capture_moves(origin, color, all, own)[i]).spec_destination(),
            ) && spec_pawn_capture_moves(origin, color, all, own)[i].spec_origin() == origin,
{
    let p = |v: int| !bit64(own, v);
    let cf = pawn_capture_dests(origin, color, all, own);
    assert forall|o: int| (#[trigger] cf(o)) is Some implies 0 <= cf(o)->Some_0 < 64 && p(
        cf(o)->Some_0,
    ) by {
        if cf(o) is Some {
            let k = choose|k: int|
                0 <= k < pawn_capture_ranks(color).len() && #[trigger] offset_dest(
                    origin,
                    pawn_capture_ranks(color)[k] as int,
                    pawn_capture_files()[k] as int,
                ) == Option::<int>::Some(o);
            assert(0 <= o < 64);
        }
    }
    lemma_emitted_elements(origin, cf, 64, p);
}

/// Own-color blocking, pawn steps: the destination of a single or double
/// step is unoccupied altogether, so in particular not held by the
/// mover's own color.
pub proof fn lemma_pawn_steps_block_own_color(origin: int, color: PieceColor, b: Board)
    requires
        0 <= origin < 64,
    ensures
        forall|i: int|
            0 <= i < spec_pawn_step_moves(origin, color, spec_select_all(b)).len() ==> !bit64(
                spec_select_color(b, color),
                (#[trigger] spec_pawn_step_moves(origin, color, spec_select_all(b))[i]).spec_destination(),
            ) && spec_pawn_step_moves(origin, color, spec_select_all(b))[i].spec_origin() == origin,
        forall|i: int|
            0 <= i < spec_pawn_2step_moves(origin, color, spec_select_all(b)).len() ==> !bit64(
                spec_select_color(b, color),
                (#[trigger] spec_pawn_2step_moves(
                    origin,
                    color,
                    spec_select_all(b),
                )[i]).spec_destination(),
            ) && spec_pawn_2step_moves(origin, color, spec_select_all(b))[i].spec_origin() == origin,
{
    lemma_bit64_or(b.black, b.white);
    let all = spec_select_all(b);
    let s1 = spec_pawn_step_moves(origin, color, all);
    if s1.len() > 0 {
        let r = rank_of(origin) + pawn_direction(color);
        let dst = sq_at(r, file_of(origin));
        crate::lemma_translation_fields(origin, dst);
        assert(s1[0] == spec_translation(origin, dst));
    }
    let s2 = spec_pawn_2step_moves(origin, color, all);
    if s2.len() > 0 {
        let dst = sq_at(pawn_birth_rank(color) + 2 * pawn_direction(color), file_of(origin));
        crate::lemma_translation_fields(origin, dst);
        assert(s2[0] == spec_translation(origin, dst));
    }
}

/// Determinism: the translations a generator appends are a function of
/// the origin, the color and the rank-major occupancy masks alone. Two
/// snapshots that agree on those masks yield the identical move sequence
/// for every generator, whatever else — kind masks, other layouts, or the
/// contents the output buffer held before — differs.
pub proof fn lemma_generation_deterministic(
    rboard1: RotatableBoard,
    rboard2: RotatableBoard,
    mpiece: MovingPiece,
)
    requires
        rboard1.rankwise.black == rboard2.rankwise.black,
        rboard1.rankwise.white == rboard2.rankwise.white,
    ensures
        spec_bishop_moves(
            mpiece.origin as int,
            spec_select_all(rboard1.rankwise),
            spec_select_color(rboard1.rankwise, mpiece.color),
        ) == spec_bishop_moves(
            mpiece.origin as int,
            spec_select_all(rboard2.rankwise),
            spec_select_color(rboard2.rankwise, mpiece.color),
        ),
        spec_rook_moves(
            mpiece.origin as int,
            spec_select_all(rboard1.rankwise),
            spec_select_color(rboard1.rankwise, mpiece.color),
        ) == spec_rook_moves(
            mpiece.origin as int,
            spec_select_all(rboard2.rankwise),
            spec_select_color(rboard2.rankwise, mpiece.color),
        ),
        spec_queen_moves(
            mpiece.origin as int,
            spec_select_all(rboard1.rankwise),
            spec_select_color(rboard1.rankwise, mpiece.color),
        ) == spec_queen_moves(
            mpiece.origin as int,
            spec_select_all(rboard2.rankwise),
            spec_select_color(rboard2.rankwise, mpiece.color),
        ),
        spec_leaper_moves(
            mpiece.origin as int,
            knight_ranks(),
            knight_files(),
            spec_select_color(rboard1.rankwise, mpiece.color),
        ) == spec_leaper_moves(
            mpiece.origin as int,
            knight_ranks(),
            knight_files(),
            spec_select_color(rboard2.rankwise, mpiece.color),
        ),
        spec_leaper_moves(
            mpiece.origin as int,
            king_ranks(),
            king_files(),
            spec_select_color(rboard1.rankwise, mpiece.color),
        ) == spec_leaper_moves(
            mpiece.origin as int,
            king_ranks(),
            king_files(),
            spec_select_color(rboard2.rankwise, mpiece.color),
        ),
        spec_pawn_step_moves(mpiece.origin as int, mpiece.color, spec_select_all(rboard1.rankwise))
            == spec_pawn_step_moves(
            mpiece.origin as int,
            mpiece.color,
            spec_select_all(rboard2.rankwise),
        ),
        spec_pawn_2step_moves(mpiece.origin as int, mpiece.color, spec_select_all(rboard1.rankwise))
            == spec_pawn_2step_moves(
            mpiece.origin as int,
            mpiece.color,
            spec_select_all(rboard2.rankwise),
        ),
        spec_pawn_capture_moves(
            mpiece.origin as int,
            mpiece.color,
            spec_select_all(rboard1.rankwise),
            spec_select_color(rboard1.rankwise, mpiece.color),
        ) == spec_pawn_capture_moves(
            mpiece.origin as int,
            mpiece.color,
            spec_select_all(rboard2.rankwise),
            spec_select_color(rboard2.rankwise, mpiece.color),
        ),
{
    assert(spec_select_all(rboard1.rankwise) == spec_select_all(rboard2.rankwise));
    assert(spec_select_color(rboard1.rankwise, mpiece.color) == spec_select_color(
        rboard2.rankwise,
        mpiece.color,
    ));
}

} // verus!
