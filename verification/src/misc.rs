//! Figurate-number math: triangular numbers, partial diagonal sums and
//! diagonal lengths, used by the coordinate locator and lane extraction.

use vstd::prelude::*;

verus! {

/// The nth triangular number, `0 + 1 + ... + n`.
pub open spec fn spec_triangle(n: int) -> int
    decreases n,
{
    if n <= 0 {
        0
    } else {
        n + spec_triangle(n - 1)
    }
}

/// Number of squares on diagonal (or anti-diagonal) `d` of the 8x8 board:
/// index 7 is the main diagonal of length 8, indices further from 7 are
/// shorter.
pub open spec fn diag_len(d: int) -> int {
    if d <= 7 {
        d + 1
    } else {
        15 - d
    }
}

/// Number of squares on all diagonals before `d`: the bit offset at which
/// diagonal `d`'s lane starts in a diagonal-major layout.
pub open spec fn diag_base(d: int) -> int
    decreases d,
{
    if d <= 0 {
        0
    } else {
        diag_base(d - 1) + diag_len(d - 1)
    }
}

/// Closed form of the triangular number, stated without division.
pub proof fn lemma_triangle_double(n: int)
    requires
        0 <= n,
    ensures
        2 * spec_triangle(n) == n * (n + 1),
    decreases n,
{
    if n > 0 {
        lemma_triangle_double(n - 1);
        assert(spec_triangle(n) == n + spec_triangle(n - 1));
        assert(2 * spec_triangle(n - 1) == (n - 1) * (n - 1 + 1));
        assert((n - 1) * (n - 1 + 1) == n * n - n) by (nonlinear_arith);
        assert(n * (n + 1) == n * n + n) by (nonlinear_arith);
        assert(2 * spec_triangle(n) == n * (n + 1));
    } else {
        assert(spec_triangle(n) == 0);
        assert(n * (n + 1) == 0) by (nonlinear_arith)
            requires
                n == 0,
        ;
    }
}

pub proof fn lemma_triangle_mono(x: int, y: int)
    requires
        0 <= x <= y,
    ensures
        spec_triangle(x) <= spec_triangle(y),
    decreases y,
{
    if x < y {
        lemma_triangle_mono(x, y - 1);
    }
}

/// Computes the nth triangular number.
pub fn triangle(n: usize) -> (r: usize)
    requires
        n <= 0xffff,
    ensures
        r == spec_triangle(n as int),
{
    proof {
        lemma_triangle_double(n as int);
        assert(n * (n + 1) <= 0xffff * 0x10000) by (nonlinear_arith)
            requires
                n <= 0xffff,
        ;
    }
    (n * (n + 1)) / 2
}

/// The partial diagonal sum of an n-by-n board in closed form: the number
/// of squares on the diagonals before diagonal `i`.
pub open spec fn spec_partial_diamond_figurate(n: int, i: int) -> int {
    let lo = if n < i {
        n
    } else {
        i
    };
    let hi = if 2 * n - 1 - i < n - 1 {
        2 * n - 1 - i
    } else {
        n - 1
    };
    spec_triangle(lo) + spec_triangle(n - 1) - spec_triangle(hi)
}

/// Cumulative count of the squares on the diagonals before diagonal `i` of
/// an n-by-n board, computed from triangular numbers.
pub fn partial_diamond_figurate(n: usize, i: usize) -> (r: usize)
    requires
        1 <= n <= 0x7fff,
        i <= 2 * n - 1,
    ensures
        r == spec_partial_diamond_figurate(n as int, i as int),
{
    let total_diagonals = 2 * n - 1;
    let lo = if n < i {
        n
    } else {
        i
    };
    let hi = if total_diagonals - i < n - 1 {
        total_diagonals - i
    } else {
        n - 1
    };
    let a = triangle(lo);
    let b = triangle(n - 1);
    let c = triangle(hi);
    proof {
        lemma_triangle_mono(hi as int, (n - 1) as int);
        lemma_triangle_double(lo as int);
        lemma_triangle_double((n - 1) as int);
        assert(lo * (lo + 1) <= 0x8000 * 0x8001) by (nonlinear_arith)
            requires
                0 <= lo <= 0x8000,
        ;
        assert((n - 1) * (n - 1 + 1) <= 0x8000 * 0x8001) by (nonlinear_arith)
            requires
                1 <= n <= 0x7fff,
        ;
    }
    a + b - c
}

/// On the 8x8 board the closed form agrees with the cumulative lane offset
/// `diag_base`.
pub proof fn lemma_diag_base_closed(i: int)
    requires
        0 <= i <= 15,
    ensures
        spec_partial_diamond_figurate(8, i) == diag_base(i),
    decreases i,
{
    if i > 0 {
        lemma_diag_base_closed(i - 1);
    }
}

/// The number of squares on diagonal `d` of an n-by-n board,
/// `n - |d - (n - 1)|`.
pub fn measure_diagonal(n: usize, d: usize) -> (r: usize)
    requires
        1 <= n,
        d <= 2 * n - 2,
    ensures
        r == if d as int <= n - 1 {
            d + 1
        } else {
            2 * n - 1 - d
        },
        n == 8 ==> r == diag_len(d as int),
{
    let distance_from_principal_diagonal = if d >= n - 1 {
        d - (n - 1)
    } else {
        (n - 1) - d
    };
    n - distance_from_principal_diagonal
}

pub proof fn lemma_diag_base_mono(a: int, b: int)
    requires
        0 <= a <= b <= 15,
    ensures
        diag_base(a) <= diag_base(b),
    decreases b,
{
    if a < b {
        lemma_diag_base_mono(a, b - 1);
    }
}

/// The lane of every diagonal fits the board: base and length stay within
/// 64 bits.
pub proof fn lemma_diag_base_bounds(d: int)
    requires
        0 <= d <= 14,
    ensures
        0 <= diag_base(d),
        diag_base(d) + diag_len(d) <= 64,
{
    lemma_diag_base_mono(0, d);
    lemma_diag_base_mono(d + 1, 15);
    lemma_diag_base_values();
    assert(diag_base(d + 1) == diag_base(d) + diag_len(d));
}

/// The sixteen values of `diag_base`, by unfolding.
pub proof fn lemma_diag_base_values()
    ensures
        diag_base(0) == 0,
        diag_base(1) == 1,
        diag_base(2) == 3,
        diag_base(3) == 6,
        diag_base(4) == 10,
        diag_base(5) == 15,
        diag_base(6) == 21,
        diag_base(7) == 28,
        diag_base(8) == 36,
        diag_base(9) == 43,
        diag_base(10) == 49,
        diag_base(11) == 54,
        diag_base(12) == 58,
        diag_base(13) == 61,
        diag_base(14) == 63,
        diag_base(15) == 64,
{
    reveal_with_fuel(diag_base, 17);
}

} // verus!
