//! Single-bit views of the two mask widths, and the bitwise facts the rest
//! of the crate reasons with.

use vstd::prelude::*;

verus! {

/// Whether bit `i` of the 64-bit mask `b` is set; false outside 0..64.
pub open spec fn bit64(b: u64, i: int) -> bool {
    0 <= i < 64 && b & (1u64 << (i as u64)) != 0
}

/// Whether bit `i` of the 8-bit mask `l` is set; false outside 0..8.
pub open spec fn bit8(l: u8, i: int) -> bool {
    0 <= i < 8 && l & (1u8 << (i as u8)) != 0
}

pub proof fn lemma_bit64_zero()
    ensures
        forall|i: int| !bit64(0u64, i),
{
    assert forall|i: int| !bit64(0u64, i) by {
        if 0 <= i < 64 {
            let iu = i as u64;
            assert(0u64 & (1u64 << iu) == 0) by (bit_vector);
        }
    }
}

pub proof fn lemma_bit8_zero()
    ensures
        forall|i: int| !bit8(0u8, i),
{
    assert forall|i: int| !bit8(0u8, i) by {
        if 0 <= i < 8 {
            let iu = i as u8;
            assert(0u8 & (1u8 << iu) == 0) by (bit_vector);
        }
    }
}

pub proof fn lemma_bit64_only(j: u64)
    requires
        j < 64,
    ensures
        forall|i: int| bit64(1u64 << j, i) == (i == j as int),
{
    assert forall|i: int| bit64(1u64 << j, i) == (i == j as int) by {
        if 0 <= i < 64 {
            let iu = i as u64;
            assert(((1u64 << j) & (1u64 << iu) != 0) == (iu == j)) by (bit_vector)
                requires
                    iu < 64 && j < 64,
            ;
        } else {
            assert(i != j as int);
        }
    }
}

pub proof fn lemma_bit8_only(j: u8)
    requires
        j < 8,
    ensures
        forall|i: int| bit8(1u8 << j, i) == (i == j as int),
{
    assert forall|i: int| bit8(1u8 << j, i) == (i == j as int) by {
        if 0 <= i < 8 {
            let iu = i as u8;
            assert(((1u8 << j) & (1u8 << iu) != 0) == (iu == j)) by (bit_vector)
                requires
                    iu < 8 && j < 8,
            ;
        } else {
            assert(i != j as int);
        }
    }
}

pub proof fn lemma_bit64_or(a: u64, b: u64)
    ensures
        forall|i: int| #[trigger] bit64(a | b, i) == (bit64(a, i) || bit64(b, i)),
{
    assert forall|i: int| #[trigger] bit64(a | b, i) == (bit64(a, i) || bit64(b, i)) by {
        if 0 <= i < 64 {
            let iu = i as u64;
            assert((((a | b) & (1u64 << iu)) != 0) == ((a & (1u64 << iu) != 0) || (b & (1u64 << iu)
                != 0))) by (bit_vector);
        }
    }
}

pub proof fn lemma_bit8_or(a: u8, b: u8)
    ensures
        forall|i: int| #[trigger] bit8(a | b, i) == (bit8(a, i) || bit8(b, i)),
{
    assert forall|i: int| #[trigger] bit8(a | b, i) == (bit8(a, i) || bit8(b, i)) by {
        if 0 <= i < 8 {
            let iu = i as u8;
            assert((((a | b) & (1u8 << iu)) != 0) == ((a & (1u8 << iu) != 0) || (b & (1u8 << iu)
                != 0))) by (bit_vector);
        }
    }
}

pub proof fn lemma_bit64_and_not(a: u64, b: u64)
    ensures
        forall|i: int| #[trigger] bit64(a & !b, i) == (bit64(a, i) && !bit64(b, i)),
{
    assert forall|i: int| #[trigger] bit64(a & !b, i) == (bit64(a, i) && !bit64(b, i)) by {
        if 0 <= i < 64 {
            let iu = i as u64;
            assert((((a & !b) & (1u64 << iu)) != 0) == ((a & (1u64 << iu) != 0) && !(b & (1u64 << iu)
                != 0))) by (bit_vector);
        }
    }
}

pub proof fn lemma_bit8_and_not(a: u8, b: u8)
    ensures
        forall|i: int| #[trigger] bit8(a & !b, i) == (bit8(a, i) && !bit8(b, i)),
{
    assert forall|i: int| #[trigger] bit8(a & !b, i) == (bit8(a, i) && !bit8(b, i)) by {
        if 0 <= i < 8 {
            let iu = i as u8;
            assert((((a & !b) & (1u8 << iu)) != 0) == ((a & (1u8 << iu) != 0) && !(b & (1u8 << iu)
                != 0))) by (bit_vector);
        }
    }
}

pub proof fn lemma_bit64_not(a: u64)
    ensures
        forall|i: int| 0 <= i < 64 ==> #[trigger] bit64(!a, i) == !bit64(a, i),
{
    assert forall|i: int| 0 <= i < 64 implies #[trigger] bit64(!a, i) == !bit64(a, i) by {
        let iu = i as u64;
        assert(((!a) & (1u64 << iu) != 0) == !(a & (1u64 << iu) != 0)) by (bit_vector)
            requires
                iu < 64,
        ;
    }
}

pub proof fn lemma_bit8_not(a: u8)
    ensures
        forall|i: int| 0 <= i < 8 ==> #[trigger] bit8(!a, i) == !bit8(a, i),
{
    assert forall|i: int| 0 <= i < 8 implies #[trigger] bit8(!a, i) == !bit8(a, i) by {
        let iu = i as u8;
        assert(((!a) & (1u8 << iu) != 0) == !(a & (1u8 << iu) != 0)) by (bit_vector)
            requires
                iu < 8,
        ;
    }
}

pub proof fn lemma_bit64_and(a: u64, b: u64)
    ensures
        forall|i: int| #[trigger] bit64(a & b, i) == (bit64(a, i) && bit64(b, i)),
{
    assert forall|i: int| #[trigger] bit64(a & b, i) == (bit64(a, i) && bit64(b, i)) by {
        if 0 <= i < 64 {
            let iu = i as u64;
            assert((((a & b) & (1u64 << iu)) != 0) == ((a & (1u64 << iu) != 0) && (b & (1u64 << iu)
                != 0))) by (bit_vector);
        }
    }
}

/// The low 8 bits of `b >> k` read the bits of `b` starting at `k`; bits
/// past the top of `b` read as zero.
pub proof fn lemma_bit64_slice8(b: u64, k: u64)
    requires
        k < 64,
    ensures
        forall|i: int|
            #[trigger] bit8((b >> k) as u8, i) == (0 <= i < 8 && k + i < 64 && bit64(b, k + i)),
{
    assert forall|i: int|
        #[trigger] bit8((b >> k) as u8, i) == (0 <= i < 8 && k + i < 64 && bit64(b, k + i)) by {
        if 0 <= i < 8 {
            let iu = i as u64;
            if k + i < 64 {
                let s = (k + i) as u64;
                assert((((b >> k) as u8) & (1u8 << (iu as u8)) != 0) == (b & (1u64 << s) != 0))
                    by (bit_vector)
                    requires
                        iu < 8 && k < 64 && s == k + iu,
                ;
            } else {
                assert(((b >> k) as u8) & (1u8 << (iu as u8)) == 0) by (bit_vector)
                    requires
                        iu < 8 && k < 64 && k + iu >= 64,
                ;
            }
        }
    }
}

/// Masking with `0xff >> (8 - len)` keeps exactly the bits below `len`.
pub proof fn lemma_bit8_trim(l: u8, len: u8)
    requires
        1 <= len <= 8,
    ensures
        forall|i: int| #[trigger] bit8(l & (0xffu8 >> (8 - len) as u8), i) == (bit8(l, i) && i
            < len as int),
{
    assert forall|i: int|
        #[trigger] bit8(l & (0xffu8 >> (8 - len) as u8), i) == (bit8(l, i) && i < len as int) by {
        if 0 <= i < 8 {
            let iu = i as u8;
            assert(((l & (0xffu8 >> (8 - len) as u8)) & (1u8 << iu) != 0) == ((l & (1u8 << iu) != 0)
                && iu < len)) by (bit_vector)
                requires
                    iu < 8 && 1 <= len <= 8,
            ;
        }
    }
}

/// Two 8-bit masks that agree on every bit are equal.
pub proof fn lemma_bit8_ext(a: u8, b: u8)
    requires
        forall|i: int| 0 <= i < 8 ==> bit8(a, i) == bit8(b, i),
    ensures
        a == b,
{
    assert(bit8(a, 0) == bit8(b, 0));
    assert(bit8(a, 1) == bit8(b, 1));
    assert(bit8(a, 2) == bit8(b, 2));
    assert(bit8(a, 3) == bit8(b, 3));
    assert(bit8(a, 4) == bit8(b, 4));
    assert(bit8(a, 5) == bit8(b, 5));
    assert(bit8(a, 6) == bit8(b, 6));
    assert(bit8(a, 7) == bit8(b, 7));
    assert(a == b) by (bit_vector)
        requires
            (a & (1u8 << 0) != 0) == (b & (1u8 << 0) != 0) && (a & (1u8 << 1) != 0) == (b & (1u8
                << 1) != 0) && (a & (1u8 << 2) != 0) == (b & (1u8 << 2) != 0) && (a & (1u8 << 3)
                != 0) == (b & (1u8 << 3) != 0) && (a & (1u8 << 4) != 0) == (b & (1u8 << 4) != 0) && (
            a & (1u8 << 5) != 0) == (b & (1u8 << 5) != 0) && (a & (1u8 << 6) != 0) == (b & (1u8 << 6)
                != 0) && (a & (1u8 << 7) != 0) == (b & (1u8 << 7) != 0),
    ;
}

} // verus!
