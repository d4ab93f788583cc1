//! Rounding a position up to a multiple of an alignment.

use vstd::arithmetic::div_mod;
use vstd::prelude::*;

verus! {

/// The least multiple of `align` that is not below `v`; `v` itself when `align` is 0 or 1.
pub open spec fn aligned(v: int, align: int) -> int {
    if align <= 1 || v % align == 0 {
        v
    } else {
        v + (align - v % align)
    }
}

/// `aligned` is what its name says: the first multiple of `align` at or above `v`.
pub proof fn law_aligned_is_least_multiple(v: int, align: int)
    requires
        0 <= v,
        1 <= align,
    ensures
        v <= aligned(v, align) < v + align,
        aligned(v, align) % align == 0,
        forall|m: int| v <= m && #[trigger] (m % align) == 0 ==> aligned(v, align) <= m,
{
    let a = aligned(v, align);
    div_mod::lemma_fundamental_div_mod(v, align);
    if align == 1 {
    } else if v % align != 0 {
        assert(a == align * (v / align + 1)) by (nonlinear_arith)
            requires
                v == align * (v / align) + v % align,
                a == v + (align - v % align),
        ;
        div_mod::lemma_mod_multiples_basic(v / align + 1, align);
        assert(align * (v / align + 1) == (v / align + 1) * align) by (nonlinear_arith);
    }
    assert forall|m: int| v <= m && #[trigger] (m % align) == 0 implies a <= m by {
        div_mod::lemma_fundamental_div_mod(m, align);
        if align > 1 && v % align != 0 && m < a {
            let q = v / align;
            let p = m / align;
            assert(false) by (nonlinear_arith)
                requires
                    m == align * p,
                    v == align * q + v % align,
                    0 < v % align < align,
                    v <= m,
                    m < align * (q + 1),
                    align > 1,
            ;
        }
    }
}

/// Rounds `v` up to a multiple of `align`, or `None` when the multiple is beyond `u64`.
pub fn align_up(v: u64, align: u64) -> (r: Option<u64>)
    ensures
        match r {
            Some(a) => a == aligned(v as int, align as int),
            None => aligned(v as int, align as int) > u64::MAX,
        },
{
    if align <= 1 {
        return Some(v);
    }
    let rem: u64 = v % align;
    if rem == 0 {
        Some(v)
    } else {
        v.checked_add(align - rem)
    }
}

/// A position rounded up is a multiple of the alignment at or above it, less than one
/// alignment further on; only one beyond `u64` is not told.
pub proof fn law_rounding_reaches_the_next_multiple(v: u64, align: u64, r: Option<u64>)
    requires
        1 <= align,
        call_ensures(align_up, (v, align), r),
    ensures
        match r {
            Some(a) => v <= a < v + align && a as int % align as int == 0,
            None => forall|m: int| v <= m <= u64::MAX ==> #[trigger] (m % align as int) != 0,
        },
{
    law_aligned_is_least_multiple(v as int, align as int);
}

} // verus!
