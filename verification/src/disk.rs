//! Free-space derivation: available bytes from the filesystem statistics,
//! rounded to whole binary gigabytes for display.

use vstd::arithmetic::div_mod::{lemma_fundamental_div_mod, lemma_mod_division_less_than_divisor,
    lemma_multiply_divide_lt};
use vstd::prelude::*;

verus! {

/// Bytes in one binary gigabyte.
pub const GIB: u64 = 1024 * 1024 * 1024;

/// Available bytes: available block count times block size.
pub fn free_space_bytes(bavail: u64, bsize: u64) -> (r: u64)
    requires
        bavail * bsize <= u64::MAX,
    ensures
        r == bavail * bsize,
{
    bavail * bsize
}

/// `bytes` in whole binary gigabytes, rounded to nearest with halves
/// rounded up.
pub open spec fn spec_gib_rounded(bytes: nat) -> nat {
    if bytes % (GIB as nat) >= (GIB as nat) / 2 {
        bytes / (GIB as nat) + 1
    } else {
        bytes / (GIB as nat)
    }
}

/// The rounded gigabyte count is the integer nearest `bytes / GIB`:
/// it differs from the exact quantity by at most half a gigabyte, with
/// the boundary itself rounding up.
pub proof fn lemma_gib_rounded_is_nearest(bytes: nat)
    ensures
        spec_gib_rounded(bytes) * GIB <= bytes + GIB / 2,
        bytes + GIB / 2 < spec_gib_rounded(bytes) * GIB + GIB,
{
    let g = GIB as int;
    let q = bytes as int / g;
    let r = bytes as int % g;
    lemma_fundamental_div_mod(bytes as int, g);
    lemma_mod_division_less_than_divisor(bytes as int, g);
    assert(bytes == q * g + r);
    assert(bytes / (GIB as nat) == q);
    assert(bytes % (GIB as nat) == r);
    assert((q + 1) * g == q * g + g) by (nonlinear_arith);
    if r >= g / 2 {
        assert(spec_gib_rounded(bytes) == q + 1);
        assert(spec_gib_rounded(bytes) * g == (q + 1) * g);
    } else {
        assert(spec_gib_rounded(bytes) == q);
        assert(spec_gib_rounded(bytes) * g == q * g) by (nonlinear_arith)
            requires
                spec_gib_rounded(bytes) == q,
        ;
    }
}

/// Rounds `bytes` to whole binary gigabytes, halves up.
pub fn gib_rounded(bytes: u64) -> (r: u64)
    ensures
        r == spec_gib_rounded(bytes as nat),
{
    let q = bytes / GIB;
    let rem = bytes % GIB;
    if rem >= GIB / 2 {
        proof {
            lemma_multiply_divide_lt(bytes as int, GIB as int, 0x4_0000_0000);
        }
        q + 1
    } else {
        q
    }
}

} // verus!
