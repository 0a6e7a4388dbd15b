//! Fixed-point arithmetic: all model, light and texture coordinates carry 16
//! fractional bits, so one whole unit is [`FP`].  The helpers here give the
//! renderer exact integer analogues of the few real-number operations it
//! needs: truncating division and the floor of a square root.

use vstd::prelude::*;

verus! {

/// One whole unit in fixed-point: values carry 16 fractional bits.
pub const FP: i64 = 65536;

/// Largest magnitude accepted for a model, light or texture coordinate, in
/// fixed-point units (4096 whole units).  Keeping every coordinate inside
/// this range lets every intermediate product of the pipeline fit in 128-bit
/// integers.
pub const COORD_LIMIT: i64 = 268435456;

/// Magnitude bound under which `div_trunc_i128` accepts its operands
/// (`2^126`).
pub const DIV_LIMIT: i128 = 85070591730234615865843651857942052864;

pub open spec fn abs_int(a: int) -> int {
    if a >= 0 {
        a
    } else {
        -a
    }
}

/// Division truncating toward zero, the rounding that `as`-casting a real
/// quotient to an integer performs.
pub open spec fn trunc_div(a: int, b: int) -> int {
    if (a >= 0) == (b > 0) {
        abs_int(a) / abs_int(b)
    } else {
        -(abs_int(a) / abs_int(b))
    }
}

/// Quotient of two 128-bit integers, truncated toward zero.
pub fn div_trunc_i128(a: i128, b: i128) -> (r: i128)
    requires
        b != 0,
        -DIV_LIMIT < a < DIV_LIMIT,
        -DIV_LIMIT < b < DIV_LIMIT,
    ensures
        r as int == trunc_div(a as int, b as int),
        abs_int(r as int) <= abs_int(a as int),
{
    let na: u128 = if a < 0 {
        (-a) as u128
    } else {
        a as u128
    };
    let nb: u128 = if b < 0 {
        (-b) as u128
    } else {
        b as u128
    };
    let q: u128 = na / nb;
    if (a >= 0) == (b > 0) {
        q as i128
    } else {
        -(q as i128)
    }
}

/// A truncating quotient is bounded by `bound` whenever the dividend is
/// bounded by `bound` times the divisor.
pub proof fn lemma_trunc_div_bound(a: int, b: int, bound: int)
    requires
        b != 0,
        0 <= bound,
        abs_int(a) <= abs_int(b) * bound,
    ensures
        abs_int(trunc_div(a, b)) <= bound,
{
    let aa = abs_int(a);
    let ab = abs_int(b);
    vstd::arithmetic::div_mod::lemma_div_is_ordered(aa, ab * bound, ab);
    vstd::arithmetic::div_mod::lemma_div_multiples_vanish(bound, ab);
    assert(ab * bound == bound * ab) by (nonlinear_arith);
    assert(aa / ab <= bound);
}

/// Mathematical floor of the square root of `n`.
pub open spec fn sqrt_floor(n: nat) -> nat
    decreases n,
{
    if n == 0 {
        0
    } else {
        let p = sqrt_floor((n - 1) as nat);
        if (p + 1) * (p + 1) <= n {
            p + 1
        } else {
            p
        }
    }
}

/// `sqrt_floor(n)` is the unique `r` with `r * r <= n < (r + 1) * (r + 1)`.
pub proof fn lemma_sqrt_floor(n: nat)
    ensures
        sqrt_floor(n) * sqrt_floor(n) <= n,
        n < (sqrt_floor(n) + 1) * (sqrt_floor(n) + 1),
    decreases n,
{
    if n > 0 {
        lemma_sqrt_floor((n - 1) as nat);
        let p = sqrt_floor((n - 1) as nat);
        assert(p * p <= n - 1);
        assert(n - 1 < (p + 1) * (p + 1));
        if (p + 1) * (p + 1) <= n {
            assert(sqrt_floor(n) == p + 1);
            assert(n <= (p + 1) * (p + 1));
            assert((p + 1) * (p + 1) < (p + 2) * (p + 2)) by (nonlinear_arith)
                requires
                    p >= 0,
            ;
            assert(n < (p + 2) * (p + 2));
            assert(sqrt_floor(n) * sqrt_floor(n) <= n);
            assert(n < (sqrt_floor(n) + 1) * (sqrt_floor(n) + 1)) by (nonlinear_arith)
                requires
                    n < (p + 2) * (p + 2),
                    sqrt_floor(n) == p + 1,
            ;
        } else {
            assert(sqrt_floor(n) == p);
            assert(sqrt_floor(n) * sqrt_floor(n) <= n);
            assert(n < (sqrt_floor(n) + 1) * (sqrt_floor(n) + 1));
        }
    } else {
        assert(sqrt_floor(n) == 0);
        assert(n < (sqrt_floor(n) + 1) * (sqrt_floor(n) + 1)) by (nonlinear_arith)
            requires
                n == 0,
                sqrt_floor(n) == 0,
        ;
    }
}

/// A witness satisfying the square-root characterization is `sqrt_floor`.
pub proof fn lemma_sqrt_floor_converse(n: nat, r: nat)
    requires
        r * r <= n,
        n < (r + 1) * (r + 1),
    ensures
        r == sqrt_floor(n),
{
    lemma_sqrt_floor(n);
    let s = sqrt_floor(n);
    if r < s {
        assert((r + 1) * (r + 1) <= s * s) by (nonlinear_arith)
            requires
                r + 1 <= s,
        ;
    }
    if s < r {
        assert((s + 1) * (s + 1) <= r * r) by (nonlinear_arith)
            requires
                s + 1 <= r,
        ;
    }
}

/// `sqrt_floor` is monotone.
pub proof fn lemma_sqrt_floor_mono(a: nat, b: nat)
    requires
        a <= b,
    ensures
        sqrt_floor(a) <= sqrt_floor(b),
{
    lemma_sqrt_floor(a);
    lemma_sqrt_floor(b);
    let sa = sqrt_floor(a);
    let sb = sqrt_floor(b);
    if sb < sa {
        assert((sb + 1) * (sb + 1) <= sa * sa) by (nonlinear_arith)
            requires
                sb + 1 <= sa,
        ;
    }
}

/// Floor of the square root of a 128-bit integer, by binary search.
pub fn isqrt_u128(n: u128) -> (r: u128)
    requires
        n < 85070591730234615865843651857942052864,  // 2^126
    ensures
        r == sqrt_floor(n as nat),
        r * r <= n,
{
    let mut lo: u128 = 0;
    let mut hi: u128 = 9223372036854775808;  // 2^63
    proof {
        assert(9223372036854775808 * 9223372036854775808
            == 85070591730234615865843651857942052864int) by (nonlinear_arith);
    }
    while lo + 1 < hi
        invariant
            lo < hi,
            hi <= 9223372036854775808,
            lo * lo <= n,
            (n as int) < (hi as int) * (hi as int),
        decreases hi - lo,
    {
        let mid = lo + (hi - lo) / 2;
        proof {
            assert((mid as int) * (mid as int) <= 9223372036854775808int
                * 9223372036854775808int) by (nonlinear_arith)
                requires
                    0 <= (mid as int) <= 9223372036854775808int,
            ;
        }
        if mid * mid <= n {
            lo = mid;
        } else {
            hi = mid;
        }
    }
    proof {
        lemma_sqrt_floor_converse(n as nat, lo as nat);
    }
    lo
}

} // verus!
