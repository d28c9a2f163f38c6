//! Fixed-point scalar arithmetic.
//!
//! Every scalar of the simulation is an `i64` holding a real quantity
//! times [`SCALE`], so `SCALE` itself stands for 1.0. Multiplication and
//! division of such scalars truncate toward zero, and the functions here
//! state that rounding exactly, over mathematical integers.

use vstd::arithmetic::div_mod::{
    lemma_fundamental_div_mod, lemma_fundamental_div_mod_converse_mod, lemma_div_is_ordered,
    lemma_div_multiples_vanish, lemma_div_pos_is_pos, lemma_mod_bound,
};
use vstd::math::abs;
use vstd::prelude::*;

verus! {

/// The fixed-point unit: this many raw steps stand for 1.0.
pub const SCALE: i64 = 1024;

/// Largest window span (in fixed-point units) the simulation accepts.
pub const MAX_SPAN: i64 = 0x100_0000_0000;

/// Largest agent speed (fixed-point units per second) accepted.
pub const MAX_SPEED: i64 = 0x4000_0000;

/// Largest magnitude of a per-rule strength weight (fixed-point).
pub const MAX_STRENGTH: i64 = 0x10_0000;

/// Largest frame time (fixed-point seconds) accepted.
pub const MAX_DT: i64 = 0x10_0000;

/// Largest population a step may scan.
pub const MAX_POP: usize = 0x10_0000;

/// Division truncating toward zero (the rounding of all fixed-point
/// arithmetic here), defined for positive divisors.
pub open spec fn div_trunc(a: int, b: int) -> int {
    if a >= 0 {
        a / b
    } else {
        -((-a) / b)
    }
}

/// The product of two fixed-point scalars, rescaled to fixed point.
pub open spec fn fp_mul_spec(a: int, b: int) -> int {
    div_trunc(a * b, SCALE as int)
}

/// The integer square root, rounded down.
pub open spec fn sqrt_floor(n: nat) -> nat
    decreases n,
{
    if n == 0 {
        0
    } else {
        let r = sqrt_floor((n - 1) as nat);
        if (r + 1) * (r + 1) <= n {
            r + 1
        } else {
            r
        }
    }
}

/// `sqrt_floor(n)` is the unique integer whose square is at most `n`
/// while the next square is beyond `n`.
pub proof fn lemma_sqrt_floor_bounds(n: nat)
    ensures
        sqrt_floor(n) * sqrt_floor(n) <= n,
        n < (sqrt_floor(n) + 1) * (sqrt_floor(n) + 1),
    decreases n,
{
    if n > 0 {
        lemma_sqrt_floor_bounds((n - 1) as nat);
        let r = sqrt_floor((n - 1) as nat);
        assert(r * r <= n - 1);
        assert(n - 1 < (r + 1) * (r + 1));
        if (r + 1) * (r + 1) <= n {
            assert(sqrt_floor(n) == r + 1);
            assert((r + 1) * (r + 1) + 1 <= (r + 2) * (r + 2)) by (nonlinear_arith);
            assert(n < (r + 2) * (r + 2));
        } else {
            assert(sqrt_floor(n) == r);
            assert(r * r <= n);
            assert(n < (r + 1) * (r + 1));
        }
    } else {
        assert(sqrt_floor(n) * sqrt_floor(n) <= n) by (nonlinear_arith)
            requires
                n == 0,
                sqrt_floor(n) == 0,
        ;
        assert(n < (sqrt_floor(n) + 1) * (sqrt_floor(n) + 1)) by (nonlinear_arith)
            requires
                n == 0,
                sqrt_floor(n) == 0,
        ;
    }
}

/// Any integer bracketed the same way as `sqrt_floor(n)` equals it.
pub proof fn lemma_sqrt_floor_unique(n: nat, r: nat)
    requires
        r * r <= n,
        n < (r + 1) * (r + 1),
    ensures
        r == sqrt_floor(n),
{
    lemma_sqrt_floor_bounds(n);
    let s = sqrt_floor(n);
    if r < s {
        assert((r + 1) * (r + 1) <= s * s) by (nonlinear_arith)
            requires
                r + 1 <= s,
        ;
    }
    if s < r {
        assert((s + 1) * (s + 1) <= r * r) by (nonlinear_arith)
            requires
                s + 1 <= r,
        ;
    }
}

/// Monotonicity, lower side: any square below `n` bounds the root from below.
pub proof fn lemma_sqrt_floor_at_least(n: nat, s: nat)
    requires
        s * s <= n,
    ensures
        s <= sqrt_floor(n),
{
    lemma_sqrt_floor_bounds(n);
    let m = sqrt_floor(n);
    if m < s {
        assert((m + 1) * (m + 1) <= s * s) by (nonlinear_arith)
            requires
                m + 1 <= s,
        ;
    }
}

/// Monotonicity, upper side: a square beyond `n` bounds the root from above.
pub proof fn lemma_sqrt_floor_below(n: nat, b: nat)
    requires
        n < b * b,
    ensures
        sqrt_floor(n) < b,
{
    lemma_sqrt_floor_bounds(n);
    let m = sqrt_floor(n);
    if b <= m {
        assert(b * b <= m * m) by (nonlinear_arith)
            requires
                b <= m,
        ;
    }
}

/// A truncating quotient is no larger in magnitude than `k` whenever the
/// dividend is within `b * k`.
pub proof fn lemma_div_trunc_bound(a: int, b: int, k: int)
    requires
        b >= 1,
        k >= 0,
        abs(a) <= b * k,
    ensures
        abs(div_trunc(a, b)) <= k,
{
    if a >= 0 {
        lemma_div_pos_is_pos(a, b);
        lemma_div_is_ordered(a, b * k, b);
        lemma_div_multiples_vanish(k, b);
    } else {
        lemma_div_pos_is_pos(-a, b);
        lemma_div_is_ordered(-a, b * k, b);
        lemma_div_multiples_vanish(k, b);
    }
}

/// The absolute value of an `i64`, exact for the whole range.
pub fn iabs(a: i64) -> (r: u64)
    ensures
        r as int == abs(a as int),
{
    if a >= 0 {
        a as u64
    } else {
        (-(a as i128)) as u64
    }
}

/// Division truncating toward zero on machine integers.
pub fn div_trunc_i64(a: i64, b: i64) -> (r: i64)
    requires
        b >= 1,
        i64::MIN < a,
    ensures
        r as int == div_trunc(a as int, b as int),
        a >= 0 ==> 0 <= r <= a,
        a < 0 ==> a <= r <= 0,
{
    if a >= 0 {
        let q: u64 = (a as u64) / (b as u64);
        assert(q <= a) by {
            lemma_div_is_ordered_by_value(a as int, b as int);
        }
        q as i64
    } else {
        let na: u64 = iabs(a);
        let q: u64 = na / (b as u64);
        assert(q <= na) by {
            lemma_div_pos_is_pos(na as int, b as int);
            lemma_div_is_ordered_by_value(na as int, b as int);
        }
        -(q as i64)
    }
}

/// A quotient by a positive divisor never exceeds the dividend.
proof fn lemma_div_is_ordered_by_value(a: int, b: int)
    requires
        a >= 0,
        b >= 1,
    ensures
        0 <= a / b <= a,
{
    lemma_div_pos_is_pos(a, b);
    assert(a / b <= a) by (nonlinear_arith)
        requires
            a >= 0,
            b >= 1,
    ;
}

/// The fixed-point product, truncating toward zero.
pub fn fp_mul(a: i64, b: i64) -> (r: i64)
    requires
        -0x8000_0000 <= a <= 0x8000_0000,
        -0x8000_0000 <= b <= 0x8000_0000,
    ensures
        r as int == fp_mul_spec(a as int, b as int),
{
    proof {
        assert(-0x4000_0000_0000_0000 <= a as int * b as int <= 0x4000_0000_0000_0000)
            by (nonlinear_arith)
            requires
                -0x8000_0000 <= a <= 0x8000_0000,
                -0x8000_0000 <= b <= 0x8000_0000,
        ;
    }
    let p: i64 = a * b;
    div_trunc_i64(p, SCALE)
}

/// The integer square root of a 128-bit value, by bisection.
pub fn isqrt(n: u128) -> (r: u64)
    ensures
        r as nat == sqrt_floor(n as nat),
{
    let mut lo: u128 = 0;
    let mut hi: u128 = 0x1_0000_0000_0000_0000;
    proof {
        assert(n < 0x1_0000_0000_0000_0000 * 0x1_0000_0000_0000_0000);
    }
    while lo + 1 < hi
        invariant
            lo < hi,
            hi <= 0x1_0000_0000_0000_0000,
            lo as int * lo as int <= n as int,
            (n as int) < hi as int * hi as int,
        decreases hi - lo,
    {
        let mid: u128 = lo + (hi - lo) / 2;
        proof {
            assert(lo < mid < hi);
            assert(mid * mid < 0x1_0000_0000_0000_0000 * 0x1_0000_0000_0000_0000)
                by (nonlinear_arith)
                requires
                    mid < 0x1_0000_0000_0000_0000,
            ;
        }
        let sq: u128 = mid * mid;
        if sq <= n {
            lo = mid;
        } else {
            hi = mid;
        }
    }
    proof {
        assert(hi == lo + 1);
        lemma_sqrt_floor_unique(n as nat, lo as nat);
    }
    lo as u64
}

/// The Euclidean remainder: wraps a (possibly negative) coordinate into
/// `[0, span)`.
pub fn wrap_coord(p: i64, span: i64) -> (r: i64)
    requires
        1 <= span,
        -0x4000_0000_0000_0000 <= p <= 0x4000_0000_0000_0000,
    ensures
        r as int == (p as int) % (span as int),
        0 <= r < span,
{
    proof {
        lemma_mod_bound(p as int, span as int);
    }
    if p >= 0 {
        let r: u64 = (p as u64) % (span as u64);
        r as i64
    } else {
        let k: u64 = iabs(p);
        let m: u64 = k % (span as u64);
        proof {
            lemma_fundamental_div_mod(k as int, span as int);
            lemma_mod_bound(k as int, span as int);
            let d = k as int / span as int;
            if m == 0 {
                assert(p as int == (-d) * (span as int) + 0) by (nonlinear_arith)
                    requires
                        k as int == d * (span as int),
                        p as int == -(k as int),
                ;
                lemma_fundamental_div_mod_converse_mod(p as int, span as int, -d, 0);
            } else {
                assert(p as int == (-d - 1) * (span as int) + (span as int - m as int))
                    by (nonlinear_arith)
                    requires
                        k as int == d * (span as int) + m as int,
                        p as int == -(k as int),
                ;
                lemma_fundamental_div_mod_converse_mod(
                    p as int,
                    span as int,
                    -d - 1,
                    span as int - m as int,
                );
            }
        }
        if m == 0 {
            0
        } else {
            span - (m as i64)
        }
    }
}

} // verus!

