//! Plane vectors in fixed-point coordinates.
//!
//! A [`Vec2`] holds two fixed-point scalars (see [`crate::fixed`]). The
//! one nontrivial operation is [`Vec2::normalize`]: it rescales a vector
//! toward unit length using the integer square root, and maps the zero
//! vector to itself rather than failing, which is how the flocking rules
//! signal "no influence". The components are scaled up by [`SCALE`]
//! before the root is taken, so the divisor is never coarser than one
//! fixed-point step: every nonzero vector, however short, normalizes to
//! within a few rounding steps of unit length
//! (see [`lemma_normalize_near_unit`]).

use crate::fixed::{
    div_trunc, fp_mul, fp_mul_spec, iabs, isqrt, lemma_sqrt_floor_at_least,
    lemma_sqrt_floor_bounds, sqrt_floor, SCALE,
};
use vstd::arithmetic::div_mod::{
    lemma_div_is_ordered, lemma_div_multiples_vanish, lemma_div_pos_is_pos,
    lemma_fundamental_div_mod, lemma_mod_bound,
};
use vstd::arithmetic::mul::{
    lemma_mul_inequality, lemma_mul_is_commutative, lemma_mul_nonnegative,
    lemma_mul_unary_negation,
};
use vstd::prelude::*;

verus! {

/// Largest component magnitude [`Vec2::normalize`] accepts; every vector
/// the simulation ever normalizes stays well inside it.
pub const VEC_LIMIT: i64 = 0x200_0000_0000;

/// A 2D vector of fixed-point scalars.
#[derive(Clone, Copy, PartialEq, Eq, Structural, Debug)]
pub struct Vec2 {
    pub x: i64,
    pub y: i64,
}

/// The squared Euclidean norm of the vector `(x, y)`.
pub open spec fn norm_sq(x: int, y: int) -> int {
    x * x + y * y
}

/// One component of normalization: `c` rescaled by `SCALE / m`,
/// truncating toward zero. `c` is the component already scaled up by
/// `SCALE`, and `m` the floored norm of the scaled vector.
pub open spec fn scale_div(c: int, m: int) -> int {
    div_trunc(c * SCALE, m)
}

/// What normalization returns: the zero vector unchanged; any other
/// vector has both components scaled up by `SCALE`, and is then divided
/// by the floor of the scaled vector's Euclidean norm and rescaled to
/// fixed point. Scaling up first keeps the rounding of the root below
/// one part in `SCALE` for every nonzero input.
pub open spec fn spec_normalize(x: int, y: int) -> (int, int) {
    if x == 0 && y == 0 {
        (0, 0)
    } else {
        let m = sqrt_floor(norm_sq(x * SCALE, y * SCALE) as nat) as int;
        (scale_div(x * SCALE, m), scale_div(y * SCALE, m))
    }
}

impl Vec2 {
    /// All components within `k` in magnitude.
    pub open spec fn bounded(self, k: int) -> bool {
        &&& -k <= self.x <= k
        &&& -k <= self.y <= k
    }

    /// The zero vector, the rules' "no influence" value.
    pub fn zero() -> (r: Vec2)
        ensures
            r.x == 0,
            r.y == 0,
    {
        Vec2 { x: 0, y: 0 }
    }

    /// Componentwise sum.
    pub fn add(self, other: Vec2) -> (r: Vec2)
        requires
            i64::MIN <= self.x + other.x <= i64::MAX,
            i64::MIN <= self.y + other.y <= i64::MAX,
        ensures
            r.x == self.x + other.x,
            r.y == self.y + other.y,
    {
        Vec2 { x: self.x + other.x, y: self.y + other.y }
    }

    /// Componentwise difference.
    pub fn sub(self, other: Vec2) -> (r: Vec2)
        requires
            i64::MIN <= self.x - other.x <= i64::MAX,
            i64::MIN <= self.y - other.y <= i64::MAX,
        ensures
            r.x == self.x - other.x,
            r.y == self.y - other.y,
    {
        Vec2 { x: self.x - other.x, y: self.y - other.y }
    }

    /// Both components scaled by the fixed-point factor `w`.
    pub fn scale(self, w: i64) -> (r: Vec2)
        requires
            -0x8000_0000 <= w <= 0x8000_0000,
            self.bounded(0x8000_0000),
        ensures
            r.x == fp_mul_spec(w as int, self.x as int),
            r.y == fp_mul_spec(w as int, self.y as int),
    {
        Vec2 { x: fp_mul(w, self.x), y: fp_mul(w, self.y) }
    }

    /// Rescale toward unit length. The zero vector stays zero; every
    /// other vector lands within a few rounding steps of unit length.
    pub fn normalize(self) -> (r: Vec2)
        requires
            self.bounded(VEC_LIMIT as int),
        ensures
            r.x == spec_normalize(self.x as int, self.y as int).0,
            r.y == spec_normalize(self.x as int, self.y as int).1,
            r.bounded(SCALE as int),
            (r.x == 0 && r.y == 0) <==> (self.x == 0 && self.y == 0),
            (self.x != 0 || self.y != 0) ==> SCALE * SCALE - 4 * SCALE - 1 <= norm_sq(
                r.x as int,
                r.y as int,
            ) <= SCALE * SCALE + 2 * SCALE,
    {
        let ax: u64 = iabs(self.x);
        let ay: u64 = iabs(self.y);
        let xs: u64 = ax * (SCALE as u64);
        let ys: u64 = ay * (SCALE as u64);
        proof {
            assert(xs as int * xs as int == (self.x as int * SCALE) * (self.x as int * SCALE)
                && ys as int * ys as int == (self.y as int * SCALE) * (self.y as int * SCALE)
                && (xs as int == self.x as int * SCALE || xs as int == -(self.x as int * SCALE))
                && (ys as int == self.y as int * SCALE || ys as int == -(self.y as int * SCALE))
                && xs as int * xs as int + ys as int * ys as int
                    <= 0x8_0000_0000_0000 * 0x8_0000_0000_0000 + 0x8_0000_0000_0000
                    * 0x8_0000_0000_0000) by (nonlinear_arith)
                requires
                    xs as int == ax as int * SCALE,
                    ys as int == ay as int * SCALE,
                    ax as int == self.x as int || ax as int == -(self.x as int),
                    ay as int == self.y as int || ay as int == -(self.y as int),
                    0 <= ax as int <= 0x200_0000_0000,
                    0 <= ay as int <= 0x200_0000_0000,
                    0 < SCALE <= 1024,
            ;
        }
        let n: u128 = (xs as u128) * (xs as u128) + (ys as u128) * (ys as u128);
        assert(n as int == norm_sq(self.x as int * SCALE, self.y as int * SCALE));
        if n == 0 {
            proof {
                assert(xs == 0 && ys == 0) by (nonlinear_arith)
                    requires
                        xs as int * xs as int + ys as int * ys as int == 0,
                ;
            }
            Vec2 { x: 0, y: 0 }
        } else {
            proof {
                assert(xs >= 1 || ys >= 1) by (nonlinear_arith)
                    requires
                        xs as int * xs as int + ys as int * ys as int >= 1,
                        xs >= 0,
                        ys >= 0,
                ;
                lemma_normalize_near_unit(self.x as int, self.y as int);
            }
            let m: u64 = isqrt(n);
            proof {
                assert(xs as int * xs as int <= n as int && ys as int * ys as int <= n as int)
                    by (nonlinear_arith)
                    requires
                        n as int == xs as int * xs as int + ys as int * ys as int,
                ;
                lemma_sqrt_floor_at_least(n as nat, 1);
                lemma_sqrt_floor_at_least(n as nat, xs as nat);
                lemma_sqrt_floor_at_least(n as nat, ys as nat);
            }
            let px: u64 = (xs * (SCALE as u64)) / m;
            let py: u64 = (ys * (SCALE as u64)) / m;
            proof {
                lemma_component_at_most_scale(xs as int, m as int);
                lemma_component_at_most_scale(ys as int, m as int);
                lemma_scale_div_signs(self.x as int * SCALE, xs as int, m as int);
                lemma_scale_div_signs(self.y as int * SCALE, ys as int, m as int);
                assert(((self.x as int) >= 0 ==> self.x as int * SCALE >= 0) && ((self.x as int)
                    < 0 ==> self.x as int * SCALE < 0) && ((self.y as int) >= 0 ==> self.y as int
                    * SCALE >= 0) && ((self.y as int) < 0 ==> self.y as int * SCALE < 0))
                    by (nonlinear_arith)
                    requires
                        1 <= SCALE,
                ;
            }
            let rx: i64 = if self.x >= 0 {
                px as i64
            } else {
                -(px as i64)
            };
            let ry: i64 = if self.y >= 0 {
                py as i64
            } else {
                -(py as i64)
            };
            proof {
                if rx == 0 && ry == 0 {
                    assert(norm_sq(rx as int, ry as int) == 0) by (nonlinear_arith)
                        requires
                            rx as int == 0,
                            ry as int == 0,
                    ;
                }
            }
            Vec2 { x: rx, y: ry }
        }
    }
}

/// For `c <= m`, the rescaled component `(c * SCALE) / m` stays within
/// `SCALE`.
proof fn lemma_component_at_most_scale(c: int, m: int)
    requires
        0 <= c <= m,
        1 <= m,
    ensures
        0 <= (c * SCALE) / m <= SCALE,
{
    lemma_mul_inequality(c, m, SCALE as int);
    lemma_div_pos_is_pos(c * SCALE, m);
    lemma_div_is_ordered(c * SCALE, m * SCALE, m);
    lemma_mul_is_commutative(m, SCALE as int);
    lemma_div_multiples_vanish(SCALE as int, m);
}

/// Law: normalization lands next to unit length. For every nonzero
/// vector, the squared norm of its normalization differs from
/// `SCALE * SCALE` by at most a few rounding steps: it lies in
/// `[SCALE*SCALE - 4*SCALE - 1, SCALE*SCALE + 2*SCALE]`.
/// (The zero vector maps to zero; exact unit length is not attainable in
/// fixed point, and this brackets the rounding error.)
pub proof fn lemma_normalize_near_unit(x: int, y: int)
    requires
        x != 0 || y != 0,
    ensures
        ({
            let (ux, uy) = spec_normalize(x, y);
            SCALE * SCALE - 4 * SCALE - 1 <= norm_sq(ux, uy) <= SCALE * SCALE + 2 * SCALE
        }),
{
    let s = SCALE as int;
    let ax = if x >= 0 { x } else { -x };
    let ay = if y >= 0 { y } else { -y };
    let cx = ax * s;
    let cy = ay * s;
    assert(cx * cx == (x * SCALE) * (x * SCALE) && cy * cy == (y * SCALE) * (y * SCALE)
        && (cx == x * SCALE || cx == -(x * SCALE)) && (cy == y * SCALE || cy == -(y * SCALE))
        && 0 <= cx && 0 <= cy && SCALE * SCALE <= cx * cx + cy * cy) by (nonlinear_arith)
        requires
            cx == ax * SCALE,
            cy == ay * SCALE,
            ax == x || ax == -x,
            ay == y || ay == -y,
            0 <= ax,
            0 <= ay,
            1 <= ax || 1 <= ay,
            1 <= SCALE,
    ;
    let n = norm_sq(x * SCALE, y * SCALE);
    assert(n == cx * cx + cy * cy);
    let m = sqrt_floor(n as nat) as int;
    lemma_sqrt_floor_bounds(n as nat);
    assert(m * m <= n < (m + 1) * (m + 1));
    lemma_sqrt_floor_at_least(n as nat, SCALE as nat);
    assert(s <= m);
    lemma_scale_div_signs(x * SCALE, cx, m);
    lemma_scale_div_signs(y * SCALE, cy, m);
    let bp = (cx * SCALE) / m;
    let bq = (cy * SCALE) / m;
    let (ux, uy) = spec_normalize(x, y);
    assert((x >= 0 ==> x * SCALE >= 0) && (x < 0 ==> x * SCALE < 0) && (y >= 0 ==> y * SCALE >= 0)
        && (y < 0 ==> y * SCALE < 0)) by (nonlinear_arith)
        requires
            1 <= SCALE,
    ;
    assert(ux == bp || ux == -bp);
    assert(uy == bq || uy == -bq);
    assert(ux * ux == bp * bp && uy * uy == bq * bq) by (nonlinear_arith)
        requires
            ux == bp || ux == -bp,
            uy == bq || uy == -bq,
    ;
    assert(cx * cx <= n && cy * cy <= n) by (nonlinear_arith)
        requires
            n == cx * cx + cy * cy,
    ;
    lemma_sqrt_floor_at_least(n as nat, cx as nat);
    lemma_sqrt_floor_at_least(n as nat, cy as nat);
    lemma_component_at_most_scale(cx, m);
    lemma_component_at_most_scale(cy, m);
    lemma_fundamental_div_mod(cx * s, m);
    lemma_fundamental_div_mod(cy * s, m);
    lemma_mod_bound(cx * s, m);
    lemma_mod_bound(cy * s, m);
    assert(m * bp <= cx * s && cx * s < m * (bp + 1)) by (nonlinear_arith)
        requires
            cx * s == m * bp + (cx * s) % m,
            0 <= (cx * s) % m < m,
    ;
    assert(m * bq <= cy * s && cy * s < m * (bq + 1)) by (nonlinear_arith)
        requires
            cy * s == m * bq + (cy * s) % m,
            0 <= (cy * s) % m < m,
    ;
    lemma_near_unit_upper(cx, cy, m, s, bp, bq, n);
    lemma_near_unit_lower(cx, cy, m, s, bp, bq, n);
}

/// Upper half of the near-unit bracket, over plain integers.
proof fn lemma_near_unit_upper(cx: int, cy: int, m: int, s: int, bp: int, bq: int, n: int)
    requires
        1 <= s <= m,
        n == cx * cx + cy * cy,
        0 <= cx,
        0 <= cy,
        m * m <= n,
        n < (m + 1) * (m + 1),
        0 <= bp,
        0 <= bq,
        m * bp <= cx * s,
        m * bq <= cy * s,
    ensures
        bp * bp + bq * bq <= s * s + 2 * s,
{
    lemma_mul_nonnegative(m, bp);
    lemma_mul_nonnegative(m, bq);
    assert((m * bp) * (m * bp) <= (cx * s) * (cx * s)) by (nonlinear_arith)
        requires
            0 <= m * bp,
            m * bp <= cx * s,
    ;
    assert((m * bq) * (m * bq) <= (cy * s) * (cy * s)) by (nonlinear_arith)
        requires
            0 <= m * bq,
            m * bq <= cy * s,
    ;
    assert((m * bp) * (m * bp) == (m * m) * (bp * bp)) by (nonlinear_arith);
    assert((m * bq) * (m * bq) == (m * m) * (bq * bq)) by (nonlinear_arith);
    assert((cx * s) * (cx * s) == (s * s) * (cx * cx)) by (nonlinear_arith);
    assert((cy * s) * (cy * s) == (s * s) * (cy * cy)) by (nonlinear_arith);
    assert((m * m) * (bp * bp) + (m * m) * (bq * bq) == (m * m) * (bp * bp + bq * bq))
        by (nonlinear_arith);
    assert((s * s) * (cx * cx) + (s * s) * (cy * cy) == (s * s) * n) by (nonlinear_arith)
        requires
            n == cx * cx + cy * cy,
    ;
    assert((m * m) * (bp * bp + bq * bq) <= (s * s) * n);
    assert(n <= m * m + 2 * m) by (nonlinear_arith)
        requires
            n < (m + 1) * (m + 1),
    ;
    assert((s * s) * n <= (s * s) * (m * m) + (s * s) * (2 * m)) by (nonlinear_arith)
        requires
            n <= m * m + 2 * m,
            1 <= s,
    ;
    assert((s * s) * (m * m) + (s * s) * (2 * m) <= (s * s + 2 * s) * (m * m))
        by (nonlinear_arith)
        requires
            1 <= s <= m,
    ;
    assert(bp * bp + bq * bq <= s * s + 2 * s) by (nonlinear_arith)
        requires
            (m * m) * (bp * bp + bq * bq) <= (s * s + 2 * s) * (m * m),
            1 <= m,
    ;
}

/// Lower half of the near-unit bracket, over plain integers.
proof fn lemma_near_unit_lower(cx: int, cy: int, m: int, s: int, bp: int, bq: int, n: int)
    requires
        1 <= s <= m,
        n == cx * cx + cy * cy,
        0 <= cx,
        0 <= cy,
        m * m <= n,
        cx * s < m * (bp + 1),
        cy * s < m * (bq + 1),
        0 <= bp <= s,
        0 <= bq <= s,
    ensures
        bp * bp + bq * bq >= s * s - 4 * s - 1,
{
    lemma_mul_nonnegative(cx, s);
    lemma_mul_nonnegative(cy, s);
    assert((cx * s) * (cx * s) < (m * (bp + 1)) * (m * (bp + 1))) by (nonlinear_arith)
        requires
            0 <= cx * s,
            cx * s < m * (bp + 1),
    ;
    assert((cy * s) * (cy * s) < (m * (bq + 1)) * (m * (bq + 1))) by (nonlinear_arith)
        requires
            0 <= cy * s,
            cy * s < m * (bq + 1),
    ;
    assert((m * (bp + 1)) * (m * (bp + 1)) == (m * m) * ((bp + 1) * (bp + 1)))
        by (nonlinear_arith);
    assert((m * (bq + 1)) * (m * (bq + 1)) == (m * m) * ((bq + 1) * (bq + 1)))
        by (nonlinear_arith);
    assert((cx * s) * (cx * s) == (s * s) * (cx * cx)) by (nonlinear_arith);
    assert((cy * s) * (cy * s) == (s * s) * (cy * cy)) by (nonlinear_arith);
    assert((s * s) * (cx * cx) + (s * s) * (cy * cy) == (s * s) * n) by (nonlinear_arith)
        requires
            n == cx * cx + cy * cy,
    ;
    assert((m * m) * ((bp + 1) * (bp + 1)) + (m * m) * ((bq + 1) * (bq + 1))
        == (m * m) * ((bp + 1) * (bp + 1) + (bq + 1) * (bq + 1))) by (nonlinear_arith);
    assert((s * s) * n < (m * m) * ((bp + 1) * (bp + 1) + (bq + 1) * (bq + 1)));
    assert((m * m) * (s * s) <= (s * s) * n) by (nonlinear_arith)
        requires
            m * m <= n,
            1 <= s,
    ;
    assert(s * s < (bp + 1) * (bp + 1) + (bq + 1) * (bq + 1)) by (nonlinear_arith)
        requires
            (m * m) * (s * s) < (m * m) * ((bp + 1) * (bp + 1) + (bq + 1) * (bq + 1)),
            1 <= m,
    ;
    assert((bp + 1) * (bp + 1) == bp * bp + 2 * bp + 1) by (nonlinear_arith);
    assert((bq + 1) * (bq + 1) == bq * bq + 2 * bq + 1) by (nonlinear_arith);
}

/// Splitting the truncating rescale into magnitude and sign: for
/// `a == abs(x)`, `scale_div(x, m)` is `(a * SCALE) / m` carrying the
/// sign of `x`.
proof fn lemma_scale_div_signs(x: int, a: int, m: int)
    requires
        0 <= a,
        a == x || a == -x,
        1 <= m,
    ensures
        x >= 0 ==> scale_div(x, m) == (a * SCALE) / m,
        x < 0 ==> scale_div(x, m) == -((a * SCALE) / m),
{
    if x >= 0 {
        lemma_mul_nonnegative(x, SCALE as int);
    } else {
        lemma_mul_unary_negation(x, SCALE as int);
        lemma_mul_nonnegative(a, SCALE as int);
        assert(a * SCALE >= 1 * SCALE) by {
            lemma_mul_inequality(1, a, SCALE as int);
        }
        assert(x * SCALE < 0);
    }
}

} // verus!
