//! Exact comparison of angular separations between direction vectors.
//!
//! The silhouette search ranks vertex pairs by the shortest angle between
//! the two rays from the light through the vertices, an angle in [0, pi].
//! On that interval the cosine is strictly decreasing, and
//! cos = dot / (|u|*|v|), so comparing two separations is comparing two
//! quotients d / sqrt(m) with m = |u|^2 * |v|^2 > 0. Clearing the square
//! roots by a sign analysis and squaring turns that into exact integer
//! arithmetic: no angle is ever evaluated numerically, yet the induced
//! order is exactly the order of the angles.
use vstd::prelude::*;
use crate::{Point, dot, norm_sq, lemma_norm_sq_pos};

verus! {

/// The largest dot product magnitude the comparator accepts; direction
/// vectors with coordinates up to three times `COORD_LIMIT` stay below it.
pub const SEP_DOT_BOUND: i128 = 0x1_0000_0000;

/// The largest norm product the comparator accepts.
pub const SEP_NORM_BOUND: i128 = 0x4000_0000_0000_0000;

/// d1 / sqrt(m1) >= d2 / sqrt(m2), decided without square roots
/// (meaningful for m1 > 0 and m2 > 0). Read through the decreasing cosine,
/// this says: the separation with cosine proxy (d1, m1) is the smaller or
/// equal angle.
pub open spec fn cos_ge(d1: int, m1: int, d2: int, m2: int) -> bool {
    if d1 >= 0 && d2 < 0 {
        true
    } else if d1 < 0 && d2 >= 0 {
        false
    } else if d1 >= 0 {
        d1 * d1 * m2 >= d2 * d2 * m1
    } else {
        d1 * d1 * m2 <= d2 * d2 * m1
    }
}

/// Dot product of a separation's two direction vectors: the numerator of
/// its cosine.
pub open spec fn sep_d(ux: int, uy: int, vx: int, vy: int) -> int {
    dot(ux, uy, vx, vy)
}

/// Product of the squared norms of a separation's direction vectors: the
/// squared denominator of its cosine.
pub open spec fn sep_m(ux: int, uy: int, vx: int, vy: int) -> int {
    norm_sq(ux, uy) * norm_sq(vx, vy)
}

/// The cosine order is total.
pub proof fn lemma_cos_ge_total(d1: int, m1: int, d2: int, m2: int)
    ensures
        cos_ge(d1, m1, d2, m2) || cos_ge(d2, m2, d1, m1),
{
}

/// Chaining step for nonnegative numerators.
proof fn lemma_trans_nonneg(d1: int, m1: int, d2: int, m2: int, d3: int, m3: int)
    requires
        m1 > 0,
        m2 > 0,
        m3 > 0,
        d2 >= 0,
        d1 * d1 * m2 >= d2 * d2 * m1,
        d2 * d2 * m3 >= d3 * d3 * m2,
    ensures
        d1 * d1 * m3 >= d3 * d3 * m1,
{
    assert(d1 * d1 * m3 >= d3 * d3 * m1) by (nonlinear_arith)
        requires
            m1 > 0,
            m2 > 0,
            m3 > 0,
            d2 >= 0,
            d1 * d1 * m2 >= d2 * d2 * m1,
            d2 * d2 * m3 >= d3 * d3 * m2;
}

/// Chaining step for negative numerators.
proof fn lemma_trans_neg(d1: int, m1: int, d2: int, m2: int, d3: int, m3: int)
    requires
        m1 > 0,
        m2 > 0,
        m3 > 0,
        d2 < 0,
        d1 * d1 * m2 <= d2 * d2 * m1,
        d2 * d2 * m3 <= d3 * d3 * m2,
    ensures
        d1 * d1 * m3 <= d3 * d3 * m1,
{
    assert(d1 * d1 * m3 <= d3 * d3 * m1) by (nonlinear_arith)
        requires
            m1 > 0,
            m2 > 0,
            m3 > 0,
            d2 < 0,
            d1 * d1 * m2 <= d2 * d2 * m1,
            d2 * d2 * m3 <= d3 * d3 * m2;
}

/// The cosine order is transitive.
pub proof fn lemma_cos_ge_trans(d1: int, m1: int, d2: int, m2: int, d3: int, m3: int)
    requires
        m1 > 0,
        m2 > 0,
        m3 > 0,
        cos_ge(d1, m1, d2, m2),
        cos_ge(d2, m2, d3, m3),
    ensures
        cos_ge(d1, m1, d3, m3),
{
    if d1 >= 0 && d3 < 0 {
    } else if d1 >= 0 && d3 >= 0 {
        if d2 < 0 {
            // cos_ge(d2, m2, d3, m3) is false for d2 < 0 <= d3.
            assert(false);
        } else {
            lemma_trans_nonneg(d1, m1, d2, m2, d3, m3);
        }
    } else {
        // d1 < 0, so cos_ge(d1, m1, d2, m2) forces d2 < 0, and in turn
        // cos_ge(d2, m2, d3, m3) forces d3 < 0.
        assert(d2 < 0);
        assert(d3 < 0);
        lemma_trans_neg(d1, m1, d2, m2, d3, m3);
    }
}

/// Decides `cos_ge` on machine integers, exactly.
pub fn cos_ge_exec(d1: i128, m1: i128, d2: i128, m2: i128) -> (r: bool)
    requires
        -SEP_DOT_BOUND <= d1 <= SEP_DOT_BOUND,
        -SEP_DOT_BOUND <= d2 <= SEP_DOT_BOUND,
        0 < m1 <= SEP_NORM_BOUND,
        0 < m2 <= SEP_NORM_BOUND,
    ensures
        r == cos_ge(d1 as int, m1 as int, d2 as int, m2 as int),
{
    if d1 >= 0 && d2 < 0 {
        true
    } else if d1 < 0 && d2 >= 0 {
        false
    } else {
        proof {
            assert(d1 * d1 <= SEP_DOT_BOUND * SEP_DOT_BOUND
                && d1 * d1 >= 0
                && d2 * d2 <= SEP_DOT_BOUND * SEP_DOT_BOUND
                && d2 * d2 >= 0) by (nonlinear_arith)
                requires
                    -SEP_DOT_BOUND <= d1 <= SEP_DOT_BOUND,
                    -SEP_DOT_BOUND <= d2 <= SEP_DOT_BOUND;
            assert(d1 * d1 * m2 <= SEP_DOT_BOUND * SEP_DOT_BOUND * SEP_NORM_BOUND
                && d1 * d1 * m2 >= 0
                && d2 * d2 * m1 <= SEP_DOT_BOUND * SEP_DOT_BOUND * SEP_NORM_BOUND
                && d2 * d2 * m1 >= 0) by (nonlinear_arith)
                requires
                    0 <= d1 * d1 <= SEP_DOT_BOUND * SEP_DOT_BOUND,
                    0 <= d2 * d2 <= SEP_DOT_BOUND * SEP_DOT_BOUND,
                    0 < m1 <= SEP_NORM_BOUND,
                    0 < m2 <= SEP_NORM_BOUND;
        }
        let lhs: i128 = d1 * d1 * m2;
        let rhs: i128 = d2 * d2 * m1;
        if d1 >= 0 {
            lhs >= rhs
        } else {
            lhs <= rhs
        }
    }
}

/// Whether the shortest angle between u1 and v1 is at most the shortest
/// angle between u2 and v2, decided exactly. A floating-point renderer
/// reads this order off numeric polar angles; here it is integer
/// arithmetic on dot products and squared norms.
pub fn shortest_angle_le(u1: Point, v1: Point, u2: Point, v2: Point) -> (r: bool)
    requires
        crate::dir_in_range(u1),
        crate::dir_in_range(v1),
        crate::dir_in_range(u2),
        crate::dir_in_range(v2),
        !u1.is_zero(),
        !v1.is_zero(),
        !u2.is_zero(),
        !v2.is_zero(),
    ensures
        r == cos_ge(
            sep_d(u1.x as int, u1.y as int, v1.x as int, v1.y as int),
            sep_m(u1.x as int, u1.y as int, v1.x as int, v1.y as int),
            sep_d(u2.x as int, u2.y as int, v2.x as int, v2.y as int),
            sep_m(u2.x as int, u2.y as int, v2.x as int, v2.y as int),
        ),
{
    let (d1, m1) = sep_parts(u1, v1);
    let (d2, m2) = sep_parts(u2, v2);
    cos_ge_exec(d1, m1, d2, m2)
}

/// Dot product and norm product of a pair of in-range nonzero vectors,
/// with the bounds `cos_ge_exec` needs.
pub fn sep_parts(u: Point, v: Point) -> (r: (i128, i128))
    requires
        crate::dir_in_range(u),
        crate::dir_in_range(v),
        !u.is_zero(),
        !v.is_zero(),
    ensures
        r.0 == sep_d(u.x as int, u.y as int, v.x as int, v.y as int),
        r.1 == sep_m(u.x as int, u.y as int, v.x as int, v.y as int),
        -SEP_DOT_BOUND <= r.0 <= SEP_DOT_BOUND,
        0 < r.1 <= SEP_NORM_BOUND,
{
    proof {
        assert(u.x * v.x <= 0x4000_0000 && u.x * v.x >= -0x4000_0000
            && u.y * v.y <= 0x4000_0000 && u.y * v.y >= -0x4000_0000
            && u.x * u.x <= 0x4000_0000 && u.x * u.x >= 0
            && u.y * u.y <= 0x4000_0000 && u.y * u.y >= 0
            && v.x * v.x <= 0x4000_0000 && v.x * v.x >= 0
            && v.y * v.y <= 0x4000_0000 && v.y * v.y >= 0) by (nonlinear_arith)
            requires
                -0x8000 <= u.x <= 0x8000,
                -0x8000 <= u.y <= 0x8000,
                -0x8000 <= v.x <= 0x8000,
                -0x8000 <= v.y <= 0x8000;
        lemma_norm_sq_pos(u.x as int, u.y as int);
        lemma_norm_sq_pos(v.x as int, v.y as int);
    }
    let d: i64 = u.x * v.x + u.y * v.y;
    let nu: i64 = u.x * u.x + u.y * u.y;
    let nv: i64 = v.x * v.x + v.y * v.y;
    proof {
        assert(nu * nv <= 0x4000_0000_0000_0000 && nu * nv > 0) by (nonlinear_arith)
            requires
                0 < nu <= 0x8000_0000,
                0 < nv <= 0x8000_0000;
    }
    let m: i64 = nu * nv;
    (d as i128, m as i128)
}

} // verus!
