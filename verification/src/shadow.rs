//! The shadow quadrilateral cast past a silhouette edge.
//!
//! Each endpoint of the occluding edge is pushed away from the light along
//! the ray through it, by a fixed extrusion length; the edge plus the two
//! pushed points form the shadow footprint, in the exact winding the
//! renderer's triangulation expects. Ray lengths are irrational in
//! general, so the unit direction is realised with a proven integer
//! square root and truncated division, and the contract states that
//! rounding exactly.
use vstd::prelude::*;
use vstd::arithmetic::div_mod::{lemma_div_is_ordered, lemma_div_multiples_vanish};
use crate::{Point, in_range, dir_in_range, norm_sq, dir_x, dir_y, COORD_LIMIT};

verus! {

/// The integer square root: the greatest r with r * r <= n.
pub open spec fn sqrt_floor(n: nat) -> nat
    decreases n,
{
    if n == 0 {
        0
    } else {
        let r = sqrt_floor((n - 1) as nat);
        if (r + 1) * (r + 1) <= n {
            r + 1
        } else {
            r
        }
    }
}

/// `sqrt_floor` is squeezed between the two adjacent squares.
pub proof fn lemma_sqrt_floor_bounds(n: nat)
    ensures
        sqrt_floor(n) * sqrt_floor(n) <= n,
        n < (sqrt_floor(n) + 1) * (sqrt_floor(n) + 1),
    decreases n,
{
    if n == 0 {
        let s = sqrt_floor(n);
        assert(s == 0);
        assert(n < (s + 1) * (s + 1)) by (nonlinear_arith)
            requires
                n == 0,
                s == 0;
    } else {
        let r = sqrt_floor((n - 1) as nat);
        lemma_sqrt_floor_bounds((n - 1) as nat);
        if (r + 1) * (r + 1) <= n {
            assert(sqrt_floor(n) == r + 1);
            assert(n - 1 < (r + 1) * (r + 1));
            assert(n <= (r + 1) * (r + 1));
            assert((r + 1) * (r + 1) < ((r + 1) + 1) * ((r + 1) + 1)) by (nonlinear_arith)
                requires
                    r >= 0;
            assert(sqrt_floor(n) * sqrt_floor(n) <= n);
            assert(n < (sqrt_floor(n) + 1) * (sqrt_floor(n) + 1));
        } else {
            assert(sqrt_floor(n) == r);
            assert(r * r <= n - 1);
            assert(sqrt_floor(n) * sqrt_floor(n) <= n);
            assert(n < (sqrt_floor(n) + 1) * (sqrt_floor(n) + 1));
        }
    }
}

/// Any r squeezed between adjacent squares is the integer square root.
pub proof fn lemma_sqrt_floor_unique(n: nat, r: nat)
    requires
        r * r <= n,
        n < (r + 1) * (r + 1),
    ensures
        r == sqrt_floor(n),
{
    let s = sqrt_floor(n);
    lemma_sqrt_floor_bounds(n);
    if r < s {
        assert((r + 1) * (r + 1) <= s * s) by (nonlinear_arith)
            requires
                r + 1 <= s;
        assert(false);
    }
    if s < r {
        assert((s + 1) * (s + 1) <= r * r) by (nonlinear_arith)
            requires
                s + 1 <= r;
        assert(false);
    }
}

/// The integer square root of n, by binary search.
pub fn isqrt(n: u64) -> (r: u64)
    ensures
        r == sqrt_floor(n as nat),
        r * r <= n,
        n < (r + 1) * (r + 1),
        r < 0x1_0000_0000,
{
    let mut lo: u64 = 0;
    let mut hi: u64 = 0x1_0000_0000;
    proof {
        assert((0x1_0000_0000 as int) * (0x1_0000_0000 as int) > n as int);
    }
    while lo + 1 < hi
        invariant
            lo < hi <= 0x1_0000_0000,
            lo * lo <= n,
            (n as int) < (hi as int) * (hi as int),
        decreases hi - lo,
    {
        let mid: u64 = lo + (hi - lo) / 2;
        proof {
            assert(mid * mid <= 0xFFFF_FFFF * 0xFFFF_FFFF) by (nonlinear_arith)
                requires
                    0 <= mid <= 0xFFFF_FFFF;
        }
        if mid * mid <= n {
            lo = mid;
        } else {
            hi = mid;
        }
    }
    proof {
        assert(lo + 1 == hi);
        lemma_sqrt_floor_unique(n as nat, lo as nat);
    }
    lo
}

/// One coordinate of the extrusion offset: c * len / m rounded to the
/// nearest integer (halves away from zero), where m is the nearest-integer
/// length of the whole direction vector.
pub open spec fn scaled_div_nearest(c: int, m: int, len: int) -> int {
    if c >= 0 {
        (2 * c * len + m) / (2 * m)
    } else {
        -((2 * (-c) * len + m) / (2 * m))
    }
}

/// The floor of the length of the direction vector (dx, dy).
pub open spec fn ray_norm(dx: int, dy: int) -> int {
    sqrt_floor(norm_sq(dx, dy) as nat) as int
}

/// The nearest integer to the length of (dx, dy): the floor of the square
/// root, plus one when the remainder passes the midpoint.
pub open spec fn ray_norm_nearest(dx: int, dy: int) -> int {
    let m = ray_norm(dx, dy);
    if norm_sq(dx, dy) - m * m > m {
        m + 1
    } else {
        m
    }
}

/// How far the integer offset (ox, oy) may stand from an exact extrusion
/// of length `len` along (dx, dy): with m the nearest-integer length of
/// the direction, the squared offset length, scaled by 4*m*m, sits within
/// 4*len*len*m + 8*len*m*m + 2*m*m of 4*len*len*m*m. Divided out, the
/// extruded distance is len up to a relative error of about 1/(2m) plus
/// one fixed-point unit; the longer the direction vector, the tighter.
pub open spec fn extrusion_dev_ok(dx: int, dy: int, len: int, ox: int, oy: int) -> bool {
    let m = ray_norm_nearest(dx, dy);
    &&& 4 * (m * m) * norm_sq(ox, oy) <= 4 * (len * len) * (m * m + m) + 8 * len * (m * m) + 2 * (
    m * m)
    &&& 4 * (m * m) * norm_sq(ox, oy) >= 4 * (len * len) * (m * m - m + 1) - 8 * len * (m * m)
}

/// The algebra of the deviation bound: componentwise nearest rounding
/// against a nearest-integer norm keeps the squared offset length within
/// the stated band.
proof fn lemma_extrusion_dev(m: int, len: int, dx: int, dy: int, ox: int, oy: int)
    requires
        m >= 1,
        len >= 0,
        m * m - m < norm_sq(dx, dy) <= m * m + m,
        -m <= dx <= m,
        -m <= dy <= m,
        -m <= 2 * m * ox - 2 * dx * len <= m,
        -m <= 2 * m * oy - 2 * dy * len <= m,
    ensures
        4 * (m * m) * norm_sq(ox, oy) <= 4 * (len * len) * (m * m + m) + 8 * len * (m * m) + 2 * (
        m * m),
        4 * (m * m) * norm_sq(ox, oy) >= 4 * (len * len) * (m * m - m + 1) - 8 * len * (m * m),
{
    let sx = 2 * m * ox;
    let tx = 2 * dx * len;
    let ex = sx - tx;
    let sy = 2 * m * oy;
    let ty = 2 * dy * len;
    let ey = sy - ty;
    let mm = m * m;
    let l2 = len * len;
    let lm2 = len * (m * m);
    let no = norm_sq(ox, oy);
    let nd = norm_sq(dx, dy);
    assert(sx * sx == tx * tx + 2 * tx * ex + ex * ex) by (nonlinear_arith)
        requires
            ex == sx - tx;
    assert(sy * sy == ty * ty + 2 * ty * ey + ey * ey) by (nonlinear_arith)
        requires
            ey == sy - ty;
    assert(sx * sx + sy * sy == 4 * mm * no) by (nonlinear_arith)
        requires
            sx == 2 * m * ox,
            sy == 2 * m * oy,
            mm == m * m,
            no == ox * ox + oy * oy;
    assert(tx * tx + ty * ty == 4 * l2 * nd) by (nonlinear_arith)
        requires
            tx == 2 * dx * len,
            ty == 2 * dy * len,
            l2 == len * len,
            nd == dx * dx + dy * dy;
    assert(-(4 * lm2) <= 2 * tx * ex <= 4 * lm2 && -(4 * lm2) <= 2 * ty * ey <= 4 * lm2)
        by (nonlinear_arith)
        requires
            tx == 2 * dx * len,
            ty == 2 * dy * len,
            -m <= dx <= m,
            -m <= dy <= m,
            -m <= ex <= m,
            -m <= ey <= m,
            len >= 0,
            m >= 0,
            lm2 == len * (m * m);
    assert(0 <= ex * ex <= mm && 0 <= ey * ey <= mm) by (nonlinear_arith)
        requires
            -m <= ex <= m,
            -m <= ey <= m,
            mm == m * m;
    assert(4 * l2 * nd <= 4 * l2 * (mm + m) && 4 * l2 * nd >= 4 * l2 * (mm - m + 1))
        by (nonlinear_arith)
        requires
            mm == m * m,
            l2 == len * len,
            m * m - m + 1 <= nd <= m * m + m;
    assert(8 * len * (m * m) == 8 * lm2 && 2 * (m * m) == 2 * mm && 4 * (len * len) * (m * m + m)
        == 4 * l2 * (mm + m) && 4 * (len * len) * (m * m - m + 1) == 4 * l2 * (mm - m + 1) && 4 * (
    m * m) * norm_sq(ox, oy) == 4 * mm * no) by (nonlinear_arith)
        requires
            lm2 == len * (m * m),
            mm == m * m,
            l2 == len * len,
            no == norm_sq(ox, oy);
}

/// The extrusion offset of a nonzero direction d scaled to length `len`:
/// each component is the nearest integer to its exact value against the
/// nearest-integer norm, each is bounded by `len`, and the offset's
/// length deviates from `len` only within the stated band.
fn extrude(d: Point, len: i64) -> (r: (i64, i64))
    requires
        dir_in_range(d),
        !d.is_zero(),
        0 <= len <= COORD_LIMIT,
    ensures
        r.0 == scaled_div_nearest(d.x as int, ray_norm_nearest(d.x as int, d.y as int), len as int),
        r.1 == scaled_div_nearest(d.y as int, ray_norm_nearest(d.x as int, d.y as int), len as int),
        -len <= r.0 <= len,
        -len <= r.1 <= len,
        extrusion_dev_ok(d.x as int, d.y as int, len as int, r.0 as int, r.1 as int),
{
    proof {
        assert(d.x * d.x <= 0x4000_0000 && d.x * d.x >= 0 && d.y * d.y <= 0x4000_0000 && d.y * d.y
            >= 0) by (nonlinear_arith)
            requires
                -0x8000 <= d.x <= 0x8000,
                -0x8000 <= d.y <= 0x8000;
        crate::lemma_norm_sq_pos(d.x as int, d.y as int);
    }
    let nsq: i64 = d.x * d.x + d.y * d.y;
    let m: u64 = isqrt(nsq as u64);
    proof {
        assert(m >= 1) by {
            if m == 0 {
                assert((m + 1) * (m + 1) == 1) by (nonlinear_arith)
                    requires
                        m == 0;
            }
        }
        assert(m <= 0x1_0000) by {
            if m > 0x1_0000 {
                assert(m * m > 0x1_0000_0000) by (nonlinear_arith)
                    requires
                        m > 0x1_0000;
            }
        }
        lemma_ray_norm_dominates(d.x as int, d.y as int);
    }
    let rem: u64 = (nsq as u64) - m * m;
    let mr: u64 = if rem > m {
        m + 1
    } else {
        m
    };
    proof {
        // mr is the nearest-integer norm, and the squared norm sits in
        // the band (mr^2 - mr, mr^2 + mr].
        assert(mr == ray_norm_nearest(d.x as int, d.y as int));
        assert(mr * mr - mr < nsq <= mr * mr + mr) by (nonlinear_arith)
            requires
                m >= 1,
                mr as int == if rem > m {
                    m as int + 1
                } else {
                    m as int
                },
                rem == nsq - m * m,
                m * m <= nsq,
                nsq < (m + 1) * (m + 1);
    }
    let ax: u64 = if d.x >= 0 {
        d.x as u64
    } else {
        (-d.x) as u64
    };
    let ay: u64 = if d.y >= 0 {
        d.y as u64
    } else {
        (-d.y) as u64
    };
    proof {
        assert(ax <= mr && ay <= mr);
        assert(2 * ax * (len as u64) <= 2 * mr * (len as u64) && 2 * ay * (len as u64) <= 2 * mr
            * (len as u64) && 2 * mr * (len as u64) <= 2 * 0x1_0001 * 0x2000) by (nonlinear_arith)
            requires
                0 <= ax <= mr,
                0 <= ay <= mr,
                0 <= mr <= 0x1_0001,
                0 <= len <= 0x2000;
        lemma_div_is_ordered(
            2 * (ax as int) * (len as int) + mr as int,
            2 * (mr as int) * (len as int) + mr as int,
            2 * mr as int,
        );
        vstd::arithmetic::div_mod::lemma_fundamental_div_mod_converse(
            2 * (mr as int) * (len as int) + mr as int,
            2 * mr as int,
            len as int,
            mr as int,
        );
        vstd::arithmetic::div_mod::lemma_div_pos_is_pos(
            2 * (ax as int) * (len as int) + mr as int,
            2 * mr as int,
        );
        vstd::arithmetic::div_mod::lemma_div_pos_is_pos(
            2 * (ay as int) * (len as int) + mr as int,
            2 * mr as int,
        );
        lemma_div_is_ordered(
            2 * (ay as int) * (len as int) + mr as int,
            2 * (mr as int) * (len as int) + mr as int,
            2 * mr as int,
        );
    }
    let qx: u64 = (2 * ax * (len as u64) + mr) / (2 * mr);
    let qy: u64 = (2 * ay * (len as u64) + mr) / (2 * mr);
    proof {
        // Nearest rounding: 2*mr*q stays within mr of 2*|c|*len.
        vstd::arithmetic::div_mod::lemma_fundamental_div_mod(
            2 * (ax as int) * (len as int) + mr as int,
            2 * mr as int,
        );
        vstd::arithmetic::div_mod::lemma_mod_bound(
            2 * (ax as int) * (len as int) + mr as int,
            2 * mr as int,
        );
        vstd::arithmetic::div_mod::lemma_fundamental_div_mod(
            2 * (ay as int) * (len as int) + mr as int,
            2 * mr as int,
        );
        vstd::arithmetic::div_mod::lemma_mod_bound(
            2 * (ay as int) * (len as int) + mr as int,
            2 * mr as int,
        );
    }
    let rx: i64 = if d.x >= 0 {
        qx as i64
    } else {
        -(qx as i64)
    };
    let ry: i64 = if d.y >= 0 {
        qy as i64
    } else {
        -(qy as i64)
    };
    proof {
        assert(-(mr as int) <= 2 * (mr as int) * rx - 2 * (d.x as int) * (len as int) <= mr as int
            && -(mr as int) <= 2 * (mr as int) * ry - 2 * (d.y as int) * (len as int)
            <= mr as int) by (nonlinear_arith)
            requires
                mr >= 1,
                len >= 0,
                0 <= 2 * (ax as int) * (len as int) + mr - 2 * mr * (qx as int) < 2 * mr,
                0 <= 2 * (ay as int) * (len as int) + mr - 2 * mr * (qy as int) < 2 * mr,
                ax as int == if d.x >= 0 {
                    d.x as int
                } else {
                    -(d.x as int)
                },
                ay as int == if d.y >= 0 {
                    d.y as int
                } else {
                    -(d.y as int)
                },
                rx as int == if d.x >= 0 {
                    qx as int
                } else {
                    -(qx as int)
                },
                ry as int == if d.y >= 0 {
                    qy as int
                } else {
                    -(qy as int)
                };
        lemma_extrusion_dev(
            mr as int,
            len as int,
            d.x as int,
            d.y as int,
            rx as int,
            ry as int,
        );
    }
    (rx, ry)
}

/// The floor length of a vector dominates each coordinate's magnitude.
proof fn lemma_ray_norm_dominates(dx: int, dy: int)
    ensures
        ray_norm(dx, dy) >= dx,
        ray_norm(dx, dy) >= -dx,
        ray_norm(dx, dy) >= dy,
        ray_norm(dx, dy) >= -dy,
{
    let n = norm_sq(dx, dy);
    crate::lemma_norm_sq_nonneg(dx, dy);
    let m = ray_norm(dx, dy);
    lemma_sqrt_floor_bounds(n as nat);
    assert(dx * dx <= n && dy * dy <= n) by (nonlinear_arith)
        requires
            n == dx * dx + dy * dy;
    if m < dx {
        assert((m + 1) * (m + 1) <= dx * dx) by (nonlinear_arith)
            requires
                0 <= m,
                m + 1 <= dx;
        assert(false);
    }
    if m < -dx {
        assert((m + 1) * (m + 1) <= dx * dx) by (nonlinear_arith)
            requires
                0 <= m,
                m + 1 <= -dx;
        assert(false);
    }
    if m < dy {
        assert((m + 1) * (m + 1) <= dy * dy) by (nonlinear_arith)
            requires
                0 <= m,
                m + 1 <= dy;
        assert(false);
    }
    if m < -dy {
        assert((m + 1) * (m + 1) <= dy * dy) by (nonlinear_arith)
            requires
                0 <= m,
                m + 1 <= -dy;
        assert(false);
    }
}

/// Builds the shadow quadrilateral for an occluding segment: each endpoint
/// in world coordinates, plus each endpoint pushed `extrusion_length`
/// further from the light along its ray, in the winding
/// [extruded0, endpoint0, endpoint1, extruded1] that the renderer's fixed
/// triangulation expects. Each extrusion offset is the nearest-integer
/// realisation of a step of exactly `extrusion_length`, and the contract
/// carries the bound on how far its length may deviate. Returns `None`
/// exactly when the light coincides with an endpoint's world position, so
/// a caller can skip that shadow for the frame instead of dividing by a
/// zero length.
pub fn shadow_shape(segment: (Point, Point), light: Point, position: Point, extrusion_length: i64)
    -> (r: Option<[Point; 4]>)
    requires
        in_range(segment.0),
        in_range(segment.1),
        in_range(light),
        in_range(position),
        0 <= extrusion_length <= COORD_LIMIT,
    ensures
        r is None <==> (dir_x(position, segment.0, light) == 0 && dir_y(position, segment.0, light)
            == 0) || (dir_x(position, segment.1, light) == 0 && dir_y(position, segment.1, light)
            == 0),
        match r {
            Some(q) => {
                &&& q[1].x == position.x + segment.0.x
                &&& q[1].y == position.y + segment.0.y
                &&& q[2].x == position.x + segment.1.x
                &&& q[2].y == position.y + segment.1.y
                &&& q[0].x == q[1].x + scaled_div_nearest(
                    dir_x(position, segment.0, light),
                    ray_norm_nearest(
                        dir_x(position, segment.0, light),
                        dir_y(position, segment.0, light),
                    ),
                    extrusion_length as int,
                )
                &&& q[0].y == q[1].y + scaled_div_nearest(
                    dir_y(position, segment.0, light),
                    ray_norm_nearest(
                        dir_x(position, segment.0, light),
                        dir_y(position, segment.0, light),
                    ),
                    extrusion_length as int,
                )
                &&& q[3].x == q[2].x + scaled_div_nearest(
                    dir_x(position, segment.1, light),
                    ray_norm_nearest(
                        dir_x(position, segment.1, light),
                        dir_y(position, segment.1, light),
                    ),
                    extrusion_length as int,
                )
                &&& q[3].y == q[2].y + scaled_div_nearest(
                    dir_y(position, segment.1, light),
                    ray_norm_nearest(
                        dir_x(position, segment.1, light),
                        dir_y(position, segment.1, light),
                    ),
                    extrusion_length as int,
                )
                &&& extrusion_dev_ok(
                    dir_x(position, segment.0, light),
                    dir_y(position, segment.0, light),
                    extrusion_length as int,
                    q[0].x - q[1].x,
                    q[0].y - q[1].y,
                )
                &&& extrusion_dev_ok(
                    dir_x(position, segment.1, light),
                    dir_y(position, segment.1, light),
                    extrusion_length as int,
                    q[3].x - q[2].x,
                    q[3].y - q[2].y,
                )
            },
            None => true,
        },
{
    let d0 = Point { x: position.x + segment.0.x - light.x, y: position.y + segment.0.y - light.y };
    let d1 = Point { x: position.x + segment.1.x - light.x, y: position.y + segment.1.y - light.y };
    if (d0.x == 0 && d0.y == 0) || (d1.x == 0 && d1.y == 0) {
        return None;
    }
    let w0 = Point { x: position.x + segment.0.x, y: position.y + segment.0.y };
    let w1 = Point { x: position.x + segment.1.x, y: position.y + segment.1.y };
    let o0 = extrude(d0, extrusion_length);
    let o1 = extrude(d1, extrusion_length);
    Some(
        [
            Point { x: w0.x + o0.0, y: w0.y + o0.1 },
            w0,
            w1,
            Point { x: w1.x + o1.0, y: w1.y + o1.1 },
        ],
    )
}

} // verus!
