//! Homogeneous texture coordinates for seam-free interpolation over a
//! quadrilateral.
//!
//! A quad drawn as two triangles shows a seam when its texture is
//! interpolated affinely. The fix multiplies each vertex's (u, v) by a
//! weight q and hands the rasteriser (u*q, v*q, q), which it divides by q
//! after interpolation. The weight of a vertex is
//! q = (d + d_partner) / d_partner, where d is the vertex's distance to
//! the crossing point of the quad's diagonals and the partner is the
//! opposite vertex on the same diagonal. Distances along one line have
//! exact integer ratios, so every weight here is an exact rational,
//! carried as a numerator and positive denominator. When the diagonals do
//! not cross, all weights fall back to 1 (plain affine interpolation), by
//! design rather than as an error.
use vstd::prelude::*;
use crate::{Point, in_range};
use crate::line::{MyLine, HomPoint, intersect, line_in_range};

verus! {

/// A homogeneous texture coordinate: the triple (u*q, v*q, q) is
/// (uq / w, vq / w, q / w), with w > 0.
#[derive(Clone, Copy, PartialEq, Eq, Structural, Debug)]
pub struct TexCoordH {
    pub uq: i128,
    pub vq: i128,
    pub q: i128,
    pub w: i128,
}

/// First coefficient of the implicit line through p and q.
pub open spec fn line_a(p: Point, q: Point) -> int {
    p.y - q.y
}

/// Second coefficient of the implicit line through p and q.
pub open spec fn line_b(p: Point, q: Point) -> int {
    q.x - p.x
}

/// Third coefficient of the implicit line through p and q.
pub open spec fn line_c(p: Point, q: Point) -> int {
    -(line_a(p, q) * p.x) - line_b(p, q) * p.y
}

/// Determinant of the two diagonal lines of the quad: zero exactly when
/// they are parallel or coincident.
pub open spec fn diag_det(s: Seq<Point>) -> int {
    line_a(s[0], s[2]) * line_b(s[1], s[3]) - line_b(s[0], s[2]) * line_a(s[1], s[3])
}

/// Homogeneous x numerator of the diagonals' crossing point.
pub open spec fn center_xn(s: Seq<Point>) -> int {
    line_b(s[0], s[2]) * line_c(s[1], s[3]) - line_c(s[0], s[2]) * line_b(s[1], s[3])
}

/// Homogeneous y numerator of the diagonals' crossing point.
pub open spec fn center_yn(s: Seq<Point>) -> int {
    line_c(s[0], s[2]) * line_a(s[1], s[3]) - line_a(s[0], s[2]) * line_c(s[1], s[3])
}

/// The signed radial coordinate of v along the direction of the line
/// (a, b), measured from the homogeneous point (xn / w, yn / w) and
/// scaled by w * (a*a + b*b): for points on the line, its magnitude is
/// proportional to the distance from the crossing point, with the same
/// factor for every point of that line.
pub open spec fn radial_of(a: int, b: int, xn: int, yn: int, w: int, v: Point) -> int {
    let ux = w * v.x - xn;
    let uy = w * v.y - yn;
    let t = a * uy - b * ux;
    if t >= 0 {
        t
    } else {
        -t
    }
}

/// The radial magnitude of quad vertex k: vertices 0 and 2 lie on the
/// first diagonal, vertices 1 and 3 on the second.
pub open spec fn rad(s: Seq<Point>, k: int) -> int {
    if k % 2 == 0 {
        radial_of(
            line_a(s[0], s[2]),
            line_b(s[0], s[2]),
            center_xn(s),
            center_yn(s),
            diag_det(s),
            s[k],
        )
    } else {
        radial_of(
            line_a(s[1], s[3]),
            line_b(s[1], s[3]),
            center_xn(s),
            center_yn(s),
            diag_det(s),
            s[k],
        )
    }
}

/// The opposite vertex of the quad: the one sharing vertex k's diagonal.
pub open spec fn partner(k: int) -> int {
    if k < 2 {
        k + 2
    } else {
        k - 2
    }
}

/// The contract of one output coordinate: dividing uq and vq by q always
/// returns the input uv exactly, and q is the distance-ratio weight
/// (d_k + d_partner) / d_partner when the diagonals cross and the partner
/// is not the crossing point itself, and 1 otherwise.
pub open spec fn tex_post(shape: Seq<Point>, uv: Seq<Point>, k: int, t: TexCoordH) -> bool {
    &&& t.w > 0
    &&& t.q > 0
    &&& t.uq == uv[k].x * t.q
    &&& t.vq == uv[k].y * t.q
    &&& if diag_det(shape) == 0 || rad(shape, partner(k)) == 0 {
        t.q == 1 && t.w == 1
    } else {
        t.q == rad(shape, k) + rad(shape, partner(k)) && t.w == rad(shape, partner(k))
    }
}

/// The weight of one vertex: vk's radial magnitude over its partner vp's,
/// as the rational (rk + rp) / rp, or 1 when rp is zero.
fn vertex_weight(line: MyLine, center: HomPoint, vk: Point, vp: Point, uvk: Point) -> (t:
    TexCoordH)
    requires
        line_in_range(line),
        -0x2000_0000 <= center.w <= 0x2000_0000,
        -0x800_0000_0000 <= center.xn <= 0x800_0000_0000,
        -0x800_0000_0000 <= center.yn <= 0x800_0000_0000,
        in_range(vk),
        in_range(vp),
        in_range(uvk),
    ensures
        t.w > 0,
        t.q > 0,
        t.uq == uvk.x * t.q,
        t.vq == uvk.y * t.q,
        ({
            let rk = radial_of(line.a as int, line.b as int, center.xn as int, center.yn as int, center.w as int, vk);
            let rp = radial_of(line.a as int, line.b as int, center.xn as int, center.yn as int, center.w as int, vp);
            if rp == 0 {
                t.q == 1 && t.w == 1
            } else {
                t.q == rk + rp && t.w == rp
            }
        }),
{
    let rk = radial(line, center, vk);
    let rp = radial(line, center, vp);
    if rp == 0 {
        TexCoordH { uq: uvk.x as i128, vq: uvk.y as i128, q: 1, w: 1 }
    } else {
        let q: i128 = rk + rp;
        proof {
            assert(uvk.x * q <= 0x2000 * 0x4000_0000_0000_0000 && uvk.x * q
                >= -(0x2000 * 0x4000_0000_0000_0000) && uvk.y * q <= 0x2000
                * 0x4000_0000_0000_0000 && uvk.y * q >= -(0x2000 * 0x4000_0000_0000_0000))
                by (nonlinear_arith)
                requires
                    -0x2000 <= uvk.x <= 0x2000,
                    -0x2000 <= uvk.y <= 0x2000,
                    0 <= q <= 0x4000_0000_0000_0000;
        }
        TexCoordH { uq: (uvk.x as i128) * q, vq: (uvk.y as i128) * q, q, w: rp }
    }
}

/// The radial magnitude of v relative to the crossing point, exact in
/// `i128` thanks to the bounds on the line and the homogeneous center.
fn radial(line: MyLine, center: HomPoint, v: Point) -> (r: i128)
    requires
        line_in_range(line),
        -0x2000_0000 <= center.w <= 0x2000_0000,
        -0x800_0000_0000 <= center.xn <= 0x800_0000_0000,
        -0x800_0000_0000 <= center.yn <= 0x800_0000_0000,
        in_range(v),
    ensures
        r == radial_of(line.a as int, line.b as int, center.xn as int, center.yn as int, center.w as int, v),
        0 <= r <= 0x2000_0000_0000_0000,
{
    proof {
        assert(center.w * v.x <= 0x800_0000_0000 && center.w * v.x >= -0x800_0000_0000 && center.w
            * v.y <= 0x800_0000_0000 && center.w * v.y >= -0x800_0000_0000) by (nonlinear_arith)
            requires
                -0x2000_0000 <= center.w <= 0x2000_0000,
                -0x2000 <= v.x <= 0x2000,
                -0x2000 <= v.y <= 0x2000;
    }
    let ux: i128 = center.w * (v.x as i128) - center.xn;
    let uy: i128 = center.w * (v.y as i128) - center.yn;
    proof {
        assert(line.a * uy <= 0x4000 * 0x1000_0000_0000 && line.a * uy >= -(0x4000
            * 0x1000_0000_0000) && line.b * ux <= 0x4000 * 0x1000_0000_0000 && line.b * ux
            >= -(0x4000 * 0x1000_0000_0000)) by (nonlinear_arith)
            requires
                -0x4000 <= line.a <= 0x4000,
                -0x4000 <= line.b <= 0x4000,
                -0x1000_0000_0000 <= ux <= 0x1000_0000_0000,
                -0x1000_0000_0000 <= uy <= 0x1000_0000_0000;
    }
    let t: i128 = (line.a as i128) * uy - (line.b as i128) * ux;
    if t >= 0 {
        t
    } else {
        -t
    }
}

/// Homogeneous texture coordinates for the four corners of a shadow quad.
/// Dividing each output's first two components by its third recovers the
/// input uv exactly, whatever the quad's geometry; when the diagonals
/// cross, the weights carry the perspective correction that removes the
/// seam between the quad's two triangles.
pub fn projective_textures(shape: &[Point; 4], uv: &[Point; 4]) -> (r: [TexCoordH; 4])
    requires
        in_range(shape[0]),
        in_range(shape[1]),
        in_range(shape[2]),
        in_range(shape[3]),
        in_range(uv[0]),
        in_range(uv[1]),
        in_range(uv[2]),
        in_range(uv[3]),
    ensures
        forall|k: int| 0 <= k < 4 ==> tex_post(shape@, uv@, k, #[trigger] r@[k]),
{
    let diagonal1 = MyLine::from_segment(shape[0], shape[2]);
    let diagonal2 = MyLine::from_segment(shape[1], shape[3]);
    proof {
        assert(diagonal1.a == line_a(shape@[0], shape@[2]));
        assert(diagonal1.b == line_b(shape@[0], shape@[2]));
        assert(diagonal1.c == line_c(shape@[0], shape@[2]));
        assert(diagonal2.c == line_c(shape@[1], shape@[3]));
    }
    let intersection = intersect(diagonal1, diagonal2);
    match intersection {
        Some(center) => {
            let t0 = vertex_weight(diagonal1, center, shape[0], shape[2], uv[0]);
            let t1 = vertex_weight(diagonal2, center, shape[1], shape[3], uv[1]);
            let t2 = vertex_weight(diagonal1, center, shape[2], shape[0], uv[2]);
            let t3 = vertex_weight(diagonal2, center, shape[3], shape[1], uv[3]);
            let r = [t0, t1, t2, t3];
            proof {
                assert(center.xn == center_xn(shape@));
                assert(center.yn == center_yn(shape@));
                assert(center.w == diag_det(shape@));
                assert(tex_post(shape@, uv@, 0, r@[0]));
                assert(tex_post(shape@, uv@, 1, r@[1]));
                assert(tex_post(shape@, uv@, 2, r@[2]));
                assert(tex_post(shape@, uv@, 3, r@[3]));
            }
            r
        },
        None => {
            let r = [
                TexCoordH { uq: uv[0].x as i128, vq: uv[0].y as i128, q: 1, w: 1 },
                TexCoordH { uq: uv[1].x as i128, vq: uv[1].y as i128, q: 1, w: 1 },
                TexCoordH { uq: uv[2].x as i128, vq: uv[2].y as i128, q: 1, w: 1 },
                TexCoordH { uq: uv[3].x as i128, vq: uv[3].y as i128, q: 1, w: 1 },
            ];
            proof {
                assert(diag_det(shape@) == 0);
                assert(tex_post(shape@, uv@, 0, r@[0]));
                assert(tex_post(shape@, uv@, 1, r@[1]));
                assert(tex_post(shape@, uv@, 2, r@[2]));
                assert(tex_post(shape@, uv@, 3, r@[3]));
            }
            r
        },
    }
}

/// The squared distance from vertex k to the diagonals' crossing point,
/// scaled by the square of the homogeneous denominator.
pub open spec fn usq(s: Seq<Point>, k: int) -> int {
    let ux = diag_det(s) * s[k].x - center_xn(s);
    let uy = diag_det(s) * s[k].y - center_yn(s);
    ux * ux + uy * uy
}

/// For a vector u perpendicular to (a, b), the radial component along the
/// line's direction captures u's whole length: a ring identity.
#[verifier::rlimit(100)]
proof fn lemma_perp_decomposition(a: int, b: int, ux: int, uy: int)
    by (nonlinear_arith)
    requires
        a * ux + b * uy == 0,
    ensures
        (a * uy - b * ux) * (a * uy - b * ux) == (ux * ux + uy * uy) * (a * a + b * b),
{
}

/// The vector from the crossing point to a point of the line is
/// perpendicular to the line's normal (a, b), in homogeneous form.
proof fn lemma_center_vertex_perp(
    a: int,
    b: int,
    c: int,
    xk: int,
    yk: int,
    xn: int,
    yn: int,
    w: int,
)
    by (nonlinear_arith)
    requires
        a * xk + b * yk + c == 0,
        a * xn + b * yn + c * w == 0,
    ensures
        a * (w * xk - xn) + b * (w * yk - yn) == 0,
{
}

/// The second endpoint also satisfies the implicit line equation built
/// from the first: a ring identity.
proof fn lemma_second_point_on_line(p: Point, q: Point)
    ensures
        line_a(p, q) * q.x + line_b(p, q) * q.y + line_c(p, q) == 0,
{
    assert((p.y - q.y) * q.x + (q.x - p.x) * q.y + (-((p.y - q.y) * p.x) - (q.x - p.x) * p.y)
        == 0) by (nonlinear_arith);
}

/// The radial magnitude squared is the squared distance to the crossing
/// point times the diagonal direction's squared norm.
proof fn lemma_rad_sq(s: Seq<Point>, k: int)
    requires
        s.len() == 4,
        0 <= k < 4,
    ensures
        rad(s, k) * rad(s, k) == usq(s, k) * ({
            let a = if k % 2 == 0 {
                line_a(s[0], s[2])
            } else {
                line_a(s[1], s[3])
            };
            let b = if k % 2 == 0 {
                line_b(s[0], s[2])
            } else {
                line_b(s[1], s[3])
            };
            a * a + b * b
        }),
{
    let a1 = line_a(s[0], s[2]);
    let b1 = line_b(s[0], s[2]);
    let c1 = line_c(s[0], s[2]);
    let a2 = line_a(s[1], s[3]);
    let b2 = line_b(s[1], s[3]);
    let c2 = line_c(s[1], s[3]);
    let xn = center_xn(s);
    let yn = center_yn(s);
    let w = diag_det(s);
    // The crossing point satisfies both diagonal equations.
    crate::line::lemma_cramer1(a1, b1, c1, a2, b2, c2, xn, yn, w);
    crate::line::lemma_cramer2(a1, b1, c1, a2, b2, c2, xn, yn, w);
    // Each vertex satisfies its own diagonal's equation.
    if k % 2 == 0 {
        if k == 0 {
            assert(a1 * s[0].x + b1 * s[0].y + c1 == 0);
        } else {
            lemma_second_point_on_line(s[0], s[2]);
        }
        lemma_center_vertex_perp(a1, b1, c1, s[k].x as int, s[k].y as int, xn, yn, w);
        lemma_perp_decomposition(a1, b1, w * s[k].x - xn, w * s[k].y - yn);
    } else {
        if k == 1 {
            assert(a2 * s[1].x + b2 * s[1].y + c2 == 0);
        } else {
            lemma_second_point_on_line(s[1], s[3]);
        }
        lemma_center_vertex_perp(a2, b2, c2, s[k].x as int, s[k].y as int, xn, yn, w);
        lemma_perp_decomposition(a2, b2, w * s[k].x - xn, w * s[k].y - yn);
    }
    let t = if k % 2 == 0 {
        a1 * (w * s[k].y - yn) - b1 * (w * s[k].x - xn)
    } else {
        a2 * (w * s[k].y - yn) - b2 * (w * s[k].x - xn)
    };
    assert(rad(s, k) * rad(s, k) == t * t) by (nonlinear_arith)
        requires
            rad(s, k) == if t >= 0 {
                t
            } else {
                -t
            };
}

/// The texture weight really is the distance ratio of the contract's
/// prose: the radial magnitudes that build q stand to each other exactly
/// as the Euclidean distances from the vertex and its partner to the
/// diagonals' crossing point, stated here squared so that everything
/// stays an integer.
pub proof fn lemma_weight_is_distance_ratio(s: Seq<Point>, k: int)
    requires
        s.len() == 4,
        0 <= k < 4,
    ensures
        rad(s, k) * rad(s, k) * usq(s, partner(k)) == rad(s, partner(k)) * rad(s, partner(k))
            * usq(s, k),
{
    let p = partner(k);
    lemma_rad_sq(s, k);
    lemma_rad_sq(s, p);
    assert(k % 2 == p % 2) by {
        assert(p == if k < 2 {
            k + 2
        } else {
            k - 2
        });
        assert((k + 2) % 2 == k % 2 && (k - 2) % 2 == k % 2);
    }
    let a = if k % 2 == 0 {
        line_a(s[0], s[2])
    } else {
        line_a(s[1], s[3])
    };
    let b = if k % 2 == 0 {
        line_b(s[0], s[2])
    } else {
        line_b(s[1], s[3])
    };
    assert(rad(s, k) * rad(s, k) * usq(s, p) == rad(s, p) * rad(s, p) * usq(s, k))
        by (nonlinear_arith)
        requires
            rad(s, k) * rad(s, k) == usq(s, k) * (a * a + b * b),
            rad(s, p) * rad(s, p) == usq(s, p) * (a * a + b * b);
}

} // verus!
