//! The silhouette edge of a convex polygon as seen from a point light.
//!
//! A brute-force scan over all ordered vertex pairs keeps the pair whose
//! rays from the light subtend the largest shortest-angle separation; that
//! pair bounds the polygon's angular extent from the light, i.e. the edge
//! that blocks the light. The scan is quadratic on purpose: vertex counts
//! are small, and the maximum-angle pair is the defining property, not an
//! approximation of a cleverer algorithm. Ties go to the first pair in
//! iteration order, so the result is deterministic.
use vstd::prelude::*;
use crate::{Point, ConvexPolygon, in_range, dir_x, dir_y};
use crate::angle::{cos_ge, sep_d, sep_m, cos_ge_exec, sep_parts};
use crate::angle::{lemma_cos_ge_total, lemma_cos_ge_trans, SEP_DOT_BOUND, SEP_NORM_BOUND};

verus! {

/// x component of the ray from the light through vertex k of pts placed
/// at the world offset `position`.
pub open spec fn ray_x(pts: Seq<Point>, position: Point, light: Point, k: int) -> int {
    dir_x(position, pts[k], light)
}

/// y component of the same ray.
pub open spec fn ray_y(pts: Seq<Point>, position: Point, light: Point, k: int) -> int {
    dir_y(position, pts[k], light)
}

/// No vertex ray is the zero vector: the light does not sit on a vertex.
pub open spec fn rays_nonzero(pts: Seq<Point>, position: Point, light: Point) -> bool {
    forall|k: int|
        0 <= k < pts.len() ==> (#[trigger] ray_x(pts, position, light, k)) != 0
            || ray_y(pts, position, light, k) != 0
}

/// Cosine numerator of the separation of the rays through vertices i and j.
pub open spec fn pair_d(pts: Seq<Point>, position: Point, light: Point, i: int, j: int) -> int {
    sep_d(
        ray_x(pts, position, light, i),
        ray_y(pts, position, light, i),
        ray_x(pts, position, light, j),
        ray_y(pts, position, light, j),
    )
}

/// Squared cosine denominator of the same separation.
pub open spec fn pair_m(pts: Seq<Point>, position: Point, light: Point, i: int, j: int) -> int {
    sep_m(
        ray_x(pts, position, light, i),
        ray_y(pts, position, light, i),
        ray_x(pts, position, light, j),
        ray_y(pts, position, light, j),
    )
}

/// (i, j) is an ordered pair of distinct vertex indices.
pub open spec fn valid_pair(pts: Seq<Point>, i: int, j: int) -> bool {
    0 <= i < pts.len() && 0 <= j < pts.len() && i != j
}

/// The pair (k, l) is visited before the pair (i, j) by the scan
/// (outer index first, then inner index).
pub open spec fn pair_before(k: int, l: int, i: int, j: int) -> bool {
    k < i || (k == i && l < j)
}

/// The separation of (k, l) is at most the separation of (i, j):
/// its cosine is at least as large.
pub open spec fn pair_le(
    pts: Seq<Point>,
    position: Point,
    light: Point,
    k: int,
    l: int,
    i: int,
    j: int,
) -> bool {
    cos_ge(
        pair_d(pts, position, light, k, l),
        pair_m(pts, position, light, k, l),
        pair_d(pts, position, light, i, j),
        pair_m(pts, position, light, i, j),
    )
}

/// The separation of (k, l) is strictly below the separation of (i, j).
pub open spec fn pair_lt(
    pts: Seq<Point>,
    position: Point,
    light: Point,
    k: int,
    l: int,
    i: int,
    j: int,
) -> bool {
    !pair_le(pts, position, light, i, j, k, l)
}

/// The separation of (i, j) is a strictly positive angle: its cosine is
/// strictly below 1, the cosine proxy of the unit separation (1, 1).
pub open spec fn pair_positive(
    pts: Seq<Point>,
    position: Point,
    light: Point,
    i: int,
    j: int,
) -> bool {
    !cos_ge(pair_d(pts, position, light, i, j), pair_m(pts, position, light, i, j), 1, 1)
}

/// What `brute_shadow_segment` returns: the first vertex pair attaining
/// the maximum angular separation, or the zero pair when every separation
/// is the zero angle (as when the polygon has fewer than two vertices).
pub open spec fn silhouette_post(
    pts: Seq<Point>,
    position: Point,
    light: Point,
    r: (Point, Point),
) -> bool {
    if exists|i: int, j: int|
        valid_pair(pts, i, j) && #[trigger] pair_positive(pts, position, light, i, j) {
        exists|i: int, j: int|
            {
                &&& #[trigger] valid_pair(pts, i, j)
                &&& pair_positive(pts, position, light, i, j)
                &&& r == (pts[i], pts[j])
                &&& forall|k: int, l: int|
                    #[trigger] valid_pair(pts, k, l) ==> pair_le(pts, position, light, k, l, i, j)
                &&& forall|k: int, l: int|
                    #[trigger] valid_pair(pts, k, l) && pair_before(k, l, i, j) ==> pair_lt(
                        pts,
                        position,
                        light,
                        k,
                        l,
                        i,
                        j,
                    )
            }
    } else {
        r == (Point { x: 0i64, y: 0i64 }, Point { x: 0i64, y: 0i64 })
    }
}

/// (k, l) is a valid pair already visited when the scan stands at (i, j).
pub open spec fn visited(pts: Seq<Point>, k: int, l: int, i: int, j: int) -> bool {
    valid_pair(pts, k, l) && pair_before(k, l, i, j)
}

/// The norm product of a pair of nonzero rays is strictly positive.
proof fn lemma_pair_m_pos(pts: Seq<Point>, position: Point, light: Point, k: int, l: int)
    requires
        valid_pair(pts, k, l),
        rays_nonzero(pts, position, light),
    ensures
        pair_m(pts, position, light, k, l) > 0,
{
    let kx = ray_x(pts, position, light, k);
    let ky = ray_y(pts, position, light, k);
    let lx = ray_x(pts, position, light, l);
    let ly = ray_y(pts, position, light, l);
    crate::lemma_norm_sq_pos(kx, ky);
    crate::lemma_norm_sq_pos(lx, ly);
    assert(crate::norm_sq(kx, ky) * crate::norm_sq(lx, ly) > 0) by (nonlinear_arith)
        requires
            crate::norm_sq(kx, ky) > 0,
            crate::norm_sq(lx, ly) > 0;
}

/// The loop state of the scan: either nothing positive has been seen among
/// the visited pairs, or (bi, bj) is the first maximum of the visited pairs.
spec fn scan_inv(
    pts: Seq<Point>,
    position: Point,
    light: Point,
    i: int,
    j: int,
    bi: int,
    bj: int,
    best_d: int,
    best_m: int,
    res0: Point,
    res1: Point,
) -> bool {
    if bi < 0 {
        &&& best_d == 1
        &&& best_m == 1
        &&& res0 == (Point { x: 0i64, y: 0i64 })
        &&& res1 == (Point { x: 0i64, y: 0i64 })
        &&& forall|k: int, l: int|
            #[trigger] visited(pts, k, l, i, j) ==> !pair_positive(pts, position, light, k, l)
    } else {
        &&& valid_pair(pts, bi, bj)
        &&& pair_before(bi, bj, i, j)
        &&& best_d == pair_d(pts, position, light, bi, bj)
        &&& best_m == pair_m(pts, position, light, bi, bj)
        &&& res0 == pts[bi]
        &&& res1 == pts[bj]
        &&& pair_positive(pts, position, light, bi, bj)
        &&& forall|k: int, l: int|
            #[trigger] visited(pts, k, l, i, j) ==> pair_le(pts, position, light, k, l, bi, bj)
        &&& forall|k: int, l: int|
            #[trigger] visited(pts, k, l, i, j) && pair_before(k, l, bi, bj) ==> pair_lt(
                pts,
                position,
                light,
                k,
                l,
                bi,
                bj,
            )
    }
}

/// Finds the pair of polygon vertices whose rays from the light subtend
/// the maximum angular separation: the edge of the polygon that blocks
/// the light. Inputs and result are in the polygon's local frame; the
/// light must not coincide with any vertex's world position.
pub fn brute_shadow_segment(polygon: &ConvexPolygon, position: Point, light: Point) -> (r: (
    Point,
    Point,
))
    requires
        polygon.wf(),
        in_range(position),
        in_range(light),
        rays_nonzero(polygon.points@, position, light),
    ensures
        silhouette_post(polygon.points@, position, light, r),
{
    let ghost pts = polygon.points@;
    let n = polygon.points.len();
    let mut res0 = Point { x: 0i64, y: 0i64 };
    let mut res1 = Point { x: 0i64, y: 0i64 };
    let mut best_d: i128 = 1;
    let mut best_m: i128 = 1;
    let ghost mut bi: int = -1;
    let ghost mut bj: int = -1;
    let mut i: usize = 0;
    while i < n
        invariant
            n == pts.len(),
            pts == polygon.points@,
            polygon.wf(),
            in_range(position),
            in_range(light),
            rays_nonzero(pts, position, light),
            i <= n,
            bi < n,
            bj < n,
            -SEP_DOT_BOUND <= best_d <= SEP_DOT_BOUND,
            0 < best_m <= SEP_NORM_BOUND,
            scan_inv(pts, position, light, i as int, 0, bi, bj, best_d as int, best_m as int, res0, res1),
        decreases n - i,
    {
        let mut j: usize = 0;
        while j < n
            invariant
                n == pts.len(),
                pts == polygon.points@,
                polygon.wf(),
                in_range(position),
                in_range(light),
                rays_nonzero(pts, position, light),
                i < n,
                j <= n,
                bi < n,
                bj < n,
                -SEP_DOT_BOUND <= best_d <= SEP_DOT_BOUND,
                0 < best_m <= SEP_NORM_BOUND,
                scan_inv(pts, position, light, i as int, j as int, bi, bj, best_d as int, best_m as int, res0, res1),
            decreases n - j,
        {
            if i != j {
                let vi = polygon.points[i];
                let vj = polygon.points[j];
                let di = Point { x: position.x + vi.x - light.x, y: position.y + vi.y - light.y };
                let dj = Point { x: position.x + vj.x - light.x, y: position.y + vj.y - light.y };
                proof {
                    assert(ray_x(pts, position, light, i as int) == di.x);
                    assert(ray_x(pts, position, light, j as int) == dj.x);
                }
                let (dc, mc) = sep_parts(di, dj);
                proof {
                    assert(dc == pair_d(pts, position, light, i as int, j as int));
                    assert(mc == pair_m(pts, position, light, i as int, j as int));
                }
                let le = cos_ge_exec(dc, mc, best_d, best_m);
                let ghost ci = i as int;
                let ghost cj = j as int;
                let ghost cd = pair_d(pts, position, light, ci, cj);
                let ghost cm = pair_m(pts, position, light, ci, cj);
                if !le {
                    proof {
                        // The new pair strictly exceeds the old best, so it
                        // exceeds every visited pair and is itself positive.
                        lemma_cos_ge_total(cd, cm, best_d as int, best_m as int);
                        if bi < 0 {
                            assert forall|k: int, l: int| #[trigger] visited(pts, k, l, ci, cj)
                                implies pair_le(pts, position, light, k, l, ci, cj) && pair_lt(
                                pts,
                                position,
                                light,
                                k,
                                l,
                                ci,
                                cj,
                            ) by {
                                let kd = pair_d(pts, position, light, k, l);
                                let km = pair_m(pts, position, light, k, l);
                                lemma_pair_m_pos(pts, position, light, k, l);
                                lemma_cos_ge_trans(kd, km, 1, 1, cd, cm);
                                if cos_ge(cd, cm, kd, km) {
                                    lemma_cos_ge_trans(cd, cm, kd, km, 1, 1);
                                }
                            }
                        } else {
                            assert forall|k: int, l: int| #[trigger] visited(pts, k, l, ci, cj)
                                implies pair_le(pts, position, light, k, l, ci, cj) && pair_lt(
                                pts,
                                position,
                                light,
                                k,
                                l,
                                ci,
                                cj,
                            ) by {
                                let kd = pair_d(pts, position, light, k, l);
                                let km = pair_m(pts, position, light, k, l);
                                lemma_pair_m_pos(pts, position, light, k, l);
                                lemma_pair_m_pos(pts, position, light, bi, bj);
                                lemma_cos_ge_trans(kd, km, best_d as int, best_m as int, cd, cm);
                                if cos_ge(cd, cm, kd, km) {
                                    lemma_cos_ge_trans(cd, cm, kd, km, best_d as int, best_m as int);
                                }
                            }
                            // The new pair is a positive angle because the
                            // old best already was.
                            lemma_pair_m_pos(pts, position, light, bi, bj);
                            lemma_cos_ge_total(best_d as int, best_m as int, 1, 1);
                            if cos_ge(cd, cm, 1, 1) {
                                lemma_cos_ge_trans(cd, cm, 1, 1, best_d as int, best_m as int);
                            }
                        }
                    }
                    res0 = vi;
                    res1 = vj;
                    best_d = dc;
                    best_m = mc;
                    proof {
                        bi = ci;
                        bj = cj;
                    }
                } else {
                    proof {
                        if bi < 0 {
                            assert(!pair_positive(pts, position, light, ci, cj));
                        }
                    }
                }
            }
            proof {
                assert forall|k: int, l: int| #[trigger] visited(pts, k, l, i as int, j as int + 1)
                    implies visited(pts, k, l, i as int, j as int) || (k == i as int && l
                    == j as int) by {}
            }
            j += 1;
        }
        proof {
            assert forall|k: int, l: int| #[trigger] visited(pts, k, l, i as int + 1, 0)
                implies visited(pts, k, l, i as int, n as int) by {}
        }
        i += 1;
    }
    proof {
        if exists|a: int, b: int|
            valid_pair(pts, a, b) && #[trigger] pair_positive(pts, position, light, a, b) {
            let (a, b) = choose|a: int, b: int|
                valid_pair(pts, a, b) && #[trigger] pair_positive(pts, position, light, a, b);
            assert(visited(pts, a, b, n as int, 0));
            assert(bi >= 0);
            assert forall|k: int, l: int| #[trigger] valid_pair(pts, k, l) implies pair_le(
                pts,
                position,
                light,
                k,
                l,
                bi,
                bj,
            ) by {
                assert(visited(pts, k, l, n as int, 0));
            }
            assert forall|k: int, l: int|
                #[trigger] valid_pair(pts, k, l) && pair_before(k, l, bi, bj) implies pair_lt(
                pts,
                position,
                light,
                k,
                l,
                bi,
                bj,
            ) by {
                assert(visited(pts, k, l, n as int, 0));
            }
        }
    }
    (res0, res1)
}

/// Every ordered pair of distinct vertices, as segments, in scan order:
/// the full graph on the polygon's vertices.
pub fn shadow_segments(polygon: &ConvexPolygon) -> (r: Vec<(Point, Point)>)
    ensures
        r@.len() == polygon.points@.len() * (polygon.points@.len() - 1),
        forall|i: int, j: int|
            valid_pair(polygon.points@, i, j) ==> #[trigger] r@[pair_index(
                polygon.points@.len() as int,
                i,
                j,
            )] == (polygon.points@[i], polygon.points@[j]),
{
    let ghost pts = polygon.points@;
    let n = polygon.points.len();
    let mut r: Vec<(Point, Point)> = Vec::new();
    let mut i: usize = 0;
    proof {
        assert(0 * (n - 1) == 0) by (nonlinear_arith);
    }
    while i < n
        invariant
            n == pts.len(),
            pts == polygon.points@,
            i <= n,
            r@.len() == i * (n - 1),
            forall|k: int, l: int|
                valid_pair(pts, k, l) && pair_before(k, l, i as int, 0) ==> #[trigger] r@[
                    pair_index(n as int, k, l)
                ] == (pts[k], pts[l]),
        decreases n - i,
    {
        let mut j: usize = 0;
        while j < n
            invariant
                n == pts.len(),
                pts == polygon.points@,
                i < n,
                j <= n,
                r@.len() == i * (n - 1) + (if j <= i { j as int } else { j - 1 }),
                forall|k: int, l: int|
                    valid_pair(pts, k, l) && pair_before(k, l, i as int, j as int) ==> #[trigger] r@[
                        pair_index(n as int, k, l)
                    ] == (pts[k], pts[l]),
            decreases n - j,
        {
            if i != j {
                let seg = (polygon.points[i], polygon.points[j]);
                let ghost old_r = r@;
                r.push(seg);
                proof {
                    assert(pair_index(n as int, i as int, j as int) == old_r.len());
                    assert forall|k: int, l: int|
                        valid_pair(pts, k, l) && pair_before(k, l, i as int, j as int + 1)
                        implies #[trigger] r@[pair_index(n as int, k, l)] == (pts[k], pts[l]) by {
                        if k == i as int && l == j as int {
                        } else {
                            lemma_pair_index_bound(n as int, i as int, j as int, k, l);
                            assert(old_r[pair_index(n as int, k, l)] == (pts[k], pts[l]));
                        }
                    }
                }
            } else {
                proof {
                    assert forall|k: int, l: int|
                        valid_pair(pts, k, l) && pair_before(k, l, i as int, j as int + 1)
                        implies #[trigger] r@[pair_index(n as int, k, l)] == (pts[k], pts[l]) by {
                        assert(pair_before(k, l, i as int, j as int));
                    }
                }
            }
            j += 1;
        }
        proof {
            assert((i + 1) * (n - 1) == i * (n - 1) + (n - 1)) by (nonlinear_arith);
            assert forall|k: int, l: int|
                valid_pair(pts, k, l) && pair_before(k, l, i as int + 1, 0)
                implies pair_before(k, l, i as int, n as int) by {}
        }
        i += 1;
    }
    proof {
        assert forall|k: int, l: int| valid_pair(pts, k, l)
            implies pair_before(k, l, n as int, 0) by {}
    }
    r
}

/// Position of the ordered pair (i, j) in the scan order over n vertices.
pub open spec fn pair_index(n: int, i: int, j: int) -> int {
    i * (n - 1) + if j < i {
        j
    } else {
        j - 1
    }
}

/// A pair visited before the scan position (i, j) has its index below the
/// count of segments already emitted.
proof fn lemma_pair_index_bound(n: int, i: int, j: int, k: int, l: int)
    requires
        0 <= k < n,
        0 <= l < n,
        k != l,
        0 <= i < n,
        0 <= j <= n,
        k < i || (k == i && l < j),
    ensures
        0 <= pair_index(n, k, l) < i * (n - 1) + (if j <= i { j } else { j - 1 }),
{
    assert(0 <= k * (n - 1)) by (nonlinear_arith)
        requires
            0 <= k,
            1 <= n;
    if k < i {
        assert(k * (n - 1) + (n - 1) <= i * (n - 1)) by (nonlinear_arith)
            requires
                k < i,
                1 <= n;
    }
}

/// An orthogonal integer transform preserves dot products: the algebraic
/// core of the silhouette's symmetry.
proof fn lemma_iso_dot(
    m00: int,
    m01: int,
    m10: int,
    m11: int,
    ux: int,
    uy: int,
    vx: int,
    vy: int,
)
    by (nonlinear_arith)
    requires
        m00 * m00 + m10 * m10 == 1,
        m01 * m01 + m11 * m11 == 1,
        m00 * m01 + m10 * m11 == 0,
    ensures
        (m00 * ux + m01 * uy) * (m00 * vx + m01 * vy) + (m10 * ux + m11 * uy) * (m10 * vx + m11
            * vy) == ux * vx + uy * vy,
{
}

/// A transform applied pointwise commutes with forming the ray
/// offset + vertex - light, coordinate by coordinate.
proof fn lemma_iso_ray(
    m00: int,
    m01: int,
    m10: int,
    m11: int,
    px1: int,
    py1: int,
    vx1: int,
    vy1: int,
    lx1: int,
    ly1: int,
    px2: int,
    py2: int,
    vx2: int,
    vy2: int,
    lx2: int,
    ly2: int,
)
    by (nonlinear_arith)
    requires
        px2 == m00 * px1 + m01 * py1,
        py2 == m10 * px1 + m11 * py1,
        vx2 == m00 * vx1 + m01 * vy1,
        vy2 == m10 * vx1 + m11 * vy1,
        lx2 == m00 * lx1 + m01 * ly1,
        ly2 == m10 * lx1 + m11 * ly1,
    ensures
        px2 + vx2 - lx2 == m00 * (px1 + vx1 - lx1) + m01 * (py1 + vy1 - ly1),
        py2 + vy2 - ly2 == m10 * (px1 + vx1 - lx1) + m11 * (py1 + vy1 - ly1),
{
}

/// The coordinates of p are those of q carried through the transform
/// (m00, m01; m10, m11).
pub open spec fn maps_to(m00: int, m01: int, m10: int, m11: int, q: Point, p: Point) -> bool {
    p.x == m00 * q.x + m01 * q.y && p.y == m10 * q.x + m11 * q.y
}

/// Silhouette symmetry: carrying the polygon, its offset and the light
/// through one orthogonal integer transform (a rotation by a quarter
/// turn, a reflection in an axis or a diagonal, or any composition)
/// carries the silhouette edge through the same transform. In particular,
/// for a polygon symmetric under such a transform with the light on its
/// axis, the chosen edge is invariant under the symmetry.
pub proof fn lemma_silhouette_equivariant(
    pts1: Seq<Point>,
    pts2: Seq<Point>,
    position1: Point,
    position2: Point,
    light1: Point,
    light2: Point,
    m00: int,
    m01: int,
    m10: int,
    m11: int,
    r1: (Point, Point),
    r2: (Point, Point),
)
    requires
        m00 * m00 + m10 * m10 == 1,
        m01 * m01 + m11 * m11 == 1,
        m00 * m01 + m10 * m11 == 0,
        pts2.len() == pts1.len(),
        forall|k: int|
            0 <= k < pts1.len() ==> maps_to(m00, m01, m10, m11, pts1[k], #[trigger] pts2[k]),
        maps_to(m00, m01, m10, m11, position1, position2),
        maps_to(m00, m01, m10, m11, light1, light2),
        silhouette_post(pts1, position1, light1, r1),
        silhouette_post(pts2, position2, light2, r2),
    ensures
        maps_to(m00, m01, m10, m11, r1.0, r2.0),
        maps_to(m00, m01, m10, m11, r1.1, r2.1),
{
    assert forall|i: int, j: int| valid_pair(pts1, i, j) implies #[trigger] pair_d(
        pts2,
        position2,
        light2,
        i,
        j,
    ) == pair_d(pts1, position1, light1, i, j) && pair_m(pts2, position2, light2, i, j) == pair_m(
        pts1,
        position1,
        light1,
        i,
        j,
    ) by {
        let ux = ray_x(pts1, position1, light1, i);
        let uy = ray_y(pts1, position1, light1, i);
        let vx = ray_x(pts1, position1, light1, j);
        let vy = ray_y(pts1, position1, light1, j);
        lemma_iso_ray(
            m00, m01, m10, m11,
            position1.x as int, position1.y as int,
            pts1[i].x as int, pts1[i].y as int,
            light1.x as int, light1.y as int,
            position2.x as int, position2.y as int,
            pts2[i].x as int, pts2[i].y as int,
            light2.x as int, light2.y as int,
        );
        lemma_iso_ray(
            m00, m01, m10, m11,
            position1.x as int, position1.y as int,
            pts1[j].x as int, pts1[j].y as int,
            light1.x as int, light1.y as int,
            position2.x as int, position2.y as int,
            pts2[j].x as int, pts2[j].y as int,
            light2.x as int, light2.y as int,
        );
        assert(ray_x(pts2, position2, light2, i) == m00 * ux + m01 * uy);
        assert(ray_y(pts2, position2, light2, i) == m10 * ux + m11 * uy);
        assert(ray_x(pts2, position2, light2, j) == m00 * vx + m01 * vy);
        assert(ray_y(pts2, position2, light2, j) == m10 * vx + m11 * vy);
        lemma_iso_dot(m00, m01, m10, m11, ux, uy, vx, vy);
        lemma_iso_dot(m00, m01, m10, m11, ux, uy, ux, uy);
        lemma_iso_dot(m00, m01, m10, m11, vx, vy, vx, vy);
    }
    let has1 = exists|i: int, j: int|
        valid_pair(pts1, i, j) && #[trigger] pair_positive(pts1, position1, light1, i, j);
    let has2 = exists|i: int, j: int|
        valid_pair(pts2, i, j) && #[trigger] pair_positive(pts2, position2, light2, i, j);
    assert(has1 ==> has2) by {
        if has1 {
            let (a, b) = choose|a: int, b: int|
                valid_pair(pts1, a, b) && #[trigger] pair_positive(pts1, position1, light1, a, b);
            assert(pair_d(pts2, position2, light2, a, b) == pair_d(pts1, position1, light1, a, b));
            assert(pair_positive(pts2, position2, light2, a, b));
        }
    }
    assert(has2 ==> has1) by {
        if has2 {
            let (a, b) = choose|a: int, b: int|
                valid_pair(pts2, a, b) && #[trigger] pair_positive(pts2, position2, light2, a, b);
            assert(pair_d(pts2, position2, light2, a, b) == pair_d(pts1, position1, light1, a, b));
            assert(pair_positive(pts1, position1, light1, a, b));
        }
    }
    if has1 {
        let (i1, j1) = choose|i: int, j: int|
            {
                &&& #[trigger] valid_pair(pts1, i, j)
                &&& pair_positive(pts1, position1, light1, i, j)
                &&& r1 == (pts1[i], pts1[j])
                &&& forall|k: int, l: int|
                    #[trigger] valid_pair(pts1, k, l) ==> pair_le(
                        pts1,
                        position1,
                        light1,
                        k,
                        l,
                        i,
                        j,
                    )
                &&& forall|k: int, l: int|
                    #[trigger] valid_pair(pts1, k, l) && pair_before(k, l, i, j) ==> pair_lt(
                        pts1,
                        position1,
                        light1,
                        k,
                        l,
                        i,
                        j,
                    )
            };
        let (i2, j2) = choose|i: int, j: int|
            {
                &&& #[trigger] valid_pair(pts2, i, j)
                &&& pair_positive(pts2, position2, light2, i, j)
                &&& r2 == (pts2[i], pts2[j])
                &&& forall|k: int, l: int|
                    #[trigger] valid_pair(pts2, k, l) ==> pair_le(
                        pts2,
                        position2,
                        light2,
                        k,
                        l,
                        i,
                        j,
                    )
                &&& forall|k: int, l: int|
                    #[trigger] valid_pair(pts2, k, l) && pair_before(k, l, i, j) ==> pair_lt(
                        pts2,
                        position2,
                        light2,
                        k,
                        l,
                        i,
                        j,
                    )
            };
        assert(valid_pair(pts1, i2, j2));
        assert(valid_pair(pts2, i1, j1));
        if pair_before(i2, j2, i1, j1) {
            assert(pair_lt(pts1, position1, light1, i2, j2, i1, j1));
            assert(pair_le(pts2, position2, light2, i1, j1, i2, j2));
            assert(pair_d(pts2, position2, light2, i1, j1) == pair_d(
                pts1,
                position1,
                light1,
                i1,
                j1,
            ));
            assert(pair_d(pts2, position2, light2, i2, j2) == pair_d(
                pts1,
                position1,
                light1,
                i2,
                j2,
            ));
            assert(pair_le(pts1, position1, light1, i1, j1, i2, j2));
            assert(false);
        }
        if pair_before(i1, j1, i2, j2) {
            assert(pair_lt(pts2, position2, light2, i1, j1, i2, j2));
            assert(pair_le(pts1, position1, light1, i2, j2, i1, j1));
            assert(pair_d(pts2, position2, light2, i1, j1) == pair_d(
                pts1,
                position1,
                light1,
                i1,
                j1,
            ));
            assert(pair_d(pts2, position2, light2, i2, j2) == pair_d(
                pts1,
                position1,
                light1,
                i2,
                j2,
            ));
            assert(pair_le(pts2, position2, light2, i2, j2, i1, j1));
            assert(false);
        }
        assert(i1 == i2 && j1 == j2);
        assert(r1 == (pts1[i1], pts1[j1]));
        assert(r2 == (pts2[i1], pts2[j1]));
    } else {
        assert(r1 == (Point { x: 0i64, y: 0i64 }, Point { x: 0i64, y: 0i64 }));
        assert(r2 == (Point { x: 0i64, y: 0i64 }, Point { x: 0i64, y: 0i64 }));
    }
}

} // verus!
