//! Random convex polygons: disk sampling plus a convex hull.
//!
//! Points are drawn inside a disk by sampling x across the diameter and
//! then y along the vertical chord at that x. That biases density toward
//! the disk's vertical extent on purpose: the shapes it produces are part
//! of the scene's look, so the sampler must not be replaced by an
//! unbiased one. The hull itself comes from the geo crate's quick hull,
//! behind a trusted contract; everything around the call, and the
//! convexity check used to test it, is verified.
use vstd::prelude::*;
use geo::ConvexHull;
use crate::{Point, ConvexPolygon, in_range, cross, COORD_LIMIT};
use crate::shadow::isqrt;

verus! {

/// Vertex k and its two cyclic successors turn strictly
/// counter-clockwise.
pub open spec fn triple_ccw(s: Seq<Point>, k: int) -> bool {
    cross(s[k], s[(k + 1) % (s.len() as int)], s[(k + 2) % (s.len() as int)]) > 0
}

/// Vertex k and its two cyclic successors do not turn clockwise: a
/// counter-clockwise turn or a straight (collinear) step.
pub open spec fn triple_not_cw(s: Seq<Point>, k: int) -> bool {
    cross(s[k], s[(k + 1) % (s.len() as int)], s[(k + 2) % (s.len() as int)]) >= 0
}

/// Every adjacent triple of the cyclic vertex sequence turns strictly
/// counter-clockwise; sequences of fewer than three points are convex by
/// convention.
pub open spec fn is_strictly_convex_ccw(s: Seq<Point>) -> bool {
    s.len() < 3 || forall|k: int| 0 <= k < s.len() ==> #[trigger] triple_ccw(s, k)
}

/// Strict convexity rules out duplicate adjacent vertices: a repeated
/// point would make its triple collinear.
pub proof fn lemma_convex_no_adjacent_duplicates(s: Seq<Point>)
    requires
        s.len() >= 3,
        is_strictly_convex_ccw(s),
    ensures
        forall|k: int| 0 <= k < s.len() ==> (#[trigger] s[k]) != s[(k + 1) % (s.len() as int)],
{
    let n = s.len() as int;
    assert forall|k: int| 0 <= k < s.len() implies (#[trigger] s[k]) != s[(k + 1) % n] by {
        assert(triple_ccw(s, k));
        if s[k] == s[(k + 1) % n] {
            let p = s[k];
            let r = s[(k + 2) % n];
            assert(cross(p, p, r) == 0) by (nonlinear_arith);
        }
    }
}

/// No cyclic triple turns clockwise: convex read counter-clockwise, but
/// collinear boundary points are allowed.
pub open spec fn is_convex_ccw(s: Seq<Point>) -> bool {
    s.len() < 3 || forall|k: int| 0 <= k < s.len() ==> #[trigger] triple_not_cw(s, k)
}

/// Both coordinates within [-size, size].
pub open spec fn in_box(p: Point, size: int) -> bool {
    -size <= p.x <= size && -size <= p.y <= size
}

/// Within the closed disk of the given radius about the origin.
pub open spec fn in_disk(p: Point, size: int) -> bool {
    p.x * p.x + p.y * p.y <= size * size
}

/// Relies on quad_rand::gen_range for i64: it interpolates a 32-bit
/// random draw linearly between the bounds in f64 and truncates toward
/// zero, so for bounds of this small magnitude every outcome lies between
/// low and high inclusive. Nothing else is assumed of the draw.
#[verifier::external_body]
fn gen_range_i64(low: i64, high: i64) -> (r: i64)
    requires
        low <= high,
        -0x2000 <= low,
        high <= 0x2000,
    ensures
        low <= r <= high,
{
    quad_rand::gen_range(low, high)
}

/// Relies on geo's ConvexHull for Polygon<i64> (quick hull over the exact
/// integer kernel): the exterior of the result is a closed ring - at
/// least two points, first equal to last - whose points are drawn from
/// the input and which, read counter-clockwise, never turns clockwise.
/// Under ties (several input points at the same maximal distance from a
/// chord) the ring can keep collinear boundary points, so only the
/// non-strict turning is promised; strictness is restored afterwards by
/// verified code. Every ring entry but the closing one is a distinct
/// element of the input slice, so the ring has at most one more entry
/// than the input. The coordinate bound keeps geo's internal products
/// far from overflow.
#[verifier::external_body]
fn convex_hull_ring(points: &Vec<Point>) -> (r: Vec<Point>)
    requires
        points@.len() >= 1,
        forall|k: int| 0 <= k < points@.len() ==> in_range(#[trigger] points@[k]),
    ensures
        r@.len() >= 2,
        r@.len() <= points@.len() + 1,
        r@[0] == r@[r@.len() - 1],
        forall|k: int| 0 <= k < r@.len() ==> points@.contains(#[trigger] r@[k]),
        is_convex_ccw(r@.drop_last()),
{
    let coords: Vec<(i64, i64)> = points.iter().map(|p| (p.x, p.y)).collect();
    let poly = geo::Polygon::new(geo::LineString::from(coords), vec![]);
    let hull = poly.convex_hull();
    hull.exterior().points().map(|p| Point { x: p.x(), y: p.y() }).collect()
}

/// Removes every vertex whose cyclic triple fails to turn strictly
/// counter-clockwise, rescanning until none remains: on a convex hull
/// ring this strips the collinear boundary points a hull algorithm may
/// keep under ties. It only ever removes points, and leaves fewer than
/// three only if no strictly convex cycle can be formed.
pub fn strip_straight_vertices(points: Vec<Point>) -> (r: Vec<Point>)
    requires
        forall|k: int| 0 <= k < points@.len() ==> in_range(#[trigger] points@[k]),
    ensures
        is_strictly_convex_ccw(r@),
        r@.len() <= points@.len(),
        points@.len() > 0 ==> r@.len() > 0,
        forall|k: int| 0 <= k < r@.len() ==> points@.contains(#[trigger] r@[k]),
{
    let mut pts = points;
    let ghost orig = pts@;
    proof {
        assert forall|k: int| 0 <= k < pts@.len() implies orig.contains(#[trigger] pts@[k]) by {
            assert(orig[k] == pts@[k]);
        }
    }
    let mut stable = false;
    while !stable
        invariant
            forall|k: int| 0 <= k < pts@.len() ==> orig.contains(#[trigger] pts@[k]),
            forall|k: int| 0 <= k < pts@.len() ==> in_range(#[trigger] pts@[k]),
            pts@.len() <= orig.len(),
            orig.len() > 0 ==> pts@.len() > 0,
            stable ==> is_strictly_convex_ccw(pts@),
        decreases 2 * pts@.len() + (if stable { 0int } else { 1int }),
    {
        let n = pts.len();
        if n < 3 {
            stable = true;
        } else {
            let mut k: usize = 0;
            let mut found = false;
            let mut bad: usize = 0;
            while k < n && !found
                invariant
                    3 <= n,
                    n == pts@.len(),
                    k <= n,
                    bad < n,
                    forall|t: int| 0 <= t < pts@.len() ==> in_range(#[trigger] pts@[t]),
                    !found ==> forall|t: int| 0 <= t < k ==> #[trigger] triple_ccw(pts@, t),
                decreases n - k,
            {
                let k1 = if k < n - 1 {
                    k + 1
                } else {
                    k - (n - 1)
                };
                let k2 = if k < n - 2 {
                    k + 2
                } else {
                    k - (n - 2)
                };
                proof {
                    lemma_wrap_index(k as int, 1, n as int);
                    lemma_wrap_index(k as int, 2, n as int);
                }
                let c = cross_exec(pts[k], pts[k1], pts[k2]);
                if c <= 0 {
                    found = true;
                    bad = k1;
                } else {
                    proof {
                        assert(triple_ccw(pts@, k as int));
                    }
                }
                k += 1;
            }
            if found {
                let ghost before = pts@;
                pts.remove(bad);
                proof {
                    before.remove_ensures(bad as int);
                    assert forall|j: int| 0 <= j < pts@.len() implies orig.contains(
                        #[trigger] pts@[j],
                    ) && in_range(pts@[j]) by {
                        if j < bad {
                            assert(pts@[j] == before[j]);
                        } else {
                            assert(pts@[j] == before[j + 1]);
                        }
                    }
                }
            } else {
                stable = true;
                proof {
                    assert(is_strictly_convex_ccw(pts@));
                }
            }
        }
    }
    pts
}

/// Samples `samples_num` points inside the disk of radius `size` (x
/// uniform across the diameter, then y uniform along that x's chord) and
/// returns their convex hull: open (without the ring's closing
/// duplicate), strictly convex, never more vertices than samples. With
/// fewer than three samples the result degenerates to a point or a
/// segment rather than failing.
pub fn generate_convex_polygon(samples_num: usize, size: i64) -> (r: ConvexPolygon)
    requires
        0 <= size <= COORD_LIMIT,
    ensures
        r.wf(),
        forall|k: int| 0 <= k < r.points@.len() ==> in_box(#[trigger] r.points@[k], size as int),
        forall|k: int| 0 <= k < r.points@.len() ==> in_disk(#[trigger] r.points@[k], size as int),
        is_strictly_convex_ccw(r.points@),
        r.points@.len() >= 3 ==> forall|k: int|
            0 <= k < r.points@.len() ==> (#[trigger] r.points@[k]) != r.points@[(k + 1) % (
            r.points@.len() as int)],
        r.points@.len() <= samples_num,
        samples_num == 0 <==> r.points@.len() == 0,
{
    let mut samples: Vec<Point> = Vec::new();
    let mut s: usize = 0;
    while s < samples_num
        invariant
            0 <= size <= COORD_LIMIT,
            s <= samples_num,
            samples@.len() == s,
            forall|k: int| 0 <= k < samples@.len() ==> in_box(#[trigger] samples@[k], size as int),
            forall|k: int| 0 <= k < samples@.len() ==> in_disk(#[trigger] samples@[k], size as int),
        decreases samples_num - s,
    {
        let x = gen_range_i64(-size, size);
        proof {
            assert(x * x <= size * size && x * x >= 0 && size * size <= 0x400_0000)
                by (nonlinear_arith)
                requires
                    -size <= x <= size,
                    0 <= size <= 0x2000;
        }
        let c2: i64 = size * size - x * x;
        let chord64: u64 = isqrt(c2 as u64);
        proof {
            assert(chord64 * chord64 <= c2);
            if chord64 > size {
                assert(size * size < chord64 * chord64) by (nonlinear_arith)
                    requires
                        0 <= size < chord64;
                assert(false);
            }
        }
        let chord: i64 = chord64 as i64;
        let y = gen_range_i64(-chord, chord);
        proof {
            // The sample stays inside the disk: y*y <= chord^2 <= size^2 - x^2.
            assert(y * y <= chord * chord) by (nonlinear_arith)
                requires
                    -chord <= y <= chord,
                    chord >= 0;
        }
        samples.push(Point { x, y });
        s += 1;
    }
    if samples.len() == 0 {
        return ConvexPolygon { points: Vec::new() };
    }
    let mut ring = convex_hull_ring(&samples);
    ring.pop();
    proof {
        assert forall|k: int| 0 <= k < ring@.len() implies in_box(#[trigger] ring@[k], size as int)
            && in_disk(ring@[k], size as int) && in_range(ring@[k]) by {
            let v = ring@[k];
            let idx = choose|idx: int| 0 <= idx < samples@.len() && samples@[idx] == v;
            assert(in_box(samples@[idx], size as int));
            assert(in_disk(samples@[idx], size as int));
        }
    }
    let hull = strip_straight_vertices(ring);
    proof {
        if hull@.len() >= 3 {
            lemma_convex_no_adjacent_duplicates(hull@);
        }
    }
    ConvexPolygon { points: hull }
}

/// The orientation of the triple (p, q, r), exact for in-range points.
pub fn cross_exec(p: Point, q: Point, r: Point) -> (c: i64)
    requires
        in_range(p),
        in_range(q),
        in_range(r),
    ensures
        c == cross(p, q, r),
{
    proof {
        assert((q.x - p.x) * (r.y - q.y) <= 0x1000_0000 && (q.x - p.x) * (r.y - q.y)
            >= -0x1000_0000 && (q.y - p.y) * (r.x - q.x) <= 0x1000_0000 && (q.y - p.y) * (r.x
            - q.x) >= -0x1000_0000) by (nonlinear_arith)
            requires
                -0x2000 <= p.x <= 0x2000,
                -0x2000 <= p.y <= 0x2000,
                -0x2000 <= q.x <= 0x2000,
                -0x2000 <= q.y <= 0x2000,
                -0x2000 <= r.x <= 0x2000,
                -0x2000 <= r.y <= 0x2000;
    }
    (q.x - p.x) * (r.y - q.y) - (q.y - p.y) * (r.x - q.x)
}

/// k + d, wrapped once around a cycle of length n, equals (k + d) % n.
proof fn lemma_wrap_index(k: int, d: int, n: int)
    requires
        0 < n,
        0 <= k < n,
        0 <= d < n,
    ensures
        (k + d) % n == if k + d < n {
            k + d
        } else {
            k + d - n
        },
{
    if k + d < n {
        vstd::arithmetic::div_mod::lemma_small_mod((k + d) as nat, n as nat);
    } else {
        vstd::arithmetic::div_mod::lemma_mod_sub_multiples_vanish(k + d, n);
        vstd::arithmetic::div_mod::lemma_small_mod((k + d - n) as nat, n as nat);
    }
}

impl ConvexPolygon {
    /// Checks that every adjacent triple of the cyclic vertex sequence
    /// turns strictly counter-clockwise: the convexity test for generated
    /// polygons.
    #[verifier::rlimit(50)]
    pub fn is_convex(&self) -> (r: bool)
        requires
            self.wf(),
        ensures
            r == is_strictly_convex_ccw(self.points@),
    {
        let n = self.points.len();
        if n < 3 {
            return true;
        }
        let mut k: usize = 0;
        while k < n
            invariant
                3 <= n == self.points@.len(),
                self.wf(),
                k <= n,
                forall|t: int| 0 <= t < k ==> #[trigger] triple_ccw(self.points@, t),
            decreases n - k,
        {
            let k1 = if k < n - 1 {
                k + 1
            } else {
                k - (n - 1)
            };
            let k2 = if k < n - 2 {
                k + 2
            } else {
                k - (n - 2)
            };
            proof {
                lemma_wrap_index(k as int, 1, n as int);
                lemma_wrap_index(k as int, 2, n as int);
            }
            let c = cross_exec(self.points[k], self.points[k1], self.points[k2]);
            if c <= 0 {
                proof {
                    assert(!triple_ccw(self.points@, k as int));
                }
                return false;
            }
            proof {
                assert(triple_ccw(self.points@, k as int));
            }
            k += 1;
        }
        true
    }
}

} // verus!
