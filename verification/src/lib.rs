//! A 2D shadow-geometry kernel: convex polygons, the silhouette edge seen
//! from a point light, the extruded shadow quadrilateral, and homogeneous
//! texture coordinates for seam-free interpolation over that quadrilateral.
//!
//! All geometry is exact, over fixed-point integer coordinates: a caller
//! picks a scale (say, 1024 units per world unit) and every computation
//! here is integer arithmetic with proven bounds, so the parallel-line
//! test, convexity and the silhouette's angular maximum are exact rather
//! than epsilon-guarded.
use vstd::prelude::*;

pub mod line;
pub mod angle;
pub mod silhouette;
pub mod shadow;
pub mod texture;
pub mod hull;
pub mod mesh;

verus! {

/// Coordinates admitted by the kernel. Keeping every input coordinate in
/// `[-COORD_LIMIT, COORD_LIMIT]` lets all intermediate products (up to a
/// squared dot product times a squared norm product) fit in `i128`.
pub const COORD_LIMIT: i64 = 8192;

/// A point (or vector) in the plane, in fixed-point integer coordinates.
#[derive(Clone, Copy, PartialEq, Eq, Structural, Debug)]
pub struct Point {
    pub x: i64,
    pub y: i64,
}

/// Both coordinates within the admitted range.
pub open spec fn in_range(p: Point) -> bool {
    &&& -(COORD_LIMIT as int) <= p.x <= COORD_LIMIT as int
    &&& -(COORD_LIMIT as int) <= p.y <= COORD_LIMIT as int
}

/// The looser range of a ray direction, a sum of three in-range
/// coordinates (offset + vertex - light).
pub open spec fn dir_in_range(p: Point) -> bool {
    &&& -(3 * COORD_LIMIT as int) <= p.x <= 3 * COORD_LIMIT as int
    &&& -(3 * COORD_LIMIT as int) <= p.y <= 3 * COORD_LIMIT as int
}

/// Dot product of two vectors given by their components.
pub open spec fn dot(ax: int, ay: int, bx: int, by: int) -> int {
    ax * bx + ay * by
}

/// Squared Euclidean norm of a vector given by its components.
pub open spec fn norm_sq(x: int, y: int) -> int {
    x * x + y * y
}

/// Orientation of the triple (p, q, r): positive for a counter-clockwise
/// turn, negative for clockwise, zero for collinear.
pub open spec fn cross(p: Point, q: Point, r: Point) -> int {
    (q.x - p.x) * (r.y - q.y) - (q.y - p.y) * (r.x - q.x)
}

/// x component of the ray direction from the light through a polygon
/// vertex placed at a world offset.
pub open spec fn dir_x(position: Point, v: Point, light: Point) -> int {
    position.x + v.x - light.x
}

/// y component of the same ray direction.
pub open spec fn dir_y(position: Point, v: Point, light: Point) -> int {
    position.y + v.y - light.y
}

impl Point {
    /// The zero vector.
    pub open spec fn is_zero(self) -> bool {
        self.x == 0 && self.y == 0
    }
}

/// An ordered sequence of vertices forming a convex boundary, in the
/// polygon's local coordinate frame. Produced once by the generator and
/// then read every frame by the silhouette search.
#[derive(Clone, Debug)]
pub struct ConvexPolygon {
    pub points: Vec<Point>,
}

impl ConvexPolygon {
    /// Every vertex within the admitted coordinate range.
    pub open spec fn wf(&self) -> bool {
        forall|k: int| 0 <= k < self.points@.len() ==> in_range(#[trigger] self.points@[k])
    }
}

/// The squared norm of a vector is never negative.
pub proof fn lemma_norm_sq_nonneg(x: int, y: int)
    ensures
        norm_sq(x, y) >= 0,
{
    assert(x * x >= 0) by (nonlinear_arith);
    assert(y * y >= 0) by (nonlinear_arith);
}

/// A nonzero vector has a strictly positive squared norm.
pub proof fn lemma_norm_sq_pos(x: int, y: int)
    requires
        x != 0 || y != 0,
    ensures
        norm_sq(x, y) > 0,
{
    assert(x != 0 ==> x * x > 0) by (nonlinear_arith);
    assert(y != 0 ==> y * y > 0) by (nonlinear_arith);
    assert(x * x >= 0) by (nonlinear_arith);
    assert(y * y >= 0) by (nonlinear_arith);
}

} // verus!
