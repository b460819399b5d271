//! Implicit 2D lines and their exact intersection by Cramer's rule.
//!
//! A line is the set of points (x, y) with a*x + b*y + c == 0. Intersections
//! are returned as exact homogeneous points, so parallel and coincident
//! lines are recognised exactly: with integer coefficients the determinant
//! is either zero or at least one, which is the integer reading of the
//! "determinant below epsilon" policy for rejecting near-singular systems.
use vstd::prelude::*;
use crate::{Point, in_range, COORD_LIMIT};

verus! {

/// Coefficients (a, b, c) of the implicit line a*x + b*y + c == 0.
#[derive(Clone, Copy, PartialEq, Eq, Structural, Debug)]
pub struct MyLine {
    pub a: i64,
    pub b: i64,
    pub c: i64,
}

/// An exact intersection point in homogeneous form: the affine point is
/// (xn / w, yn / w), with w != 0.
#[derive(Clone, Copy, PartialEq, Eq, Structural, Debug)]
pub struct HomPoint {
    pub xn: i128,
    pub yn: i128,
    pub w: i128,
}

/// Coefficient bounds guaranteed by `MyLine::from_segment` on in-range
/// points; they keep every product in `intersect` inside `i128`.
pub open spec fn line_in_range(l: MyLine) -> bool {
    &&& -(2 * COORD_LIMIT as int) <= l.a <= 2 * COORD_LIMIT as int
    &&& -(2 * COORD_LIMIT as int) <= l.b <= 2 * COORD_LIMIT as int
    &&& -(4 * COORD_LIMIT as int * COORD_LIMIT as int) <= l.c
        <= 4 * COORD_LIMIT as int * COORD_LIMIT as int
}

/// The determinant of the 2x2 system formed by two lines.
pub open spec fn det_of(l1: MyLine, l2: MyLine) -> int {
    l1.a * l2.b - l1.b * l2.a
}

/// The numerator of the intersection's x coordinate, by Cramer's rule.
pub open spec fn cramer_xn(l1: MyLine, l2: MyLine) -> int {
    l1.b * l2.c - l1.c * l2.b
}

/// The numerator of the intersection's y coordinate, by Cramer's rule.
pub open spec fn cramer_yn(l1: MyLine, l2: MyLine) -> int {
    l1.c * l2.a - l1.a * l2.c
}

/// The affine point p satisfies the line equation.
pub open spec fn on_line(l: MyLine, p: Point) -> bool {
    l.a * p.x + l.b * p.y + l.c == 0
}

/// The homogeneous point h satisfies the line equation, cleared of the
/// denominator w.
pub open spec fn on_line_h(l: MyLine, h: HomPoint) -> bool {
    l.a * h.xn + l.b * h.yn + l.c * h.w == 0
}

/// Cramer's rule solves the first line equation: a ring identity.
#[verifier::rlimit(50)]
pub(crate) proof fn lemma_cramer1(a1: int, b1: int, c1: int, a2: int, b2: int, c2: int, xn: int, yn: int, w: int)
    by (nonlinear_arith)
    requires
        xn == b1 * c2 - c1 * b2,
        yn == c1 * a2 - a1 * c2,
        w == a1 * b2 - b1 * a2,
    ensures
        a1 * xn + b1 * yn + c1 * w == 0,
{
}

/// Cramer's rule solves the second line equation: a ring identity.
#[verifier::rlimit(50)]
pub(crate) proof fn lemma_cramer2(a1: int, b1: int, c1: int, a2: int, b2: int, c2: int, xn: int, yn: int, w: int)
    by (nonlinear_arith)
    requires
        xn == b1 * c2 - c1 * b2,
        yn == c1 * a2 - a1 * c2,
        w == a1 * b2 - b1 * a2,
    ensures
        a2 * xn + b2 * yn + c2 * w == 0,
{
}

impl MyLine {
    /// The line through p and q: a = p.y - q.y, b = q.x - p.x, and c chosen
    /// so that p lies on the line. Equal points yield the degenerate line
    /// (0, 0, 0).
    pub fn from_segment(p: Point, q: Point) -> (r: MyLine)
        requires
            in_range(p),
            in_range(q),
        ensures
            r.a == p.y - q.y,
            r.b == q.x - p.x,
            line_in_range(r),
            on_line(r, p),
            on_line(r, q),
            (r.a == 0 && r.b == 0) <==> p == q,
    {
        let a: i64 = p.y - q.y;
        let b: i64 = q.x - p.x;
        proof {
            assert(a * p.x <= 2 * COORD_LIMIT as int * COORD_LIMIT as int
                && a * p.x >= -2 * COORD_LIMIT as int * COORD_LIMIT as int
                && b * p.y <= 2 * COORD_LIMIT as int * COORD_LIMIT as int
                && b * p.y >= -2 * COORD_LIMIT as int * COORD_LIMIT as int) by (nonlinear_arith)
                requires
                    -2 * COORD_LIMIT as int <= a <= 2 * COORD_LIMIT as int,
                    -2 * COORD_LIMIT as int <= b <= 2 * COORD_LIMIT as int,
                    -(COORD_LIMIT as int) <= p.x <= COORD_LIMIT as int,
                    -(COORD_LIMIT as int) <= p.y <= COORD_LIMIT as int;
        }
        let c: i64 = -(a * p.x) - b * p.y;
        let r = MyLine { a, b, c };
        proof {
            assert(r.a * q.x + r.b * q.y + r.c == 0) by (nonlinear_arith)
                requires
                    r.a == p.y - q.y,
                    r.b == q.x - p.x,
                    r.c == -(r.a * p.x) - r.b * p.y;
        }
        r
    }
}

/// The determinant a*d - b*c, exact in `i128`. The bound on the inputs
/// keeps the difference of products representable.
pub fn det(a: i64, b: i64, c: i64, d: i64) -> (r: i128)
    requires
        -0x4000_0000_0000_0000 <= a <= 0x4000_0000_0000_0000,
        -0x4000_0000_0000_0000 <= b <= 0x4000_0000_0000_0000,
        -0x4000_0000_0000_0000 <= c <= 0x4000_0000_0000_0000,
        -0x4000_0000_0000_0000 <= d <= 0x4000_0000_0000_0000,
    ensures
        r == a * d - b * c,
        -0x2000_0000_0000_0000_0000_0000_0000_0000 <= r <= 0x2000_0000_0000_0000_0000_0000_0000_0000,
{
    proof {
        assert(a * d <= 0x1000_0000_0000_0000_0000_0000_0000_0000i128
            && a * d >= -0x1000_0000_0000_0000_0000_0000_0000_0000i128
            && b * c <= 0x1000_0000_0000_0000_0000_0000_0000_0000i128
            && b * c >= -0x1000_0000_0000_0000_0000_0000_0000_0000i128) by (nonlinear_arith)
            requires
                -0x4000_0000_0000_0000i128 <= a <= 0x4000_0000_0000_0000i128,
                -0x4000_0000_0000_0000i128 <= b <= 0x4000_0000_0000_0000i128,
                -0x4000_0000_0000_0000i128 <= c <= 0x4000_0000_0000_0000i128,
                -0x4000_0000_0000_0000i128 <= d <= 0x4000_0000_0000_0000i128;
    }
    (a as i128) * (d as i128) - (b as i128) * (c as i128)
}

/// Intersection of two lines by Cramer's rule, as an exact homogeneous
/// point. `None` exactly when the determinant is zero, i.e. the lines are
/// parallel or coincident; callers treat that as "no intersection", never
/// as an error.
pub fn intersect(line1: MyLine, line2: MyLine) -> (r: Option<HomPoint>)
    requires
        line_in_range(line1),
        line_in_range(line2),
    ensures
        r is None <==> det_of(line1, line2) == 0,
        match r {
            Some(h) => {
                &&& h.w == det_of(line1, line2)
                &&& h.w != 0
                &&& h.xn == cramer_xn(line1, line2)
                &&& h.yn == cramer_yn(line1, line2)
                &&& on_line_h(line1, h)
                &&& on_line_h(line2, h)
                &&& -0x2000_0000 <= h.w <= 0x2000_0000
                &&& -0x800_0000_0000 <= h.xn <= 0x800_0000_0000
                &&& -0x800_0000_0000 <= h.yn <= 0x800_0000_0000
            },
            None => true,
        },
{
    let divisor: i128 = det(line1.a, line1.b, line2.a, line2.b);
    if divisor == 0 {
        return None;
    }
    let e: i128 = det(line1.c, line1.b, line2.c, line2.b);
    let f: i128 = det(line1.a, line1.c, line2.a, line2.c);
    proof {
        assert(-0x2000_0000 <= divisor <= 0x2000_0000 && -0x800_0000_0000 <= e <= 0x800_0000_0000
            && -0x800_0000_0000 <= f <= 0x800_0000_0000) by (nonlinear_arith)
            requires
                divisor == line1.a * line2.b - line1.b * line2.a,
                e == line1.c * line2.b - line1.b * line2.c,
                f == line1.a * line2.c - line1.c * line2.a,
                -0x4000 <= line1.a <= 0x4000,
                -0x4000 <= line1.b <= 0x4000,
                -0x1000_0000 <= line1.c <= 0x1000_0000,
                -0x4000 <= line2.a <= 0x4000,
                -0x4000 <= line2.b <= 0x4000,
                -0x1000_0000 <= line2.c <= 0x1000_0000;
    }
    let xn: i128 = -e;
    let yn: i128 = -f;
    let h = HomPoint { xn, yn, w: divisor };
    proof {
        lemma_cramer1(
            line1.a as int,
            line1.b as int,
            line1.c as int,
            line2.a as int,
            line2.b as int,
            line2.c as int,
            h.xn as int,
            h.yn as int,
            h.w as int,
        );
        lemma_cramer2(
            line1.a as int,
            line1.b as int,
            line1.c as int,
            line2.a as int,
            line2.b as int,
            line2.c as int,
            h.xn as int,
            h.yn as int,
            h.w as int,
        );
    }
    Some(h)
}

} // verus!
