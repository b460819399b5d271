use shadow_kernel::hull::{generate_convex_polygon, strip_straight_vertices};
use shadow_kernel::line::{intersect, MyLine};
use shadow_kernel::mesh::{gen_line_indices, gen_shadow_indices, gen_triangulation_indices};
use shadow_kernel::angle::shortest_angle_le;
use shadow_kernel::shadow::{isqrt, shadow_shape};
use shadow_kernel::silhouette::{brute_shadow_segment, shadow_segments};
use shadow_kernel::texture::projective_textures;
use shadow_kernel::{ConvexPolygon, Point};

fn pt(x: i64, y: i64) -> Point {
    Point { x, y }
}

#[test]
fn check_convex() {
    assert!(generate_convex_polygon(10, 1).is_convex());
}

#[test]
fn check_convex_large_disk() {
    quad_rand::srand(42);
    let poly = generate_convex_polygon(16, 1000);
    assert!(poly.is_convex());
    assert!(poly.points.len() >= 1);
    assert!(poly.points.len() <= 16);
    for p in poly.points.iter() {
        assert!(-1000 <= p.x && p.x <= 1000);
        assert!(-1000 <= p.y && p.y <= 1000);
        assert!(p.x * p.x + p.y * p.y <= 1000 * 1000);
    }
}

#[test]
fn strip_collinear_boundary_points() {
    // A convex ring that keeps a straight-through boundary vertex, as a
    // hull algorithm may under ties: the middle of the top edge must go.
    let ring = vec![pt(0, 0), pt(10, 0), pt(10, 5), pt(5, 5), pt(0, 5)];
    let stripped = strip_straight_vertices(ring);
    assert_eq!(stripped, vec![pt(0, 0), pt(10, 0), pt(10, 5), pt(0, 5)]);
    // A run of several collinear vertices needs several rounds.
    let flat = vec![pt(0, 0), pt(10, 0), pt(10, 9), pt(7, 9), pt(4, 9), pt(1, 9), pt(0, 9)];
    let stripped = strip_straight_vertices(flat);
    assert_eq!(stripped, vec![pt(0, 0), pt(10, 0), pt(10, 9), pt(0, 9)]);
    // Fewer than three points are left untouched.
    let pair = vec![pt(3, 3), pt(4, 4)];
    assert_eq!(strip_straight_vertices(pair), vec![pt(3, 3), pt(4, 4)]);
}

#[test]
fn projective_textures_identity() {
    let shape = [pt(0, 0), pt(0, 1), pt(1, 1), pt(1, 0)];
    let uv = [pt(0, 0), pt(0, 1), pt(1, 1), pt(1, 0)];
    let new_uvs = projective_textures(&shape, &uv);
    for i in 0..4 {
        let tex = new_uvs[i];
        // The interpolation weight is (d + d_partner) / d_partner == 2 for
        // the unit square, whose diagonals cross in its middle.
        assert_eq!(tex.q, 2 * tex.w);
        // The shader pass divides (u*q, v*q) by q and must recover uv.
        let u = tex.uq as f64 / tex.w as f64;
        let v = tex.vq as f64 / tex.w as f64;
        let q = tex.q as f64 / tex.w as f64;
        assert_eq!(u / q, uv[i].x as f64);
        assert_eq!(v / q, uv[i].y as f64);
        // Exactly, in integers: uq == u * q and vq == v * q.
        assert_eq!(tex.uq, uv[i].x as i128 * tex.q);
        assert_eq!(tex.vq, uv[i].y as i128 * tex.q);
    }
}

#[test]
fn projective_textures_parallel_diagonals() {
    // A degenerate "quad" on a single horizontal line: the diagonals are
    // coincident, so every weight falls back to 1.
    let shape = [pt(0, 0), pt(1, 0), pt(2, 0), pt(3, 0)];
    let uv = [pt(0, 0), pt(0, 100), pt(100, 100), pt(100, 0)];
    let new_uvs = projective_textures(&shape, &uv);
    for i in 0..4 {
        let tex = new_uvs[i];
        assert_eq!(tex.q, tex.w);
        assert_eq!(tex.uq, uv[i].x as i128 * tex.q);
        assert_eq!(tex.vq, uv[i].y as i128 * tex.q);
    }
}

#[test]
fn lines_intersection() {
    let horizontal = MyLine::from_segment(pt(0, 0), pt(1, 0));
    let vertical = MyLine::from_segment(pt(0, 0), pt(0, 1));
    let crossing = intersect(horizontal, vertical).expect("perpendicular lines must cross");
    assert_eq!(crossing.xn, 0);
    assert_eq!(crossing.yn, 0);
    assert!(crossing.w != 0);
}

#[test]
fn lines_intersection_off_origin() {
    // x == 2 crossed with y == 3 is exactly (2, 3), read off xn/w and yn/w.
    let vertical = MyLine::from_segment(pt(2, 0), pt(2, 1));
    let horizontal = MyLine::from_segment(pt(0, 3), pt(1, 3));
    let crossing = intersect(vertical, horizontal).expect("must cross");
    assert_eq!(crossing.xn, 2 * crossing.w);
    assert_eq!(crossing.yn, 3 * crossing.w);
}

#[test]
fn lines_equal() {
    let horizontal1 = MyLine::from_segment(pt(0, 0), pt(1, 0));
    let horizontal2 = MyLine::from_segment(pt(0, 0), pt(1, 0));
    assert!(intersect(horizontal1, horizontal2).is_none());
}

#[test]
fn lines_parallel() {
    let horizontal1 = MyLine::from_segment(pt(0, 0), pt(1, 0));
    let horizontal2 = MyLine::from_segment(pt(0, 1), pt(1, 1));
    assert!(intersect(horizontal1, horizontal2).is_none());
}

#[test]
fn right_angle_order() {
    // Two perpendicular pairs compare equal in the shortest-angle order:
    // each is at most the other.
    assert!(shortest_angle_le(pt(0, 1), pt(1, 0), pt(1, 0), pt(0, -1)));
    assert!(shortest_angle_le(pt(1, 0), pt(0, -1), pt(0, 1), pt(1, 0)));
    // A 45-degree pair sits strictly between 0 and 90 degrees.
    assert!(shortest_angle_le(pt(1, 1), pt(1, 0), pt(0, 1), pt(1, 0)));
    assert!(!shortest_angle_le(pt(0, 1), pt(1, 0), pt(1, 1), pt(1, 0)));
    // An obtuse pair exceeds a right angle.
    assert!(!shortest_angle_le(pt(-1, 1), pt(1, 0), pt(0, 1), pt(1, 0)));
    assert!(shortest_angle_le(pt(0, 1), pt(1, 0), pt(-1, 1), pt(1, 0)));
}

#[test]
fn silhouette_of_diamond() {
    // A diamond with the light to its right: the vertical edge through
    // (0, 1) and (0, -1) subtends the widest angle from the light.
    let poly = ConvexPolygon { points: vec![pt(1, 0), pt(0, 1), pt(-1, 0), pt(0, -1)] };
    let edge = brute_shadow_segment(&poly, pt(0, 0), pt(3, 0));
    assert_eq!(edge, (pt(0, 1), pt(0, -1)));
}

#[test]
fn silhouette_symmetry_under_reflection() {
    // Reflecting polygon, offset and light across the x axis reflects the
    // silhouette edge: the concrete face of the equivariance law.
    let points = vec![pt(1, 0), pt(0, 1), pt(-1, 0), pt(0, -1)];
    let reflected: Vec<Point> = points.iter().map(|p| pt(p.x, -p.y)).collect();
    let poly = ConvexPolygon { points };
    let poly_reflected = ConvexPolygon { points: reflected };
    let position = pt(1, 2);
    let light = pt(5, 3);
    let edge = brute_shadow_segment(&poly, position, light);
    let edge_reflected = brute_shadow_segment(
        &poly_reflected,
        pt(position.x, -position.y),
        pt(light.x, -light.y),
    );
    assert_eq!(edge_reflected.0, pt(edge.0.x, -edge.0.y));
    assert_eq!(edge_reflected.1, pt(edge.1.x, -edge.1.y));
}

#[test]
fn silhouette_degenerate_polygon() {
    // With a single vertex there is no pair at all: the zero pair.
    let poly = ConvexPolygon { points: vec![pt(2, 2)] };
    let edge = brute_shadow_segment(&poly, pt(0, 0), pt(5, 5));
    assert_eq!(edge, (pt(0, 0), pt(0, 0)));
}

#[test]
fn shadow_segments_of_empty_polygon() {
    let poly = ConvexPolygon { points: vec![] };
    assert_eq!(shadow_segments(&poly), vec![]);
}

#[test]
fn shadow_segments_full_graph() {
    let poly = ConvexPolygon { points: vec![pt(0, 0), pt(1, 0), pt(0, 1)] };
    let segments = shadow_segments(&poly);
    assert_eq!(
        segments,
        vec![
            (pt(0, 0), pt(1, 0)),
            (pt(0, 0), pt(0, 1)),
            (pt(1, 0), pt(0, 0)),
            (pt(1, 0), pt(0, 1)),
            (pt(0, 1), pt(0, 0)),
            (pt(0, 1), pt(1, 0)),
        ]
    );
}

#[test]
fn shadow_shape_ordering_and_length() {
    // Endpoint (0, 0) seen from light (-3, -4): direction (3, 4) of exact
    // length 5, so extrusion by 10 lands exactly at (6, 8).
    let segment = (pt(0, 0), pt(1, 0));
    let light = pt(-3, -4);
    let position = pt(0, 0);
    let quad = shadow_shape(segment, light, position, 10).expect("light is off both endpoints");
    assert_eq!(quad[1], pt(0, 0));
    assert_eq!(quad[2], pt(1, 0));
    assert_eq!(quad[0], pt(6, 8));
    let dx = (quad[0].x - quad[1].x) as f64;
    let dy = (quad[0].y - quad[1].y) as f64;
    assert_eq!(dx * dx + dy * dy, 100.0);
    // The second endpoint's direction (4, 4) has irrational length
    // sqrt(32) ~ 5.66, nearest-integer norm 6: nearest-rounded offset
    // (7, 7) from the endpoint (1, 0), of length sqrt(98) ~ 9.9.
    assert_eq!(quad[3], pt(8, 7));
    let dx = (quad[3].x - quad[2].x) as f64;
    let dy = (quad[3].y - quad[2].y) as f64;
    let dev = (dx * dx + dy * dy).sqrt() - 10.0;
    assert!(dev.abs() < 0.11);
}

#[test]
fn shadow_shape_light_on_endpoint() {
    // The light sitting exactly on an endpoint's world position is the
    // one recoverable failure: the caller skips this shadow for a frame.
    let segment = (pt(0, 0), pt(1, 0));
    let quad = shadow_shape(segment, pt(2, 3), pt(2, 3), 10);
    assert!(quad.is_none());
}

#[test]
fn isqrt_exact_values() {
    assert_eq!(isqrt(0), 0);
    assert_eq!(isqrt(1), 1);
    assert_eq!(isqrt(2), 1);
    assert_eq!(isqrt(3), 1);
    assert_eq!(isqrt(4), 2);
    assert_eq!(isqrt(24), 4);
    assert_eq!(isqrt(25), 5);
    assert_eq!(isqrt(u64::MAX), 0xFFFF_FFFF);
}

#[test]
fn line_indices_square() {
    assert_eq!(gen_line_indices(4), vec![0, 1, 1, 2, 2, 3, 3, 0]);
}

#[test]
fn triangulation_indices_pentagon() {
    assert_eq!(gen_triangulation_indices(5), vec![0, 1, 2, 0, 2, 3, 0, 3, 4]);
    assert_eq!(gen_triangulation_indices(2), Vec::<u16>::new());
    assert_eq!(gen_triangulation_indices(1), Vec::<u16>::new());
}

#[test]
fn shadow_indices_two_quads() {
    assert_eq!(gen_shadow_indices(2), vec![0, 1, 2, 3, 2, 0, 4, 5, 6, 7, 6, 4]);
    assert_eq!(gen_shadow_indices(0), Vec::<u16>::new());
}

#[test]
fn generated_polygon_has_sampled_bias_extremes() {
    // The sampler draws x across the whole diameter; over many draws the
    // hull must actually spread out, which fails if the random wrapper
    // or the hull call returned fixed values.
    quad_rand::srand(7);
    let poly = generate_convex_polygon(64, 512);
    assert!(poly.points.len() >= 3);
    let min_x = poly.points.iter().map(|p| p.x).min().unwrap();
    let max_x = poly.points.iter().map(|p| p.x).max().unwrap();
    assert!(max_x > min_x);
    assert!(poly.is_convex());
}
