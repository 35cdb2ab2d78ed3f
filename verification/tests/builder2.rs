//! The 2D path builder: plain-point composition, curve flattening, and the
//! loop flag.

use follow_path::follow_path2::{PathBuilder, Vec2};

fn v(x: i64, y: i64) -> Vec2 {
    Vec2 { x, y }
}

#[test]
fn plain_points_in_order() {
    let mut b = PathBuilder::new(v(0, 0));
    b.add_line_to(v(1, 2));
    b.add_line_to(v(3, 4));
    b.add_line_to(v(5, 6));
    let pts = b.build_points();
    assert_eq!(pts.len(), 3);
    assert_eq!(pts[0], v(1, 2));
    assert_eq!(pts[1], v(3, 4));
    assert_eq!(pts[2], v(5, 6));
}

#[test]
fn build_path_loop_flags() {
    let mut b = PathBuilder::new(v(0, 0));
    b.add_line_to(v(10, 0));
    let open_path = b.build_path();
    let looping = b.build_looping_path();
    assert!(!open_path.is_loop);
    assert!(looping.is_loop);
    assert_eq!(open_path.points, looping.points);
}

#[test]
fn repeated_builds_agree() {
    let mut b = PathBuilder::new(v(0, 0));
    b.add_line_to(v(7, 7));
    b.add_quadratic_bezier_curve(v(10_000, 0), v(5_000, 10_000), 100);
    let first = b.build_points();
    let second = b.build_points();
    assert_eq!(first, second);
}

#[test]
fn quadratic_ends_exactly_on_endpoint() {
    let mut b = PathBuilder::new(v(0, 0));
    b.add_quadratic_bezier_curve(v(10_000, 0), v(5_000, 10_000), 1);
    let pts = b.build_points();
    assert!(pts.len() >= 1);
    assert_eq!(*pts.last().unwrap(), v(10_000, 0));
}

#[test]
fn cubic_ends_exactly_on_endpoint() {
    let mut b = PathBuilder::new(v(0, 0));
    b.add_cubic_bezier_curve(v(10_000, 10_000), v(2_000, 8_000), v(8_000, 2_000), 1);
    let pts = b.build_points();
    assert!(pts.len() >= 1);
    assert_eq!(*pts.last().unwrap(), v(10_000, 10_000));
}

#[test]
fn flattened_consecutive_points_distinct() {
    let mut b = PathBuilder::new(v(0, 0));
    b.add_quadratic_bezier_curve(v(10_000, 0), v(5_000, 10_000), 1);
    b.add_cubic_bezier_curve(v(0, 0), v(12_000, 4_000), v(-2_000, 4_000), 1);
    let pts = b.build_points();
    for w in pts.windows(2) {
        assert_ne!(w[0], w[1]);
    }
}

#[test]
fn convex_curve_progresses_monotonically() {
    // For this control polygon the x coordinate of the exact curve grows
    // linearly with the parameter, so flattened x values must be strictly
    // increasing.
    let mut b = PathBuilder::new(v(0, 0));
    b.add_quadratic_bezier_curve(v(10_000, 0), v(5_000, 10_000), 1);
    let pts = b.build_points();
    let mut prev_x = 0;
    for p in &pts {
        assert!(p.x > prev_x || (p.x == prev_x && *p == v(10_000, 0)));
        prev_x = p.x;
    }
}

#[test]
fn huge_straightness_degenerates_to_single_segment() {
    let mut b = PathBuilder::new(v(0, 0));
    b.add_quadratic_bezier_curve(v(10_000, 0), v(5_000, 10_000), 1_000_000_000);
    let pts = b.build_points();
    assert_eq!(pts, vec![v(10_000, 0)]);
}

#[test]
fn smaller_straightness_gives_more_points() {
    let mut fine = PathBuilder::new(v(0, 0));
    fine.add_quadratic_bezier_curve(v(10_000, 0), v(5_000, 10_000), 1);
    let mut coarse = PathBuilder::new(v(0, 0));
    coarse.add_quadratic_bezier_curve(v(10_000, 0), v(5_000, 10_000), 1_000);
    assert!(fine.build_points().len() > coarse.build_points().len());
}

#[test]
fn quadratic_midpoint_value_is_exact() {
    // This tolerance cuts the curve into two segments, so the single
    // interior sample is the curve's midpoint, (2 * ctrl + end) / 4.
    let mut b = PathBuilder::new(v(0, 0));
    b.add_quadratic_bezier_curve(v(10_000, 0), v(5_000, 10_000), 2_500);
    let pts = b.build_points();
    assert_eq!(pts, vec![v(5_000, 5_000), v(10_000, 0)]);
}

#[test]
fn cubic_midpoint_value_is_exact() {
    // Two segments again: the interior sample is the cubic's midpoint,
    // (start + 3 * ctrl1 + 3 * ctrl2 + end) / 8.
    let mut b = PathBuilder::new(v(0, 0));
    b.add_cubic_bezier_curve(v(8_000, 0), v(0, 8_000), v(8_000, 8_000), 1_000);
    let pts = b.build_points();
    assert_eq!(pts, vec![v(4_000, 6_000), v(8_000, 0)]);
}

#[test]
fn straight_control_polygon_collapses() {
    // Control point on the chord: the curve is the chord itself, and the
    // single second difference is zero, so one segment suffices.
    let mut b = PathBuilder::new(v(0, 0));
    b.add_quadratic_bezier_curve(v(10_000, 10_000), v(5_000, 5_000), 1);
    let pts = b.build_points();
    assert_eq!(pts, vec![v(10_000, 10_000)]);
}
