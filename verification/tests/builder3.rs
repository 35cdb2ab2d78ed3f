//! The 3D path builder.

use follow_path::follow_path3::{PathBuilder, Vec3};

fn v(x: i64, y: i64, z: i64) -> Vec3 {
    Vec3 { x, y, z }
}

#[test]
fn plain_points_in_order_3d() {
    let mut b = PathBuilder::new(v(0, 0, 0));
    b.add_line_to(v(1, 2, 3));
    b.add_line_to(v(4, 5, 6));
    let pts = b.build_points();
    assert_eq!(pts, vec![v(1, 2, 3), v(4, 5, 6)]);
}

#[test]
fn loop_flags_3d() {
    let mut b = PathBuilder::new(v(0, 0, 0));
    b.add_line_to(v(1, 1, 1));
    assert!(!b.build_path().is_loop);
    assert!(b.build_looping_path().is_loop);
}

#[test]
fn quadratic_ends_exactly_on_endpoint_3d() {
    let mut b = PathBuilder::new(v(0, 0, 0));
    b.add_quadratic_bezier_curve(v(10_000, 0, 2_000), v(5_000, 10_000, -3_000), 1);
    let pts = b.build_points();
    assert_eq!(*pts.last().unwrap(), v(10_000, 0, 2_000));
}

#[test]
fn cubic_ends_exactly_on_endpoint_3d() {
    let mut b = PathBuilder::new(v(0, 0, 0));
    b.add_cubic_bezier_curve(v(0, 0, 10_000), v(4_000, 0, 2_000), v(-4_000, 0, 8_000), 1);
    let pts = b.build_points();
    assert_eq!(*pts.last().unwrap(), v(0, 0, 10_000));
    for w in pts.windows(2) {
        assert_ne!(w[0], w[1]);
    }
}

#[test]
fn huge_straightness_degenerates_to_single_segment_3d() {
    let mut b = PathBuilder::new(v(0, 0, 0));
    b.add_quadratic_bezier_curve(v(10_000, 0, 0), v(5_000, 10_000, 4_000), 1_000_000_000);
    assert_eq!(b.build_points(), vec![v(10_000, 0, 0)]);
}
