//! The 3D per-tick advance mirrors the 2D one, with an up axis carried for
//! the host's orientation update.

use follow_path::follow_path3::{FollowPath3, Path3, Vec3};

fn v(x: i64, y: i64, z: i64) -> Vec3 {
    Vec3 { x, y, z }
}

fn up() -> Vec3 {
    v(0, 1, 0)
}

#[test]
fn advances_along_z() {
    let mut fp = FollowPath3 {
        path: Path3 { points: vec![v(0, 0, 0), v(0, 0, 10_000)], is_loop: false },
        cur_target: 1,
        speed: 5_000,
        epsilon: 10,
        up_axis: up(),
    };
    let mut pos = v(0, 0, 0);
    let r = fp.advance(&mut pos);
    assert!(!r.removed);
    assert_eq!(pos, v(0, 0, 5_000));
    assert_eq!(r.heading, v(0, 0, 10_000));
    assert_eq!(fp.up_axis, up());
}

#[test]
fn diagonal_step_in_three_axes() {
    let mut fp = FollowPath3 {
        path: Path3 { points: vec![v(0, 0, 0), v(3_000, 4_000, 0)], is_loop: false },
        cur_target: 1,
        speed: 2_500,
        epsilon: 1,
        up_axis: up(),
    };
    let mut pos = v(0, 0, 0);
    let r = fp.advance(&mut pos);
    assert!(!r.removed);
    assert_eq!(pos, v(1_500, 2_000, 0));
}

#[test]
fn loop_wraps_in_three_dimensions() {
    let mut fp = FollowPath3 {
        path: Path3 { points: vec![v(0, 0, 0), v(10_000, 0, 0)], is_loop: true },
        cur_target: 1,
        speed: 5_000,
        epsilon: 10,
        up_axis: up(),
    };
    let mut pos = v(5_000, 0, 0);
    let r1 = fp.advance(&mut pos);
    assert!(!r1.removed);
    assert_eq!(pos, v(10_000, 0, 0));

    let r2 = fp.advance(&mut pos);
    assert!(!r2.removed);
    assert_eq!(fp.cur_target, 0);
    assert_eq!(pos, v(5_000, 0, 0));

    for _ in 0..50 {
        assert!(!fp.advance(&mut pos).removed);
    }
}

#[test]
fn completion_removes_follower() {
    let mut fp = FollowPath3 {
        path: Path3 { points: vec![v(0, 0, 0), v(10_000, 0, 0)], is_loop: false },
        cur_target: 1,
        speed: 5_000,
        epsilon: 10,
        up_axis: up(),
    };
    let mut pos = v(10_000, 0, 0);
    let r = fp.advance(&mut pos);
    assert!(r.removed);
    assert_eq!(pos, v(10_000, 0, 0));
    assert_eq!(r.heading, v(0, 0, 0));
}

#[test]
fn step_clamped_to_target() {
    let mut fp = FollowPath3 {
        path: Path3 { points: vec![v(0, 0, 0), v(1_000, 1_000, 1_000)], is_loop: false },
        cur_target: 1,
        speed: 1_000_000,
        epsilon: 1,
        up_axis: up(),
    };
    let mut pos = v(0, 0, 0);
    let r = fp.advance(&mut pos);
    assert!(!r.removed);
    assert_eq!(pos, v(1_000, 1_000, 1_000));
}
