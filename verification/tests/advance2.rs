//! The 2D per-tick advance: arrival, target advance, loop wraparound,
//! completion, and step clamping.

use follow_path::follow_path2::{FollowPath2, Path2, Vec2};

fn v(x: i64, y: i64) -> Vec2 {
    Vec2 { x, y }
}

fn corner_path(is_loop: bool) -> Path2 {
    Path2 { points: vec![v(0, 0), v(10_000, 0), v(10_000, 10_000)], is_loop }
}

#[test]
fn arrival_advances_and_keeps_moving_same_tick() {
    let mut fp = FollowPath2 { path: corner_path(false), cur_target: 1, speed: 5_000, epsilon: 10 };
    let mut pos = v(0, 0);

    let r1 = fp.advance(&mut pos);
    assert!(!r1.removed);
    assert_eq!(pos, v(5_000, 0));
    assert_eq!(fp.cur_target, 1);
    assert_eq!(r1.heading, v(10_000, 0));

    let r2 = fp.advance(&mut pos);
    assert!(!r2.removed);
    assert_eq!(pos, v(10_000, 0));
    assert_eq!(fp.cur_target, 1);

    // Arrival at (10000, 0): the target advances to index 2 and the entity
    // keeps moving toward it in the same tick, ending strictly between the
    // two corners instead of stalling.
    let r3 = fp.advance(&mut pos);
    assert!(!r3.removed);
    assert_eq!(fp.cur_target, 2);
    assert_eq!(pos, v(10_000, 5_000));
    assert_eq!(r3.heading, v(0, 10_000));
}

#[test]
fn loop_wraps_to_first_point_and_never_finishes() {
    let mut fp = FollowPath2 { path: corner_path(true), cur_target: 2, speed: 5_000, epsilon: 10 };
    let mut pos = v(10_000, 5_000);

    let r1 = fp.advance(&mut pos);
    assert!(!r1.removed);
    assert_eq!(pos, v(10_000, 10_000));

    // Arrival on the last waypoint of a looping path: the target wraps to
    // index 0 and the entity starts back toward (0, 0).
    let r2 = fp.advance(&mut pos);
    assert!(!r2.removed);
    assert_eq!(fp.cur_target, 0);
    // distance is sqrt(2) * 10000; the clamped step moves 3535 on each axis.
    assert_eq!(pos, v(6_465, 6_465));

    for _ in 0..100 {
        let r = fp.advance(&mut pos);
        assert!(!r.removed);
    }
}

#[test]
fn completion_removes_follower_and_stops_moving() {
    let mut fp = FollowPath2 { path: corner_path(false), cur_target: 2, speed: 5_000, epsilon: 10 };
    let mut pos = v(10_000, 5_000);

    let r1 = fp.advance(&mut pos);
    assert!(!r1.removed);
    assert_eq!(pos, v(10_000, 10_000));

    // Arrival on the last waypoint of a non-looping path: the follower
    // reports removal and neither the state nor the position changes.
    let r2 = fp.advance(&mut pos);
    assert!(r2.removed);
    assert_eq!(r2.heading, v(0, 0));
    assert_eq!(pos, v(10_000, 10_000));
    assert_eq!(fp.cur_target, 2);
}

#[test]
fn step_is_clamped_to_remaining_distance() {
    let mut fp = FollowPath2 {
        path: Path2 { points: vec![v(0, 0), v(10_000, 0)], is_loop: false },
        cur_target: 1,
        speed: 5_000,
        epsilon: 1,
    };
    let mut pos = v(9_000, 0);
    let r = fp.advance(&mut pos);
    assert!(!r.removed);
    assert_eq!(pos, v(10_000, 0));
}

#[test]
fn diagonal_step_is_clamped_exactly() {
    let mut fp = FollowPath2 {
        path: Path2 { points: vec![v(0, 0), v(3_000, 4_000)], is_loop: false },
        cur_target: 1,
        speed: 2_500,
        epsilon: 1,
    };
    let mut pos = v(0, 0);
    // distance 5000, speed 2500: exactly half the gap on each axis.
    let r = fp.advance(&mut pos);
    assert!(!r.removed);
    assert_eq!(pos, v(1_500, 2_000));
    assert_eq!(r.heading, v(3_000, 4_000));
}

#[test]
fn zero_epsilon_on_target_skips_rotation_and_stays() {
    let mut fp = FollowPath2 {
        path: Path2 { points: vec![v(0, 0), v(10_000, 0)], is_loop: false },
        cur_target: 1,
        speed: 5_000,
        epsilon: 0,
    };
    let mut pos = v(10_000, 0);
    // With a zero tolerance arrival is never detected; the direction is
    // degenerate, so the entity stays put and the heading is zero.
    let r = fp.advance(&mut pos);
    assert!(!r.removed);
    assert_eq!(pos, v(10_000, 0));
    assert_eq!(r.heading, v(0, 0));
    assert_eq!(fp.cur_target, 1);
}

#[test]
fn arrival_tolerance_is_strict() {
    let mut fp = FollowPath2 {
        path: Path2 { points: vec![v(0, 0), v(10_000, 0)], is_loop: false },
        cur_target: 1,
        speed: 5,
        epsilon: 10,
    };
    // distance exactly equal to epsilon: not yet an arrival.
    let mut pos = v(9_990, 0);
    let r = fp.advance(&mut pos);
    assert!(!r.removed);
    assert_eq!(fp.cur_target, 1);
    assert_eq!(pos, v(9_995, 0));

    // distance strictly within epsilon: arrival, and the path is exhausted.
    let mut near = v(9_991, 0);
    let r2 = fp.advance(&mut near);
    assert!(r2.removed);
}

#[test]
fn default_path_is_empty_and_open() {
    let p = Path2::default();
    assert_eq!(p.points.len(), 0);
    assert!(!p.is_loop);
}

#[test]
fn cloned_path_matches() {
    let p = corner_path(true);
    let q = p.clone();
    assert_eq!(p.points, q.points);
    assert_eq!(p.is_loop, q.is_loop);
}
