//! Path following for 2D and 3D entities.
//!
//! A path is described incrementally with a builder as a chain of straight
//! and bezier segments, flattened into an ordered list of waypoints, and then
//! walked by a follower that advances one tick at a time: it moves toward the
//! current waypoint, detects arrival within a tolerance, advances to the next
//! waypoint (wrapping around on looping paths), and reports completion on
//! non-looping ones.
//!
//! All coordinates are signed fixed-point values: plain integers in whatever
//! scale the host chooses (for example thousandths of a world unit). Working
//! on integers keeps every geometric step exact, so the whole core - the
//! flattening, the builder and the per-tick advance - is verified.

use vstd::prelude::*;

pub mod arith;
pub mod bezier;
pub mod follow_path2;
pub mod follow_path3;

verus! {

/// Largest coordinate magnitude the library accepts. Keeping coordinates in
/// this band lets every intermediate product of the geometry fit its machine
/// integer.
pub const MAX_COORD: i64 = 1_000_000_000;

/// A coordinate the library can do exact arithmetic on.
pub open spec fn in_range(c: int) -> bool {
    -(MAX_COORD as int) <= c <= MAX_COORD as int
}

} // verus!
