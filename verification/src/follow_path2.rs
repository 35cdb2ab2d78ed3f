//! The 2D path core: points, segments, the path builder with its bezier
//! flattening, the flattened path, and the per-tick follower.

use vstd::prelude::*;
use vstd::arithmetic::mul::lemma_mul_upper_bound;

use crate::arith::abs_val;
use crate::arith::lemma_sqrt_nat;
use crate::arith::lemma_step_coord_bounds;
use crate::arith::max_val;
use crate::arith::sqrt_nat;
use crate::arith::step_coord;
use crate::arith::step_coord_exec;
use crate::arith::isqrt64;
use crate::bezier::cubic_at;
use crate::bezier::cubic_coord;
use crate::bezier::lemma_quad_at_bounds;
use crate::bezier::lemma_quad_at_monotone;
use crate::bezier::quad_at;
use crate::bezier::quad_coord;
use crate::bezier::seg_count;
use crate::bezier::seg_count_exec;
use crate::bezier::second_diff;
use crate::in_range;

verus! {

/// A 2D point with fixed-point integer coordinates.
#[derive(Clone, Copy, PartialEq, Eq, Structural, Debug)]
pub struct Vec2 {
    pub x: i64,
    pub y: i64,
}

impl Vec2 {
    /// Both coordinates lie in the band the library does exact arithmetic on.
    pub open spec fn wf(self) -> bool {
        in_range(self.x as int) && in_range(self.y as int)
    }
}

/// Waypoints a run of curve samples contributes to a path: the samples in
/// order, with each sample equal to its predecessor dropped, closed by the
/// exact end point (emitted only where the last kept sample is not already
/// that end point).
pub open spec fn dedup_rec(last: Vec2, pts: Seq<Vec2>, end: Vec2) -> Seq<Vec2>
    decreases pts.len(),
{
    if pts.len() == 0 {
        if last == end {
            Seq::empty()
        } else {
            seq![end]
        }
    } else if pts[0] == last {
        dedup_rec(last, pts.drop_first(), end)
    } else {
        seq![pts[0]] + dedup_rec(pts[0], pts.drop_first(), end)
    }
}

/// `dedup_rec` from the curve's start, forced non-empty: a curve always
/// contributes at least its end point, even when it collapses to the start.
pub open spec fn dedup_spec(start: Vec2, pts: Seq<Vec2>, end: Vec2) -> Seq<Vec2> {
    let r = dedup_rec(start, pts, end);
    if r.len() == 0 {
        seq![end]
    } else {
        r
    }
}

proof fn lemma_dedup_rec_props(last: Vec2, pts: Seq<Vec2>, end: Vec2)
    ensures
        ({
            let r = dedup_rec(last, pts, end);
            &&& r.len() == 0 ==> last == end
            &&& r.len() > 0 ==> r[r.len() - 1] == end
            &&& r.len() > 0 ==> r[0] != last
            &&& forall|j: int| #![trigger r[j]] 0 <= j < r.len() - 1 ==> r[j] != r[j + 1]
            &&& forall|j: int| 0 <= j < r.len() ==> (r[j] == end || pts.contains(r[j]))
        }),
    decreases pts.len(),
{
    let r = dedup_rec(last, pts, end);
    if pts.len() == 0 {
    } else if pts[0] == last {
        lemma_dedup_rec_props(last, pts.drop_first(), end);
        assert(forall|j: int|
            0 <= j < r.len() ==> (r[j] == end || pts.drop_first().contains(r[j]) ==> r[j] == end
                || pts.contains(r[j])));
        assert forall|j: int| 0 <= j < r.len() implies (r[j] == end || pts.contains(r[j])) by {
            if r[j] != end {
                let k = choose|k: int| 0 <= k < pts.drop_first().len() && pts.drop_first()[k]
                    == r[j];
                assert(pts[k + 1] == r[j]);
            }
        }
    } else {
        lemma_dedup_rec_props(pts[0], pts.drop_first(), end);
        let rest = dedup_rec(pts[0], pts.drop_first(), end);
        assert(r == seq![pts[0]] + rest);
        assert forall|j: int| 0 <= j < r.len() implies (r[j] == end || pts.contains(r[j])) by {
            if j == 0 {
                assert(pts[0] == r[j]);
            } else if r[j] != end {
                assert(rest[j - 1] == r[j]);
                let k = choose|k: int| 0 <= k < pts.drop_first().len() && pts.drop_first()[k]
                    == r[j];
                assert(pts[k + 1] == r[j]);
            }
        }
        if rest.len() == 0 {
            assert(pts[0] == end);
            assert(r =~= seq![pts[0]]);
        }
    }
}

/// What a flattened curve run always looks like: it is never empty, it ends
/// exactly on the curve's end point, consecutive waypoints are never
/// identical, it never re-emits the start, and it only holds samples or the
/// end point.
pub proof fn lemma_dedup_props(start: Vec2, pts: Seq<Vec2>, end: Vec2)
    ensures
        ({
            let r = dedup_spec(start, pts, end);
            &&& r.len() >= 1
            &&& r[r.len() - 1] == end
            &&& forall|j: int| #![trigger r[j]] 0 <= j < r.len() - 1 ==> r[j] != r[j + 1]
            &&& (r[0] != start || (r.len() == 1 && start == end))
            &&& forall|j: int| 0 <= j < r.len() ==> (r[j] == end || pts.contains(r[j]))
        }),
{
    lemma_dedup_rec_props(start, pts, end);
}

/// Drops samples equal to their running predecessor and closes the run with
/// the exact end point.
#[verifier::loop_isolation(false)]
fn dedup_points(start: Vec2, samples: &Vec<Vec2>, end: Vec2) -> (out: Vec<Vec2>)
    ensures
        out@ == dedup_spec(start, samples@, end),
{
    let mut out: Vec<Vec2> = Vec::new();
    let mut last = start;
    let mut j: usize = 0;
    proof {
        assert(samples@.skip(0) =~= samples@);
        assert(Seq::<Vec2>::empty() + dedup_rec(start, samples@, end) =~= dedup_rec(
            start,
            samples@,
            end,
        ));
    }
    while j < samples.len()
        invariant
            j <= samples@.len(),
            dedup_rec(start, samples@, end) == out@ + dedup_rec(last, samples@.skip(j as int), end),
        decreases samples@.len() - j,
    {
        let p = samples[j];
        proof {
            assert(samples@.skip(j as int)[0] == samples@[j as int]);
            assert(samples@.skip(j as int).drop_first() =~= samples@.skip(j as int + 1));
        }
        if p != last {
            proof {
                assert(out@ + (seq![p] + dedup_rec(p, samples@.skip(j as int + 1), end)) =~= (out@
                    + seq![p]) + dedup_rec(p, samples@.skip(j as int + 1), end));
                assert(out@.push(p) =~= out@ + seq![p]);
            }
            out.push(p);
            last = p;
        }
        j += 1;
    }
    proof {
        assert(samples@.skip(samples@.len() as int) =~= Seq::<Vec2>::empty());
    }
    if last != end {
        proof {
            assert(out@ + seq![end] =~= out@.push(end));
        }
        out.push(end);
        proof {
            assert(out@.len() > 0);
        }
    } else {
        proof {
            assert(out@ + Seq::<Vec2>::empty() =~= out@);
        }
        if out.len() == 0 {
            out.push(end);
            proof {
                assert(out@ =~= seq![end]);
            }
        }
    }
    out
}

/// Sample count for a quadratic curve, from its largest per-axis second
/// difference.
pub open spec fn quad_count2(s: Vec2, c: Vec2, e: Vec2, tol: int) -> int {
    seg_count(max_val(abs_val(s.x - 2 * c.x + e.x), abs_val(s.y - 2 * c.y + e.y)), tol)
}

/// Sample count for a cubic curve, from its largest per-axis second
/// difference, scaled up because a cubic bends further from its chord.
pub open spec fn cubic_count2(s: Vec2, c1: Vec2, c2: Vec2, e: Vec2, tol: int) -> int {
    seg_count(
        3 * max_val(
            max_val(abs_val(s.x - 2 * c1.x + c2.x), abs_val(s.y - 2 * c1.y + c2.y)),
            max_val(abs_val(c1.x - 2 * c2.x + e.x), abs_val(c1.y - 2 * c2.y + e.y)),
        ) / 2,
        tol,
    )
}

/// The quadratic curve point at parameter `i / n`.
pub open spec fn quad_point2(s: Vec2, c: Vec2, e: Vec2, i: int, n: int) -> Vec2 {
    Vec2 {
        x: quad_at(s.x as int, c.x as int, e.x as int, i, n) as i64,
        y: quad_at(s.y as int, c.y as int, e.y as int, i, n) as i64,
    }
}

/// The cubic curve point at parameter `i / n`.
pub open spec fn cubic_point2(s: Vec2, c1: Vec2, c2: Vec2, e: Vec2, i: int, n: int) -> Vec2 {
    Vec2 {
        x: cubic_at(s.x as int, c1.x as int, c2.x as int, e.x as int, i, n) as i64,
        y: cubic_at(s.y as int, c1.y as int, c2.y as int, e.y as int, i, n) as i64,
    }
}

/// The interior samples of a quadratic curve cut into `n` pieces: parameters
/// `1 / n` through `(n - 1) / n`.
pub open spec fn quad_samples2(s: Vec2, c: Vec2, e: Vec2, n: int) -> Seq<Vec2> {
    Seq::new((n - 1) as nat, |j: int| quad_point2(s, c, e, j + 1, n))
}

/// The interior samples of a cubic curve cut into `n` pieces.
pub open spec fn cubic_samples2(s: Vec2, c1: Vec2, c2: Vec2, e: Vec2, n: int) -> Seq<Vec2> {
    Seq::new((n - 1) as nat, |j: int| cubic_point2(s, c1, c2, e, j + 1, n))
}

/// The waypoints a quadratic curve from `s` to `e` contributes to a path:
/// its interior samples, deduplicated, closed by the exact end point. The
/// start is not included; it is already on the path.
pub open spec fn flatten_quad_spec(s: Vec2, c: Vec2, e: Vec2, tol: int) -> Seq<Vec2> {
    dedup_spec(s, quad_samples2(s, c, e, quad_count2(s, c, e, tol)), e)
}

/// The waypoints a cubic curve from `s` to `e` contributes to a path.
pub open spec fn flatten_cubic_spec(s: Vec2, c1: Vec2, c2: Vec2, e: Vec2, tol: int) -> Seq<Vec2> {
    dedup_spec(s, cubic_samples2(s, c1, c2, e, cubic_count2(s, c1, c2, e, tol)), e)
}

/// Flattens one quadratic bezier that runs from `s` (not emitted) to `e`.
#[verifier::loop_isolation(false)]
pub fn flatten_quad(s: Vec2, c: Vec2, e: Vec2, straightness: i64) -> (out: Vec<Vec2>)
    requires
        s.wf(),
        c.wf(),
        e.wf(),
        1 <= straightness,
    ensures
        out@ == flatten_quad_spec(s, c, e, straightness as int),
        forall|j: int| 0 <= j < out@.len() ==> (#[trigger] out@[j]).wf(),
{
    let mx = second_diff(s.x, c.x, e.x);
    let my = second_diff(s.y, c.y, e.y);
    let m = if mx >= my {
        mx
    } else {
        my
    };
    let n = seg_count_exec(m, straightness);
    let mut samples: Vec<Vec2> = Vec::new();
    let mut i: u64 = 1;
    while i < n
        invariant
            1 <= i <= n,
            samples@.len() == i - 1,
            forall|j: int|
                0 <= j < i - 1 ==> #[trigger] samples@[j] == quad_point2(s, c, e, j + 1, n as int)
                    && samples@[j].wf(),
        decreases n - i,
    {
        let px = quad_coord(s.x, c.x, e.x, i, n);
        let py = quad_coord(s.y, c.y, e.y, i, n);
        samples.push(Vec2 { x: px, y: py });
        i += 1;
    }
    proof {
        assert(samples@ =~= quad_samples2(s, c, e, n as int));
        lemma_dedup_props(s, samples@, e);
    }
    let out = dedup_points(s, &samples, e);
    proof {
        assert forall|j: int| 0 <= j < out@.len() implies (#[trigger] out@[j]).wf() by {
            if out@[j] != e {
                let k = choose|k: int| 0 <= k < samples@.len() && samples@[k] == out@[j];
            }
        }
    }
    out
}

/// Flattens one cubic bezier that runs from `s` (not emitted) to `e`.
#[verifier::loop_isolation(false)]
pub fn flatten_cubic(s: Vec2, c1: Vec2, c2: Vec2, e: Vec2, straightness: i64) -> (out: Vec<Vec2>)
    requires
        s.wf(),
        c1.wf(),
        c2.wf(),
        e.wf(),
        1 <= straightness,
    ensures
        out@ == flatten_cubic_spec(s, c1, c2, e, straightness as int),
        forall|j: int| 0 <= j < out@.len() ==> (#[trigger] out@[j]).wf(),
{
    let ma = second_diff(s.x, c1.x, c2.x);
    let mb = second_diff(s.y, c1.y, c2.y);
    let mc = second_diff(c1.x, c2.x, e.x);
    let md = second_diff(c1.y, c2.y, e.y);
    let mab = if ma >= mb {
        ma
    } else {
        mb
    };
    let mcd = if mc >= md {
        mc
    } else {
        md
    };
    let m = if mab >= mcd {
        mab
    } else {
        mcd
    };
    let n = seg_count_exec(3 * m / 2, straightness);
    let mut samples: Vec<Vec2> = Vec::new();
    let mut i: u64 = 1;
    while i < n
        invariant
            1 <= i <= n,
            samples@.len() == i - 1,
            forall|j: int|
                0 <= j < i - 1 ==> #[trigger] samples@[j] == cubic_point2(
                    s,
                    c1,
                    c2,
                    e,
                    j + 1,
                    n as int,
                ) && samples@[j].wf(),
        decreases n - i,
    {
        let px = cubic_coord(s.x, c1.x, c2.x, e.x, i, n);
        let py = cubic_coord(s.y, c1.y, c2.y, e.y, i, n);
        samples.push(Vec2 { x: px, y: py });
        i += 1;
    }
    proof {
        assert(samples@ =~= cubic_samples2(s, c1, c2, e, n as int));
        lemma_dedup_props(s, samples@, e);
    }
    let out = dedup_points(s, &samples, e);
    proof {
        assert forall|j: int| 0 <= j < out@.len() implies (#[trigger] out@[j]).wf() by {
            if out@[j] != e {
                let k = choose|k: int| 0 <= k < samples@.len() && samples@[k] == out@[j];
            }
        }
    }
    out
}

/// The flattened run of a quadratic curve is never empty, ends exactly on
/// the curve's end point, never repeats a waypoint consecutively, and never
/// re-emits the curve's start.
pub proof fn lemma_flatten_quad_props(s: Vec2, c: Vec2, e: Vec2, tol: int)
    ensures
        ({
            let r = flatten_quad_spec(s, c, e, tol);
            &&& r.len() >= 1
            &&& r[r.len() - 1] == e
            &&& forall|j: int| #![trigger r[j]] 0 <= j < r.len() - 1 ==> r[j] != r[j + 1]
            &&& (r[0] != s || (r.len() == 1 && s == e))
        }),
{
    lemma_dedup_props(s, quad_samples2(s, c, e, quad_count2(s, c, e, tol)), e);
}

/// The flattened run of a cubic curve is never empty, ends exactly on the
/// curve's end point, never repeats a waypoint consecutively, and never
/// re-emits the curve's start.
pub proof fn lemma_flatten_cubic_props(s: Vec2, c1: Vec2, c2: Vec2, e: Vec2, tol: int)
    ensures
        ({
            let r = flatten_cubic_spec(s, c1, c2, e, tol);
            &&& r.len() >= 1
            &&& r[r.len() - 1] == e
            &&& forall|j: int| #![trigger r[j]] 0 <= j < r.len() - 1 ==> r[j] != r[j + 1]
            &&& (r[0] != s || (r.len() == 1 && s == e))
        }),
{
    lemma_dedup_props(s, cubic_samples2(s, c1, c2, e, cubic_count2(s, c1, c2, e, tol)), e);
}

/// One building block of a path. The last point of a segment always connects
/// to the first point of the next; a curve's start point is implicit, the
/// end of the previous segment.
#[derive(Clone, Copy)]
pub enum PathSegment {
    /// A straight segment to the point.
    Point(Vec2),
    /// A cubic bezier curve, with two control points.
    CubicBezierCurve { to: Vec2, ctrl1: Vec2, ctrl2: Vec2, straightness: i64 },
    /// A quadratic bezier curve, with a single control point.
    QuadraticBezierCurve { to: Vec2, ctrl: Vec2, straightness: i64 },
}

/// Every coordinate of the segment is exact-arithmetic safe, and a curve's
/// tolerance is positive.
pub open spec fn seg_wf(seg: PathSegment) -> bool {
    match seg {
        PathSegment::Point(p) => p.wf(),
        PathSegment::CubicBezierCurve { to, ctrl1, ctrl2, straightness } => to.wf() && ctrl1.wf()
            && ctrl2.wf() && straightness >= 1,
        PathSegment::QuadraticBezierCurve { to, ctrl, straightness } => to.wf() && ctrl.wf()
            && straightness >= 1,
    }
}

/// The point a segment leaves the cursor on.
pub open spec fn seg_end(seg: PathSegment) -> Vec2 {
    match seg {
        PathSegment::Point(p) => p,
        PathSegment::CubicBezierCurve { to, ctrl1, ctrl2, straightness } => to,
        PathSegment::QuadraticBezierCurve { to, ctrl, straightness } => to,
    }
}

/// The waypoints one segment contributes to the path, entered from `last`.
pub open spec fn seg_flat(last: Vec2, seg: PathSegment) -> Seq<Vec2> {
    match seg {
        PathSegment::Point(p) => seq![p],
        PathSegment::CubicBezierCurve { to, ctrl1, ctrl2, straightness } => flatten_cubic_spec(
            last,
            ctrl1,
            ctrl2,
            to,
            straightness as int,
        ),
        PathSegment::QuadraticBezierCurve { to, ctrl, straightness } => flatten_quad_spec(
            last,
            ctrl,
            to,
            straightness as int,
        ),
    }
}

/// The waypoints of the segments from index `i` on, entered from `last`.
pub open spec fn flat_from(segs: Seq<PathSegment>, i: int, last: Vec2) -> Seq<Vec2>
    decreases segs.len() - i,
{
    if i < segs.len() {
        seg_flat(last, segs[i]) + flat_from(segs, i + 1, seg_end(segs[i]))
    } else {
        Seq::empty()
    }
}

/// The full flattened point list of a builder's segments: each segment's
/// waypoints in insertion order. The start point itself is not included.
pub open spec fn build_points_spec(segs: Seq<PathSegment>) -> Seq<Vec2> {
    flat_from(segs, 1, seg_end(segs[0]))
}

/// Builder to simplify making paths from segments that are connected to each
/// other.
pub struct PathBuilder {
    segments: Vec<PathSegment>,
}

impl View for PathBuilder {
    type V = Seq<PathSegment>;

    closed spec fn view(&self) -> Seq<PathSegment> {
        self.segments@
    }
}

impl PathBuilder {
    /// The builder starts with a plain point, and all its segments are
    /// well-formed.
    pub open spec fn wf(&self) -> bool {
        &&& self@.len() >= 1
        &&& self@[0] is Point
        &&& forall|i: int| 0 <= i < self@.len() ==> seg_wf(#[trigger] self@[i])
    }

    /// Creates the builder with the first point set to `start`.
    pub fn new(start: Vec2) -> (r: PathBuilder)
        requires
            start.wf(),
        ensures
            r@ == seq![PathSegment::Point(start)],
            r.wf(),
    {
        let mut segments: Vec<PathSegment> = Vec::new();
        segments.push(PathSegment::Point(start));
        proof {
            assert(segments@ =~= seq![PathSegment::Point(start)]);
        }
        PathBuilder { segments }
    }

    /// Appends a straight segment from the previous point to `point`.
    pub fn add_line_to(&mut self, point: Vec2)
        requires
            point.wf(),
        ensures
            final(self)@ == old(self)@.push(PathSegment::Point(point)),
            old(self).wf() ==> final(self).wf(),
    {
        self.segments.push(PathSegment::Point(point));
    }

    /// Appends a cubic bezier from the previous point to `to`, bending
    /// toward the two control points, flattened at the given straightness.
    pub fn add_cubic_bezier_curve(&mut self, to: Vec2, ctrl1: Vec2, ctrl2: Vec2, straightness: i64)
        requires
            to.wf(),
            ctrl1.wf(),
            ctrl2.wf(),
            1 <= straightness,
        ensures
            final(self)@ == old(self)@.push(
                (PathSegment::CubicBezierCurve { to, ctrl1, ctrl2, straightness }),
            ),
            old(self).wf() ==> final(self).wf(),
    {
        self.segments.push(PathSegment::CubicBezierCurve { to, ctrl1, ctrl2, straightness });
    }

    /// Appends a quadratic bezier from the previous point to `to`, bending
    /// toward the control point, flattened at the given straightness.
    pub fn add_quadratic_bezier_curve(&mut self, to: Vec2, ctrl: Vec2, straightness: i64)
        requires
            to.wf(),
            ctrl.wf(),
            1 <= straightness,
        ensures
            final(self)@ == old(self)@.push(
                (PathSegment::QuadraticBezierCurve { to, ctrl, straightness }),
            ),
            old(self).wf() ==> final(self).wf(),
    {
        self.segments.push(PathSegment::QuadraticBezierCurve { to, ctrl, straightness });
    }

    /// Builds the flattened point list from the current segments, walking
    /// them in insertion order with the previous segment's end as each
    /// curve's start.
    #[verifier::loop_isolation(false)]
    pub fn build_points(&self) -> (r: Vec<Vec2>)
        requires
            self.wf(),
        ensures
            r@ == build_points_spec(self@),
            forall|j: int| 0 <= j < r@.len() ==> (#[trigger] r@[j]).wf(),
    {
        let mut out: Vec<Vec2> = Vec::new();
        let mut last: Vec2 = match self.segments[0] {
            PathSegment::Point(p) => p,
            _ => {
                proof {
                    assert(false);
                }
                Vec2 { x: 0, y: 0 }
            },
        };
        proof {
            assert(Seq::<Vec2>::empty() + flat_from(self@, 1, last) =~= flat_from(self@, 1, last));
        }
        let mut i: usize = 1;
        while i < self.segments.len()
            invariant
                1 <= i <= self@.len(),
                last == seg_end(self@[i - 1]),
                last.wf(),
                build_points_spec(self@) == out@ + flat_from(self@, i as int, last),
                forall|j: int| 0 <= j < out@.len() ==> (#[trigger] out@[j]).wf(),
            decreases self@.len() - i,
        {
            let ghost gi = i as int;
            match self.segments[i] {
                PathSegment::Point(p) => {
                    proof {
                        assert(out@ + (seq![p] + flat_from(self@, gi + 1, p)) =~= out@.push(p)
                            + flat_from(self@, gi + 1, p));
                    }
                    out.push(p);
                    last = p;
                },
                PathSegment::QuadraticBezierCurve { to, ctrl, straightness } => {
                    let mut pts = flatten_quad(last, ctrl, to, straightness);
                    proof {
                        assert(out@ + (pts@ + flat_from(self@, gi + 1, to)) =~= (out@ + pts@)
                            + flat_from(self@, gi + 1, to));
                    }
                    out.append(&mut pts);
                    last = to;
                },
                PathSegment::CubicBezierCurve { to, ctrl1, ctrl2, straightness } => {
                    let mut pts = flatten_cubic(last, ctrl1, ctrl2, to, straightness);
                    proof {
                        assert(out@ + (pts@ + flat_from(self@, gi + 1, to)) =~= (out@ + pts@)
                            + flat_from(self@, gi + 1, to));
                    }
                    out.append(&mut pts);
                    last = to;
                },
            }
            i += 1;
        }
        proof {
            assert(out@ + flat_from(self@, self@.len() as int, last) =~= out@);
        }
        out
    }

    /// Builds a non-looping path from the current segments.
    pub fn build_path(&self) -> (r: Path2)
        requires
            self.wf(),
        ensures
            r.points@ == build_points_spec(self@),
            r.is_loop == false,
            r.wf(),
    {
        let points = self.build_points();
        Path2 { points, is_loop: false }
    }

    /// Builds a looping path from the current segments.
    pub fn build_looping_path(&self) -> (r: Path2)
        requires
            self.wf(),
        ensures
            r.points@ == build_points_spec(self@),
            r.is_loop == true,
            r.wf(),
    {
        let points = self.build_points();
        Path2 { points, is_loop: true }
    }
}

/// Contains the data for the path to follow.
pub struct Path2 {
    /// The flattened waypoints, in the order they are visited.
    pub points: Vec<Vec2>,
    /// Whether the path circles back to the first point, or not.
    pub is_loop: bool,
}

impl Path2 {
    /// Every waypoint is exact-arithmetic safe.
    pub open spec fn wf(&self) -> bool {
        forall|i: int| 0 <= i < self.points@.len() ==> (#[trigger] self.points@[i]).wf()
    }
}

impl Clone for Path2 {
    /// An exact copy: the same waypoints and the same loop flag.
    fn clone(&self) -> (r: Path2)
        ensures
            r.points@ == self.points@,
            r.is_loop == self.is_loop,
    {
        let mut points: Vec<Vec2> = Vec::new();
        let mut i: usize = 0;
        while i < self.points.len()
            invariant
                i <= self.points@.len(),
                points@ =~= self.points@.subrange(0, i as int),
            decreases self.points@.len() - i,
        {
            points.push(self.points[i]);
            i += 1;
        }
        proof {
            assert(points@ =~= self.points@);
        }
        Path2 { points, is_loop: self.is_loop }
    }
}

impl Default for Path2 {
    /// The empty, non-looping path.
    fn default() -> (r: Path2)
        ensures
            r.points@ == Seq::<Vec2>::empty(),
            r.is_loop == false,
    {
        Path2 { points: Vec::new(), is_loop: false }
    }
}

/// Squared euclidean distance between two points.
pub open spec fn dist_sq(a: Vec2, b: Vec2) -> int {
    (b.x - a.x) * (b.x - a.x) + (b.y - a.y) * (b.y - a.y)
}

/// The position has reached the target when its distance is strictly within
/// the tolerance; a tolerance of zero never detects arrival.
pub open spec fn arrived(p: Vec2, t: Vec2, eps: int) -> bool {
    eps > 0 && dist_sq(p, t) < eps * eps
}

/// Where one tick's movement from `p` toward `t` at `speed` ends. When the
/// speed covers the remaining distance the move lands exactly on the target;
/// otherwise each coordinate gap is scaled by `speed / d`, with `d` the
/// integer square root of the squared distance, rounding toward `p`. A
/// position already on its target stays put.
pub open spec fn moved_point(p: Vec2, t: Vec2, speed: int) -> Vec2 {
    let d2 = dist_sq(p, t);
    if speed * speed >= d2 {
        t
    } else {
        let d = sqrt_nat(d2 as nat) as int;
        Vec2 {
            x: step_coord(p.x as int, t.x as int, speed, d) as i64,
            y: step_coord(p.y as int, t.y as int, speed, d) as i64,
        }
    }
}

fn dist_sq_exec(a: Vec2, b: Vec2) -> (r: u64)
    requires
        a.wf(),
        b.wf(),
    ensures
        r as int == dist_sq(a, b),
{
    let dx = if b.x >= a.x {
        (b.x - a.x) as u64
    } else {
        (a.x - b.x) as u64
    };
    let dy = if b.y >= a.y {
        (b.y - a.y) as u64
    } else {
        (a.y - b.y) as u64
    };
    proof {
        assert(dx as int * dx as int == (b.x - a.x) * (b.x - a.x) && dx as int * dx as int
            <= 4_000_000_000_000_000_000) by (nonlinear_arith)
            requires
                dx as int == b.x - a.x || dx as int == a.x - b.x,
                0 <= dx as int <= 2_000_000_000;
        assert(dy as int * dy as int == (b.y - a.y) * (b.y - a.y) && dy as int * dy as int
            <= 4_000_000_000_000_000_000) by (nonlinear_arith)
            requires
                dy as int == b.y - a.y || dy as int == a.y - b.y,
                0 <= dy as int <= 2_000_000_000;
    }
    dx * dx + dy * dy
}

/// Component state that follows a 2D path at a specific speed.
pub struct FollowPath2 {
    /// The path to follow.
    pub path: Path2,
    /// The index of the current point the entity is moving to.
    pub cur_target: usize,
    /// Speed at which the entity moves, in coordinate units per tick.
    pub speed: i64,
    /// The tolerance for detecting when a point has been reached.
    pub epsilon: i64,
}

/// What one tick of `advance` reports back to the host.
pub struct Step2 {
    /// The non-looping path is exhausted: the follower should be detached,
    /// and the entity keeps its position and orientation this tick.
    pub removed: bool,
    /// The direction of travel, target minus position, taken before the
    /// move. Zero when the follower was removed or the position already sits
    /// exactly on its target: the host skips the rotation update then.
    pub heading: Vec2,
}

impl FollowPath2 {
    /// The target index is in bounds on a non-empty path, the waypoints are
    /// exact-arithmetic safe, and speed and tolerance are non-negative.
    pub open spec fn wf(&self) -> bool {
        &&& self.path.wf()
        &&& 1 <= self.path.points@.len()
        &&& (self.cur_target as int) < self.path.points@.len()
        &&& 0 <= self.speed
        &&& 0 <= self.epsilon
    }

    /// The waypoint currently moved toward.
    pub open spec fn target(&self) -> Vec2 {
        self.path.points@[self.cur_target as int]
    }

    /// A tick from position `p` exhausts the path: the current target is
    /// reached, it is the last waypoint, and the path does not loop.
    pub open spec fn finishes(&self, p: Vec2) -> bool {
        &&& arrived(p, self.target(), self.epsilon as int)
        &&& self.cur_target as int + 1 == self.path.points@.len()
        &&& !self.path.is_loop
    }

    /// The target index after the arrival check of a tick from `p`: advanced
    /// on arrival, wrapping to the start of a looping path.
    pub open spec fn next_target_index(&self, p: Vec2) -> int {
        if !arrived(p, self.target(), self.epsilon as int) {
            self.cur_target as int
        } else if self.cur_target as int + 1 < self.path.points@.len() {
            self.cur_target as int + 1
        } else {
            0
        }
    }

    /// One simulation tick. If the current target is within the arrival
    /// tolerance of `pos`, the target advances to the next waypoint: past
    /// the last one it wraps to the start on a looping path, and finishes
    /// the follower on a non-looping one. The entity then moves toward the
    /// possibly new target by its speed, clamped so it never overshoots. One
    /// tick advances the target at most once, so a speed that crosses
    /// several waypoints in one tick still advances by a single waypoint.
    pub fn advance(&mut self, pos: &mut Vec2) -> (r: Step2)
        requires
            old(self).wf(),
            old(pos).wf(),
        ensures
            final(self).wf(),
            final(pos).wf(),
            r.removed == old(self).finishes(*old(pos)),
            r.removed ==> *final(self) == *old(self) && *final(pos) == *old(pos) && r.heading == (
            Vec2 { x: 0, y: 0 }),
            !r.removed ==> ({
                let nt = old(self).next_target_index(*old(pos));
                let t = old(self).path.points@[nt];
                &&& final(self).cur_target as int == nt
                &&& final(self).path == old(self).path
                &&& final(self).speed == old(self).speed
                &&& final(self).epsilon == old(self).epsilon
                &&& r.heading == (Vec2 {
                    x: (t.x - old(pos).x) as i64,
                    y: (t.y - old(pos).y) as i64,
                })
                &&& *final(pos) == moved_point(*old(pos), t, old(self).speed as int)
            }),
    {
        let p = *pos;
        let len = self.path.points.len();
        let t0 = self.path.points[self.cur_target];
        let d2_first = dist_sq_exec(p, t0);
        let eps = self.epsilon;
        proof {
            lemma_mul_upper_bound(
                eps as int,
                0x7FFF_FFFF_FFFF_FFFF,
                eps as int,
                0x7FFF_FFFF_FFFF_FFFF,
            );
        }
        let arr = eps > 0 && (d2_first as u128) < (eps as u128) * (eps as u128);
        if arr {
            let next = self.cur_target + 1;
            if next < len {
                self.cur_target = next;
            } else if self.path.is_loop {
                self.cur_target = 0;
            } else {
                return Step2 { removed: true, heading: Vec2 { x: 0, y: 0 } };
            }
        }
        let t = self.path.points[self.cur_target];
        let d2 = dist_sq_exec(p, t);
        let sp = self.speed;
        proof {
            lemma_mul_upper_bound(
                sp as int,
                0x7FFF_FFFF_FFFF_FFFF,
                sp as int,
                0x7FFF_FFFF_FFFF_FFFF,
            );
        }
        let heading = Vec2 { x: t.x - p.x, y: t.y - p.y };
        if (sp as u128) * (sp as u128) >= d2 as u128 {
            *pos = t;
        } else {
            let d = isqrt64(d2);
            proof {
                if d == 0 {
                    assert((d as int + 1) * (d as int + 1) == 1) by (nonlinear_arith)
                        requires
                            d as int == 0;
                }
                assert(sp as int <= d as int) by (nonlinear_arith)
                    requires
                        0 <= sp as int,
                        0 < d as int,
                        (sp as int) * (sp as int) < d2 as int,
                        (d2 as int) < (d as int + 1) * (d as int + 1);
            }
            let nx = step_coord_exec(p.x, t.x, sp, d);
            let ny = step_coord_exec(p.y, t.y, sp, d);
            *pos = Vec2 { x: nx, y: ny };
        }
        Step2 { removed: false, heading }
    }
}

/// When the control points are ordered in a coordinate, the samples of a
/// quadratic curve progress monotonically in that coordinate: the flattening
/// never backs up along an axis the curve itself never backs up along.
pub proof fn lemma_quad_samples_monotone(s: Vec2, c: Vec2, e: Vec2, tol: int)
    requires
        s.wf(),
        c.wf(),
        e.wf(),
    ensures
        ({
            let n = quad_count2(s, c, e, tol);
            let smp = quad_samples2(s, c, e, n);
            &&& (s.x <= c.x <= e.x ==> forall|j: int| #![trigger smp[j]]
                0 <= j < smp.len() - 1 ==> smp[j].x <= smp[j + 1].x)
            &&& (s.y <= c.y <= e.y ==> forall|j: int| #![trigger smp[j]]
                0 <= j < smp.len() - 1 ==> smp[j].y <= smp[j + 1].y)
        }),
{
    let n = quad_count2(s, c, e, tol);
    let smp = quad_samples2(s, c, e, n);
    if s.x <= c.x && c.x <= e.x {
        assert forall|j: int| #![trigger smp[j]] 0 <= j < smp.len() - 1 implies smp[j].x <= smp[j
            + 1].x by {
            assert(smp[j] == quad_point2(s, c, e, j + 1, n));
            assert(smp[j + 1] == quad_point2(s, c, e, j + 2, n));
            lemma_quad_at_bounds(s.x as int, c.x as int, e.x as int, j + 1, n);
            lemma_quad_at_bounds(s.x as int, c.x as int, e.x as int, j + 2, n);
            lemma_quad_at_monotone(s.x as int, c.x as int, e.x as int, j + 1, n);
        }
    }
    if s.y <= c.y && c.y <= e.y {
        assert forall|j: int| #![trigger smp[j]] 0 <= j < smp.len() - 1 implies smp[j].y <= smp[j
            + 1].y by {
            assert(smp[j] == quad_point2(s, c, e, j + 1, n));
            assert(smp[j + 1] == quad_point2(s, c, e, j + 2, n));
            lemma_quad_at_bounds(s.y as int, c.y as int, e.y as int, j + 1, n);
            lemma_quad_at_bounds(s.y as int, c.y as int, e.y as int, j + 2, n);
            lemma_quad_at_monotone(s.y as int, c.y as int, e.y as int, j + 1, n);
        }
    }
}

proof fn lemma_plain_points_from(segs: Seq<PathSegment>, i: int, last: Vec2)
    requires
        1 <= i <= segs.len(),
        forall|k: int| 0 <= k < segs.len() ==> segs[k] is Point,
    ensures
        flat_from(segs, i, last).len() == segs.len() - i,
        forall|k: int| #![trigger segs[k]]
            i <= k < segs.len() ==> flat_from(segs, i, last)[k - i] == seg_end(segs[k]),
    decreases segs.len() - i,
{
    if i < segs.len() {
        lemma_plain_points_from(segs, i + 1, seg_end(segs[i]));
    }
}

/// A builder that holds only plain points flattens to exactly those points,
/// in insertion order, without the start point.
pub proof fn lemma_plain_points(segs: Seq<PathSegment>)
    requires
        segs.len() >= 1,
        forall|k: int| 0 <= k < segs.len() ==> segs[k] is Point,
    ensures
        build_points_spec(segs).len() == segs.len() - 1,
        forall|k: int| #![trigger segs[k]]
            1 <= k < segs.len() ==> build_points_spec(segs)[k - 1] == seg_end(segs[k]),
{
    lemma_plain_points_from(segs, 1, seg_end(segs[0]));
}

proof fn lemma_seg_flat_last(last: Vec2, seg: PathSegment)
    ensures
        seg_flat(last, seg).len() >= 1,
        seg_flat(last, seg).last() == seg_end(seg),
{
    match seg {
        PathSegment::Point(p) => {},
        PathSegment::CubicBezierCurve { to, ctrl1, ctrl2, straightness } => {
            lemma_flatten_cubic_props(last, ctrl1, ctrl2, to, straightness as int);
        },
        PathSegment::QuadraticBezierCurve { to, ctrl, straightness } => {
            lemma_flatten_quad_props(last, ctrl, to, straightness as int);
        },
    }
}

proof fn lemma_flat_from_last(segs: Seq<PathSegment>, i: int, last: Vec2)
    requires
        1 <= i < segs.len(),
    ensures
        flat_from(segs, i, last).len() >= 1,
        flat_from(segs, i, last).last() == seg_end(segs[segs.len() - 1]),
    decreases segs.len() - i,
{
    lemma_seg_flat_last(last, segs[i]);
    if i + 1 == segs.len() {
        assert(flat_from(segs, i + 1, seg_end(segs[i])) =~= Seq::<Vec2>::empty());
        assert(flat_from(segs, i, last) =~= seg_flat(last, segs[i]));
    } else {
        lemma_flat_from_last(segs, i + 1, seg_end(segs[i]));
    }
}

/// Whatever kinds of segments a path was built from, its flattened point
/// list is never empty and ends exactly on the last segment's end point.
pub proof fn lemma_build_points_last(segs: Seq<PathSegment>)
    requires
        segs.len() >= 2,
    ensures
        build_points_spec(segs).len() >= 1,
        build_points_spec(segs).last() == seg_end(segs[segs.len() - 1]),
{
    lemma_flat_from_last(segs, 1, seg_end(segs[0]));
}

/// A follower on a looping path never finishes: `advance` never removes it.
pub proof fn lemma_loop_never_finishes(fp: FollowPath2, p: Vec2)
    requires
        fp.path.is_loop,
    ensures
        !fp.finishes(p),
{
}

/// When the speed covers the remaining distance, the tick lands exactly on
/// the target: the step is clamped to the remaining distance, never past it.
pub proof fn lemma_step_clamped(p: Vec2, t: Vec2, speed: int)
    requires
        speed * speed >= dist_sq(p, t),
    ensures
        moved_point(p, t, speed) == t,
{
}

/// A tick never overshoots: every coordinate of the moved point stays
/// between the position and the target.
pub proof fn lemma_no_overshoot(p: Vec2, t: Vec2, speed: int)
    requires
        0 <= speed,
    ensures
        ({
            let m = moved_point(p, t, speed);
            &&& (p.x <= t.x ==> p.x <= m.x <= t.x)
            &&& (t.x <= p.x ==> t.x <= m.x <= p.x)
            &&& (p.y <= t.y ==> p.y <= m.y <= t.y)
            &&& (t.y <= p.y ==> t.y <= m.y <= p.y)
        }),
{
    let d2 = dist_sq(p, t);
    assert(0 <= (t.x - p.x) * (t.x - p.x) + (t.y - p.y) * (t.y - p.y)) by (nonlinear_arith);
    if speed * speed >= d2 {
    } else {
        lemma_sqrt_nat(d2 as nat);
        let d = sqrt_nat(d2 as nat) as int;
        if d == 0 {
            assert((d + 1) * (d + 1) == 1) by (nonlinear_arith)
                requires
                    d == 0;
        }
        assert(speed <= d) by (nonlinear_arith)
            requires
                0 <= speed,
                0 < d,
                speed * speed < d2,
                d2 < (d + 1) * (d + 1);
        lemma_step_coord_bounds(p.x as int, t.x as int, speed, d);
        lemma_step_coord_bounds(p.y as int, t.y as int, speed, d);
    }
}

} // verus!
