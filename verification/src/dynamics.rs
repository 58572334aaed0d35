//! The mathematical model of the engine: a world of points and links, and
//! the functions that say what one frame makes of it.
use vstd::prelude::*;
use crate::model::{Point, Stick};
use crate::scalar::spec_square;
use crate::vector::Vec2;

verus! {

/// What a simulation holds, as plain mathematical values.
pub struct World {
    pub points: Seq<Point>,
    pub sticks: Seq<Stick>,
    pub width: i64,
    pub height: i64,
    pub gravity: Vec2,
    pub drag: i64,
    pub elasticity: i64,
    pub tear_resistance_threshold: i64,
}

/// Every link joins two points that exist.
pub open spec fn links_valid(sticks: Seq<Stick>, n: nat) -> bool {
    forall|i: int|
        0 <= i < sticks.len() ==> (#[trigger] sticks[i]).point_a_idx < n && sticks[i].point_b_idx
            < n
}

/// Between `before` and `after` no point was added, removed, pinned or
/// released, and no pinned point moved.
pub open spec fn pins_kept(before: Seq<Point>, after: Seq<Point>) -> bool {
    &&& after.len() == before.len()
    &&& forall|j: int|
        0 <= j < before.len() ==> {
            &&& after[j].is_pinned == (#[trigger] before[j]).is_pinned
            &&& before[j].is_pinned ==> after[j].position == before[j].position
                && after[j].old_position == before[j].old_position
        }
}

pub open spec fn gravity_all(points: Seq<Point>, g: Vec2) -> Seq<Point> {
    Seq::new(points.len(), |i: int| points[i].spec_with_gravity(g))
}

pub open spec fn integrate_all(points: Seq<Point>, drag: i64, dt: i64) -> Seq<Point> {
    Seq::new(points.len(), |i: int| points[i].spec_integrated(drag, dt))
}

pub open spec fn confine_all(points: Seq<Point>, width: i64, height: i64, drag: i64) -> Seq<
    Point,
> {
    Seq::new(points.len(), |i: int| points[i].spec_confined(width, height, drag))
}

/// The points after the link `s` was looked at once: unchanged where it is
/// torn, its two ends relaxed where it is not.
pub open spec fn relax_one(points: Seq<Point>, s: Stick) -> Seq<Point> {
    if s.point_a_idx >= points.len() || s.point_b_idx >= points.len() {
        points
    } else {
        let a = points[s.point_a_idx as int];
        let b = points[s.point_b_idx as int];
        if s.spec_is_torn(a, b) {
            points
        } else {
            let ends = s.spec_relaxed(a, b);
            points.update(s.point_a_idx as int, ends.0).update(s.point_b_idx as int, ends.1)
        }
    }
}

/// The points after the first `n` links were looked at, in order.
pub open spec fn relax_prefix(points: Seq<Point>, sticks: Seq<Stick>, n: nat) -> Seq<Point>
    decreases n,
{
    if n == 0 {
        points
    } else {
        relax_one(relax_prefix(points, sticks, (n - 1) as nat), sticks[n - 1])
    }
}

/// Whether link `i` is found torn when its turn comes in a sweep.
pub open spec fn torn_at(points: Seq<Point>, sticks: Seq<Stick>, i: int) -> bool {
    let p = relax_prefix(points, sticks, i as nat);
    let s = sticks[i];
    s.point_a_idx < p.len() && s.point_b_idx < p.len() && s.spec_is_torn(
        p[s.point_a_idx as int],
        p[s.point_b_idx as int],
    )
}

/// The indices, ascending, of the links among the first `n` that a sweep
/// finds torn.
pub open spec fn torn_marks(points: Seq<Point>, sticks: Seq<Stick>, n: nat) -> Seq<usize>
    decreases n,
{
    if n == 0 {
        Seq::empty()
    } else {
        let m = torn_marks(points, sticks, (n - 1) as nat);
        if torn_at(points, sticks, n - 1) {
            m.push((n - 1) as usize)
        } else {
            m
        }
    }
}

/// Removal in constant time: the last link takes the place of link `i`.
pub open spec fn swap_removed(sticks: Seq<Stick>, i: int) -> Seq<Stick> {
    sticks.update(i, sticks.last()).drop_last()
}

/// The links after those at `marks` were removed, the highest index first.
pub open spec fn remove_marked(sticks: Seq<Stick>, marks: Seq<usize>) -> Seq<Stick>
    decreases marks.len(),
{
    if marks.len() == 0 {
        sticks
    } else {
        remove_marked(swap_removed(sticks, marks.last() as int), marks.drop_last())
    }
}

/// `marks` is strictly ascending, and each mark leaves room below `n` for
/// those that follow it.
pub open spec fn marks_ascending(marks: Seq<usize>, n: int) -> bool {
    &&& forall|i: int, j: int| 0 <= i < j < marks.len() ==> marks[i] < marks[j]
    &&& forall|i: int| 0 <= i < marks.len() ==> (#[trigger] marks[i]) + (marks.len() - i) <= n
}

/// Between `before` and `after` no accumulator changed.
pub open spec fn accel_kept(before: Seq<Point>, after: Seq<Point>) -> bool {
    &&& after.len() == before.len()
    &&& forall|j: int|
        0 <= j < before.len() ==> after[j].acceleration == (#[trigger] before[j]).acceleration
}

/// Every accumulator is empty.
pub open spec fn all_settled(points: Seq<Point>) -> bool {
    forall|j: int| 0 <= j < points.len() ==> (#[trigger] points[j]).acceleration == Vec2::spec_zero()
}

/// What holds from a first state to a second and from the second to a
/// third holds from the first to the third.
pub proof fn lemma_pins_kept_chain(a: Seq<Point>, b: Seq<Point>, c: Seq<Point>)
    requires
        pins_kept(a, b),
        pins_kept(b, c),
    ensures
        pins_kept(a, c),
{
    assert forall|j: int| 0 <= j < a.len() implies c[j].is_pinned == (#[trigger] a[j]).is_pinned
        && (a[j].is_pinned ==> c[j].position == a[j].position && c[j].old_position
        == a[j].old_position) by {
        assert(b[j].is_pinned == a[j].is_pinned);
        assert(c[j].is_pinned == b[j].is_pinned);
    }
}

/// Empty accumulators stay empty where no accumulator changes.
pub proof fn lemma_settled_carried(a: Seq<Point>, b: Seq<Point>)
    requires
        all_settled(a),
        accel_kept(a, b),
    ensures
        all_settled(b),
{
    assert forall|j: int| 0 <= j < b.len() implies (#[trigger] b[j]).acceleration
        == Vec2::spec_zero() by {
        assert(b[j].acceleration == a[j].acceleration);
    }
}

/// Gravity and integration leave every pin and every pinned point where
/// they were, and every accumulator empty.
pub proof fn lemma_forces_keep_pins(p: Seq<Point>, g: Vec2, drag: i64, dt: i64)
    ensures
        pins_kept(p, integrate_all(gravity_all(p, g), drag, dt)),
        all_settled(integrate_all(gravity_all(p, g), drag, dt)),
{
}

/// The walls leave every pin, every pinned point and every accumulator as
/// they were.
pub proof fn lemma_walls_keep_pins(p: Seq<Point>, width: i64, height: i64, drag: i64)
    ensures
        pins_kept(p, confine_all(p, width, height, drag)),
        accel_kept(p, confine_all(p, width, height, drag)),
{
}

/// One sweep over the links: the points relaxed, the torn links removed.
pub open spec fn relax_sweep(points: Seq<Point>, sticks: Seq<Stick>) -> (Seq<Point>, Seq<Stick>) {
    (
        relax_prefix(points, sticks, sticks.len()),
        remove_marked(sticks, torn_marks(points, sticks, sticks.len())),
    )
}

/// `k` sweeps, one after the other.
pub open spec fn relax_times(points: Seq<Point>, sticks: Seq<Stick>, k: nat) -> (
    Seq<Point>,
    Seq<Stick>,
)
    decreases k,
{
    if k == 0 {
        (points, sticks)
    } else {
        let prev = relax_times(points, sticks, (k - 1) as nat);
        relax_sweep(prev.0, prev.1)
    }
}

/// Number of relaxation sweeps in one sub-step.
pub const RELAX_SWEEPS: u32 = 3;

/// One sub-step: gravity, integration, the relaxation sweeps, the walls.
pub open spec fn substep(w: World, sub_dt: i64) -> World {
    let loaded = gravity_all(w.points, w.gravity);
    let moved = integrate_all(loaded, w.drag, sub_dt);
    let r = relax_times(moved, w.sticks, RELAX_SWEEPS as nat);
    World { points: confine_all(r.0, w.width, w.height, w.drag), sticks: r.1, ..w }
}

/// `n` sub-steps of length `sub_dt`.
pub open spec fn advance(w: World, sub_dt: i64, n: nat) -> World
    decreases n,
{
    if n == 0 {
        w
    } else {
        substep(advance(w, sub_dt, (n - 1) as nat), sub_dt)
    }
}

/// The length of one of `substeps` equal parts of `dt`.
pub open spec fn spec_sub_dt(dt: i64, substeps: u32) -> i64 {
    (dt as int / substeps as int) as i64
}

/// Whether `p` lies strictly inside the circle round `c` whose squared
/// radius is `r2`.
pub open spec fn within(p: Point, c: Vec2, r2: int) -> bool {
    p.position.spec_distance_squared(c) < r2
}

/// Whether a cut at `c` hits the link `s`: one of its ends is inside the
/// circle.
pub open spec fn cut_hits(points: Seq<Point>, s: Stick, c: Vec2, r2: int) -> bool {
    within(points[s.point_a_idx as int], c, r2) || within(points[s.point_b_idx as int], c, r2)
}

/// The indices, ascending, of the links among the first `n` that a cut hits.
pub open spec fn cut_marks(points: Seq<Point>, sticks: Seq<Stick>, c: Vec2, r2: int, n: nat) -> Seq<
    usize,
>
    decreases n,
{
    if n == 0 {
        Seq::empty()
    } else {
        let m = cut_marks(points, sticks, c, r2, (n - 1) as nat);
        if cut_hits(points, sticks[n - 1], c, r2) {
            m.push((n - 1) as usize)
        } else {
            m
        }
    }
}

/// Whether a search may pick `p`: any point, or only one that is not pinned.
pub open spec fn eligible(p: Point, free_only: bool) -> bool {
    !free_only || !p.is_pinned
}

/// No eligible point lies inside the circle.
pub open spec fn none_within(points: Seq<Point>, c: Vec2, r2: int, free_only: bool) -> bool {
    forall|j: int|
        0 <= j < points.len() && eligible(#[trigger] points[j], free_only) ==> !within(
            points[j],
            c,
            r2,
        )
}

/// Point `k` is eligible, inside the circle, nearest to its centre among the
/// eligible points, and the first of those equally near.
pub open spec fn is_nearest(points: Seq<Point>, c: Vec2, r2: int, free_only: bool, k: int) -> bool {
    &&& 0 <= k < points.len()
    &&& eligible(points[k], free_only)
    &&& within(points[k], c, r2)
    &&& forall|j: int|
        0 <= j < points.len() && eligible(#[trigger] points[j], free_only)
            ==> points[j].position.spec_distance_squared(c)
            >= points[k].position.spec_distance_squared(c)
    &&& forall|j: int|
        0 <= j < k && eligible(#[trigger] points[j], free_only)
            ==> points[j].position.spec_distance_squared(c)
            > points[k].position.spec_distance_squared(c)
}

/// The point that a search round `c` picks, if any.
pub open spec fn nearest(points: Seq<Point>, c: Vec2, r2: int, free_only: bool) -> Option<int> {
    if exists|k: int| is_nearest(points, c, r2, free_only, k) {
        Some(choose|k: int| is_nearest(points, c, r2, free_only, k))
    } else {
        None
    }
}

/// At most one point is the nearest.
pub proof fn lemma_nearest_unique(
    points: Seq<Point>,
    c: Vec2,
    r2: int,
    free_only: bool,
    k: int,
    m: int,
)
    requires
        is_nearest(points, c, r2, free_only, k),
        is_nearest(points, c, r2, free_only, m),
    ensures
        k == m,
{
}

/// Squared radius of a circle, exact. A negative radius counts by its size.
pub open spec fn radius_squared(radius: i64) -> int {
    spec_square(radius)
}

} // verus!
