//! What holds of the engine as a whole, proved from the model.
use vstd::prelude::*;
use crate::dynamics::{
    advance, confine_all, cut_hits, cut_marks, gravity_all, integrate_all, is_nearest,
    marks_ascending, nearest, relax_prefix, relax_sweep, relax_times, remove_marked,
    substep, swap_removed, torn_at, torn_marks, within, World,
};
use crate::model::{Point, Stick};
use crate::scalar::{spec_fx_mul, spec_sat_add, spec_sat_sub, SCALE};
use crate::simulation::toggled;
use crate::vector::Vec2;

verus! {

/// Index `j` is one of `marks`.
pub open spec fn is_marked(marks: Seq<usize>, j: int) -> bool {
    exists|t: int| 0 <= t < marks.len() && #[trigger] marks[t] == j
}

/// `x` is a link of `sticks` at an index that is not marked.
pub open spec fn survives(sticks: Seq<Stick>, marks: Seq<usize>, x: Stick) -> bool {
    exists|j: int| 0 <= j < sticks.len() && !is_marked(marks, j) && #[trigger] sticks[j] == x
}

/// `x` is a link of `sticks` that a sweep does not find torn.
pub open spec fn is_untorn_link(points: Seq<Point>, sticks: Seq<Stick>, x: Stick) -> bool {
    exists|j: int| 0 <= j < sticks.len() && !torn_at(points, sticks, j) && #[trigger] sticks[j] == x
}

/// `x` is a link of `sticks` that a cut does not hit.
pub open spec fn is_unhit_link(
    points: Seq<Point>,
    sticks: Seq<Stick>,
    c: Vec2,
    r2: int,
    x: Stick,
) -> bool {
    exists|j: int|
        0 <= j < sticks.len() && !cut_hits(points, sticks[j], c, r2) && #[trigger] sticks[j] == x
}

/// Removing marked links removes one link for each mark; every link that is
/// left was there before, unchanged, at an index that was not marked; and
/// every link at such an index is still there.
pub proof fn law_removal_is_exact(sticks: Seq<Stick>, marks: Seq<usize>)
    requires
        marks_ascending(marks, sticks.len() as int),
    ensures
        remove_marked(sticks, marks).len() == sticks.len() - marks.len(),
        forall|i: int|
            0 <= i < remove_marked(sticks, marks).len() ==> survives(
                sticks,
                marks,
                #[trigger] remove_marked(sticks, marks)[i],
            ),
        forall|j: int|
            0 <= j < sticks.len() && !is_marked(marks, j) ==> remove_marked(
                sticks,
                marks,
            ).contains(#[trigger] sticks[j]),
    decreases marks.len(),
{
    if marks.len() > 0 {
        let last = marks.len() - 1;
        let ml = marks[last] as int;
        let rest = swap_removed(sticks, ml);
        let lower = marks.drop_last();
        let r = remove_marked(sticks, marks);
        assert(marks_ascending(lower, rest.len() as int)) by {
            assert forall|i: int| 0 <= i < lower.len() implies (#[trigger] lower[i]) + (lower.len()
                - i) <= rest.len() by {
                assert(marks[i] + (marks.len() - i) <= sticks.len());
            }
        }
        law_removal_is_exact(rest, lower);
        assert(is_marked(marks, ml)) by {
            assert(marks[last] == ml);
        }
        assert forall|j: int| is_marked(lower, j) implies j < ml by {
            let t = choose|t: int| 0 <= t < lower.len() && #[trigger] lower[t] == j;
            assert(marks[t] < marks[last]);
        }
        assert forall|j: int| is_marked(marks, j) && j != ml implies is_marked(lower, j) by {
            let t = choose|t: int| 0 <= t < marks.len() && #[trigger] marks[t] == j;
            assert(lower[t] == j);
        }
        assert forall|i: int| 0 <= i < r.len() implies survives(sticks, marks, #[trigger] r[i]) by {
            assert(survives(rest, lower, r[i]));
            let origin = choose|j: int|
                0 <= j < rest.len() && !is_marked(lower, j) && #[trigger] rest[j] == r[i];
            if origin == ml {
                let j = sticks.len() - 1;
                assert(sticks[j] == r[i]);
                if is_marked(marks, j) {
                    assert(is_marked(lower, j));
                }
                assert(!is_marked(marks, j));
            } else {
                assert(sticks[origin] == r[i]);
                assert(!is_marked(marks, origin));
            }
        }
        assert forall|j: int| 0 <= j < sticks.len() && !is_marked(marks, j) implies r.contains(
            #[trigger] sticks[j],
        ) by {
            if j == sticks.len() - 1 {
                assert(rest[ml] == sticks[j]);
                assert(!is_marked(lower, ml));
                assert(r.contains(rest[ml]));
            } else {
                assert(rest[j] == sticks[j]);
                if is_marked(lower, j) {
                    let t = choose|t: int| 0 <= t < lower.len() && #[trigger] lower[t] == j;
                    assert(marks[t] == j);
                }
                assert(r.contains(rest[j]));
            }
        }
    }
}

/// The marks of a sweep are ascending, and a link is marked exactly where
/// the sweep finds it torn.
pub proof fn law_torn_marks(points: Seq<Point>, sticks: Seq<Stick>, n: nat)
    requires
        n <= sticks.len(),
        n <= usize::MAX,
    ensures
        marks_ascending(torn_marks(points, sticks, n), n as int),
        forall|j: int|
            is_marked(torn_marks(points, sticks, n), j) <==> 0 <= j < n && torn_at(
                points,
                sticks,
                j,
            ),
    decreases n,
{
    if n > 0 {
        let m = torn_marks(points, sticks, (n - 1) as nat);
        let full = torn_marks(points, sticks, n);
        law_torn_marks(points, sticks, (n - 1) as nat);
        lemma_marks_extended(m, full, n, torn_at(points, sticks, n - 1));
    }
}

/// The marks of a cut are ascending, and a link is marked exactly where the
/// cut hits it.
pub proof fn law_cut_marks(points: Seq<Point>, sticks: Seq<Stick>, c: Vec2, r2: int, n: nat)
    requires
        n <= sticks.len(),
        n <= usize::MAX,
    ensures
        marks_ascending(cut_marks(points, sticks, c, r2, n), n as int),
        forall|j: int|
            is_marked(cut_marks(points, sticks, c, r2, n), j) <==> 0 <= j < n && cut_hits(
                points,
                sticks[j],
                c,
                r2,
            ),
    decreases n,
{
    if n > 0 {
        let m = cut_marks(points, sticks, c, r2, (n - 1) as nat);
        let full = cut_marks(points, sticks, c, r2, n);
        law_cut_marks(points, sticks, c, r2, (n - 1) as nat);
        lemma_marks_extended(m, full, n, cut_hits(points, sticks[n - 1], c, r2));
    }
}

/// Marks over the first `n - 1` indices, extended by the index `n - 1`
/// where `hit` holds.
proof fn lemma_marks_extended(m: Seq<usize>, full: Seq<usize>, n: nat, hit: bool)
    requires
        0 < n <= usize::MAX,
        marks_ascending(m, n - 1),
        full == (if hit {
            m.push((n - 1) as usize)
        } else {
            m
        }),
    ensures
        marks_ascending(full, n as int),
        forall|j: int| is_marked(full, j) <==> is_marked(m, j) || (hit && j == n - 1),
{
    assert forall|i: int| 0 <= i < m.len() implies (#[trigger] m[i]) < n - 1 by {
        assert(m[i] + (m.len() - i) <= n - 1);
    }
    assert forall|j: int| is_marked(m, j) implies is_marked(full, j) by {
        let t = choose|t: int| 0 <= t < m.len() && #[trigger] m[t] == j;
        assert(full[t] == j);
    }
    if hit {
        assert(full[m.len() as int] == n - 1);
        assert(is_marked(full, n - 1));
    }
    assert forall|j: int| is_marked(full, j) implies is_marked(m, j) || (hit && j == n - 1) by {
        let t = choose|t: int| 0 <= t < full.len() && #[trigger] full[t] == j;
        if t < m.len() {
            assert(m[t] == j);
        }
    }
}

/// A sweep drops exactly the links that it finds torn: the number of links
/// falls by one for each, no link that is left was found torn, and every
/// link that was not found torn is left as it was.
pub proof fn law_sweep_drops_torn(points: Seq<Point>, sticks: Seq<Stick>)
    requires
        sticks.len() <= usize::MAX,
    ensures
        relax_sweep(points, sticks).1.len() == sticks.len() - torn_marks(
            points,
            sticks,
            sticks.len(),
        ).len(),
        forall|i: int|
            0 <= i < relax_sweep(points, sticks).1.len() ==> is_untorn_link(
                points,
                sticks,
                #[trigger] relax_sweep(points, sticks).1[i],
            ),
        forall|j: int|
            0 <= j < sticks.len() && !torn_at(points, sticks, j) ==> relax_sweep(
                points,
                sticks,
            ).1.contains(#[trigger] sticks[j]),
{
    let marks = torn_marks(points, sticks, sticks.len());
    let r = relax_sweep(points, sticks).1;
    law_torn_marks(points, sticks, sticks.len());
    law_removal_is_exact(sticks, marks);
    assert forall|i: int| 0 <= i < r.len() implies is_untorn_link(
        points,
        sticks,
        #[trigger] r[i],
    ) by {
        assert(survives(sticks, marks, r[i]));
        let j = choose|j: int|
            0 <= j < sticks.len() && !is_marked(marks, j) && #[trigger] sticks[j] == r[i];
        assert(!torn_at(points, sticks, j));
    }
}

/// A cut drops exactly the links that it hits: the number of links falls by
/// one for each, no link that is left was hit, and every link that was not
/// hit is left as it was, with its length, stiffness and tear ratio.
pub proof fn law_cut_drops_hit(points: Seq<Point>, sticks: Seq<Stick>, c: Vec2, r2: int)
    requires
        sticks.len() <= usize::MAX,
    ensures
        remove_marked(sticks, cut_marks(points, sticks, c, r2, sticks.len())).len()
            == sticks.len() - cut_marks(points, sticks, c, r2, sticks.len()).len(),
        forall|i: int|
            0 <= i < remove_marked(sticks, cut_marks(points, sticks, c, r2, sticks.len())).len()
                ==> is_unhit_link(
                points,
                sticks,
                c,
                r2,
                #[trigger] remove_marked(sticks, cut_marks(points, sticks, c, r2, sticks.len()))[i],
            ),
        forall|j: int|
            0 <= j < sticks.len() && !cut_hits(points, sticks[j], c, r2) ==> remove_marked(
                sticks,
                cut_marks(points, sticks, c, r2, sticks.len()),
            ).contains(#[trigger] sticks[j]),
{
    let marks = cut_marks(points, sticks, c, r2, sticks.len());
    let r = remove_marked(sticks, marks);
    law_cut_marks(points, sticks, c, r2, sticks.len());
    law_removal_is_exact(sticks, marks);
    assert forall|i: int| 0 <= i < r.len() implies is_unhit_link(
        points,
        sticks,
        c,
        r2,
        #[trigger] r[i],
    ) by {
        assert(survives(sticks, marks, r[i]));
        let j = choose|j: int|
            0 <= j < sticks.len() && !is_marked(marks, j) && #[trigger] sticks[j] == r[i];
        assert(!cut_hits(points, sticks[j], c, r2));
    }
}

/// Every link of `after` is a link of `before`, and there are no more of
/// them.
pub open spec fn links_from(before: Seq<Stick>, after: Seq<Stick>) -> bool {
    &&& after.len() <= before.len()
    &&& forall|i: int| 0 <= i < after.len() ==> before.contains(#[trigger] after[i])
}

proof fn lemma_links_from_chain(a: Seq<Stick>, b: Seq<Stick>, c: Seq<Stick>)
    requires
        links_from(a, b),
        links_from(b, c),
    ensures
        links_from(a, c),
{
    assert forall|i: int| 0 <= i < c.len() implies a.contains(#[trigger] c[i]) by {
        assert(b.contains(c[i]));
        let k = choose|k: int| 0 <= k < b.len() && b[k] == c[i];
        assert(a.contains(b[k]));
    }
}

proof fn lemma_relax_prefix_len(points: Seq<Point>, sticks: Seq<Stick>, n: nat)
    ensures
        relax_prefix(points, sticks, n).len() == points.len(),
    decreases n,
{
    if n > 0 {
        lemma_relax_prefix_len(points, sticks, (n - 1) as nat);
    }
}

proof fn lemma_relax_times_links(points: Seq<Point>, sticks: Seq<Stick>, k: nat)
    requires
        sticks.len() <= usize::MAX,
    ensures
        links_from(sticks, relax_times(points, sticks, k).1),
        relax_times(points, sticks, k).0.len() == points.len(),
    decreases k,
{
    if k > 0 {
        lemma_relax_times_links(points, sticks, (k - 1) as nat);
        let prev = relax_times(points, sticks, (k - 1) as nat);
        let next = relax_sweep(prev.0, prev.1);
        lemma_relax_prefix_len(prev.0, prev.1, prev.1.len());
        law_sweep_drops_torn(prev.0, prev.1);
        assert forall|i: int| 0 <= i < next.1.len() implies prev.1.contains(
            #[trigger] next.1[i],
        ) by {
            assert(is_untorn_link(prev.0, prev.1, next.1[i]));
        }
        lemma_links_from_chain(sticks, prev.1, next.1);
    }
}

/// Through any number of sub-steps links only leave: every link that is
/// there afterwards was there before, unchanged. Points neither come nor go,
/// and the walls, gravity, drag and defaults stay as they were.
pub proof fn law_links_only_leave(w: World, sub_dt: i64, n: nat)
    requires
        w.sticks.len() <= usize::MAX,
    ensures
        links_from(w.sticks, advance(w, sub_dt, n).sticks),
        advance(w, sub_dt, n).points.len() == w.points.len(),
        advance(w, sub_dt, n) == (World {
            points: advance(w, sub_dt, n).points,
            sticks: advance(w, sub_dt, n).sticks,
            ..w
        }),
    decreases n,
{
    if n > 0 {
        law_links_only_leave(w, sub_dt, (n - 1) as nat);
        let v = advance(w, sub_dt, (n - 1) as nat);
        let moved = integrate_all(gravity_all(v.points, v.gravity), v.drag, sub_dt);
        lemma_relax_times_links(moved, v.sticks, 3);
        lemma_links_from_chain(w.sticks, v.sticks, substep(v, sub_dt).sticks);
    } else {
        assert forall|i: int| 0 <= i < w.sticks.len() implies w.sticks.contains(
            #[trigger] w.sticks[i],
        ) by {}
    }
}

/// A point has no velocity and no force stored.
pub open spec fn at_rest(p: Point) -> bool {
    p.old_position == p.position && p.acceleration == Vec2::spec_zero()
}

/// A point lies between the walls.
pub open spec fn inside(p: Point, width: i64, height: i64) -> bool {
    0 <= p.position.x <= width && 0 <= p.position.y <= height
}

/// The product of zero and anything is zero.
proof fn lemma_mul_zero(k: i64)
    ensures
        spec_fx_mul(0, k) == 0,
        spec_fx_mul(k, 0) == 0,
{
    assert(0int * (k as int) == 0) by (nonlinear_arith);
    assert((k as int) * 0int == 0) by (nonlinear_arith);
}

/// A point at rest stays as it is through gravity and integration where
/// there is no gravity or no time passes.
proof fn lemma_rest_point(p: Point, g: Vec2, drag: i64, dt: i64)
    requires
        at_rest(p),
        g == Vec2::spec_zero() || dt == 0,
    ensures
        p.spec_with_gravity(g).spec_integrated(drag, dt) == p,
{
    let q = p.spec_with_gravity(g);
    lemma_mul_zero(spec_sat_sub(SCALE, drag));
    lemma_mul_zero(spec_fx_mul(dt, dt));
    lemma_mul_zero(dt);
    lemma_mul_zero(g.x);
    lemma_mul_zero(g.y);
    if !p.is_pinned {
        assert(q.position.spec_minus(q.old_position) == Vec2::spec_zero());
        assert(q.spec_damped_velocity(drag) == Vec2::spec_zero());
        assert(q.acceleration.spec_scaled(spec_fx_mul(dt, dt)) == Vec2::spec_zero());
    }
}

/// A world without links, whose points are at rest between the walls, is
/// left as it is by any number of sub-steps, where there is no gravity or
/// the sub-steps take no time. The drag does not matter.
pub proof fn law_rest_is_kept(w: World, sub_dt: i64, n: nat)
    requires
        w.sticks.len() == 0,
        forall|j: int|
            0 <= j < w.points.len() ==> at_rest(#[trigger] w.points[j]) && inside(
                w.points[j],
                w.width,
                w.height,
            ),
        w.gravity == Vec2::spec_zero() || sub_dt == 0,
    ensures
        advance(w, sub_dt, n) == w,
    decreases n,
{
    if n > 0 {
        law_rest_is_kept(w, sub_dt, (n - 1) as nat);
        let moved = integrate_all(gravity_all(w.points, w.gravity), w.drag, sub_dt);
        assert(moved =~= w.points) by {
            assert forall|j: int| 0 <= j < w.points.len() implies moved[j] == w.points[j] by {
                lemma_rest_point(w.points[j], w.gravity, w.drag, sub_dt);
            }
        }
        reveal_with_fuel(relax_times, 4);
        let r = relax_times(moved, w.sticks, 3);
        assert(w.sticks =~= Seq::<Stick>::empty());
        assert(r.0 == moved);
        assert(r.1 =~= w.sticks);
        assert(confine_all(r.0, w.width, w.height, w.drag) =~= w.points);
        assert(substep(w, sub_dt).points == w.points);
        assert(substep(w, sub_dt) == w);
    }
}

/// A free point beyond the far wall of the first axis is put on that wall,
/// and its old position beyond the wall by its damped velocity. Where that
/// sum does not saturate, the velocity that the point then carries on this
/// axis is the damped velocity with its sign flipped.
pub proof fn law_wall_reflects(p: Point, width: i64, height: i64, drag: i64)
    requires
        !p.is_pinned,
        0 <= width < p.position.x,
    ensures
        p.spec_confined(width, height, drag).position.x == width,
        p.spec_confined(width, height, drag).old_position.x == spec_sat_add(
            width,
            p.spec_damped_velocity(drag).x,
        ),
        width + p.spec_damped_velocity(drag).x <= i64::MAX ==> p.spec_confined(
            width,
            height,
            drag,
        ).position.x - p.spec_confined(width, height, drag).old_position.x
            == -p.spec_damped_velocity(drag).x,
{
}

/// Where exactly one point lies inside the circle, the search picks it, and
/// the toggle flips its pin and changes nothing else.
pub proof fn law_single_point_toggled(w: World, c: Vec2, r2: int, k: int)
    requires
        0 <= k < w.points.len(),
        within(w.points[k], c, r2),
        forall|j: int| 0 <= j < w.points.len() && j != k ==> !within(#[trigger] w.points[j], c, r2),
    ensures
        nearest(w.points, c, r2, false) == Some(k),
        toggled(w, nearest(w.points, c, r2, false)).sticks == w.sticks,
        toggled(w, nearest(w.points, c, r2, false)).points.len() == w.points.len(),
        toggled(w, nearest(w.points, c, r2, false)).points[k] == (Point {
            is_pinned: !w.points[k].is_pinned,
            ..w.points[k]
        }),
        forall|j: int|
            0 <= j < w.points.len() && j != k ==> toggled(
                w,
                nearest(w.points, c, r2, false),
            ).points[j] == #[trigger] w.points[j],
{
    assert(is_nearest(w.points, c, r2, false, k));
    let m = choose|m: int| is_nearest(w.points, c, r2, false, m);
    crate::dynamics::lemma_nearest_unique(w.points, c, r2, false, k, m);
}

/// Where no point lies inside the circle, the search picks none and the
/// toggle changes nothing.
pub proof fn law_no_point_toggled(w: World, c: Vec2, r2: int)
    requires
        forall|j: int| 0 <= j < w.points.len() ==> !within(#[trigger] w.points[j], c, r2),
    ensures
        nearest(w.points, c, r2, false) is None,
        toggled(w, nearest(w.points, c, r2, false)) == w,
{
}

} // verus!
