//! The engine: a world of points and links, its construction, the frame
//! step, and the interaction queries.
use vstd::prelude::*;
use crate::dynamics::{
    accel_kept, advance, all_settled, confine_all, cut_hits, cut_marks, gravity_all,
    integrate_all, is_nearest, lemma_forces_keep_pins, lemma_nearest_unique,
    lemma_pins_kept_chain, lemma_settled_carried, lemma_walls_keep_pins, links_valid, marks_ascending, nearest,
    none_within, pins_kept, radius_squared, relax_prefix, relax_sweep, relax_times,
    remove_marked, spec_sub_dt, substep, swap_removed, torn_marks, World, RELAX_SWEEPS,
};
use crate::laws::{is_unhit_link, law_cut_drops_hit, law_links_only_leave, links_from};
use crate::model::{Point, Stick};
use crate::scalar::{fx_max, spec_fx_max, square};
use crate::vector::Vec2;

verus! {

/// Why a call was refused.
#[derive(Clone, Copy, Debug, PartialEq, Eq, Structural)]
pub enum SimError {
    /// A negative time step, or a frame of no sub-steps.
    InvalidArgument,
}

/// The engine's state. Points are only ever added; links may go.
pub struct Simulation {
    points: Vec<Point>,
    sticks: Vec<Stick>,
    width: i64,
    height: i64,
    gravity: Vec2,
    drag: i64,
    elasticity: i64,
    tear_resistance_threshold: i64,
}

impl View for Simulation {
    type V = World;

    closed spec fn view(&self) -> World {
        World {
            points: self.points@,
            sticks: self.sticks@,
            width: self.width,
            height: self.height,
            gravity: self.gravity,
            drag: self.drag,
            elasticity: self.elasticity,
            tear_resistance_threshold: self.tear_resistance_threshold,
        }
    }
}

/// The world a new engine starts from: empty, with gravity 981 downward,
/// drag 0.01, stiffness 0.5 and tear ratio 100.
pub open spec fn initial_world(width: i64, height: i64) -> World {
    World {
        points: Seq::empty(),
        sticks: Seq::empty(),
        width,
        height,
        gravity: Vec2 { x: 0, y: 981_000_000 },
        drag: 10_000,
        elasticity: 500_000,
        tear_resistance_threshold: 100_000_000,
    }
}

/// The link that `add_stick` makes between the points `a` and `b` of `w`.
pub open spec fn new_link(
    w: World,
    a: usize,
    b: usize,
    stiffness: Option<i64>,
    tear_resistance: Option<i64>,
) -> Stick {
    Stick {
        point_a_idx: a,
        point_b_idx: b,
        length: w.points[a as int].position.spec_distance(w.points[b as int].position),
        stiffness: match stiffness {
            Some(v) => v,
            None => w.elasticity,
        },
        tear_resistance: match tear_resistance {
            Some(v) => v,
            None => w.tear_resistance_threshold,
        },
    }
}

/// The world after the pin of the point `k`, if there is one, was flipped.
pub open spec fn toggled(w: World, k: Option<int>) -> World {
    match k {
        Some(k) => World {
            points: w.points.update(
                k,
                Point { is_pinned: !w.points[k].is_pinned, ..w.points[k] },
            ),
            ..w
        },
        None => w,
    }
}

/// The world after point `i` was put at rest at `target`; unchanged where
/// there is no such point or it is pinned.
pub open spec fn pulled(w: World, i: usize, target: Vec2) -> World {
    if i < w.points.len() && !w.points[i as int].is_pinned {
        World {
            points: w.points.update(
                i as int,
                Point { position: target, old_position: target, ..w.points[i as int] },
            ),
            ..w
        }
    } else {
        w
    }
}

impl Simulation {
    /// Every link joins two points that exist, and neither the drag nor a
    /// default for links to come is negative.
    pub open spec fn wf(&self) -> bool {
        &&& links_valid(self@.sticks, self@.points.len())
        &&& self@.drag >= 0
        &&& self@.elasticity >= 0
        &&& self@.tear_resistance_threshold >= 0
    }

    pub fn new(width: i64, height: i64) -> (r: Simulation)
        ensures
            r@ == initial_world(width, height),
            r.wf(),
    {
        Simulation {
            points: Vec::new(),
            sticks: Vec::new(),
            width,
            height,
            gravity: Vec2::new(0, 981_000_000),
            drag: 10_000,
            elasticity: 500_000,
            tear_resistance_threshold: 100_000_000,
        }
    }

    /// Tests whether the state is as `wf` asks.
    pub fn is_well_formed(&self) -> (r: bool)
        ensures
            r == self.wf(),
    {
        if self.drag < 0 || self.elasticity < 0 || self.tear_resistance_threshold < 0 {
            return false;
        }
        let n: usize = self.sticks.len();
        let count: usize = self.points.len();
        let mut i: usize = 0;
        while i < n
            invariant
                i <= n,
                n == self.sticks@.len(),
                count == self.points@.len(),
                links_valid(self.sticks@.take(i as int), count as nat),
            decreases n - i,
        {
            let s = self.sticks[i];
            if s.point_a_idx >= count || s.point_b_idx >= count {
                return false;
            }
            assert forall|j: int| 0 <= j < i + 1 implies (#[trigger] self.sticks@.take(
                i + 1,
            )[j]).point_a_idx < count && self.sticks@.take(i + 1)[j].point_b_idx < count by {
                if j < i {
                    assert(self.sticks@.take(i as int)[j] == self.sticks@[j]);
                }
            }
            i += 1;
        }
        assert(self.sticks@.take(n as int) =~= self.sticks@);
        true
    }

    pub fn points_count(&self) -> (r: usize)
        ensures
            r == self@.points.len(),
    {
        self.points.len()
    }

    pub fn sticks_count(&self) -> (r: usize)
        ensures
            r == self@.sticks.len(),
    {
        self.sticks.len()
    }

    /// The point at `index`, if there is one.
    pub fn point(&self, index: usize) -> (r: Option<Point>)
        ensures
            r == (if index < self@.points.len() {
                Some(self@.points[index as int])
            } else {
                None
            }),
    {
        if index < self.points.len() {
            Some(self.points[index])
        } else {
            None
        }
    }

    /// The link at `index`, if there is one.
    pub fn stick(&self, index: usize) -> (r: Option<Stick>)
        ensures
            r == (if index < self@.sticks.len() {
                Some(self@.sticks[index as int])
            } else {
                None
            }),
    {
        if index < self.sticks.len() {
            Some(self.sticks[index])
        } else {
            None
        }
    }

    pub fn width(&self) -> (r: i64)
        ensures
            r == self@.width,
    {
        self.width
    }

    pub fn height(&self) -> (r: i64)
        ensures
            r == self@.height,
    {
        self.height
    }

    pub fn gravity(&self) -> (r: Vec2)
        ensures
            r == self@.gravity,
    {
        self.gravity
    }

    pub fn drag(&self) -> (r: i64)
        ensures
            r == self@.drag,
    {
        self.drag
    }

    pub fn elasticity(&self) -> (r: i64)
        ensures
            r == self@.elasticity,
    {
        self.elasticity
    }

    pub fn tear_resistance_threshold(&self) -> (r: i64)
        ensures
            r == self@.tear_resistance_threshold,
    {
        self.tear_resistance_threshold
    }

    /// Adds a point at rest at `(x, y)` and returns its index.
    pub fn add_point(&mut self, x: i64, y: i64, pinned: bool) -> (r: usize)
        ensures
            r == old(self)@.points.len(),
            final(self)@ == (World {
                points: old(self)@.points.push(Point { is_pinned: pinned, ..Point::spec_new(x, y) }),
                ..old(self)@
            }),
            old(self).wf() ==> final(self).wf(),
    {
        let mut point = Point::new(x, y);
        point.is_pinned = pinned;
        self.points.push(point);
        self.points.len() - 1
    }

    /// Links the points `first_idx` and `second_idx` at their present distance.
    /// Does nothing where one of them does not exist.
    pub fn add_stick(
        &mut self,
        first_idx: usize,
        second_idx: usize,
        stiffness_override: Option<i64>,
        tear_resist_override: Option<i64>,
    )
        ensures
            first_idx < old(self)@.points.len() && second_idx < old(self)@.points.len() ==> final(self)@
                == (World {
                sticks: old(self)@.sticks.push(
                    new_link(old(self)@, first_idx, second_idx, stiffness_override, tear_resist_override),
                ),
                ..old(self)@
            }),
            !(first_idx < old(self)@.points.len() && second_idx < old(self)@.points.len())
                ==> final(self)@ == old(self)@,
            old(self).wf() ==> final(self).wf(),
    {
        if first_idx >= self.points.len() || second_idx >= self.points.len() {
            return ;
        }
        let first = self.points[first_idx];
        let second = self.points[second_idx];
        let length: i64 = first.position.distance(second.position);
        let stiffness: i64 = match stiffness_override {
            Some(v) => v,
            None => self.elasticity,
        };
        let tear_resistance: i64 = match tear_resist_override {
            Some(v) => v,
            None => self.tear_resistance_threshold,
        };
        self.sticks.push(Stick::new(first_idx, second_idx, length, stiffness, tear_resistance));
    }

    /// The coordinates of all points, interleaved: `x0, y0, x1, y1, ...`.
    pub fn get_point_positions(&self) -> (r: Vec<i64>)
        ensures
            r@.len() == 2 * self@.points.len(),
            forall|i: int|
                0 <= i < self@.points.len() ==> r@[2 * i] == (#[trigger] self@.points[i]).position.x
                    && r@[2 * i + 1] == self@.points[i].position.y,
    {
        let mut positions: Vec<i64> = Vec::new();
        let n: usize = self.points.len();
        let mut i: usize = 0;
        while i < n
            invariant
                i <= n,
                n == self.points@.len(),
                positions@.len() == 2 * i,
                forall|j: int|
                    0 <= j < i ==> positions@[2 * j] == (#[trigger] self.points@[j]).position.x
                        && positions@[2 * j + 1] == self.points@[j].position.y,
            decreases n - i,
        {
            let p = self.points[i];
            positions.push(p.position.x);
            positions.push(p.position.y);
            i += 1;
        }
        positions
    }

    /// The end points of all links, interleaved: `a0, b0, a1, b1, ...`.
    pub fn get_stick_indices(&self) -> (r: Vec<usize>)
        ensures
            r@.len() == 2 * self@.sticks.len(),
            forall|i: int|
                0 <= i < self@.sticks.len() ==> r@[2 * i] == (#[trigger] self@.sticks[i]).point_a_idx
                    && r@[2 * i + 1] == self@.sticks[i].point_b_idx,
    {
        let mut indices: Vec<usize> = Vec::new();
        let n: usize = self.sticks.len();
        let mut i: usize = 0;
        while i < n
            invariant
                i <= n,
                n == self.sticks@.len(),
                indices@.len() == 2 * i,
                forall|j: int|
                    0 <= j < i ==> indices@[2 * j] == (#[trigger] self.sticks@[j]).point_a_idx
                        && indices@[2 * j + 1] == self.sticks@[j].point_b_idx,
            decreases n - i,
        {
            let s = self.sticks[i];
            indices.push(s.point_a_idx);
            indices.push(s.point_b_idx);
            i += 1;
        }
        indices
    }

    pub fn set_gravity(&mut self, x: i64, y: i64)
        ensures
            final(self)@ == (World { gravity: Vec2 { x, y }, ..old(self)@ }),
            old(self).wf() ==> final(self).wf(),
    {
        self.gravity = Vec2::new(x, y);
    }

    /// Sets the drag; a negative value counts as zero.
    pub fn set_drag(&mut self, drag: i64)
        ensures
            final(self)@ == (World { drag: spec_fx_max(drag, 0), ..old(self)@ }),
            old(self).wf() ==> final(self).wf(),
    {
        self.drag = fx_max(drag, 0);
    }

    /// Sets the stiffness of links to come; a negative value counts as zero.
    pub fn set_elasticity(&mut self, elasticity: i64)
        ensures
            final(self)@ == (World { elasticity: spec_fx_max(elasticity, 0), ..old(self)@ }),
            old(self).wf() ==> final(self).wf(),
    {
        self.elasticity = fx_max(elasticity, 0);
    }

    /// Sets the tear ratio of links to come; a negative value counts as zero.
    pub fn set_tear_resistance_threshold(&mut self, threshold: i64)
        ensures
            final(self)@ == (World {
                tear_resistance_threshold: spec_fx_max(threshold, 0),
                ..old(self)@
            }),
            old(self).wf() ==> final(self).wf(),
    {
        self.tear_resistance_threshold = fx_max(threshold, 0);
    }

    /// Removes every point and every link.
    pub fn clear(&mut self)
        ensures
            final(self)@ == (World { points: Seq::empty(), sticks: Seq::empty(), ..old(self)@ }),
            old(self).wf() ==> final(self).wf(),
    {
        self.points.clear();
        self.sticks.clear();
    }
}

impl Simulation {
    /// Everything but the points and the links.
    closed spec fn params(&self) -> (i64, i64, Vec2, i64, i64, i64) {
        (
            self.width,
            self.height,
            self.gravity,
            self.drag,
            self.elasticity,
            self.tear_resistance_threshold,
        )
    }

    fn apply_gravity(&mut self)
        ensures
            final(self).points@ == gravity_all(old(self).points@, old(self).gravity),
            final(self).sticks@ == old(self).sticks@,
            final(self).params() == old(self).params(),
    {
        let g = self.gravity;
        let n: usize = self.points.len();
        let mut i: usize = 0;
        while i < n
            invariant
                i <= n,
                n == self.points@.len(),
                n == old(self).points@.len(),
                forall|j: int|
                    0 <= j < i ==> self.points@[j] == old(self).points@[j].spec_with_gravity(g),
                forall|j: int| i <= j < n ==> self.points@[j] == old(self).points@[j],
                self.sticks@ == old(self).sticks@,
                self.params() == old(self).params(),
            decreases n - i,
        {
            let p = self.points[i];
            self.points.set(i, p.with_gravity(g));
            i += 1;
        }
        assert(self.points@ =~= gravity_all(old(self).points@, g));
    }

    fn update_points(&mut self, dt: i64)
        ensures
            final(self).points@ == integrate_all(old(self).points@, old(self).drag, dt),
            final(self).sticks@ == old(self).sticks@,
            final(self).params() == old(self).params(),
    {
        let drag = self.drag;
        let n: usize = self.points.len();
        let mut i: usize = 0;
        while i < n
            invariant
                i <= n,
                n == self.points@.len(),
                n == old(self).points@.len(),
                forall|j: int|
                    0 <= j < i ==> self.points@[j] == old(self).points@[j].spec_integrated(
                        drag,
                        dt,
                    ),
                forall|j: int| i <= j < n ==> self.points@[j] == old(self).points@[j],
                self.sticks@ == old(self).sticks@,
                self.params() == old(self).params(),
            decreases n - i,
        {
            let p = self.points[i];
            self.points.set(i, p.integrated(drag, dt));
            i += 1;
        }
        assert(self.points@ =~= integrate_all(old(self).points@, drag, dt));
    }

    fn constrain_points(&mut self)
        ensures
            final(self).points@ == confine_all(
                old(self).points@,
                old(self).width,
                old(self).height,
                old(self).drag,
            ),
            final(self).sticks@ == old(self).sticks@,
            final(self).params() == old(self).params(),
    {
        let width = self.width;
        let height = self.height;
        let drag = self.drag;
        let n: usize = self.points.len();
        let mut i: usize = 0;
        while i < n
            invariant
                i <= n,
                n == self.points@.len(),
                n == old(self).points@.len(),
                forall|j: int|
                    0 <= j < i ==> self.points@[j] == old(self).points@[j].spec_confined(
                        width,
                        height,
                        drag,
                    ),
                forall|j: int| i <= j < n ==> self.points@[j] == old(self).points@[j],
                self.sticks@ == old(self).sticks@,
                self.params() == old(self).params(),
            decreases n - i,
        {
            let p = self.points[i];
            self.points.set(i, p.confined(width, height, drag));
            i += 1;
        }
        assert(self.points@ =~= confine_all(old(self).points@, width, height, drag));
    }

    /// Removes the links at `marks`, the highest index first, each by moving
    /// the last link into its place.
    fn remove_marked_sticks(&mut self, marks: &Vec<usize>)
        requires
            marks_ascending(marks@, old(self).sticks@.len() as int),
        ensures
            final(self).sticks@ == remove_marked(old(self).sticks@, marks@),
            final(self).sticks@.len() == old(self).sticks@.len() - marks@.len(),
            final(self).points@ == old(self).points@,
            final(self).params() == old(self).params(),
            forall|n: nat|
                links_valid(old(self).sticks@, n) ==> links_valid(final(self).sticks@, n),
    {
        let m: usize = marks.len();
        let mut k: usize = m;
        assert(marks@.take(m as int) =~= marks@);
        while k > 0
            invariant
                k <= m,
                m == marks@.len(),
                marks_ascending(marks@, old(self).sticks@.len() as int),
                self.sticks@.len() == old(self).sticks@.len() - (m - k),
                remove_marked(self.sticks@, marks@.take(k as int)) == remove_marked(
                    old(self).sticks@,
                    marks@,
                ),
                self.points@ == old(self).points@,
                self.params() == old(self).params(),
                forall|n: nat|
                    links_valid(old(self).sticks@, n) ==> links_valid(self.sticks@, n),
            decreases k,
        {
            k -= 1;
            let idx: usize = marks[k];
            let ghost before = self.sticks@;
            assert(marks@[k as int] + (m - k) <= old(self).sticks@.len());
            self.sticks.swap_remove(idx);
            proof {
                let head = marks@.take(k + 1);
                assert(head.last() == idx);
                assert(head.drop_last() =~= marks@.take(k as int));
                assert(self.sticks@ == swap_removed(before, idx as int));
                assert forall|n: nat| links_valid(old(self).sticks@, n) implies links_valid(
                    self.sticks@,
                    n,
                ) by {
                    assert(links_valid(before, n));
                    assert forall|i: int| 0 <= i < self.sticks@.len() implies (
                    #[trigger] self.sticks@[i]).point_a_idx < n && self.sticks@[i].point_b_idx
                        < n by {
                        if i == idx {
                            assert(self.sticks@[i] == before[before.len() - 1]);
                        } else {
                            assert(self.sticks@[i] == before[i]);
                        }
                    }
                }
            }
        }
        assert(marks@.take(0) =~= Seq::<usize>::empty());
    }

    /// One sweep over the links: each is relaxed, or marked where it is
    /// torn; the marked ones are then removed.
    fn update_sticks(&mut self)
        requires
            old(self).wf(),
        ensures
            (final(self).points@, final(self).sticks@) == relax_sweep(
                old(self).points@,
                old(self).sticks@,
            ),
            final(self).params() == old(self).params(),
            final(self).wf(),
            pins_kept(old(self).points@, final(self).points@),
            accel_kept(old(self).points@, final(self).points@),
            final(self).sticks@.len() <= old(self).sticks@.len(),
    {
        let mut marks: Vec<usize> = Vec::new();
        let n: usize = self.sticks.len();
        let mut i: usize = 0;
        while i < n
            invariant
                i <= n,
                n == self.sticks@.len(),
                self.sticks@ == old(self).sticks@,
                self.points@ == relax_prefix(old(self).points@, old(self).sticks@, i as nat),
                marks@ == torn_marks(old(self).points@, old(self).sticks@, i as nat),
                marks_ascending(marks@, i as int),
                links_valid(self.sticks@, self.points@.len()),
                pins_kept(old(self).points@, self.points@),
                accel_kept(old(self).points@, self.points@),
                self.params() == old(self).params(),
            decreases n - i,
        {
            let stick = self.sticks[i];
            assert(self.sticks@[i as int].point_a_idx < self.points@.len());
            let a = self.points[stick.point_a_idx];
            let b = self.points[stick.point_b_idx];
            if stick.is_torn(a, b) {
                marks.push(i);
            } else {
                let ends = stick.relaxed(a, b);
                self.points.set(stick.point_a_idx, ends.0);
                self.points.set(stick.point_b_idx, ends.1);
            }
            i += 1;
        }
        self.remove_marked_sticks(&marks);
    }

    /// One sub-step of length `sub_dt`: gravity, integration, the relaxation
    /// sweeps, the walls.
    pub fn step(&mut self, sub_dt: i64)
        requires
            old(self).wf(),
        ensures
            final(self)@ == substep(old(self)@, sub_dt),
            final(self).wf(),
            pins_kept(old(self)@.points, final(self)@.points),
            all_settled(final(self)@.points),
            final(self)@.sticks.len() <= old(self)@.sticks.len(),
    {
        let ghost start = self.points@;
        self.apply_gravity();
        self.update_points(sub_dt);
        let ghost moved = self.points@;
        proof {
            lemma_forces_keep_pins(start, self.gravity, self.drag, sub_dt);
        }
        let ghost links = self.sticks@;
        let mut k: u32 = 0;
        while k < RELAX_SWEEPS
            invariant
                k <= RELAX_SWEEPS,
                (self.points@, self.sticks@) == relax_times(moved, links, k as nat),
                self.wf(),
                pins_kept(moved, self.points@),
                accel_kept(moved, self.points@),
                self.sticks@.len() <= links.len(),
                self.params() == old(self).params(),
            decreases RELAX_SWEEPS - k,
        {
            self.update_sticks();
            k += 1;
        }
        let ghost relaxed = self.points@;
        self.constrain_points();
        proof {
            lemma_walls_keep_pins(relaxed, self.width, self.height, self.drag);
            lemma_pins_kept_chain(start, moved, relaxed);
            lemma_pins_kept_chain(start, relaxed, self.points@);
            lemma_settled_carried(moved, relaxed);
            lemma_settled_carried(relaxed, self.points@);
        }
    }

    /// Advances the world by one frame of length `dt`, in `substeps` equal
    /// sub-steps. A negative `dt` and a frame of no sub-steps are refused,
    /// and the world is then left as it was.
    pub fn update(&mut self, dt: i64, substeps: u32) -> (r: Result<(), SimError>)
        requires
            old(self).wf(),
        ensures
            r is Err <==> (substeps == 0 || dt < 0),
            r is Err ==> r == Err::<(), SimError>(SimError::InvalidArgument),
            r is Err ==> final(self)@ == old(self)@,
            r is Ok ==> final(self)@ == advance(
                old(self)@,
                spec_sub_dt(dt, substeps),
                substeps as nat,
            ),
            r is Ok ==> all_settled(final(self)@.points),
            final(self).wf(),
            pins_kept(old(self)@.points, final(self)@.points),
            links_from(old(self)@.sticks, final(self)@.sticks),
    {
        let links: usize = self.sticks.len();
        proof {
            law_links_only_leave(self@, spec_sub_dt(dt, substeps), 0);
        }
        if substeps == 0 || dt < 0 {
            return Err(SimError::InvalidArgument);
        }
        let sub_dt: i64 = dt / (substeps as i64);
        let mut i: u32 = 0;
        while i < substeps
            invariant
                i <= substeps,
                substeps >= 1,
                links == old(self)@.sticks.len(),
                self@ == advance(old(self)@, sub_dt, i as nat),
                self.wf(),
                pins_kept(old(self)@.points, self@.points),
                i >= 1 ==> all_settled(self@.points),
                self@.sticks.len() <= old(self)@.sticks.len(),
            decreases substeps - i,
        {
            self.step(sub_dt);
            i += 1;
        }
        proof {
            law_links_only_leave(old(self)@, sub_dt, substeps as nat);
        }
        Ok(())
    }

    /// Searches the point nearest to `(x, y)` among those strictly inside
    /// the circle of the given radius round it, the first of those equally
    /// near. With `free_only`, pinned points are passed over.
    pub fn find_nearest(&self, x: i64, y: i64, radius: i64, free_only: bool) -> (r: Option<usize>)
        ensures
            match r {
                Some(k) => nearest(
                    self@.points,
                    Vec2 { x, y },
                    radius_squared(radius),
                    free_only,
                ) == Some(k as int) && is_nearest(
                    self@.points,
                    Vec2 { x, y },
                    radius_squared(radius),
                    free_only,
                    k as int,
                ),
                None => nearest(self@.points, Vec2 { x, y }, radius_squared(radius), free_only)
                    is None && none_within(
                    self@.points,
                    Vec2 { x, y },
                    radius_squared(radius),
                    free_only,
                ),
            },
    {
        let c = Vec2::new(x, y);
        let r2: u128 = square(radius);
        let mut best: Option<usize> = None;
        let mut min_d: u128 = r2;
        let n: usize = self.points.len();
        let mut i: usize = 0;
        while i < n
            invariant
                i <= n,
                n == self.points@.len(),
                r2 as int == radius_squared(radius),
                c == (Vec2 { x, y }),
                match best {
                    None => min_d == r2 && forall|j: int|
                        0 <= j < i && crate::dynamics::eligible(
                            #[trigger] self.points@[j],
                            free_only,
                        ) ==> self.points@[j].position.spec_distance_squared(c) >= r2 as int,
                    Some(k) => {
                        &&& k < i
                        &&& crate::dynamics::eligible(self.points@[k as int], free_only)
                        &&& self.points@[k as int].position.spec_distance_squared(c) == min_d as int
                        &&& min_d < r2
                        &&& forall|j: int|
                            0 <= j < i && crate::dynamics::eligible(
                                #[trigger] self.points@[j],
                                free_only,
                            ) ==> self.points@[j].position.spec_distance_squared(c) >= min_d as int
                        &&& forall|j: int|
                            0 <= j < k && crate::dynamics::eligible(
                                #[trigger] self.points@[j],
                                free_only,
                            ) ==> self.points@[j].position.spec_distance_squared(c) > min_d as int
                    },
                },
            decreases n - i,
        {
            let p = self.points[i];
            if !(free_only && p.is_pinned) {
                let d: u128 = p.position.distance_squared(c);
                if d < min_d {
                    min_d = d;
                    best = Some(i);
                }
            }
            i += 1;
        }
        proof {
            let ghost_r2 = radius_squared(radius);
            match best {
                Some(k) => {
                    assert(is_nearest(self@.points, c, ghost_r2, free_only, k as int));
                    let m = choose|m: int| is_nearest(self@.points, c, ghost_r2, free_only, m);
                    lemma_nearest_unique(self@.points, c, ghost_r2, free_only, k as int, m);
                },
                None => {
                    assert(none_within(self@.points, c, ghost_r2, free_only));
                },
            }
        }
        best
    }

    /// Removes every link that has an end strictly inside the circle of the
    /// given radius round `(x, y)`.
    pub fn interact_cut(&mut self, x: i64, y: i64, radius: i64)
        requires
            old(self).wf(),
        ensures
            final(self)@ == (World {
                sticks: remove_marked(
                    old(self)@.sticks,
                    cut_marks(
                        old(self)@.points,
                        old(self)@.sticks,
                        Vec2 { x, y },
                        radius_squared(radius),
                        old(self)@.sticks.len(),
                    ),
                ),
                ..old(self)@
            }),
            final(self).wf(),
            forall|i: int|
                0 <= i < final(self)@.sticks.len() ==> is_unhit_link(
                    old(self)@.points,
                    old(self)@.sticks,
                    Vec2 { x, y },
                    radius_squared(radius),
                    #[trigger] final(self)@.sticks[i],
                ),
            forall|j: int|
                0 <= j < old(self)@.sticks.len() && !cut_hits(
                    old(self)@.points,
                    old(self)@.sticks[j],
                    Vec2 { x, y },
                    radius_squared(radius),
                ) ==> final(self)@.sticks.contains(#[trigger] old(self)@.sticks[j]),
    {
        let c = Vec2::new(x, y);
        let r2: u128 = square(radius);
        let mut marks: Vec<usize> = Vec::new();
        let n: usize = self.sticks.len();
        let mut i: usize = 0;
        while i < n
            invariant
                i <= n,
                n == self.sticks@.len(),
                self.wf(),
                r2 as int == radius_squared(radius),
                c == (Vec2 { x, y }),
                marks@ == cut_marks(self.points@, self.sticks@, c, r2 as int, i as nat),
                marks_ascending(marks@, i as int),
            decreases n - i,
        {
            let stick = self.sticks[i];
            assert(self.sticks@[i as int].point_a_idx < self.points@.len());
            let pa = self.points[stick.point_a_idx];
            let pb = self.points[stick.point_b_idx];
            if pa.position.distance_squared(c) < r2 || pb.position.distance_squared(c) < r2 {
                marks.push(i);
            }
            i += 1;
        }
        proof {
            law_cut_drops_hit(self.points@, self.sticks@, c, r2 as int);
        }
        self.remove_marked_sticks(&marks);
    }

    /// Flips the pin of the point that `find_nearest` picks among all
    /// points; does nothing where it picks none.
    pub fn interact_pin_toggle(&mut self, x: i64, y: i64, radius: i64)
        ensures
            final(self)@ == toggled(
                old(self)@,
                nearest(old(self)@.points, Vec2 { x, y }, radius_squared(radius), false),
            ),
            old(self).wf() ==> final(self).wf(),
    {
        match self.find_nearest(x, y, radius, false) {
            Some(idx) => {
                let p = self.points[idx];
                self.points.set(
                    idx,
                    Point {
                        position: p.position,
                        old_position: p.old_position,
                        acceleration: p.acceleration,
                        is_pinned: !p.is_pinned,
                    },
                );
            },
            None => {},
        }
    }

    /// The index of the point that `find_nearest` picks among the points
    /// that are not pinned, or `usize::MAX` where it picks none.
    pub fn interact_pull_start(&mut self, x: i64, y: i64, radius: i64) -> (r: usize)
        ensures
            final(self)@ == old(self)@,
            r == (match nearest(old(self)@.points, Vec2 { x, y }, radius_squared(radius), true) {
                Some(k) => k as usize,
                None => usize::MAX,
            }),
            r != usize::MAX ==> r < old(self)@.points.len(),
    {
        match self.find_nearest(x, y, radius, true) {
            Some(idx) => idx,
            None => usize::MAX,
        }
    }

    /// Puts the point at rest at the target. Does nothing where there is no
    /// such point or it is pinned.
    pub fn interact_pull_move(&mut self, point_index: usize, target_x: i64, target_y: i64)
        ensures
            final(self)@ == pulled(old(self)@, point_index, Vec2 { x: target_x, y: target_y }),
            old(self).wf() ==> final(self).wf(),
    {
        if point_index < self.points.len() {
            let p = self.points[point_index];
            if p.is_pinned {
                return ;
            }
            let target_pos = Vec2::new(target_x, target_y);
            self.points.set(
                point_index,
                Point {
                    position: target_pos,
                    old_position: target_pos,
                    acceleration: p.acceleration,
                    is_pinned: false,
                },
            );
        }
    }
}

} // verus!
