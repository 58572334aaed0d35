use verlet_engine::model::{Point, Stick};
use verlet_engine::scalar::{fx_div, fx_max, fx_mul, isqrt, sat_add, sat_sub, square};
use verlet_engine::simulation::{SimError, Simulation};
use verlet_engine::vector::Vec2;

fn fx(v: f64) -> i64 {
    (v * 1_000_000.0).round() as i64
}

fn point_at(sim: &Simulation, i: usize) -> Point {
    sim.point(i).unwrap()
}

#[test]
fn simulation_creation() {
    let sim = Simulation::new(fx(800.0), fx(600.0));
    assert_eq!(sim.points_count(), 0);
    assert_eq!(sim.sticks_count(), 0);
    assert_eq!(sim.width(), fx(800.0));
    assert_eq!(sim.height(), fx(600.0));
}

#[test]
fn add_points_and_sticks() {
    let mut sim = Simulation::new(fx(800.0), fx(600.0));
    let first = sim.add_point(fx(10.0), fx(10.0), false);
    let second = sim.add_point(fx(20.0), fx(10.0), false);
    sim.add_stick(first, second, None, None);

    assert_eq!(sim.points_count(), 2);
    assert_eq!(sim.sticks_count(), 1);
    let stick = sim.stick(0).unwrap();
    assert_eq!(stick.point_a(), 0);
    assert_eq!(stick.point_b(), 1);
    assert_eq!(stick.length, fx(10.0));
    assert_eq!(stick.stiffness, sim.elasticity());
    assert_eq!(stick.tear_resistance, sim.tear_resistance_threshold());
}

#[test]
fn defaults_of_a_new_simulation() {
    let sim = Simulation::new(fx(800.0), fx(600.0));
    assert_eq!(sim.gravity(), Vec2 { x: 0, y: fx(981.0) });
    assert_eq!(sim.drag(), fx(0.01));
    assert_eq!(sim.elasticity(), fx(0.5));
    assert_eq!(sim.tear_resistance_threshold(), fx(100.0));
    assert!(sim.is_well_formed());
}

#[test]
fn default_link_scenario() {
    let mut sim = Simulation::new(fx(800.0), fx(600.0));
    assert_eq!(sim.add_point(fx(10.0), fx(10.0), false), 0);
    assert_eq!(sim.add_point(fx(20.0), fx(10.0), false), 1);
    sim.add_stick(0, 1, None, None);
    let stick = sim.stick(0).unwrap();
    assert_eq!(stick.length, 10_000_000);
    assert_eq!(stick.stiffness, 500_000);
    assert_eq!(stick.tear_resistance, 100_000_000);
}

#[test]
fn add_point_appends_a_point_at_rest() {
    let mut sim = Simulation::new(fx(800.0), fx(600.0));
    sim.add_point(fx(1.0), fx(2.0), false);
    let before = sim.points_count();
    let idx = sim.add_point(fx(33.5), fx(-4.25), true);
    assert_eq!(idx, before);
    assert_eq!(sim.points_count(), before + 1);
    let p = point_at(&sim, idx);
    assert_eq!(p.position, Vec2 { x: fx(33.5), y: fx(-4.25) });
    assert_eq!(p.old_position, p.position);
    assert_eq!(p.acceleration, Vec2 { x: 0, y: 0 });
    assert!(p.is_pinned);
    assert_eq!(p.x(), fx(33.5));
    assert_eq!(p.y(), fx(-4.25));
    assert_eq!(point_at(&sim, 0).position, Vec2 { x: fx(1.0), y: fx(2.0) });
}

#[test]
fn add_stick_takes_overrides() {
    let mut sim = Simulation::new(fx(800.0), fx(600.0));
    sim.add_point(0, 0, false);
    sim.add_point(fx(3.0), fx(4.0), false);
    sim.add_stick(0, 1, Some(fx(0.9)), Some(fx(2.0)));
    let stick = sim.stick(0).unwrap();
    assert_eq!(stick.length, fx(5.0));
    assert_eq!(stick.stiffness, fx(0.9));
    assert_eq!(stick.tear_resistance, fx(2.0));
}

#[test]
fn add_stick_uses_current_defaults() {
    let mut sim = Simulation::new(fx(800.0), fx(600.0));
    sim.add_point(0, 0, false);
    sim.add_point(fx(6.0), fx(8.0), false);
    sim.set_elasticity(fx(0.25));
    sim.set_tear_resistance_threshold(fx(3.0));
    sim.add_stick(1, 0, None, None);
    let stick = sim.stick(0).unwrap();
    assert_eq!(stick.point_a(), 1);
    assert_eq!(stick.point_b(), 0);
    assert_eq!(stick.length, fx(10.0));
    assert_eq!(stick.stiffness, fx(0.25));
    assert_eq!(stick.tear_resistance, fx(3.0));
}

#[test]
fn add_stick_ignores_missing_points() {
    let mut sim = Simulation::new(fx(800.0), fx(600.0));
    sim.add_point(0, 0, false);
    sim.add_stick(0, 1, None, None);
    sim.add_stick(5, 0, None, None);
    assert_eq!(sim.sticks_count(), 0);
    assert_eq!(sim.points_count(), 1);
    assert_eq!(sim.stick(0), None);
    assert_eq!(sim.point(1), None);
}

#[test]
fn setters_clamp_at_zero() {
    let mut sim = Simulation::new(fx(800.0), fx(600.0));
    sim.set_drag(fx(-0.5));
    sim.set_elasticity(fx(-1.0));
    sim.set_tear_resistance_threshold(fx(-2.0));
    assert_eq!(sim.drag(), 0);
    assert_eq!(sim.elasticity(), 0);
    assert_eq!(sim.tear_resistance_threshold(), 0);
    sim.set_drag(fx(0.2));
    sim.set_gravity(fx(1.0), fx(-2.0));
    assert_eq!(sim.drag(), fx(0.2));
    assert_eq!(sim.gravity(), Vec2 { x: fx(1.0), y: fx(-2.0) });
}

#[test]
fn clear_empties_both_collections() {
    let mut sim = Simulation::new(fx(800.0), fx(600.0));
    sim.add_point(0, 0, false);
    sim.add_point(fx(1.0), 0, false);
    sim.add_stick(0, 1, None, None);
    sim.set_drag(fx(0.3));
    sim.clear();
    assert_eq!(sim.points_count(), 0);
    assert_eq!(sim.sticks_count(), 0);
    assert_eq!(sim.drag(), fx(0.3));
    assert_eq!(sim.add_point(0, 0, false), 0);
}

#[test]
fn flat_views_interleave() {
    let mut sim = Simulation::new(fx(800.0), fx(600.0));
    sim.add_point(fx(1.0), fx(2.0), false);
    sim.add_point(fx(3.0), fx(4.0), true);
    sim.add_point(fx(5.0), fx(6.0), false);
    sim.add_stick(0, 2, None, None);
    sim.add_stick(2, 1, None, None);
    assert_eq!(
        sim.get_point_positions(),
        vec![fx(1.0), fx(2.0), fx(3.0), fx(4.0), fx(5.0), fx(6.0)]
    );
    assert_eq!(sim.get_stick_indices(), vec![0, 2, 2, 1]);
}

#[test]
fn update_rejects_bad_arguments() {
    let mut sim = Simulation::new(fx(800.0), fx(600.0));
    sim.add_point(fx(10.0), fx(10.0), false);
    assert_eq!(sim.update(fx(0.016), 0), Err(SimError::InvalidArgument));
    assert_eq!(sim.update(-1, 4), Err(SimError::InvalidArgument));
    assert_eq!(point_at(&sim, 0), Point::new(fx(10.0), fx(10.0)));
    assert_eq!(sim.update(fx(0.016), 1), Ok(()));
}

#[test]
fn free_fall_one_step() {
    let mut sim = Simulation::new(fx(800.0), fx(600.0));
    sim.add_point(fx(100.0), fx(100.0), false);
    assert_eq!(sim.update(fx(0.016), 1), Ok(()));
    let p = point_at(&sim, 0);
    // 981 * 0.016^2 = 0.251136
    assert_eq!(p.position, Vec2 { x: fx(100.0), y: 100_251_136 });
    assert_eq!(p.old_position, Vec2 { x: fx(100.0), y: fx(100.0) });
    assert_eq!(p.acceleration, Vec2 { x: 0, y: 0 });
    assert_eq!(sim.update(fx(0.016), 1), Ok(()));
    let q = point_at(&sim, 0);
    // velocity 0.251136 * 0.99 = 0.248624 (rounded toward zero), plus 0.251136
    assert_eq!(q.position.y, 100_251_136 + 248_624 + 251_136);
    assert_eq!(q.old_position.y, 100_251_136);
}

#[test]
fn substeps_split_the_frame() {
    let mut a = Simulation::new(fx(800.0), fx(600.0));
    a.add_point(fx(100.0), fx(100.0), false);
    assert_eq!(a.update(fx(0.016), 2), Ok(()));
    let mut b = Simulation::new(fx(800.0), fx(600.0));
    b.add_point(fx(100.0), fx(100.0), false);
    b.step(fx(0.008));
    b.step(fx(0.008));
    assert_eq!(point_at(&a, 0), point_at(&b, 0));
    // two sub-steps of 0.008: 981 * 0.000064 = 0.062784 each
    assert_eq!(point_at(&a, 0).position.y, fx(100.0) + 62_784 + 62_156 + 62_784);
}

#[test]
fn point_at_rest_without_forces_stays() {
    let mut sim = Simulation::new(fx(800.0), fx(600.0));
    sim.set_gravity(0, 0);
    sim.set_drag(0);
    sim.add_point(fx(123.0), fx(456.0), false);
    assert_eq!(sim.update(fx(0.016), 8), Ok(()));
    assert_eq!(sim.update(fx(1.0), 1), Ok(()));
    assert_eq!(point_at(&sim, 0), Point::new(fx(123.0), fx(456.0)));
}

#[test]
fn zero_time_step_moves_nothing() {
    let mut sim = Simulation::new(fx(800.0), fx(600.0));
    sim.add_point(fx(10.0), fx(10.0), false);
    sim.add_point(fx(20.0), fx(10.0), true);
    sim.add_point(fx(20.0), fx(30.0), false);
    sim.add_stick(0, 1, None, None);
    for n in 1..5 {
        assert_eq!(sim.update(0, n), Ok(()));
        assert_eq!(point_at(&sim, 0), Point::new(fx(10.0), fx(10.0)));
        assert_eq!(point_at(&sim, 2), Point::new(fx(20.0), fx(30.0)));
        let pinned = point_at(&sim, 1);
        assert_eq!(pinned.position, Vec2 { x: fx(20.0), y: fx(10.0) });
        assert_eq!(pinned.old_position, pinned.position);
        assert_eq!(pinned.acceleration, Vec2 { x: 0, y: 0 });
    }
    assert_eq!(sim.sticks_count(), 1);
}

#[test]
fn pinned_point_never_moves() {
    let mut sim = Simulation::new(fx(800.0), fx(600.0));
    sim.add_point(fx(400.0), fx(10.0), true);
    sim.add_point(fx(400.0), fx(60.0), false);
    sim.add_point(fx(-50.0), fx(700.0), true);
    sim.add_stick(0, 1, Some(fx(1.0)), None);
    sim.add_stick(1, 2, None, None);
    for _ in 0..20 {
        assert_eq!(sim.update(fx(0.016), 4), Ok(()));
        assert_eq!(point_at(&sim, 0).position, Vec2 { x: fx(400.0), y: fx(10.0) });
        assert_eq!(point_at(&sim, 2).position, Vec2 { x: fx(-50.0), y: fx(700.0) });
        assert!(point_at(&sim, 0).is_pinned);
        assert_eq!(point_at(&sim, 1).acceleration, Vec2 { x: 0, y: 0 });
    }
    assert_ne!(point_at(&sim, 1).position, Vec2 { x: fx(400.0), y: fx(60.0) });
}

#[test]
fn relaxation_pulls_ends_together() {
    let link = Stick::new(0, 1, fx(10.0), fx(0.5), fx(100.0));
    let a = Point::new(0, 0);
    let b = Point::new(fx(20.0), 0);
    assert!(!link.is_torn(a, b));
    // delta 20, diff = (10 - 20) / 20 = -0.5, correction = 20 * 0.5 * -0.5 * 0.5 = -2.5
    assert_eq!(link.correction(a, b), Vec2 { x: fx(-2.5), y: 0 });
    let (na, nb) = link.relaxed(a, b);
    assert_eq!(na.position, Vec2 { x: fx(2.5), y: 0 });
    assert_eq!(nb.position, Vec2 { x: fx(17.5), y: 0 });
    assert_eq!(na.old_position, a.old_position);

    let mut pinned = a;
    pinned.set_pinned(true);
    let (pa, pb) = link.relaxed(pinned, b);
    assert_eq!(pa, pinned);
    assert_eq!(pb.position, Vec2 { x: fx(15.0), y: 0 });
    let (qb, qa) = link.relaxed(b, pinned);
    assert_eq!(qa, pinned);
    assert_eq!(qb.position, Vec2 { x: fx(15.0), y: 0 });
    let mut pinned_b = b;
    pinned_b.set_pinned(true);
    assert_eq!(link.relaxed(pinned, pinned_b), (pinned, pinned_b));
}

#[test]
fn coincident_ends_do_not_fail() {
    let link = Stick::new(0, 1, fx(10.0), fx(0.5), fx(100.0));
    let a = Point::new(fx(5.0), fx(5.0));
    assert_eq!(link.correction(a, a), Vec2 { x: 0, y: 0 });
    assert_eq!(link.relaxed(a, a), (a, a));
}

#[test]
fn overstretched_link_tears() {
    let mut sim = Simulation::new(fx(800.0), fx(600.0));
    sim.set_gravity(0, 0);
    sim.add_point(fx(100.0), fx(100.0), false);
    sim.add_point(fx(110.0), fx(100.0), false);
    sim.add_point(fx(100.0), fx(110.0), false);
    sim.add_stick(0, 1, None, Some(fx(2.0)));
    sim.add_stick(0, 2, None, Some(fx(2.0)));
    sim.add_stick(1, 2, None, None);
    sim.interact_pull_move(1, fx(130.0), fx(100.0));
    assert_eq!(sim.update(fx(0.016), 1), Ok(()));
    assert_eq!(sim.sticks_count(), 2);
    assert_eq!(sim.get_stick_indices(), vec![1, 2, 0, 2]);
    assert!(sim.is_well_formed());
    // the torn link moved neither of its ends in the first sweep; the others did
    assert_eq!(sim.points_count(), 3);
}

#[test]
fn link_at_the_threshold_holds() {
    let link = Stick::new(0, 1, fx(10.0), fx(0.5), fx(2.0));
    let a = Point::new(0, 0);
    assert!(!link.is_torn(a, Point::new(fx(20.0), 0)));
    assert!(link.is_torn(a, Point::new(20_000_001, 0)));
}

#[test]
fn wall_reflects_with_damping() {
    let p = Point {
        position: Vec2 { x: fx(805.0), y: fx(50.0) },
        old_position: Vec2 { x: fx(795.0), y: fx(50.0) },
        acceleration: Vec2 { x: 0, y: 0 },
        is_pinned: false,
    };
    let q = p.confined(fx(800.0), fx(600.0), fx(0.01));
    assert_eq!(q.position, Vec2 { x: fx(800.0), y: fx(50.0) });
    assert_eq!(q.old_position, Vec2 { x: fx(809.9), y: fx(50.0) });
    assert_eq!(q.position.x - q.old_position.x, fx(-9.9));

    let low = Point {
        position: Vec2 { x: fx(-3.0), y: fx(601.0) },
        old_position: Vec2 { x: fx(1.0), y: fx(600.0) },
        acceleration: Vec2 { x: 0, y: 0 },
        is_pinned: false,
    };
    let r = low.confined(fx(800.0), fx(600.0), 0);
    assert_eq!(r.position, Vec2 { x: 0, y: fx(600.0) });
    assert_eq!(r.old_position, Vec2 { x: fx(-4.0), y: fx(601.0) });

    let mut held = p;
    held.set_pinned(true);
    assert_eq!(held.confined(fx(800.0), fx(600.0), fx(0.01)), held);
}

#[test]
fn point_crossing_the_wall_ends_on_it() {
    let mut sim = Simulation::new(fx(800.0), fx(600.0));
    sim.set_gravity(fx(1_000_000.0), 0);
    sim.add_point(fx(799.0), fx(300.0), false);
    sim.step(fx(0.01));
    let p = point_at(&sim, 0);
    // pushed by 1e6 * 1e-4 = 100 to 899, then put on the wall
    assert_eq!(p.position, Vec2 { x: fx(800.0), y: fx(300.0) });
    assert_eq!(p.old_position, Vec2 { x: fx(899.0), y: fx(300.0) });
    assert_eq!(p.position.x - p.old_position.x, -fx(100.0) * 99 / 100);
}

#[test]
fn pin_toggle_flips_the_single_point_in_range() {
    let mut sim = Simulation::new(fx(800.0), fx(600.0));
    sim.add_point(fx(10.0), fx(10.0), false);
    sim.add_point(fx(50.0), fx(50.0), false);
    sim.add_point(fx(90.0), fx(90.0), true);
    sim.interact_pin_toggle(fx(51.0), fx(50.0), fx(5.0));
    assert!(!point_at(&sim, 0).is_pinned);
    assert!(point_at(&sim, 1).is_pinned);
    assert!(point_at(&sim, 2).is_pinned);
    assert_eq!(point_at(&sim, 1).position, Vec2 { x: fx(50.0), y: fx(50.0) });
    sim.interact_pin_toggle(fx(90.0), fx(91.0), fx(2.0));
    assert!(!point_at(&sim, 2).is_pinned);
    sim.interact_pin_toggle(fx(300.0), fx(300.0), fx(5.0));
    assert!(!point_at(&sim, 0).is_pinned);
    assert!(point_at(&sim, 1).is_pinned);
    assert!(!point_at(&sim, 2).is_pinned);
}

#[test]
fn search_takes_the_nearest_and_the_first_of_equals() {
    let mut sim = Simulation::new(fx(800.0), fx(600.0));
    sim.add_point(fx(14.0), fx(10.0), false);
    sim.add_point(fx(12.0), fx(10.0), false);
    sim.add_point(fx(8.0), fx(10.0), false);
    assert_eq!(sim.find_nearest(fx(10.0), fx(10.0), fx(5.0), false), Some(1));
    assert_eq!(sim.find_nearest(fx(10.0), fx(10.0), fx(2.0), false), None);
    assert_eq!(sim.find_nearest(fx(10.0), fx(10.0), fx(-5.0), false), Some(1));
    assert_eq!(sim.find_nearest(fx(14.0), fx(10.0), 1, false), Some(0));
    sim.interact_pin_toggle(fx(12.0), fx(10.0), fx(1.0));
    assert_eq!(sim.find_nearest(fx(10.0), fx(10.0), fx(5.0), true), Some(2));
    assert_eq!(sim.find_nearest(fx(10.0), fx(10.0), fx(5.0), false), Some(1));
}

#[test]
fn pull_start_skips_pinned_points() {
    let mut sim = Simulation::new(fx(800.0), fx(600.0));
    sim.add_point(fx(10.0), fx(10.0), true);
    sim.add_point(fx(13.0), fx(10.0), false);
    assert_eq!(sim.interact_pull_start(fx(10.0), fx(10.0), fx(5.0)), 1);
    assert_eq!(sim.interact_pull_start(fx(10.0), fx(10.0), fx(3.0)), usize::MAX);
    assert_eq!(sim.interact_pull_start(fx(500.0), fx(500.0), fx(5.0)), usize::MAX);
}

#[test]
fn pull_move_puts_the_point_at_rest() {
    let mut sim = Simulation::new(fx(800.0), fx(600.0));
    sim.add_point(fx(10.0), fx(10.0), false);
    sim.add_point(fx(20.0), fx(20.0), true);
    assert_eq!(sim.update(fx(0.016), 1), Ok(()));
    sim.interact_pull_move(0, fx(70.0), fx(80.0));
    let p = point_at(&sim, 0);
    assert_eq!(p.position, Vec2 { x: fx(70.0), y: fx(80.0) });
    assert_eq!(p.old_position, p.position);
    sim.interact_pull_move(1, fx(1.0), fx(1.0));
    assert_eq!(point_at(&sim, 1).position, Vec2 { x: fx(20.0), y: fx(20.0) });
    sim.interact_pull_move(2, fx(1.0), fx(1.0));
    sim.interact_pull_move(usize::MAX, fx(1.0), fx(1.0));
    assert_eq!(sim.points_count(), 2);
    assert_eq!(point_at(&sim, 0), p);
}

#[test]
fn cut_removes_links_with_an_end_in_range() {
    let mut sim = Simulation::new(fx(800.0), fx(600.0));
    for i in 0..5 {
        sim.add_point(fx(10.0 * i as f64), fx(100.0), false);
    }
    sim.add_stick(0, 1, None, None);
    sim.add_stick(1, 2, Some(fx(0.7)), Some(fx(3.0)));
    sim.add_stick(2, 3, None, None);
    sim.add_stick(3, 4, Some(fx(0.9)), Some(fx(4.0)));
    let kept = sim.stick(3).unwrap();
    sim.interact_cut(fx(11.0), fx(100.0), fx(2.0));
    assert_eq!(sim.sticks_count(), 2);
    // the last link took the place of the second, then the third that of the first
    assert_eq!(sim.stick(0), Some(Stick::new(2, 3, fx(10.0), fx(0.5), fx(100.0))));
    assert_eq!(sim.stick(1), Some(kept));
    assert_eq!(sim.points_count(), 5);
    sim.interact_cut(fx(500.0), fx(500.0), fx(2.0));
    assert_eq!(sim.sticks_count(), 2);
    // strictly inside: a point on the circle is not hit
    sim.interact_cut(fx(42.0), fx(100.0), fx(2.0));
    assert_eq!(sim.sticks_count(), 2);
    sim.interact_cut(fx(35.0), fx(100.0), fx(6.0));
    assert_eq!(sim.sticks_count(), 0);
    assert!(sim.is_well_formed());
}

#[test]
fn scalar_arithmetic() {
    assert_eq!(fx_mul(fx(1.5), fx(2.0)), fx(3.0));
    assert_eq!(fx_mul(fx(-1.5), fx(2.0)), fx(-3.0));
    assert_eq!(fx_mul(1, 999_999), 0);
    assert_eq!(fx_mul(-1, 999_999), 0);
    assert_eq!(fx_mul(i64::MAX, fx(2.0)), i64::MAX);
    assert_eq!(fx_mul(i64::MIN, fx(2.0)), i64::MIN);
    assert_eq!(fx_div(fx(1.0), fx(4.0)), fx(0.25));
    assert_eq!(fx_div(fx(-1.0), fx(3.0)), -333_333);
    assert_eq!(fx_div(fx(1.0), 1), 1_000_000_000_000);
    assert_eq!(fx_div(i64::MAX, 1), i64::MAX);
    assert_eq!(sat_add(i64::MAX, 1), i64::MAX);
    assert_eq!(sat_add(2, 3), 5);
    assert_eq!(sat_sub(i64::MIN, 1), i64::MIN);
    assert_eq!(sat_sub(2, 3), -1);
    assert_eq!(fx_max(-4, 0), 0);
    assert_eq!(fx_max(7, 0), 7);
    assert_eq!(square(-3), 9);
    assert_eq!(square(i64::MIN), 1u128 << 126);
}

#[test]
fn integer_square_root() {
    assert_eq!(isqrt(0), 0);
    assert_eq!(isqrt(1), 1);
    assert_eq!(isqrt(3), 1);
    assert_eq!(isqrt(4), 2);
    assert_eq!(isqrt(99), 9);
    assert_eq!(isqrt(100), 10);
    assert_eq!(isqrt(u128::MAX), u64::MAX as u128);
    assert_eq!(isqrt(1u128 << 126), 1u128 << 63);
}

#[test]
fn vector_operations() {
    let a = Vec2::new(fx(1.0), fx(2.0));
    let b = Vec2::new(fx(4.0), fx(6.0));
    assert_eq!(a.plus(b), Vec2 { x: fx(5.0), y: fx(8.0) });
    assert_eq!(a.minus(b), Vec2 { x: fx(-3.0), y: fx(-4.0) });
    assert_eq!(b.scaled(fx(0.5)), Vec2 { x: fx(2.0), y: fx(3.0) });
    assert_eq!(a.distance(b), fx(5.0));
    assert_eq!(a.distance_squared(b), 25_000_000_000_000);
    assert_eq!(Vec2::new(fx(1.0), fx(1.0)).length(), 1_414_213);
    assert_eq!(Vec2::zero(), Vec2 { x: 0, y: 0 });
    assert_eq!(Vec2::new(i64::MIN, i64::MIN).length(), i64::MAX);
    assert_eq!(Vec2::new(i64::MIN, 0).minus(Vec2::new(i64::MAX, 0)).x, i64::MIN);
}

#[test]
fn gravity_and_integration_of_one_point() {
    let p = Point::new(fx(1.0), fx(1.0));
    let g = Vec2 { x: 0, y: fx(10.0) };
    let q = p.with_gravity(g);
    assert_eq!(q.acceleration, g);
    let mut held = p;
    held.set_pinned(true);
    assert_eq!(held.with_gravity(g), held);
    let moved = q.integrated(0, fx(0.5));
    assert_eq!(moved.position, Vec2 { x: fx(1.0), y: fx(3.5) });
    assert_eq!(moved.old_position, p.position);
    assert_eq!(moved.acceleration, Vec2 { x: 0, y: 0 });
    let mut loaded = q;
    loaded.set_pinned(true);
    let still = loaded.integrated(0, fx(0.5));
    assert_eq!(still.position, p.position);
    assert_eq!(still.acceleration, Vec2 { x: 0, y: 0 });
    assert_eq!(moved.damped_velocity(fx(0.1)), Vec2 { x: 0, y: fx(2.25) });
}

#[test]
fn link_from_a_point_to_itself_moves_nothing() {
    let mut sim = Simulation::new(fx(800.0), fx(600.0));
    sim.set_gravity(0, 0);
    sim.add_point(fx(10.0), fx(10.0), false);
    sim.add_stick(0, 0, None, None);
    assert_eq!(sim.stick(0).unwrap().length, 0);
    assert_eq!(sim.update(fx(0.016), 2), Ok(()));
    assert_eq!(sim.sticks_count(), 1);
    assert_eq!(point_at(&sim, 0), Point::new(fx(10.0), fx(10.0)));
}

#[test]
fn links_only_leave_during_updates() {
    let mut sim = Simulation::new(fx(800.0), fx(600.0));
    sim.add_point(fx(100.0), fx(100.0), true);
    sim.add_point(fx(100.0), fx(110.0), false);
    sim.add_point(fx(100.0), fx(120.0), false);
    sim.add_stick(0, 1, None, Some(fx(1.5)));
    sim.add_stick(1, 2, None, None);
    let second = sim.stick(1).unwrap();
    sim.interact_pull_move(1, fx(100.0), fx(200.0));
    assert_eq!(sim.update(fx(0.016), 4), Ok(()));
    assert_eq!(sim.sticks_count(), 1);
    assert_eq!(sim.stick(0), Some(second));
    assert_eq!(sim.points_count(), 3);
}
