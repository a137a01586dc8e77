use collisim::rat::Rat;
use collisim::v2::V2;
use collisim::body::Body;

fn rat(n: i64) -> Rat {
    Rat::from_i64(n)
}

fn vec2(x: i64, y: i64) -> V2 {
    V2::new(rat(x), rat(y))
}

fn unit_ball(px: i64, py: i64, vx: i64, vy: i64) -> Body {
    Body::new(vec2(px, py), vec2(vx, vy), rat(5), rat(1), 0)
}

#[test]
fn rational_arithmetic_is_exact() {
    let a = Rat::new(1, 3);
    let b = Rat::new(1, 6);
    let sum = a.plus(b).unwrap();
    assert!(sum.same(Rat::new(1, 2)));
    let prod = a.times(b).unwrap();
    assert!(prod.same(Rat::new(1, 18)));
    let quot = a.over(b).unwrap();
    assert!(quot.same(rat(2)));
    let diff = a.minus(b).unwrap();
    assert!(diff.same(Rat::new(1, 6)));
    assert!(a.neg().same(Rat::new(-1, 3)));
    assert!(b.lt(a));
    assert!(b.le(a));
    assert!(!a.le(b));
}

#[test]
fn rational_arithmetic_reports_overflow() {
    let big = Rat::new(0x4000_0000_0000_0000, 1);
    assert!(big.times(big).is_none());
    assert!(big.plus(big).is_none());
    let tiny = Rat::new(1, 0x4000_0000_0000_0000);
    assert!(tiny.times(tiny).is_none());
}

#[test]
fn head_on_equal_mass_collision_swaps_velocities() {
    // Two unit-mass bodies of radius 5 at (0,0) and (9,0), moving at (1,0)
    // and (-1,0): distance 9 <= 10, approaching.
    let mut a = unit_ball(0, 0, 1, 0);
    let mut b = unit_ball(9, 0, -1, 0);
    assert!(a.check_collision(&b));
    a.collide(&mut b);
    assert!(a.v.x.same(rat(-1)));
    assert!(a.v.y.same(rat(0)));
    assert!(b.v.x.same(rat(1)));
    assert!(b.v.y.same(rat(0)));
    // Positions, radii and masses are untouched.
    assert!(a.pos.x.same(rat(0)));
    assert!(b.pos.x.same(rat(9)));
    assert!(a.r.same(rat(5)));
    assert!(a.mass.same(rat(1)));
}

#[test]
fn distant_pair_is_not_flagged_by_narrow_phase() {
    // Same bodies at (0,0) and (20,0): distance 20 > 10, no overlap.
    let a = unit_ball(0, 0, 1, 0);
    let b = unit_ball(20, 0, -1, 0);
    assert!(!a.check_collision(&b));
}

#[test]
fn touching_pair_counts_as_overlapping() {
    // Distance exactly equal to the radius sum.
    let a = unit_ball(0, 0, 0, 0);
    let b = unit_ball(10, 0, 0, 0);
    assert!(a.check_collision(&b));
}

#[test]
fn separating_pair_is_left_unchanged() {
    // Overlapping but already moving apart: resolve must not fire.
    let mut a = unit_ball(0, 0, -1, 0);
    let mut b = unit_ball(9, 0, 1, 0);
    assert!(a.check_collision(&b));
    a.collide(&mut b);
    assert!(a.v.x.same(rat(-1)));
    assert!(b.v.x.same(rat(1)));
}

#[test]
fn coinciding_centers_are_skipped() {
    // The collision normal is undefined; nothing may change, and no panic.
    let mut a = unit_ball(3, 3, 1, 2);
    let mut b = unit_ball(3, 3, -1, 0);
    a.collide(&mut b);
    assert!(a.v.x.same(rat(1)));
    assert!(a.v.y.same(rat(2)));
    assert!(b.v.x.same(rat(-1)));
    assert!(b.v.y.same(rat(0)));
}

#[test]
fn unequal_masses_conserve_momentum_and_energy() {
    // Mass 1 at (0,0) moving (2,0) hits resting mass 3 at (8,0):
    // exact outcome v1' = -1, v2' = 1.
    let mut a = Body::new(vec2(0, 0), vec2(2, 0), rat(5), rat(1), 0);
    let mut b = Body::new(vec2(8, 0), vec2(0, 0), rat(5), rat(3), 0);
    assert!(a.check_collision(&b));
    a.collide(&mut b);
    assert!(a.v.x.same(rat(-1)));
    assert!(b.v.x.same(rat(1)));
    // Momentum: 1*2 + 3*0 == 1*(-1) + 3*1.
    let p_after = a.v.x.times(a.mass).unwrap().plus(b.v.x.times(b.mass).unwrap()).unwrap();
    assert!(p_after.same(rat(2)));
    // Kinetic energy (doubled): 1*4 == 1*1 + 3*1.
    let e1 = a.v.x.times(a.v.x).unwrap().times(a.mass).unwrap();
    let e2 = b.v.x.times(b.v.x).unwrap().times(b.mass).unwrap();
    assert!(e1.plus(e2).unwrap().same(rat(4)));
}

#[test]
fn oblique_collision_keeps_tangential_component() {
    // Centers on the x-axis, velocity of the first has a y-component: only
    // the x (normal) components exchange; y components stay.
    let mut a = unit_ball(0, 0, 1, 3);
    let mut b = unit_ball(9, 0, -1, -4);
    a.collide(&mut b);
    assert!(a.v.x.same(rat(-1)));
    assert!(a.v.y.same(rat(3)));
    assert!(b.v.x.same(rat(1)));
    assert!(b.v.y.same(rat(-4)));
}

#[test]
fn update_reflects_at_low_wall() {
    // Within the radius of the left wall and moving toward it: the velocity
    // flips before the move, so the body steps away.
    let mut b = unit_ball(2, 100, -3, 0);
    b.update(rat(1), vec2(0, 0), rat(1400), rat(800));
    assert!(b.v.x.same(rat(3)));
    assert!(b.pos.x.same(rat(5)));
    assert!(b.pos.y.same(rat(100)));
}

#[test]
fn update_reflects_at_high_wall() {
    let mut b = unit_ball(1398, 100, 2, 0);
    b.update(rat(1), vec2(0, 0), rat(1400), rat(800));
    assert!(b.v.x.same(rat(-2)));
    assert!(b.pos.x.same(rat(1396)));
}

#[test]
fn wall_contact_reflects_exactly_once() {
    // Still within the wall margin on the next tick, but now moving away:
    // the second update must not negate the velocity again.
    let mut b = Body::new(vec2(2, 100), vec2(-3, 0), rat(6), rat(1), 0);
    b.update(rat(1), vec2(0, 0), rat(1400), rat(800));
    assert!(b.v.x.same(rat(3)));
    assert!(b.pos.x.same(rat(5)));
    b.update(rat(1), vec2(0, 0), rat(1400), rat(800));
    assert!(b.v.x.same(rat(3)));
    assert!(b.pos.x.same(rat(8)));
}

#[test]
fn update_does_not_reflect_a_body_leaving_the_wall() {
    // Near the wall but already moving away: no flip.
    let mut b = unit_ball(2, 100, 3, 0);
    b.update(rat(1), vec2(0, 0), rat(1400), rat(800));
    assert!(b.v.x.same(rat(3)));
    assert!(b.pos.x.same(rat(5)));
}

#[test]
fn update_scales_acceleration_by_dt_but_not_velocity() {
    // dt = 1/2, acceleration (4,0): velocity gains 2; the move then adds
    // the whole velocity, unscaled by dt.
    let mut b = unit_ball(100, 100, 1, 0);
    b.update(Rat::new(1, 2), vec2(4, 0), rat(1400), rat(800));
    assert!(b.v.x.same(rat(3)));
    assert!(b.pos.x.same(rat(103)));
}
