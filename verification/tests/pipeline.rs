use collisim::rat::Rat;
use collisim::v2::V2;
use collisim::body::Body;
use collisim::sweep::{sort_bodies, sweep_pairs, collide_pairs};
use collisim::sim::{apply_damping, step, tick};

fn rat(n: i64) -> Rat {
    Rat::from_i64(n)
}

fn ball_at(px: i64, vx: i64, r: i64) -> Body {
    Body::new(
        V2::new(rat(px), rat(0)),
        V2::new(rat(vx), rat(0)),
        rat(r),
        rat(1),
        0,
    )
}

#[test]
fn sort_orders_bodies_along_the_axis() {
    let mut bodies = vec![ball_at(30, 0, 1), ball_at(-2, 0, 1), ball_at(7, 0, 1)];
    sort_bodies(&mut bodies);
    assert!(bodies[0].pos.x.same(rat(-2)));
    assert!(bodies[1].pos.x.same(rat(7)));
    assert!(bodies[2].pos.x.same(rat(30)));
}

#[test]
fn sweep_flags_every_x_overlapping_pair() {
    // Equal radii 2, centers 0, 3, 10: only the first two intervals meet.
    let bodies = vec![ball_at(0, 0, 2), ball_at(3, 0, 2), ball_at(10, 0, 2)];
    let cands = sweep_pairs(&bodies);
    assert!(cands.contains(&(0, 1)));
    assert!(!cands.contains(&(0, 2)));
    assert!(!cands.contains(&(1, 2)));
}

#[test]
fn pipeline_matches_brute_force_overlap_scan() {
    // Five bodies of radius 3 on a line; compare the sweep-plus-narrow-phase
    // pipeline against checking all pairs directly.
    let xs: [i64; 5] = [0, 4, 9, 20, 25];
    let mut bodies: Vec<Body> = xs.iter().map(|&x| ball_at(x, 0, 3)).collect();
    let flagged = collide_pairs(&mut bodies);
    let mut brute: Vec<(usize, usize)> = Vec::new();
    for i in 0..bodies.len() {
        for j in (i + 1)..bodies.len() {
            if bodies[i].check_collision(&bodies[j]) {
                brute.push((i, j));
            }
        }
    }
    assert_eq!(flagged, brute);
    assert_eq!(brute, vec![(0, 1), (1, 2), (3, 4)]);
}

#[test]
fn wide_disk_reaching_back_is_never_missed() {
    // A very wide third disk whose interval reaches back across both
    // earlier ones: a center-keyed window scan would close its window and
    // miss the pair with the first body; the pipeline must not.
    let mut bodies = vec![ball_at(0, 0, 1), ball_at(10, 0, 1), ball_at(11, 0, 30)];
    let flagged = collide_pairs(&mut bodies);
    let mut brute: Vec<(usize, usize)> = Vec::new();
    for i in 0..bodies.len() {
        for j in (i + 1)..bodies.len() {
            if bodies[i].check_collision(&bodies[j]) {
                brute.push((i, j));
            }
        }
    }
    assert_eq!(flagged, brute);
    assert_eq!(brute.len(), 2);
}

#[test]
fn step_resolves_an_approaching_overlapping_pair() {
    // The two bodies of the head-on scenario, fed through a whole tick with
    // zero acceleration, far from any wall: integration moves them to 101
    // and 108 (overlapping, approaching), and resolution swaps velocities.
    let mut bodies = vec![ball_at(100, 1, 5), ball_at(109, -1, 5)];
    step(
        &mut bodies,
        rat(1),
        V2::new(rat(0), rat(0)),
        rat(1400),
        rat(800),
    );
    assert!(bodies[0].pos.x.same(rat(101)));
    assert!(bodies[1].pos.x.same(rat(108)));
    assert!(bodies[0].v.x.same(rat(-1)));
    assert!(bodies[1].v.x.same(rat(1)));
}

#[test]
fn step_on_an_empty_population_is_a_no_op() {
    let mut bodies: Vec<Body> = Vec::new();
    step(
        &mut bodies,
        rat(1),
        V2::new(rat(0), rat(0)),
        rat(1400),
        rat(800),
    );
    assert!(bodies.is_empty());
}

#[test]
fn sweep_falls_back_to_all_pairs_when_an_edge_overflows() {
    // The right interval edge of these bodies cannot be computed exactly in
    // range, so the sweep must return the conservative full pair set.
    let huge = 0x7000_0000_0000_0000;
    let a = ball_at(-huge, 0, huge);
    let b = ball_at(huge, 0, huge);
    let bodies = vec![a, b];
    let cands = sweep_pairs(&bodies);
    assert!(cands.contains(&(0, 1)));
}

#[test]
fn damping_scales_every_velocity() {
    let mut bodies = vec![ball_at(50, 10, 5), ball_at(200, -20, 5)];
    apply_damping(&mut bodies, Rat::new(9, 10));
    assert!(bodies[0].v.x.same(rat(9)));
    assert!(bodies[1].v.x.same(rat(-18)));
    assert!(bodies[0].pos.x.same(rat(50)));
}

#[test]
fn paused_tick_without_damping_changes_nothing() {
    let mut bodies = vec![ball_at(50, 10, 5), ball_at(60, -3, 5)];
    tick(
        &mut bodies,
        rat(1),
        V2::new(rat(0), rat(0)),
        rat(1400),
        rat(800),
        true,
        None,
    );
    assert!(bodies[0].pos.x.same(rat(50)));
    assert!(bodies[0].v.x.same(rat(10)));
    assert!(bodies[1].v.x.same(rat(-3)));
}

#[test]
fn paused_tick_still_applies_damping() {
    let mut bodies = vec![ball_at(50, 10, 5)];
    tick(
        &mut bodies,
        rat(1),
        V2::new(rat(0), rat(0)),
        rat(1400),
        rat(800),
        true,
        Some(Rat::new(9, 10)),
    );
    assert!(bodies[0].v.x.same(rat(9)));
    assert!(bodies[0].pos.x.same(rat(50)));
}
