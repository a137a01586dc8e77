//! Frame driver: one simulation tick over the whole body population.
//!
//! A tick integrates every body, sorts the population for the sweep
//! (permanently reordering it), collects sweep-and-prune candidate pairs,
//! and resolves every candidate that the exact narrow phase confirms. An
//! optional uniform damping pass, driven by the host input layer,
//! multiplies every velocity by a decay factor and is applied independently
//! of pausing, before the physics step.
//!
//! Collision resolution changes velocities only, so the multiset of body
//! cores (position, radius, mass, color) after a step is exactly the
//! multiset of integrated cores of the bodies that went in: every body ends
//! the step at its own integrated position, with its own radius, mass and
//! color, merely reordered.

use vstd::prelude::*;

use crate::rat::{Rat, Frac, fmul, fits};
use crate::v2::{V2, FV2};
use crate::body::{Body, core_model, updated_vel, moved_pos};
use crate::sweep::{all_wf, sort_bodies, sweep_pairs, body_shape};

verus! {

/// One velocity component after damping by `f`; unchanged if the exact
/// product does not fit.
pub open spec fn damp_axis(v: Frac, f: Frac) -> Frac {
    if fits(fmul(v, f)) {
        fmul(v, f)
    } else {
        v
    }
}

/// A whole velocity after damping by `f`.
pub open spec fn damped_vel(v: FV2, f: Frac) -> FV2 {
    FV2 { x: damp_axis(v.x, f), y: damp_axis(v.y, f) }
}

/// The core (position, radius, mass, color) a body would have after one
/// integration step, were its velocity model `v`.
pub open spec fn integrated_core_v(b: Body, v: FV2, dt: Frac, acc: FV2, width: Frac,
    height: Frac) -> (FV2, Frac, Frac, u32) {
    (
        moved_pos(b.pos@, updated_vel(b.pos@, b.r@, v, acc, dt, width, height)),
        b.r@,
        b.mass@,
        b.color,
    )
}

/// The core a body has after one integration step with its own velocity.
pub open spec fn integrated_core(b: Body, dt: Frac, acc: FV2, width: Frac, height: Frac) -> (
    FV2,
    Frac,
    Frac,
    u32,
) {
    integrated_core_v(b, b.v@, dt, acc, width, height)
}

/// Write one element of a vector.
fn vset(v: &mut Vec<Body>, i: usize, x: Body)
    requires
        i < old(v).len(),
    ensures
        final(v)@ == old(v)@.update(i as int, x),
{
    let r = &mut v[i];
    *r = x;
}

/// Multiply every body's velocity by `factor`, exactly; a component whose
/// exact product does not fit is left unchanged. Nothing else changes.
pub fn apply_damping(bodies: &mut Vec<Body>, factor: Rat)
    requires
        all_wf(old(bodies)@),
        factor.wf(),
    ensures
        all_wf(final(bodies)@),
        final(bodies)@.len() == old(bodies)@.len(),
        forall|i: int|
            0 <= i < old(bodies)@.len() ==> (#[trigger] final(bodies)@[i]).pos
                == old(bodies)@[i].pos && final(bodies)@[i].r == old(bodies)@[i].r
                && final(bodies)@[i].mass == old(bodies)@[i].mass
                && final(bodies)@[i].color == old(bodies)@[i].color
                && final(bodies)@[i].v.x@ == damp_axis(old(bodies)@[i].v.x@, factor@)
                && final(bodies)@[i].v.y@ == damp_axis(old(bodies)@[i].v.y@, factor@),
{
    let n: usize = bodies.len();
    let mut i: usize = 0;
    while i < n
        invariant
            i <= n,
            bodies@.len() == n,
            factor.wf(),
            all_wf(bodies@),
            forall|t: int| i <= t < n ==> bodies@[t] == old(bodies)@[t],
            forall|t: int|
                0 <= t < i ==> (#[trigger] bodies@[t]).pos == old(bodies)@[t].pos
                    && bodies@[t].r == old(bodies)@[t].r && bodies@[t].mass == old(bodies)@[t].mass
                    && bodies@[t].color == old(bodies)@[t].color && bodies@[t].v.x@ == damp_axis(
                    old(bodies)@[t].v.x@,
                    factor@,
                ) && bodies@[t].v.y@ == damp_axis(old(bodies)@[t].v.y@, factor@),
        decreases n - i,
    {
        let b = bodies[i];
        let nx = match b.v.x.times(factor) {
            Some(v) => v,
            None => b.v.x,
        };
        let ny = match b.v.y.times(factor) {
            Some(v) => v,
            None => b.v.y,
        };
        let mut nb = b;
        nb.v = V2 { x: nx, y: ny };
        vset(bodies, i, nb);
        i = i + 1;
    }
}

/// One physics step when the simulation is running: integrate every body
/// under the shared acceleration, sort for the sweep, then resolve every
/// sweep-and-prune candidate that the exact narrow phase confirms.
///
/// Resolution changes only velocities, so the multiset of body cores
/// afterwards equals the multiset of integrated cores of the input bodies:
/// each body passes through exactly the integration step (acceleration,
/// wall reflection, displacement) and keeps its own position, radius, mass
/// and color, up to the documented reordering.
pub fn step(bodies: &mut Vec<Body>, dt: Rat, acc: V2, width: Rat, height: Rat)
    requires
        all_wf(old(bodies)@),
        dt.wf(),
        acc.wf(),
        width.wf(),
        height.wf(),
    ensures
        all_wf(final(bodies)@),
        final(bodies)@.len() == old(bodies)@.len(),
        final(bodies)@.map_values(|b: Body| body_shape(b)).to_multiset() == old(
            bodies,
        )@.map_values(|b: Body| body_shape(b)).to_multiset(),
        final(bodies)@.map_values(|b: Body| core_model(b)).to_multiset() == old(
            bodies,
        )@.map_values(|b: Body| integrated_core(b, dt@, acc@, width@, height@)).to_multiset(),
{
    let n: usize = bodies.len();
    let mut i: usize = 0;
    while i < n
        invariant
            i <= n,
            bodies@.len() == n,
            dt.wf(),
            acc.wf(),
            width.wf(),
            height.wf(),
            all_wf(bodies@),
            forall|t: int| i <= t < n ==> bodies@[t] == old(bodies)@[t],
            forall|t: int|
                0 <= t < i ==> core_model(#[trigger] bodies@[t]) == integrated_core(
                    old(bodies)@[t],
                    dt@,
                    acc@,
                    width@,
                    height@,
                ),
            bodies@.map_values(|b: Body| body_shape(b)) == old(bodies)@.map_values(
                |b: Body| body_shape(b),
            ),
        decreases n - i,
    {
        let mut b = bodies[i];
        b.update(dt, acc, width, height);
        let ghost s0 = bodies@;
        vset(bodies, i, b);
        proof {
            assert(bodies@.map_values(|b: Body| body_shape(b)) =~= s0.map_values(
                |b: Body| body_shape(b),
            ));
        }
        i = i + 1;
    }
    proof {
        assert(bodies@.map_values(|b: Body| core_model(b)) =~= old(bodies)@.map_values(
            |b: Body| integrated_core(b, dt@, acc@, width@, height@),
        ));
    }
    sort_bodies(bodies);
    let cands = sweep_pairs(bodies);
    let mut k: usize = 0;
    while k < cands.len()
        invariant
            k <= cands@.len(),
            bodies@.len() == n,
            all_wf(bodies@),
            bodies@.map_values(|b: Body| body_shape(b)).to_multiset() == old(
                bodies,
            )@.map_values(|b: Body| body_shape(b)).to_multiset(),
            bodies@.map_values(|b: Body| core_model(b)).to_multiset() == old(
                bodies,
            )@.map_values(
                |b: Body| integrated_core(b, dt@, acc@, width@, height@),
            ).to_multiset(),
            forall|t: int|
                0 <= t < cands@.len() ==> (#[trigger] cands@[t]).0 < cands@[t].1 && (
                cands@[t].1 as int) < n,
        decreases cands@.len() - k,
    {
        let p = cands[k];
        let a = p.0;
        let b = p.1;
        let mut x = bodies[a];
        let mut y = bodies[b];
        // The scanned body resolves against each body of its window.
        if y.check_collision(&x) {
            let ghost s0 = bodies@;
            y.collide(&mut x);
            vset(bodies, a, x);
            vset(bodies, b, y);
            proof {
                assert(bodies@.map_values(|b: Body| body_shape(b)) =~= s0.map_values(
                    |b: Body| body_shape(b),
                ));
                assert(bodies@.map_values(|b: Body| core_model(b)) =~= s0.map_values(
                    |b: Body| core_model(b),
                ));
            }
        }
        k = k + 1;
    }
}

/// One full frame tick as driven by the host loop: apply damping if the
/// damping control is held (independently of pausing), then, unless
/// paused, run one physics step. With no damping and paused, nothing
/// changes at all.
pub fn tick(
    bodies: &mut Vec<Body>,
    dt: Rat,
    acc: V2,
    width: Rat,
    height: Rat,
    paused: bool,
    damping: Option<Rat>,
)
    requires
        all_wf(old(bodies)@),
        dt.wf(),
        acc.wf(),
        width.wf(),
        height.wf(),
        damping matches Some(f) ==> f.wf(),
    ensures
        all_wf(final(bodies)@),
        final(bodies)@.len() == old(bodies)@.len(),
        paused && damping is None ==> final(bodies)@ == old(bodies)@,
        damping matches Some(f) ==> (paused ==> forall|i: int|
            0 <= i < old(bodies)@.len() ==> (#[trigger] final(bodies)@[i]).pos
                == old(bodies)@[i].pos && final(bodies)@[i].r == old(bodies)@[i].r
                && final(bodies)@[i].mass == old(bodies)@[i].mass
                && final(bodies)@[i].color == old(bodies)@[i].color
                && final(bodies)@[i].v.x@ == damp_axis(old(bodies)@[i].v.x@, f@)
                && final(bodies)@[i].v.y@ == damp_axis(old(bodies)@[i].v.y@, f@)),
        !paused && damping is None ==> final(bodies)@.map_values(
            |b: Body| core_model(b),
        ).to_multiset() == old(bodies)@.map_values(
            |b: Body| integrated_core(b, dt@, acc@, width@, height@),
        ).to_multiset(),
        damping matches Some(f) ==> (!paused ==> final(bodies)@.map_values(
            |b: Body| core_model(b),
        ).to_multiset() == old(bodies)@.map_values(
            |b: Body| integrated_core_v(b, damped_vel(b.v@, f@), dt@, acc@, width@, height@),
        ).to_multiset()),
        final(bodies)@.map_values(|b: Body| body_shape(b)).to_multiset() == old(
            bodies,
        )@.map_values(|b: Body| body_shape(b)).to_multiset(),
{
    match damping {
        Some(f) => {
            apply_damping(bodies, f);
            proof {
                assert(bodies@.map_values(|b: Body| body_shape(b)) =~= old(
                    bodies,
                )@.map_values(|b: Body| body_shape(b)));
                assert(bodies@.map_values(
                    |b: Body| integrated_core(b, dt@, acc@, width@, height@),
                ) =~= old(bodies)@.map_values(
                    |b: Body| integrated_core_v(
                        b,
                        damped_vel(b.v@, f@),
                        dt@,
                        acc@,
                        width@,
                        height@,
                    ),
                ));
            }
        },
        None => (),
    }
    if !paused {
        step(bodies, dt, acc, width, height);
    }
}

} // verus!
