//! One rigid circular body and its per-tick physics:
//! integration with wall reflection, exact circle-overlap test, and elastic
//! collision resolution.
//!
//! The resolver applies the standard elastic impulse along the line of
//! centers: with `d = p1 - p2`, `s = dot(v1 - v2, d)`, `q = dot(d, d)` and
//! `m = m1 + m2`, the new velocities are `v1 - (2*m2*s/(m*q)) * d` and
//! `v2 + (2*m1*s/(m*q)) * d`, which changes only the normal components and
//! conserves momentum and kinetic energy exactly. The update is applied only
//! to an approaching pair (`s < 0`); a separating pair, a pair with
//! coinciding centers, and a pair whose exact arithmetic would overflow are
//! all left untouched.

use vstd::prelude::*;

use crate::rat::{Rat, Frac, fadd, fsub, fmul, fdiv, fneg, fle, flt, fits, from_int};
use crate::v2::{V2, FV2, vadd, vsub, vscale, vdot, vfits, dot_fits};

verus! {

/// Velocity of one axis after the acceleration contribution `a * dt`;
/// left unchanged if the exact result does not fit.
pub open spec fn axis_accel(v: Frac, a: Frac, dt: Frac) -> Frac {
    if fits(fmul(a, dt)) && fits(fadd(v, fmul(a, dt))) {
        fadd(v, fmul(a, dt))
    } else {
        v
    }
}

/// Wall reflection on one axis: the velocity sign is flipped when the body
/// is within its radius of the low wall and moving toward it, or within its
/// radius of the high wall (at `limit`) and moving toward that.
pub open spec fn axis_reflect(p: Frac, r: Frac, v: Frac, limit: Frac) -> Frac {
    let hit_low = flt(p, r) && flt(v, from_int(0));
    let hit_high = fits(fsub(limit, p)) && flt(fsub(limit, p), r) && flt(from_int(0), v);
    if hit_low || hit_high {
        fneg(v)
    } else {
        v
    }
}

/// Position of one axis after one tick's displacement (the velocity is added
/// as-is, not scaled by the time delta); unchanged if it does not fit.
pub open spec fn axis_move(p: Frac, v: Frac) -> Frac {
    if fits(fadd(p, v)) {
        fadd(p, v)
    } else {
        p
    }
}

/// The velocity of a body after the acceleration and wall-reflection
/// phases of one integration step, both axes.
pub open spec fn updated_vel(pos: FV2, r: Frac, v: FV2, acc: FV2, dt: Frac, width: Frac,
    height: Frac) -> FV2 {
    FV2 {
        x: axis_reflect(pos.x, r, axis_accel(v.x, acc.x, dt), width),
        y: axis_reflect(pos.y, r, axis_accel(v.y, acc.y, dt), height),
    }
}

/// The position of a body after one tick's displacement, both axes.
pub open spec fn moved_pos(pos: FV2, v: FV2) -> FV2 {
    FV2 { x: axis_move(pos.x, v.x), y: axis_move(pos.y, v.y) }
}

/// Everything about a body except its velocity, at the model level: the
/// part that collision resolution may never touch.
pub open spec fn core_model(b: Body) -> (FV2, Frac, Frac, u32) {
    (b.pos@, b.r@, b.mass@, b.color)
}

/// Exact overlap test: squared center distance at most squared radius sum.
pub open spec fn spec_overlap(a: Body, b: Body) -> bool {
    let d = vsub(a.pos@, b.pos@);
    fle(vdot(d, d), fmul(fadd(a.r@, b.r@), fadd(a.r@, b.r@)))
}

/// Every intermediate of the executable overlap test fits.
pub open spec fn overlap_fits(a: Body, b: Body) -> bool {
    let d = vsub(a.pos@, b.pos@);
    &&& vfits(d)
    &&& dot_fits(d, d)
    &&& fits(fadd(a.r@, b.r@))
    &&& fits(fmul(fadd(a.r@, b.r@), fadd(a.r@, b.r@)))
}

/// The pair is separating (or grazing): the relative velocity has
/// non-negative component along the line of centers.
pub open spec fn separating(a: Body, b: Body) -> bool {
    fle(from_int(0), vdot(vsub(a.v@, b.v@), vsub(a.pos@, b.pos@)))
}

/// The exact post-collision velocities of an elastic impulse along the line
/// of centers, for masses `m1`, `m2`, positions `p1`, `p2` and velocities
/// `v1`, `v2`.
pub open spec fn resolve_vels(m1: Frac, m2: Frac, p1: FV2, p2: FV2, v1: FV2, v2: FV2) -> (FV2,
    FV2) {
    let d = vsub(p1, p2);
    let s = vdot(vsub(v1, v2), d);
    let q = vdot(d, d);
    let m = fadd(m1, m2);
    let k1 = fdiv(fmul(fmul(from_int(2), m2), s), fmul(m, q));
    let k2 = fdiv(fmul(fmul(from_int(2), m1), s), fmul(m, q));
    (vsub(v1, vscale(d, k1)), vadd(v2, vscale(d, k2)))
}

/// The resolver really fires on this pair: it is approaching, the centers
/// are distinct, and every intermediate of the exact computation fits.
pub open spec fn resolves(a: Body, b: Body) -> bool {
    let d = vsub(a.pos@, b.pos@);
    let w = vsub(a.v@, b.v@);
    let s = vdot(w, d);
    let q = vdot(d, d);
    let m = fadd(a.mass@, b.mass@);
    let k1 = fdiv(fmul(fmul(from_int(2), b.mass@), s), fmul(m, q));
    let k2 = fdiv(fmul(fmul(from_int(2), a.mass@), s), fmul(m, q));
    &&& vfits(d)
    &&& vfits(w)
    &&& dot_fits(w, d)
    &&& flt(s, from_int(0))
    &&& dot_fits(d, d)
    &&& q.n != 0
    &&& fits(m)
    &&& fits(fmul(from_int(2), b.mass@))
    &&& fits(fmul(fmul(from_int(2), b.mass@), s))
    &&& fits(fmul(m, q))
    &&& fits(k1)
    &&& fits(fmul(from_int(2), a.mass@))
    &&& fits(fmul(fmul(from_int(2), a.mass@), s))
    &&& fits(k2)
    &&& vfits(vscale(d, k1))
    &&& vfits(vsub(a.v@, vscale(d, k1)))
    &&& vfits(vscale(d, k2))
    &&& vfits(vadd(b.v@, vscale(d, k2)))
}

/// One rigid disk: position, velocity, radius, mass, and a render-only
/// color tag with no physical meaning.
#[derive(Clone, Copy, PartialEq, Eq, Structural, Debug)]
pub struct Body {
    pub pos: V2,
    pub v: V2,
    pub r: Rat,
    pub mass: Rat,
    pub color: u32,
}

impl Body {
    /// Well-formed body: well-formed scalars, positive radius and mass.
    pub open spec fn wf(self) -> bool {
        &&& self.pos.wf()
        &&& self.v.wf()
        &&& self.r.wf()
        &&& self.mass.wf()
        &&& flt(from_int(0), self.r@)
        &&& flt(from_int(0), self.mass@)
    }

    pub fn new(pos: V2, v: V2, r: Rat, mass: Rat, color: u32) -> (b: Body)
        requires
            pos.wf(),
            v.wf(),
            r.wf(),
            mass.wf(),
            r.n > 0,
            mass.n > 0,
        ensures
            b.wf(),
            b.pos == pos,
            b.v == v,
            b.r == r,
            b.mass == mass,
            b.color == color,
    {
        Body { pos, v, r, mass, color }
    }

    /// One integration step: add `acc * dt` to the velocity, reflect the
    /// (already updated) velocity off the walls of the `width` x `height`
    /// region, then add the velocity to the position as a raw per-tick
    /// displacement. A sub-step whose exact result would not fit leaves its
    /// value unchanged.
    pub fn update(&mut self, dt: Rat, acc: V2, width: Rat, height: Rat)
        requires
            old(self).wf(),
            dt.wf(),
            acc.wf(),
            width.wf(),
            height.wf(),
        ensures
            final(self).wf(),
            final(self).v.x@ == axis_reflect(
                old(self).pos.x@,
                old(self).r@,
                axis_accel(old(self).v.x@, acc.x@, dt@),
                width@,
            ),
            final(self).v.y@ == axis_reflect(
                old(self).pos.y@,
                old(self).r@,
                axis_accel(old(self).v.y@, acc.y@, dt@),
                height@,
            ),
            final(self).pos.x@ == axis_move(old(self).pos.x@, final(self).v.x@),
            final(self).pos.y@ == axis_move(old(self).pos.y@, final(self).v.y@),
            final(self).v@ == updated_vel(
                old(self).pos@,
                old(self).r@,
                old(self).v@,
                acc@,
                dt@,
                width@,
                height@,
            ),
            final(self).pos@ == moved_pos(old(self).pos@, final(self).v@),
            final(self).r == old(self).r,
            final(self).mass == old(self).mass,
            final(self).color == old(self).color,
    {
        let zero = Rat::zero();

        let vx1 = match acc.x.times(dt) {
            Some(t) => match self.v.x.plus(t) {
                Some(v) => v,
                None => self.v.x,
            },
            None => self.v.x,
        };
        let vy1 = match acc.y.times(dt) {
            Some(t) => match self.v.y.plus(t) {
                Some(v) => v,
                None => self.v.y,
            },
            None => self.v.y,
        };

        let hit_low_x = self.pos.x.lt(self.r) && vx1.lt(zero);
        let hit_high_x = match width.minus(self.pos.x) {
            Some(gap) => gap.lt(self.r) && zero.lt(vx1),
            None => false,
        };
        let vx2 = if hit_low_x || hit_high_x {
            vx1.neg()
        } else {
            vx1
        };

        let hit_low_y = self.pos.y.lt(self.r) && vy1.lt(zero);
        let hit_high_y = match height.minus(self.pos.y) {
            Some(gap) => gap.lt(self.r) && zero.lt(vy1),
            None => false,
        };
        let vy2 = if hit_low_y || hit_high_y {
            vy1.neg()
        } else {
            vy1
        };

        let px2 = match self.pos.x.plus(vx2) {
            Some(p) => p,
            None => self.pos.x,
        };
        let py2 = match self.pos.y.plus(vy2) {
            Some(p) => p,
            None => self.pos.y,
        };

        self.v = V2 { x: vx2, y: vy2 };
        self.pos = V2 { x: px2, y: py2 };
    }

    /// Exact narrow-phase test: do the two disks overlap? Answers `false`
    /// defensively if the exact computation would not fit.
    pub fn check_collision(&self, other: &Body) -> (r: bool)
        requires
            self.wf(),
            other.wf(),
        ensures
            overlap_fits(*self, *other) ==> r == spec_overlap(*self, *other),
            !overlap_fits(*self, *other) ==> r == false,
    {
        let d = match self.pos.minus(other.pos) {
            Some(d) => d,
            None => {
                return false;
            },
        };
        let q = match d.dot(d) {
            Some(q) => q,
            None => {
                return false;
            },
        };
        let rr = match self.r.plus(other.r) {
            Some(rr) => rr,
            None => {
                return false;
            },
        };
        let rr2 = match rr.times(rr) {
            Some(rr2) => rr2,
            None => {
                return false;
            },
        };
        q.le(rr2)
    }

    /// Elastic collision resolution for `self` and `other`, mutating only
    /// the two velocities. The pair is left unchanged when it is separating
    /// or grazing, when the centers coincide (the collision normal is
    /// undefined), or when an exact intermediate would not fit.
    pub fn collide(&mut self, other: &mut Body)
        requires
            old(self).wf(),
            old(other).wf(),
        ensures
            final(self).wf(),
            final(other).wf(),
            final(self).pos == old(self).pos,
            final(self).r == old(self).r,
            final(self).mass == old(self).mass,
            final(self).color == old(self).color,
            final(other).pos == old(other).pos,
            final(other).r == old(other).r,
            final(other).mass == old(other).mass,
            final(other).color == old(other).color,
            separating(*old(self), *old(other)) ==> final(self).v == old(self).v
                && final(other).v == old(other).v,
            vdot(
                vsub(old(self).pos@, old(other).pos@),
                vsub(old(self).pos@, old(other).pos@),
            ).n == 0 ==> final(self).v == old(self).v && final(other).v == old(other).v,
            resolves(*old(self), *old(other)) ==> final(self).v@ == resolve_vels(
                old(self).mass@,
                old(other).mass@,
                old(self).pos@,
                old(other).pos@,
                old(self).v@,
                old(other).v@,
            ).0 && final(other).v@ == resolve_vels(
                old(self).mass@,
                old(other).mass@,
                old(self).pos@,
                old(other).pos@,
                old(self).v@,
                old(other).v@,
            ).1,
            !resolves(*old(self), *old(other)) ==> final(self).v == old(self).v
                && final(other).v == old(other).v,
    {
        let zero = Rat::zero();
        let d = match self.pos.minus(other.pos) {
            Some(d) => d,
            None => {
                return ;
            },
        };
        let w = match self.v.minus(other.v) {
            Some(w) => w,
            None => {
                return ;
            },
        };
        let s = match w.dot(d) {
            Some(s) => s,
            None => {
                return ;
            },
        };
        if !s.lt(zero) {
            // Separating or grazing: do not resolve, so an already resolved
            // pair cannot be driven back into each other.
            return ;
        }
        let q = match d.dot(d) {
            Some(q) => q,
            None => {
                return ;
            },
        };
        if q.n == 0 {
            // Coinciding centers: the collision normal is undefined; skip.
            return ;
        }
        proof {
            let axn = d@.x.n;
            let axd = d@.x.d;
            let ayn = d@.y.n;
            let ayd = d@.y.d;
            assert((axn * axn) * (ayd * ayd) + (ayn * ayn) * (axd * axd) >= 0)
                by (nonlinear_arith);
            assert(q@.n > 0);
        }
        let m = match self.mass.plus(other.mass) {
            Some(m) => m,
            None => {
                return ;
            },
        };
        proof {
            assert(self.mass@.n * other.mass@.d + other.mass@.n * self.mass@.d > 0)
                by (nonlinear_arith)
                requires
                    self.mass@.n > 0,
                    self.mass@.d > 0,
                    other.mass@.n > 0,
                    other.mass@.d > 0,
            ;
            assert(m@.n > 0);
        }
        let two = Rat::from_i64(2);
        let n1 = match two.times(other.mass) {
            Some(t) => t,
            None => {
                return ;
            },
        };
        let n1s = match n1.times(s) {
            Some(t) => t,
            None => {
                return ;
            },
        };
        let den = match m.times(q) {
            Some(t) => t,
            None => {
                return ;
            },
        };
        proof {
            assert(m@.n * q@.n > 0) by (nonlinear_arith)
                requires
                    m@.n > 0,
                    q@.n > 0,
            ;
            assert(den@.n > 0);
        }
        let k1 = match n1s.over(den) {
            Some(t) => t,
            None => {
                return ;
            },
        };
        let n2 = match two.times(self.mass) {
            Some(t) => t,
            None => {
                return ;
            },
        };
        let n2s = match n2.times(s) {
            Some(t) => t,
            None => {
                return ;
            },
        };
        let k2 = match n2s.over(den) {
            Some(t) => t,
            None => {
                return ;
            },
        };
        let imp1 = match d.scale(k1) {
            Some(t) => t,
            None => {
                return ;
            },
        };
        let v1new = match self.v.minus(imp1) {
            Some(t) => t,
            None => {
                return ;
            },
        };
        let imp2 = match d.scale(k2) {
            Some(t) => t,
            None => {
                return ;
            },
        };
        let v2new = match other.v.plus(imp2) {
            Some(t) => t,
            None => {
                return ;
            },
        };
        self.v = v1new;
        other.v = v2new;
    }
}

} // verus!
