//! Conservation and containment laws of the physics core, proved once and
//! for all over the exact rational models.

use vstd::prelude::*;

use crate::rat::{Frac, feq, fadd, fsub, fmul, fdiv, fneg, fle, flt, fits, from_int};
use crate::v2::{FV2, vsub, vdot, vcross};
use crate::body::{resolve_vels, axis_accel, axis_reflect, axis_move};

verus! {

/// The product of two positive integers is positive.
proof fn lemma_pos_mul(a: int, b: int)
    by (nonlinear_arith)
    requires
        a > 0,
        b > 0,
    ensures
        a * b > 0,
{
}

/// Rational equality is transitive through a value with nonzero denominator.
proof fn lemma_feq_trans(a: Frac, b: Frac, c: Frac)
    by (nonlinear_arith)
    requires
        b.d != 0,
        feq(a, b),
        feq(b, c),
    ensures
        feq(a, c),
{
}

/// Distribution helpers, kept as named lemmas so larger proofs can apply
/// them to compound terms without re-expanding the products.
proof fn lemma_dist_r(x: int, y: int, z: int)
    by (nonlinear_arith)
    ensures
        (x + y) * z == x * z + y * z,
        (x - y) * z == x * z - y * z,
{
}

proof fn lemma_dist_l(x: int, y: int, z: int)
    by (nonlinear_arith)
    ensures
        x * (y + z) == x * y + x * z,
        x * (y - z) == x * y - x * z,
{
}

/// Addition respects rational equality.
proof fn lemma_feq_add_cong(a: Frac, a2: Frac, b: Frac, b2: Frac)
    requires
        feq(a, a2),
        feq(b, b2),
    ensures
        feq(fadd(a, b), fadd(a2, b2)),
{
    let an = a.n;
    let ad = a.d;
    let bn = b.n;
    let bd = b.d;
    let cn = a2.n;
    let cd = a2.d;
    let en = b2.n;
    let ed = b2.d;
    lemma_dist_r(an * bd, bn * ad, cd * ed);
    lemma_dist_r(cn * ed, en * cd, ad * bd);
    assert((an * bd) * (cd * ed) == (an * cd) * (bd * ed)) by (nonlinear_arith);
    assert((cn * ad) * (bd * ed) == (cn * ed) * (ad * bd)) by (nonlinear_arith);
    assert((bn * ad) * (cd * ed) == (bn * ed) * (ad * cd)) by (nonlinear_arith);
    assert((en * bd) * (ad * cd) == (en * cd) * (ad * bd)) by (nonlinear_arith);
}

/// Multiplication distributes over addition and subtraction, up to
/// rational equality.
proof fn lemma_mul_dist(m: Frac, a: Frac, b: Frac)
    ensures
        feq(fmul(m, fsub(a, b)), fsub(fmul(m, a), fmul(m, b))),
        feq(fmul(m, fadd(a, b)), fadd(fmul(m, a), fmul(m, b))),
{
    let mn = m.n;
    let md = m.d;
    let an = a.n;
    let ad = a.d;
    let bn = b.n;
    let bd = b.d;
    lemma_dist_l(mn, an * bd, bn * ad);
    lemma_dist_r(mn * (an * bd), mn * (bn * ad), (md * ad) * (md * bd));
    lemma_dist_r((mn * an) * (md * bd), (mn * bn) * (md * ad), md * (ad * bd));
    assert((mn * (an * bd)) * ((md * ad) * (md * bd)) == ((mn * an) * (md * bd)) * (md * (ad
        * bd))) by (nonlinear_arith);
    assert((mn * (bn * ad)) * ((md * ad) * (md * bd)) == ((mn * bn) * (md * ad)) * (md * (ad
        * bd))) by (nonlinear_arith);
}

/// Subtracting a quantity from one summand and adding it to the other
/// leaves the sum unchanged, up to rational equality.
proof fn lemma_add_sub_cancel(a: Frac, b: Frac, g: Frac)
    ensures
        feq(fadd(fsub(a, g), fadd(b, g)), fadd(a, b)),
{
    let an = a.n;
    let ad = a.d;
    let bn = b.n;
    let bd = b.d;
    let gn = g.n;
    let gd = g.d;
    lemma_dist_r(an * gd, gn * ad, bd * gd);
    lemma_dist_r(bn * gd, gn * bd, ad * gd);
    lemma_dist_r((an * gd - gn * ad) * (bd * gd), (bn * gd + gn * bd) * (ad * gd), ad * bd);
    lemma_dist_r((an * gd) * (bd * gd), (gn * ad) * (bd * gd), ad * bd);
    lemma_dist_r((bn * gd) * (ad * gd), (gn * bd) * (ad * gd), ad * bd);
    lemma_dist_r(an * bd, bn * ad, (ad * gd) * (bd * gd));
    assert((gn * ad) * (bd * gd) == (gn * bd) * (ad * gd)) by (nonlinear_arith);
    assert(((an * gd) * (bd * gd)) * (ad * bd) == (an * bd) * ((ad * gd) * (bd * gd)))
        by (nonlinear_arith);
    assert(((bn * gd) * (ad * gd)) * (ad * bd) == (bn * ad) * ((ad * gd) * (bd * gd)))
        by (nonlinear_arith);
}

/// Momentum balance of one velocity component: when the two impulse terms
/// carry the same mass-weighted coefficient, the weighted sum of the
/// components is unchanged.
proof fn lemma_momentum_component(m1: Frac, m2: Frac, u1: Frac, u2: Frac, dc: Frac, k1: Frac,
    k2: Frac)
    requires
        m1.d > 0,
        m2.d > 0,
        u1.d > 0,
        u2.d > 0,
        dc.d > 0,
        k1.d > 0,
        k2.d > 0,
        fmul(m1, k1) == fmul(m2, k2),
    ensures
        feq(
            fadd(fmul(m1, fsub(u1, fmul(dc, k1))), fmul(m2, fadd(u2, fmul(dc, k2)))),
            fadd(fmul(m1, u1), fmul(m2, u2)),
        ),
{
    let h1 = fmul(dc, k1);
    let h2 = fmul(dc, k2);
    let g = fmul(m1, h1);
    assert(m1.n * (dc.n * k1.n) == m2.n * (dc.n * k2.n)) by (nonlinear_arith)
        requires
            m1.n * k1.n == m2.n * k2.n,
    ;
    assert(m1.d * (dc.d * k1.d) == m2.d * (dc.d * k2.d)) by (nonlinear_arith)
        requires
            m1.d * k1.d == m2.d * k2.d,
    ;
    assert(fmul(m2, h2) == g);
    lemma_pos_mul(dc.d, k1.d);
    lemma_pos_mul(dc.d, k2.d);
    lemma_mul_dist(m1, u1, h1);
    lemma_mul_dist(m2, u2, h2);
    lemma_feq_add_cong(
        fmul(m1, fsub(u1, h1)),
        fsub(fmul(m1, u1), g),
        fmul(m2, fadd(u2, h2)),
        fadd(fmul(m2, u2), g),
    );
    lemma_add_sub_cancel(fmul(m1, u1), fmul(m2, u2), g);
    lemma_pos_mul(m1.d, u1.d);
    lemma_pos_mul(m1.d, h1.d);
    lemma_pos_mul(m2.d, u2.d);
    lemma_pos_mul(fmul(m1, u1).d, g.d);
    lemma_pos_mul(fmul(m2, u2).d, g.d);
    lemma_pos_mul(fsub(fmul(m1, u1), g).d, fadd(fmul(m2, u2), g).d);
    lemma_feq_trans(
        fadd(fmul(m1, fsub(u1, h1)), fmul(m2, fadd(u2, h2))),
        fadd(fsub(fmul(m1, u1), g), fadd(fmul(m2, u2), g)),
        fadd(fmul(m1, u1), fmul(m2, u2)),
    );
}

/// The denominators of every intermediate of the resolution formula are
/// positive, and its two mass-weighted impulse coefficients are the same
/// fraction.
proof fn lemma_resolve_parts(m1: Frac, m2: Frac, p1: FV2, p2: FV2, v1: FV2, v2: FV2)
    requires
        m1.wf(),
        m2.wf(),
        m1.n > 0,
        m2.n > 0,
        p1.wf(),
        p2.wf(),
        v1.wf(),
        v2.wf(),
        vdot(vsub(p1, p2), vsub(p1, p2)).n != 0,
    ensures
        vsub(p1, p2).x.wf(),
        vsub(p1, p2).y.wf(),
        vdot(vsub(v1, v2), vsub(p1, p2)).wf(),
        vdot(vsub(p1, p2), vsub(p1, p2)).wf(),
        vdot(vsub(p1, p2), vsub(p1, p2)).n > 0,
        fadd(m1, m2).wf(),
        fadd(m1, m2).n > 0,
        fdiv(
            fmul(fmul(from_int(2), m2), vdot(vsub(v1, v2), vsub(p1, p2))),
            fmul(fadd(m1, m2), vdot(vsub(p1, p2), vsub(p1, p2))),
        ).wf(),
        fdiv(
            fmul(fmul(from_int(2), m1), vdot(vsub(v1, v2), vsub(p1, p2))),
            fmul(fadd(m1, m2), vdot(vsub(p1, p2), vsub(p1, p2))),
        ).wf(),
        fmul(
            m1,
            fdiv(
                fmul(fmul(from_int(2), m2), vdot(vsub(v1, v2), vsub(p1, p2))),
                fmul(fadd(m1, m2), vdot(vsub(p1, p2), vsub(p1, p2))),
            ),
        ) == fmul(
            m2,
            fdiv(
                fmul(fmul(from_int(2), m1), vdot(vsub(v1, v2), vsub(p1, p2))),
                fmul(fadd(m1, m2), vdot(vsub(p1, p2), vsub(p1, p2))),
            ),
        ),
{
    let d = vsub(p1, p2);
    let w = vsub(v1, v2);
    let s = vdot(w, d);
    let q = vdot(d, d);
    let m = fadd(m1, m2);
    lemma_pos_mul(p1.x.d, p2.x.d);
    lemma_pos_mul(p1.y.d, p2.y.d);
    lemma_pos_mul(v1.x.d, v2.x.d);
    lemma_pos_mul(v1.y.d, v2.y.d);
    lemma_pos_mul(w.x.d, d.x.d);
    lemma_pos_mul(w.y.d, d.y.d);
    lemma_pos_mul(fmul(w.x, d.x).d, fmul(w.y, d.y).d);
    lemma_pos_mul(d.x.d, d.x.d);
    lemma_pos_mul(d.y.d, d.y.d);
    lemma_pos_mul(fmul(d.x, d.x).d, fmul(d.y, d.y).d);
    lemma_pos_mul(m1.d, m2.d);
    assert(m.n > 0) by (nonlinear_arith)
        requires
            m.n == m1.n * m2.d + m2.n * m1.d,
            m1.n > 0,
            m2.n > 0,
            m1.d > 0,
            m2.d > 0,
    ;
    assert(q.n >= 0) by (nonlinear_arith)
        requires
            q.n == (d.x.n * d.x.n) * (d.y.d * d.y.d) + (d.y.n * d.y.n) * (d.x.d * d.x.d),
    ;
    let k1 = fdiv(fmul(fmul(from_int(2), m2), s), fmul(m, q));
    let k2 = fdiv(fmul(fmul(from_int(2), m1), s), fmul(m, q));
    lemma_pos_mul(m2.d, s.d);
    lemma_pos_mul(m1.d, s.d);
    lemma_pos_mul(m.n, q.n);
    lemma_pos_mul(fmul(fmul(from_int(2), m2), s).d, fmul(m, q).n);
    lemma_pos_mul(fmul(fmul(from_int(2), m1), s).d, fmul(m, q).n);
    assert(m1.n * (((2 * m2.n) * s.n) * (m.d * q.d)) == m2.n * (((2 * m1.n) * s.n) * (m.d
        * q.d))) by (nonlinear_arith);
    assert(m1.d * (((1 * m2.d) * s.d) * (m.n * q.n)) == m2.d * (((1 * m1.d) * s.d) * (m.n
        * q.n))) by (nonlinear_arith);
    assert(fmul(m1, k1) == fmul(m2, k2));
}

/// Conservation of momentum: an elastic resolution leaves the total
/// momentum `m1*v1 + m2*v2` unchanged, componentwise, for any two bodies
/// with positive masses and distinct centers.
pub proof fn lemma_momentum_conserved(m1: Frac, m2: Frac, p1: FV2, p2: FV2, v1: FV2, v2: FV2)
    requires
        m1.wf(),
        m2.wf(),
        m1.n > 0,
        m2.n > 0,
        p1.wf(),
        p2.wf(),
        v1.wf(),
        v2.wf(),
        vdot(vsub(p1, p2), vsub(p1, p2)).n != 0,
    ensures
        feq(
            fadd(
                fmul(m1, resolve_vels(m1, m2, p1, p2, v1, v2).0.x),
                fmul(m2, resolve_vels(m1, m2, p1, p2, v1, v2).1.x),
            ),
            fadd(fmul(m1, v1.x), fmul(m2, v2.x)),
        ),
        feq(
            fadd(
                fmul(m1, resolve_vels(m1, m2, p1, p2, v1, v2).0.y),
                fmul(m2, resolve_vels(m1, m2, p1, p2, v1, v2).1.y),
            ),
            fadd(fmul(m1, v1.y), fmul(m2, v2.y)),
        ),
{
    let d = vsub(p1, p2);
    let s = vdot(vsub(v1, v2), d);
    let q = vdot(d, d);
    let m = fadd(m1, m2);
    let k1 = fdiv(fmul(fmul(from_int(2), m2), s), fmul(m, q));
    let k2 = fdiv(fmul(fmul(from_int(2), m1), s), fmul(m, q));
    lemma_resolve_parts(m1, m2, p1, p2, v1, v2);
    lemma_momentum_component(m1, m2, v1.x, v2.x, d.x, k1, k2);
    lemma_momentum_component(m1, m2, v1.y, v2.y, d.y, k1, k2);
}

/// Binomial squares over the integers.
proof fn lemma_sq_terms(x: int, y: int)
    by (nonlinear_arith)
    ensures
        (x - y) * (x - y) == x * x - 2 * (x * y) + y * y,
        (x + y) * (x + y) == x * x + 2 * (x * y) + y * y,
{
}

/// Three-way distribution over the integers.
proof fn lemma_dist3(x: int, u: int, v: int, w: int)
    by (nonlinear_arith)
    ensures
        x * (u - v + w) == x * u - x * v + x * w,
        x * (u + v + w) == x * u + x * v + x * w,
{
}

/// The one-dimensional elastic collision formula conserves kinetic energy.
/// With the common divisor `m1 + m2` cleared, the new normal velocity
/// components are `a1 = v1*(m1 - m2) + 2*m2*v2` and
/// `a2 = v2*(m2 - m1) + 2*m1*v1`, each over `m1 + m2`; this identity states
/// `m1*a1^2 + m2*a2^2 == (m1*v1^2 + m2*v2^2) * (m1 + m2)^2`, which is the
/// energy balance scaled by `(m1 + m2)^2` (the common factor one half is
/// dropped from both sides). In a resolution only the normal components
/// change; the tangential components are untouched.
pub proof fn lemma_energy_normal(m1: int, m2: int, v1: int, v2: int)
    ensures
        m1 * ((v1 * (m1 - m2) + 2 * m2 * v2) * (v1 * (m1 - m2) + 2 * m2 * v2)) + m2 * ((v2 * (m2
            - m1) + 2 * m1 * v1) * (v2 * (m2 - m1) + 2 * m1 * v1)) == (m1 * (v1 * v1) + m2 * (v2
            * v2)) * ((m1 + m2) * (m1 + m2)),
{
    let mm = m1 + m2;
    let u = v1 - v2;
    let x1 = v1 * mm;
    let y1 = 2 * (m2 * u);
    let x2 = v2 * mm;
    let y2 = 2 * (m1 * u);
    let e = 4 * ((m1 * m2) * (u * u));
    assert(v1 * (m1 - m2) + 2 * m2 * v2 == x1 - y1) by (nonlinear_arith)
        requires
            x1 == v1 * (m1 + m2),
            y1 == 2 * (m2 * (v1 - v2)),
    ;
    assert(v2 * (m2 - m1) + 2 * m1 * v1 == x2 + y2) by (nonlinear_arith)
        requires
            x2 == v2 * (m1 + m2),
            y2 == 2 * (m1 * (v1 - v2)),
    ;
    lemma_sq_terms(x1, y1);
    lemma_sq_terms(x2, y2);
    lemma_dist3(m1, x1 * x1, 2 * (x1 * y1), y1 * y1);
    lemma_dist3(m2, x2 * x2, 2 * (x2 * y2), y2 * y2);
    assert(m1 * (x1 * x1) == (m1 * (v1 * v1)) * (mm * mm)) by (nonlinear_arith)
        requires
            x1 == v1 * mm,
    ;
    assert(m2 * (x2 * x2) == (m2 * (v2 * v2)) * (mm * mm)) by (nonlinear_arith)
        requires
            x2 == v2 * mm,
    ;
    assert(m1 * (y1 * y1) == (4 * ((m1 * m2) * (u * u))) * m2) by (nonlinear_arith)
        requires
            y1 == 2 * (m2 * u),
    ;
    assert(m2 * (y2 * y2) == (4 * ((m1 * m2) * (u * u))) * m1) by (nonlinear_arith)
        requires
            y2 == 2 * (m1 * u),
    ;
    lemma_dist_l(e, m1, m2);
    assert(m1 * (2 * (x1 * y1)) == (4 * ((m1 * m2) * (v1 * u))) * mm) by (nonlinear_arith)
        requires
            x1 == v1 * mm,
            y1 == 2 * (m2 * u),
    ;
    assert(m2 * (2 * (x2 * y2)) == (4 * ((m1 * m2) * (v2 * u))) * mm) by (nonlinear_arith)
        requires
            x2 == v2 * mm,
            y2 == 2 * (m1 * u),
    ;
    assert(4 * ((m1 * m2) * (v1 * u)) - 4 * ((m1 * m2) * (v2 * u)) == e) by (nonlinear_arith)
        requires
            u == v1 - v2,
            e == 4 * ((m1 * m2) * (u * u)),
    ;
    lemma_dist_r(4 * ((m1 * m2) * (v1 * u)), 4 * ((m1 * m2) * (v2 * u)), mm);
    lemma_dist_r(m1 * (v1 * v1), m2 * (v2 * v2), mm * mm);
}

/// A zero acceleration leaves the velocity of an axis unchanged in value.
pub proof fn lemma_zero_accel(v: Frac, dt: Frac)
    requires
        v.wf(),
        dt.wf(),
    ensures
        feq(axis_accel(v, from_int(0), dt), v),
{
    if fits(fmul(from_int(0), dt)) && fits(fadd(v, fmul(from_int(0), dt))) {
        assert((v.n * dt.d + 0 * v.d) * v.d == v.n * (v.d * dt.d)) by (nonlinear_arith);
    }
}

/// Wall containment at the low wall of one axis: a body within its radius
/// of the wall and moving toward it has its velocity negated exactly once,
/// moves away on this very tick, and advances by exactly one tick's
/// displacement.
pub proof fn lemma_wall_reflect_low(p: Frac, r: Frac, v: Frac, limit: Frac)
    requires
        p.wf(),
        r.wf(),
        v.wf(),
        limit.wf(),
        flt(p, r),
        flt(v, from_int(0)),
    ensures
        axis_reflect(p, r, v, limit) == fneg(v),
        flt(from_int(0), axis_reflect(p, r, v, limit)),
        fle(p, axis_move(p, axis_reflect(p, r, v, limit))),
        fits(fadd(p, fneg(v))) ==> axis_move(p, axis_reflect(p, r, v, limit)) == fadd(p, fneg(v)),
{
    let w = fneg(v);
    if fits(fadd(p, w)) {
        assert(p.n * (p.d * v.d) <= (p.n * v.d + (-v.n) * p.d) * p.d) by (nonlinear_arith)
            requires
                p.d > 0,
                v.d > 0,
                v.n < 0,
        ;
    }
}

/// Wall containment at the high wall of one axis: the mirror statement.
pub proof fn lemma_wall_reflect_high(p: Frac, r: Frac, v: Frac, limit: Frac)
    requires
        p.wf(),
        r.wf(),
        v.wf(),
        limit.wf(),
        fits(fsub(limit, p)),
        flt(fsub(limit, p), r),
        flt(from_int(0), v),
    ensures
        axis_reflect(p, r, v, limit) == fneg(v),
        flt(axis_reflect(p, r, v, limit), from_int(0)),
        fle(axis_move(p, axis_reflect(p, r, v, limit)), p),
        fits(fadd(p, fneg(v))) ==> axis_move(p, axis_reflect(p, r, v, limit)) == fadd(p, fneg(v)),
{
    let w = fneg(v);
    if fits(fadd(p, w)) {
        assert((p.n * v.d + (-v.n) * p.d) * p.d <= p.n * (p.d * v.d)) by (nonlinear_arith)
            requires
                p.d > 0,
                v.d > 0,
                v.n > 0,
        ;
    }
}

/// Regrouping a product of two products.
proof fn lemma_regroup4(x: int, y: int, z: int, w: int)
    by (nonlinear_arith)
    ensures
        (x * y) * (z * w) == (x * z) * (y * w),
{
}

/// Rotating a product of three factors.
proof fn lemma_rot3(x: int, y: int, z: int)
    by (nonlinear_arith)
    ensures
        (x * y) * z == x * (z * y),
{
}

/// Commuting a product of two factors.
proof fn lemma_comm2(x: int, y: int)
    by (nonlinear_arith)
    ensures
        x * y == y * x,
{
}

/// One monomial reordering too large for a single prover step: both sides
/// are brought to a shared canonical grouping by pure regrouping.
proof fn lemma_cross_monomial(vxd: int, vyd: int, dxn: int, dxd: int, dyn_: int, dyd: int,
    kn: int, kd: int)
    ensures
        ((dxn * kn) * (vyd * dxd)) * ((vxd * dyn_) * (dyd * kd)) == ((dyn_ * kn) * (vxd * dyd))
            * ((vyd * dxn) * (dxd * kd)),
{
    lemma_regroup4(dxn * kn, vyd * dxd, vxd * dyn_, dyd * kd);
    lemma_regroup4(dxn, kn, vxd, dyn_);
    lemma_regroup4(vyd, dxd, dyd, kd);
    lemma_regroup4(dxn * vxd, kn * dyn_, vyd * dyd, dxd * kd);
    lemma_comm2(dxn, vxd);
    lemma_regroup4(vxd, dxn, vyd, dyd);
    lemma_comm2(dxd, kd);
    lemma_regroup4(kn, dyn_, kd, dxd);
    assert(((dxn * kn) * (vyd * dxd)) * ((vxd * dyn_) * (dyd * kd)) == ((vxd * vyd) * (dxn
        * dyd)) * ((kn * kd) * (dyn_ * dxd)));
    lemma_regroup4(dyn_ * kn, vxd * dyd, vyd * dxn, dxd * kd);
    lemma_regroup4(dyn_, kn, vyd, dxn);
    lemma_regroup4(vxd, dyd, dxd, kd);
    lemma_regroup4(dyn_ * vyd, kn * dxn, vxd * dxd, dyd * kd);
    lemma_comm2(dyn_, vyd);
    lemma_regroup4(vyd, dyn_, vxd, dxd);
    lemma_comm2(vyd, vxd);
    lemma_comm2(dyd, kd);
    lemma_regroup4(kn, dxn, kd, dyd);
    assert(((dyn_ * kn) * (vxd * dyd)) * ((vyd * dxn) * (dxd * kd)) == ((vxd * vyd) * (dyn_
        * dxd)) * ((kn * kd) * (dxn * dyd)));
    lemma_regroup4(vxd * vyd, dxn * dyd, kn * kd, dyn_ * dxd);
    lemma_regroup4(vxd * vyd, dyn_ * dxd, kn * kd, dxn * dyd);
    lemma_comm2(dxn * dyd, dyn_ * dxd);
}

/// The cross product with a direction is unchanged by adding or removing
/// a multiple of that direction: `(v -+ k*d) x d == v x d`.
proof fn lemma_cross_impulse(vx: Frac, vy: Frac, dx: Frac, dy: Frac, k: Frac)
    ensures
        feq(
            fsub(fmul(fsub(vx, fmul(dx, k)), dy), fmul(fsub(vy, fmul(dy, k)), dx)),
            fsub(fmul(vx, dy), fmul(vy, dx)),
        ),
        feq(
            fsub(fmul(fadd(vx, fmul(dx, k)), dy), fmul(fadd(vy, fmul(dy, k)), dx)),
            fsub(fmul(vx, dy), fmul(vy, dx)),
        ),
{
    let vxn = vx.n;
    let vxd = vx.d;
    let vyn = vy.n;
    let vyd = vy.d;
    let dxn = dx.n;
    let dxd = dx.d;
    let dyn_ = dy.n;
    let dyd = dy.d;
    let kn = k.n;
    let kd = k.d;
    let a = vxn * (dxd * kd);
    let b = (dxn * kn) * vxd;
    let c = vyn * (dyd * kd);
    let e = (dyn_ * kn) * vyd;
    let xd = vxd * (dxd * kd);
    let yd = vyd * (dyd * kd);
    let rd = (vxd * dyd) * (vyd * dxd);
    let ld = (xd * dyd) * (yd * dxd);
    let t1 = (a * dyn_) * (yd * dxd);
    let t2 = (b * dyn_) * (yd * dxd);
    let t3 = (c * dxn) * (xd * dyd);
    let t4 = (e * dxn) * (xd * dyd);
    let p1 = (vxn * dyn_) * (vyd * dxd);
    let p2 = (vyn * dxn) * (vxd * dyd);
    let ee = (dxd * kd) * (dyd * kd);
    lemma_dist_r(a, b, dyn_);
    lemma_dist_r(a * dyn_, b * dyn_, yd * dxd);
    lemma_dist_r(c, e, dxn);
    lemma_dist_r(c * dxn, e * dxn, xd * dyd);
    lemma_dist_r(t1 - t2, t3 - t4, rd);
    lemma_dist_r(t1 + t2, t3 + t4, rd);
    lemma_dist_r(t1, t2, rd);
    lemma_dist_r(t3, t4, rd);
    lemma_dist_r(p1, p2, ld);
    // Factor each cross-multiplied monomial into original-term times `ee`.
    assert(a * dyn_ == (vxn * dyn_) * (dxd * kd)) by (nonlinear_arith)
        requires
            a == vxn * (dxd * kd),
    ;
    assert(yd * dxd == (vyd * dxd) * (dyd * kd)) by (nonlinear_arith)
        requires
            yd == vyd * (dyd * kd),
    ;
    assert(xd * dyd == (vxd * dyd) * (dxd * kd)) by (nonlinear_arith)
        requires
            xd == vxd * (dxd * kd),
    ;
    assert(c * dxn == (vyn * dxn) * (dyd * kd)) by (nonlinear_arith)
        requires
            c == vyn * (dyd * kd),
    ;
    assert(b * dyn_ == (dxn * kn) * (vxd * dyn_)) by (nonlinear_arith)
        requires
            b == (dxn * kn) * vxd,
    ;
    assert(e * dxn == (dyn_ * kn) * (vyd * dxn)) by (nonlinear_arith)
        requires
            e == (dyn_ * kn) * vyd,
    ;
    lemma_regroup4(vxn * dyn_, dxd * kd, vyd * dxd, dyd * kd);
    assert(t1 == p1 * ee);
    lemma_regroup4(vxd * dyd, dxd * kd, vyd * dxd, dyd * kd);
    assert(ld == rd * ee);
    lemma_regroup4(vyn * dxn, dyd * kd, vxd * dyd, dxd * kd);
    assert((dyd * kd) * (dxd * kd) == ee) by (nonlinear_arith)
        requires
            ee == (dxd * kd) * (dyd * kd),
    ;
    assert(t3 == p2 * ee);
    lemma_regroup4(dxn * kn, vxd * dyn_, vyd * dxd, dyd * kd);
    lemma_regroup4(dyn_ * kn, vyd * dxn, vxd * dyd, dxd * kd);
    assert(t2 == ((dxn * kn) * (vyd * dxd)) * ((vxd * dyn_) * (dyd * kd)));
    assert(t4 == ((dyn_ * kn) * (vxd * dyd)) * ((vyd * dxn) * (dxd * kd)));
    lemma_cross_monomial(vxd, vyd, dxn, dxd, dyn_, dyd, kn, kd);
    lemma_rot3(p1, ee, rd);
    lemma_rot3(p2, ee, rd);
    assert(t1 * rd == p1 * ld);
    assert(t3 * rd == p2 * ld);
    assert(t2 * rd == t4 * rd);
}

/// Collision resolution is frictionless: it changes only the normal
/// velocity components. The tangential component of each velocity - its
/// cross product with the line of centers `p1 - p2` - is exactly the same
/// before and after the resolution, for both bodies.
pub proof fn lemma_tangential_unchanged(m1: Frac, m2: Frac, p1: FV2, p2: FV2, v1: FV2, v2: FV2)
    requires
        m1.wf(),
        m2.wf(),
        p1.wf(),
        p2.wf(),
        v1.wf(),
        v2.wf(),
    ensures
        feq(
            vcross(resolve_vels(m1, m2, p1, p2, v1, v2).0, vsub(p1, p2)),
            vcross(v1, vsub(p1, p2)),
        ),
        feq(
            vcross(resolve_vels(m1, m2, p1, p2, v1, v2).1, vsub(p1, p2)),
            vcross(v2, vsub(p1, p2)),
        ),
{
    let d = vsub(p1, p2);
    let s = vdot(vsub(v1, v2), d);
    let q = vdot(d, d);
    let m = fadd(m1, m2);
    let k1 = fdiv(fmul(fmul(from_int(2), m2), s), fmul(m, q));
    let k2 = fdiv(fmul(fmul(from_int(2), m1), s), fmul(m, q));
    lemma_cross_impulse(v1.x, v1.y, d.x, d.y, k1);
    lemma_cross_impulse(v2.x, v2.y, d.x, d.y, k2);
}

/// A body moving away from the low wall is not reflected again there: a
/// wall contact flips the velocity exactly once, and the flipped velocity
/// fails the wall test on later ticks while the body is not also in
/// contact with the far wall.
pub proof fn lemma_no_second_reflect_low(p: Frac, r: Frac, v: Frac, limit: Frac)
    requires
        p.wf(),
        r.wf(),
        v.wf(),
        limit.wf(),
        flt(from_int(0), v),
        fits(fsub(limit, p)) ==> fle(r, fsub(limit, p)),
    ensures
        axis_reflect(p, r, v, limit) == v,
{
}

/// The mirror statement at the high wall.
pub proof fn lemma_no_second_reflect_high(p: Frac, r: Frac, v: Frac, limit: Frac)
    requires
        p.wf(),
        r.wf(),
        v.wf(),
        limit.wf(),
        flt(v, from_int(0)),
        fle(r, p),
    ensures
        axis_reflect(p, r, v, limit) == v,
{
}

} // verus!
