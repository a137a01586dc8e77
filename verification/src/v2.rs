//! 2D vectors of exact rational scalars.

use vstd::prelude::*;

use crate::rat::{Rat, Frac, fadd, fsub, fmul, fits};

verus! {

/// Mathematical model of a 2D vector: a pair of rational models.
pub struct FV2 {
    pub x: Frac,
    pub y: Frac,
}

impl FV2 {
    pub open spec fn wf(self) -> bool {
        self.x.wf() && self.y.wf()
    }
}

/// Componentwise sum.
pub open spec fn vadd(a: FV2, b: FV2) -> FV2 {
    FV2 { x: fadd(a.x, b.x), y: fadd(a.y, b.y) }
}

/// Componentwise difference.
pub open spec fn vsub(a: FV2, b: FV2) -> FV2 {
    FV2 { x: fsub(a.x, b.x), y: fsub(a.y, b.y) }
}

/// Scaling by a rational.
pub open spec fn vscale(a: FV2, k: Frac) -> FV2 {
    FV2 { x: fmul(a.x, k), y: fmul(a.y, k) }
}

/// Dot product.
pub open spec fn vdot(a: FV2, b: FV2) -> Frac {
    fadd(fmul(a.x, b.x), fmul(a.y, b.y))
}

/// Cross product (the scalar z-component): the tangential part of `a`
/// with respect to direction `b`.
pub open spec fn vcross(a: FV2, b: FV2) -> Frac {
    fsub(fmul(a.x, b.y), fmul(a.y, b.x))
}

/// Both components fit into executable scalars.
pub open spec fn vfits(a: FV2) -> bool {
    fits(a.x) && fits(a.y)
}

/// The intermediate products and the sum of a dot product all fit.
pub open spec fn dot_fits(a: FV2, b: FV2) -> bool {
    fits(fmul(a.x, b.x)) && fits(fmul(a.y, b.y)) && fits(vdot(a, b))
}

/// An executable 2D vector of exact rational scalars.
#[derive(Clone, Copy, PartialEq, Eq, Structural, Debug)]
pub struct V2 {
    pub x: Rat,
    pub y: Rat,
}

impl View for V2 {
    type V = FV2;

    open spec fn view(&self) -> FV2 {
        FV2 { x: self.x@, y: self.y@ }
    }
}

impl V2 {
    pub open spec fn wf(self) -> bool {
        self.x.wf() && self.y.wf()
    }

    pub fn new(x: Rat, y: Rat) -> (r: V2)
        requires
            x.wf(),
            y.wf(),
        ensures
            r.wf(),
            r@ == (FV2 { x: x@, y: y@ }),
    {
        V2 { x, y }
    }

    /// Componentwise exact sum, when both components fit.
    pub fn plus(self, o: V2) -> (r: Option<V2>)
        requires
            self.wf(),
            o.wf(),
        ensures
            r is Some <==> vfits(vadd(self@, o@)),
            r matches Some(v) ==> v.wf() && v@ == vadd(self@, o@),
    {
        match (self.x.plus(o.x), self.y.plus(o.y)) {
            (Some(x), Some(y)) => Some(V2 { x, y }),
            _ => None,
        }
    }

    /// Componentwise exact difference, when both components fit.
    pub fn minus(self, o: V2) -> (r: Option<V2>)
        requires
            self.wf(),
            o.wf(),
        ensures
            r is Some <==> vfits(vsub(self@, o@)),
            r matches Some(v) ==> v.wf() && v@ == vsub(self@, o@),
    {
        match (self.x.minus(o.x), self.y.minus(o.y)) {
            (Some(x), Some(y)) => Some(V2 { x, y }),
            _ => None,
        }
    }

    /// Exact scaling, when both components fit.
    pub fn scale(self, k: Rat) -> (r: Option<V2>)
        requires
            self.wf(),
            k.wf(),
        ensures
            r is Some <==> vfits(vscale(self@, k@)),
            r matches Some(v) ==> v.wf() && v@ == vscale(self@, k@),
    {
        match (self.x.times(k), self.y.times(k)) {
            (Some(x), Some(y)) => Some(V2 { x, y }),
            _ => None,
        }
    }

    /// Exact dot product, when every intermediate fits.
    pub fn dot(self, o: V2) -> (r: Option<Rat>)
        requires
            self.wf(),
            o.wf(),
        ensures
            r is Some <==> dot_fits(self@, o@),
            r matches Some(v) ==> v.wf() && v@ == vdot(self@, o@),
    {
        match (self.x.times(o.x), self.y.times(o.y)) {
            (Some(tx), Some(ty)) => tx.plus(ty),
            _ => None,
        }
    }
}

} // verus!
