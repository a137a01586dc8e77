//! Exact rational scalars.
//!
//! An executable scalar is a fraction of two `i64`s with a positive
//! denominator; its mathematical model is `Frac`, a pair of unbounded
//! integers. Arithmetic is exact: each operation either returns the exact
//! rational result (when the unreduced numerator and denominator fit back
//! into `i64`) or reports that it does not fit, so a caller can fall back to
//! a defensive no-op instead of silently losing precision.

use vstd::prelude::*;

verus! {

/// Mathematical model of a rational number: the integer pair `n / d`.
pub struct Frac {
    pub n: int,
    pub d: int,
}

impl Frac {
    /// A well-formed model has a positive denominator.
    pub open spec fn wf(self) -> bool {
        self.d > 0
    }
}

/// `a` and `b` denote the same rational number.
pub open spec fn feq(a: Frac, b: Frac) -> bool {
    a.n * b.d == b.n * a.d
}

/// Exact sum (unreduced).
pub open spec fn fadd(a: Frac, b: Frac) -> Frac {
    Frac { n: a.n * b.d + b.n * a.d, d: a.d * b.d }
}

/// Exact difference (unreduced).
pub open spec fn fsub(a: Frac, b: Frac) -> Frac {
    Frac { n: a.n * b.d - b.n * a.d, d: a.d * b.d }
}

/// Exact product (unreduced).
pub open spec fn fmul(a: Frac, b: Frac) -> Frac {
    Frac { n: a.n * b.n, d: a.d * b.d }
}

/// Exact quotient (unreduced); meaningful when `b.n > 0`.
pub open spec fn fdiv(a: Frac, b: Frac) -> Frac {
    Frac { n: a.n * b.d, d: a.d * b.n }
}

/// Exact negation.
pub open spec fn fneg(a: Frac) -> Frac {
    Frac { n: -a.n, d: a.d }
}

/// `a <= b`, valid for well-formed operands.
pub open spec fn fle(a: Frac, b: Frac) -> bool {
    a.n * b.d <= b.n * a.d
}

/// `a < b`, valid for well-formed operands.
pub open spec fn flt(a: Frac, b: Frac) -> bool {
    a.n * b.d < b.n * a.d
}

/// The integer `n` as a rational model.
pub open spec fn from_int(n: int) -> Frac {
    Frac { n: n, d: 1 }
}

/// The pair fits back into an executable `Rat`: numerator strictly above
/// `i64::MIN` (so negation cannot overflow) and positive denominator at most
/// `i64::MAX`.
pub open spec fn fits(a: Frac) -> bool {
    &&& -0x7fff_ffff_ffff_ffff <= a.n <= 0x7fff_ffff_ffff_ffff
    &&& 0 < a.d <= 0x7fff_ffff_ffff_ffff
}

/// An exact rational scalar `n / d` with `d > 0`.
#[derive(Clone, Copy, PartialEq, Eq, Structural, Debug)]
pub struct Rat {
    pub n: i64,
    pub d: i64,
}

impl View for Rat {
    type V = Frac;

    open spec fn view(&self) -> Frac {
        Frac { n: self.n as int, d: self.d as int }
    }
}

/// Bound on the product of two values in `i64` range, avoiding `i64::MIN`.
proof fn lemma_mul_i64_bound(a: int, b: int)
    by (nonlinear_arith)
    requires
        -0x7fff_ffff_ffff_ffff <= a <= 0x7fff_ffff_ffff_ffff,
        -0x7fff_ffff_ffff_ffff <= b <= 0x7fff_ffff_ffff_ffff,
    ensures
        -(0x7fff_ffff_ffff_ffff * 0x7fff_ffff_ffff_ffff) <= a * b,
        a * b <= 0x7fff_ffff_ffff_ffff * 0x7fff_ffff_ffff_ffff,
{
}

/// The product of two positive values in `i64` range is positive and bounded.
proof fn lemma_pos_mul_bound(a: int, b: int)
    by (nonlinear_arith)
    requires
        0 < a <= 0x7fff_ffff_ffff_ffff,
        0 < b <= 0x7fff_ffff_ffff_ffff,
    ensures
        0 < a * b <= 0x7fff_ffff_ffff_ffff * 0x7fff_ffff_ffff_ffff,
{
}

/// `<=` on well-formed rationals is transitive.
pub proof fn lemma_fle_trans(a: Frac, b: Frac, c: Frac)
    by (nonlinear_arith)
    requires
        a.wf(),
        b.wf(),
        c.wf(),
        fle(a, b),
        fle(b, c),
    ensures
        fle(a, c),
{
}

/// `<=` then `<` on well-formed rationals chains to `<`.
pub proof fn lemma_fle_flt_trans(a: Frac, b: Frac, c: Frac)
    by (nonlinear_arith)
    requires
        a.wf(),
        b.wf(),
        c.wf(),
        fle(a, b),
        flt(b, c),
    ensures
        flt(a, c),
{
}

/// `<` then `<=` on well-formed rationals chains to `<`.
pub proof fn lemma_flt_fle_trans(a: Frac, b: Frac, c: Frac)
    by (nonlinear_arith)
    requires
        a.wf(),
        b.wf(),
        c.wf(),
        flt(a, b),
        fle(b, c),
    ensures
        flt(a, c),
{
}

/// If `a * a <= b * b` and `b > 0`, then `-b <= a <= b`.
pub proof fn lemma_abs_le(a: Frac, b: Frac)
    requires
        a.wf(),
        b.wf(),
        b.n > 0,
        fle(fmul(a, a), fmul(b, b)),
    ensures
        fle(a, b),
        fle(fneg(b), a),
{
    let an = a.n;
    let ad = a.d;
    let bn = b.n;
    let bd = b.d;
    assert(an * bd <= bn * ad && (-bn) * ad <= an * bd) by (nonlinear_arith)
        requires
            ad > 0,
            bd > 0,
            bn > 0,
            (an * an) * (bd * bd) <= (bn * bn) * (ad * ad),
    ;
}

/// Package an exact wide result back into a `Rat` when it fits.
fn fit(n: i128, d: i128) -> (r: Option<Rat>)
    requires
        0 < d,
    ensures
        r is Some <==> fits(Frac { n: n as int, d: d as int }),
        r matches Some(v) ==> v.wf() && v@ == (Frac { n: n as int, d: d as int }),
{
    if -0x7fff_ffff_ffff_ffff <= n && n <= 0x7fff_ffff_ffff_ffff && d <= 0x7fff_ffff_ffff_ffff {
        Some(Rat { n: n as i64, d: d as i64 })
    } else {
        None
    }
}

impl Rat {
    /// Well-formed scalar: positive denominator, numerator above `i64::MIN`.
    pub open spec fn wf(self) -> bool {
        0 < self.d && -0x7fff_ffff_ffff_ffff <= self.n
    }

    /// The fraction `n / d`.
    pub fn new(n: i64, d: i64) -> (r: Rat)
        requires
            0 < d,
            -0x7fff_ffff_ffff_ffff <= n,
        ensures
            r.wf(),
            r@ == (Frac { n: n as int, d: d as int }),
    {
        Rat { n, d }
    }

    /// The integer `n` as a rational.
    pub fn from_i64(n: i64) -> (r: Rat)
        requires
            -0x7fff_ffff_ffff_ffff <= n,
        ensures
            r.wf(),
            r@ == from_int(n as int),
    {
        Rat { n, d: 1 }
    }

    /// Zero.
    pub fn zero() -> (r: Rat)
        ensures
            r.wf(),
            r@ == from_int(0),
    {
        Rat { n: 0, d: 1 }
    }

    /// Exact sum, when it fits.
    pub fn plus(self, o: Rat) -> (r: Option<Rat>)
        requires
            self.wf(),
            o.wf(),
        ensures
            r is Some <==> fits(fadd(self@, o@)),
            r matches Some(v) ==> v.wf() && v@ == fadd(self@, o@),
    {
        proof {
            lemma_mul_i64_bound(self.n as int, o.d as int);
            lemma_mul_i64_bound(o.n as int, self.d as int);
            lemma_pos_mul_bound(self.d as int, o.d as int);
        }
        let n: i128 = (self.n as i128) * (o.d as i128) + (o.n as i128) * (self.d as i128);
        let d: i128 = (self.d as i128) * (o.d as i128);
        fit(n, d)
    }

    /// Exact difference, when it fits.
    pub fn minus(self, o: Rat) -> (r: Option<Rat>)
        requires
            self.wf(),
            o.wf(),
        ensures
            r is Some <==> fits(fsub(self@, o@)),
            r matches Some(v) ==> v.wf() && v@ == fsub(self@, o@),
    {
        proof {
            lemma_mul_i64_bound(self.n as int, o.d as int);
            lemma_mul_i64_bound(o.n as int, self.d as int);
            lemma_pos_mul_bound(self.d as int, o.d as int);
        }
        let n: i128 = (self.n as i128) * (o.d as i128) - (o.n as i128) * (self.d as i128);
        let d: i128 = (self.d as i128) * (o.d as i128);
        fit(n, d)
    }

    /// Exact product, when it fits.
    pub fn times(self, o: Rat) -> (r: Option<Rat>)
        requires
            self.wf(),
            o.wf(),
        ensures
            r is Some <==> fits(fmul(self@, o@)),
            r matches Some(v) ==> v.wf() && v@ == fmul(self@, o@),
    {
        proof {
            lemma_mul_i64_bound(self.n as int, o.n as int);
            lemma_pos_mul_bound(self.d as int, o.d as int);
        }
        let n: i128 = (self.n as i128) * (o.n as i128);
        let d: i128 = (self.d as i128) * (o.d as i128);
        fit(n, d)
    }

    /// Exact quotient by a positive rational, when it fits.
    pub fn over(self, o: Rat) -> (r: Option<Rat>)
        requires
            self.wf(),
            o.wf(),
            o.n > 0,
        ensures
            r is Some <==> fits(fdiv(self@, o@)),
            r matches Some(v) ==> v.wf() && v@ == fdiv(self@, o@),
    {
        proof {
            lemma_mul_i64_bound(self.n as int, o.d as int);
            lemma_pos_mul_bound(self.d as int, o.n as int);
        }
        let n: i128 = (self.n as i128) * (o.d as i128);
        let d: i128 = (self.d as i128) * (o.n as i128);
        fit(n, d)
    }

    /// Exact negation; always fits.
    pub fn neg(self) -> (r: Rat)
        requires
            self.wf(),
        ensures
            r.wf(),
            r@ == fneg(self@),
    {
        Rat { n: -self.n, d: self.d }
    }

    /// `self` and `o` denote the same rational number (the pairs may
    /// differ), decided exactly.
    pub fn same(self, o: Rat) -> (r: bool)
        requires
            self.wf(),
            o.wf(),
        ensures
            r == feq(self@, o@),
    {
        proof {
            lemma_mul_i64_bound(self.n as int, o.d as int);
            lemma_mul_i64_bound(o.n as int, self.d as int);
        }
        (self.n as i128) * (o.d as i128) == (o.n as i128) * (self.d as i128)
    }

    /// `self <= o`, decided exactly.
    pub fn le(self, o: Rat) -> (r: bool)
        requires
            self.wf(),
            o.wf(),
        ensures
            r == fle(self@, o@),
    {
        proof {
            lemma_mul_i64_bound(self.n as int, o.d as int);
            lemma_mul_i64_bound(o.n as int, self.d as int);
        }
        (self.n as i128) * (o.d as i128) <= (o.n as i128) * (self.d as i128)
    }

    /// `self < o`, decided exactly.
    pub fn lt(self, o: Rat) -> (r: bool)
        requires
            self.wf(),
            o.wf(),
        ensures
            r == flt(self@, o@),
    {
        proof {
            lemma_mul_i64_bound(self.n as int, o.d as int);
            lemma_mul_i64_bound(o.n as int, self.d as int);
        }
        (self.n as i128) * (o.d as i128) < (o.n as i128) * (self.d as i128)
    }
}

} // verus!
