//! Broad-phase collision culling by sweep-and-prune along the x-axis.
//!
//! Bodies are sorted by the left edge of their x-interval (`pos.x - r`); a
//! scan then keeps an active window `[window_start, i)` and a running upper
//! bound on the right interval edges inside it, emitting each scanned body
//! against the whole window while the body's left edge does not pass the
//! bound.
//!
//! Sorting by the left edge (rather than by center) makes the scan complete:
//! it never misses a pair whose x-intervals truly intersect, whatever the
//! radii. A center-keyed order would let a very wide disk reach back past an
//! already closed window. When some interval edge cannot be computed exactly
//! the sort falls back to center order and the scan falls back to emitting
//! every pair, which is still conservative, so completeness holds
//! unconditionally. Emitted candidates may include false positives, which
//! the exact narrow phase filters out.

use vstd::prelude::*;

use crate::rat::{Rat, Frac, fadd, fsub, fmul, fits, fle, flt, lemma_fle_trans,
    lemma_fle_flt_trans, lemma_flt_fle_trans, lemma_abs_le};
use crate::v2::{vsub, vdot};
use crate::body::{Body, spec_overlap, overlap_fits, core_model};

verus! {

broadcast use vstd::seq_lib::group_to_multiset_ensures, vstd::multiset::group_multiset_axioms;

/// Left edge of a body's x-interval.
pub open spec fn left_edge(b: Body) -> Frac {
    fsub(b.pos.x@, b.r@)
}

/// Right edge of a body's x-interval.
pub open spec fn right_edge(b: Body) -> Frac {
    fadd(b.pos.x@, b.r@)
}

/// The x-intervals of the two bodies intersect.
pub open spec fn x_overlap(a: Body, b: Body) -> bool {
    fle(left_edge(a), right_edge(b)) && fle(left_edge(b), right_edge(a))
}

/// Every body in the sequence is well-formed.
pub open spec fn all_wf(s: Seq<Body>) -> bool {
    forall|i: int| 0 <= i < s.len() ==> (#[trigger] s[i]).wf()
}

/// Non-decreasing center x-coordinates.
pub open spec fn sorted_by_x(s: Seq<Body>) -> bool {
    forall|a: int, b: int| 0 <= a < b < s.len() ==> fle(s[a].pos.x@, s[b].pos.x@)
}

/// Non-decreasing left interval edges: the order under which the sweep
/// window scan is complete. `sort_bodies` establishes it whenever every
/// edge is exactly computable.
pub open spec fn left_monotone(s: Seq<Body>) -> bool {
    forall|a: int, b: int| 0 <= a < b < s.len() ==> fle(left_edge(s[a]), left_edge(s[b]))
}

/// The physical identity of a body: its radius and mass, which no
/// operation of the simulation ever changes.
pub open spec fn body_shape(b: Body) -> (Rat, Rat) {
    (b.r, b.mass)
}

/// Every body's two interval edges are exactly computable.
pub open spec fn edges_fit(s: Seq<Body>) -> bool {
    forall|i: int|
        0 <= i < s.len() ==> fits(left_edge(#[trigger] s[i])) && fits(right_edge(s[i]))
}

/// Whether every interval edge is computable depends only on which bodies
/// are present, not on their order.
proof fn lemma_edges_fit_multiset(s1: Seq<Body>, s2: Seq<Body>)
    requires
        s1.to_multiset() == s2.to_multiset(),
    ensures
        edges_fit(s1) == edges_fit(s2),
{
    if !edges_fit(s1) {
        let i = choose|i: int|
            0 <= i < s1.len() && !(fits(left_edge(s1[i])) && fits(right_edge(s1[i])));
        assert(s1.contains(s1[i]));
        assert(s2.to_multiset().count(s1[i]) > 0);
        assert(s2.contains(s1[i]));
        let j = choose|j: int| 0 <= j < s2.len() && s2[j] == s1[i];
        assert(!(fits(left_edge(s2[j])) && fits(right_edge(s2[j]))));
        assert(!edges_fit(s2));
    }
    if !edges_fit(s2) {
        let i = choose|i: int|
            0 <= i < s2.len() && !(fits(left_edge(s2[i])) && fits(right_edge(s2[i])));
        assert(s2.contains(s2[i]));
        assert(s1.to_multiset().count(s2[i]) > 0);
        assert(s1.contains(s2[i]));
        let j = choose|j: int| 0 <= j < s1.len() && s1[j] == s2[i];
        assert(!(fits(left_edge(s1[j])) && fits(right_edge(s1[j]))));
        assert(!edges_fit(s1));
    }
}

/// Decide whether every interval edge is exactly computable.
fn edges_all_fit(bodies: &Vec<Body>) -> (r: bool)
    requires
        all_wf(bodies@),
    ensures
        r == edges_fit(bodies@),
{
    let n: usize = bodies.len();
    let mut t: usize = 0;
    while t < n
        invariant
            t <= n,
            bodies@.len() == n,
            all_wf(bodies@),
            forall|u: int|
                0 <= u < t ==> fits(left_edge(#[trigger] bodies@[u])) && fits(
                    right_edge(bodies@[u]),
                ),
        decreases n - t,
    {
        let l = bodies[t].pos.x.minus(bodies[t].r);
        let rr = bodies[t].pos.x.plus(bodies[t].r);
        match (l, rr) {
            (Some(_), Some(_)) => {},
            _ => {
                proof {
                    assert(!(fits(left_edge(bodies@[t as int])) && fits(
                        right_edge(bodies@[t as int]),
                    )));
                }
                return false;
            },
        }
        t = t + 1;
    }
    true
}

/// The left interval edge as an exact scalar; callers guarantee it fits.
fn left_edge_rat(b: Body) -> (r: Rat)
    requires
        b.wf(),
        fits(left_edge(b)),
    ensures
        r.wf(),
        r@ == left_edge(b),
{
    match b.pos.x.minus(b.r) {
        Some(l) => l,
        None => b.pos.x,
    }
}

/// The interval edges of a well-formed body are well-formed fractions.
proof fn lemma_edge_wf(b: Body)
    requires
        b.wf(),
    ensures
        left_edge(b).wf(),
        right_edge(b).wf(),
{
    assert(b.pos.x@.d * b.r@.d > 0) by (nonlinear_arith)
        requires
            b.pos.x@.d > 0,
            b.r@.d > 0,
    ;
}

/// Write one element of a vector.
fn vset<T>(v: &mut Vec<T>, i: usize, x: T)
    requires
        i < old(v).len(),
    ensures
        final(v)@ == old(v)@.update(i as int, x),
{
    let r = &mut v[i];
    *r = x;
}

/// A sequence still contains everything it contained before a push.
proof fn lemma_push_preserves_contains<T>(s: Seq<T>, x: T, y: T)
    requires
        s.contains(y),
    ensures
        s.push(x).contains(y),
{
    let k = choose|k: int| 0 <= k < s.len() && s[k] == y;
    assert(s.push(x)[k] == y);
}

/// Sort the bodies by center x-coordinate, in place (insertion sort).
fn sort_by_center(bodies: &mut Vec<Body>)
    requires
        all_wf(old(bodies)@),
    ensures
        all_wf(final(bodies)@),
        sorted_by_x(final(bodies)@),
        final(bodies)@.len() == old(bodies)@.len(),
        final(bodies)@.to_multiset() == old(bodies)@.to_multiset(),
        final(bodies)@.map_values(|b: Body| body_shape(b)).to_multiset() == old(
            bodies,
        )@.map_values(|b: Body| body_shape(b)).to_multiset(),
        final(bodies)@.map_values(|b: Body| core_model(b)).to_multiset() == old(
            bodies,
        )@.map_values(|b: Body| core_model(b)).to_multiset(),
{
    let n: usize = bodies.len();
    let mut i: usize = 0;
    while i < n
        invariant
            i <= n,
            bodies@.len() == n,
            all_wf(bodies@),
            bodies@.to_multiset() == old(bodies)@.to_multiset(),
            bodies@.map_values(|b: Body| body_shape(b)).to_multiset() == old(
                bodies,
            )@.map_values(|b: Body| body_shape(b)).to_multiset(),
            bodies@.map_values(|b: Body| core_model(b)).to_multiset() == old(
                bodies,
            )@.map_values(|b: Body| core_model(b)).to_multiset(),
            forall|a: int, b: int| 0 <= a < b < i ==> fle(bodies@[a].pos.x@, bodies@[b].pos.x@),
        decreases n - i,
    {
        let mut j: usize = i;
        while j > 0 && bodies[j].pos.x.lt(bodies[j - 1].pos.x)
            invariant
                j <= i < n,
                bodies@.len() == n,
                all_wf(bodies@),
                bodies@.to_multiset() == old(bodies)@.to_multiset(),
                bodies@.map_values(|b: Body| body_shape(b)).to_multiset() == old(
                    bodies,
                )@.map_values(|b: Body| body_shape(b)).to_multiset(),
                bodies@.map_values(|b: Body| core_model(b)).to_multiset() == old(
                    bodies,
                )@.map_values(|b: Body| core_model(b)).to_multiset(),
                forall|a: int, b: int|
                    0 <= a < b <= i && b != j ==> fle(bodies@[a].pos.x@, bodies@[b].pos.x@),
                forall|a: int|
                    j < a <= i ==> fle(bodies@[j as int].pos.x@, bodies@[a].pos.x@),
            decreases j,
        {
            let prev = bodies[j - 1];
            let cur = bodies[j];
            let ghost s0 = bodies@;
            vset(bodies, j - 1, cur);
            vset(bodies, j, prev);
            proof {
                assert(bodies@.map_values(|b: Body| body_shape(b)) =~= s0.map_values(
                    |b: Body| body_shape(b),
                ).update(j - 1 as int, body_shape(cur)).update(j as int, body_shape(prev)));
                assert(bodies@.map_values(|b: Body| core_model(b)) =~= s0.map_values(
                    |b: Body| core_model(b),
                ).update(j - 1 as int, core_model(cur)).update(j as int, core_model(prev)));
            }
            j = j - 1;
        }
        proof {
            assert forall|a: int, b: int| 0 <= a < b <= i implies fle(
                bodies@[a].pos.x@,
                bodies@[b].pos.x@,
            ) by {
                if b == j as int && a < j as int - 1 {
                    lemma_fle_trans(
                        bodies@[a].pos.x@,
                        bodies@[j as int - 1].pos.x@,
                        bodies@[b].pos.x@,
                    );
                }
            }
        }
        i = i + 1;
    }
}

/// Sort the bodies by left interval edge, in place (insertion sort); every
/// edge must be exactly computable.
fn sort_by_left(bodies: &mut Vec<Body>)
    requires
        all_wf(old(bodies)@),
        edges_fit(old(bodies)@),
    ensures
        all_wf(final(bodies)@),
        left_monotone(final(bodies)@),
        final(bodies)@.len() == old(bodies)@.len(),
        final(bodies)@.to_multiset() == old(bodies)@.to_multiset(),
        final(bodies)@.map_values(|b: Body| body_shape(b)).to_multiset() == old(
            bodies,
        )@.map_values(|b: Body| body_shape(b)).to_multiset(),
        final(bodies)@.map_values(|b: Body| core_model(b)).to_multiset() == old(
            bodies,
        )@.map_values(|b: Body| core_model(b)).to_multiset(),
{
    let n: usize = bodies.len();
    let mut i: usize = 0;
    while i < n
        invariant
            i <= n,
            bodies@.len() == n,
            all_wf(bodies@),
            edges_fit(bodies@),
            bodies@.to_multiset() == old(bodies)@.to_multiset(),
            bodies@.map_values(|b: Body| body_shape(b)).to_multiset() == old(
                bodies,
            )@.map_values(|b: Body| body_shape(b)).to_multiset(),
            bodies@.map_values(|b: Body| core_model(b)).to_multiset() == old(
                bodies,
            )@.map_values(|b: Body| core_model(b)).to_multiset(),
            forall|a: int, b: int|
                0 <= a < b < i ==> fle(left_edge(bodies@[a]), left_edge(bodies@[b])),
        decreases n - i,
    {
        let mut j: usize = i;
        while j > 0 && left_edge_rat(bodies[j]).lt(left_edge_rat(bodies[j - 1]))
            invariant
                j <= i < n,
                bodies@.len() == n,
                all_wf(bodies@),
                edges_fit(bodies@),
                bodies@.to_multiset() == old(bodies)@.to_multiset(),
                bodies@.map_values(|b: Body| body_shape(b)).to_multiset() == old(
                    bodies,
                )@.map_values(|b: Body| body_shape(b)).to_multiset(),
                bodies@.map_values(|b: Body| core_model(b)).to_multiset() == old(
                    bodies,
                )@.map_values(|b: Body| core_model(b)).to_multiset(),
                forall|a: int, b: int|
                    0 <= a < b <= i && b != j ==> fle(left_edge(bodies@[a]), left_edge(bodies@[b])),
                forall|a: int|
                    j < a <= i ==> fle(left_edge(bodies@[j as int]), left_edge(bodies@[a])),
            decreases j,
        {
            let prev = bodies[j - 1];
            let cur = bodies[j];
            let ghost s0 = bodies@;
            vset(bodies, j - 1, cur);
            vset(bodies, j, prev);
            proof {
                assert(bodies@.map_values(|b: Body| body_shape(b)) =~= s0.map_values(
                    |b: Body| body_shape(b),
                ).update(j - 1 as int, body_shape(cur)).update(j as int, body_shape(prev)));
                assert(bodies@.map_values(|b: Body| core_model(b)) =~= s0.map_values(
                    |b: Body| core_model(b),
                ).update(j - 1 as int, core_model(cur)).update(j as int, core_model(prev)));
                assert forall|t: int| 0 <= t < n implies fits(
                    left_edge(#[trigger] bodies@[t]),
                ) && fits(right_edge(bodies@[t])) by {
                    if t == j - 1 as int {
                        assert(bodies@[t] == s0[j as int]);
                    } else if t == j as int {
                        assert(bodies@[t] == s0[j - 1 as int]);
                    } else {
                        assert(bodies@[t] == s0[t]);
                    }
                }
            }
            j = j - 1;
        }
        proof {
            assert forall|a: int, b: int| 0 <= a < b <= i implies fle(
                left_edge(bodies@[a]),
                left_edge(bodies@[b]),
            ) by {
                lemma_edge_wf(bodies@[a]);
                lemma_edge_wf(bodies@[b]);
                if b == j as int && a < j as int - 1 {
                    lemma_edge_wf(bodies@[j as int - 1]);
                    lemma_fle_trans(
                        left_edge(bodies@[a]),
                        left_edge(bodies@[j as int - 1]),
                        left_edge(bodies@[b]),
                    );
                }
            }
        }
        i = i + 1;
    }
}

/// Sort the bodies for the sweep, in place. This permanently reorders the
/// sequence; bodies are otherwise interchangeable, so callers must not rely
/// on stable indices across ticks.
///
/// The key is the left interval edge whenever every edge is exactly
/// computable, which makes the sweep window scan complete; otherwise the
/// center x-coordinate (and the scan then falls back to emitting every
/// pair).
pub fn sort_bodies(bodies: &mut Vec<Body>)
    requires
        all_wf(old(bodies)@),
    ensures
        all_wf(final(bodies)@),
        final(bodies)@.len() == old(bodies)@.len(),
        final(bodies)@.to_multiset() == old(bodies)@.to_multiset(),
        final(bodies)@.map_values(|b: Body| body_shape(b)).to_multiset() == old(
            bodies,
        )@.map_values(|b: Body| body_shape(b)).to_multiset(),
        final(bodies)@.map_values(|b: Body| core_model(b)).to_multiset() == old(
            bodies,
        )@.map_values(|b: Body| core_model(b)).to_multiset(),
        edges_fit(final(bodies)@) == edges_fit(old(bodies)@),
        edges_fit(old(bodies)@) ==> left_monotone(final(bodies)@),
        !edges_fit(old(bodies)@) ==> sorted_by_x(final(bodies)@),
{
    if edges_all_fit(bodies) {
        sort_by_left(bodies);
    } else {
        sort_by_center(bodies);
    }
    proof {
        lemma_edges_fit_multiset(bodies@, old(bodies)@);
    }
}

/// Every unordered pair of distinct indices below `n`, as a conservative
/// fallback candidate set.
fn all_pairs(n: usize) -> (r: Vec<(usize, usize)>)
    ensures
        forall|k: int|
            0 <= k < r@.len() ==> (#[trigger] r@[k]).0 < r@[k].1 && (r@[k].1 as int) < n,
        forall|a: usize, b: usize| a < b && (b as int) < n ==> #[trigger] r@.contains((a, b)),
{
    let mut r: Vec<(usize, usize)> = Vec::new();
    let mut i: usize = 0;
    while i < n
        invariant
            i <= n,
            forall|k: int|
                0 <= k < r@.len() ==> (#[trigger] r@[k]).0 < r@[k].1 && (r@[k].1 as int) < n,
            forall|a: usize, b: usize|
                a < b && (b as int) < n && (a as int) < i ==> #[trigger] r@.contains((a, b)),
        decreases n - i,
    {
        let mut j: usize = i + 1;
        while j < n
            invariant
                i < j <= n,
                i < n,
                forall|k: int|
                    0 <= k < r@.len() ==> (#[trigger] r@[k]).0 < r@[k].1 && (r@[k].1 as int) < n,
                forall|a: usize, b: usize|
                    a < b && (b as int) < n && (a as int) < i ==> #[trigger] r@.contains((a, b)),
                forall|b: usize|
                    (i as int) < b && (b as int) < j ==> #[trigger] r@.contains((i, b)),
            decreases n - j,
        {
            let ghost r0 = r@;
            r.push((i, j));
            proof {
                assert forall|a: usize, b: usize|
                    a < b && (b as int) < n && (a as int) < i implies #[trigger] r@.contains(
                    (a, b),
                ) by {
                    lemma_push_preserves_contains(r0, (i, j), (a, b));
                }
                assert forall|b: usize| (i as int) < b && (b as int) < j + 1 implies #[trigger] r@
                    .contains((i, b)) by {
                    if (b as int) < j {
                        lemma_push_preserves_contains(r0, (i, j), (i, b));
                    } else {
                        assert(r@[r0.len() as int] == (i, j));
                    }
                }
            }
            j = j + 1;
        }
        i = i + 1;
    }
    r
}

/// Sweep-and-prune candidate pairs.
///
/// Every returned pair `(a, b)` has `a < b < bodies.len()`. If the left
/// interval edges are non-decreasing (`left_monotone`, which `sort_bodies`
/// establishes whenever the edges are computable), or if some interval edge
/// cannot be computed exactly (the scan then returns the full pair set),
/// the result contains every pair whose x-intervals intersect.
pub fn sweep_pairs(bodies: &Vec<Body>) -> (r: Vec<(usize, usize)>)
    requires
        all_wf(bodies@),
    ensures
        forall|k: int|
            0 <= k < r@.len() ==> (#[trigger] r@[k]).0 < r@[k].1 && (r@[k].1 as int)
                < bodies@.len(),
        left_monotone(bodies@) || !edges_fit(bodies@) ==> forall|a: usize, b: usize|
            a < b && (b as int) < bodies@.len() && x_overlap(
                bodies@[a as int],
                bodies@[b as int],
            ) ==> #[trigger] r@.contains((a, b)),
{
    let n: usize = bodies.len();
    if n == 0 {
        let r: Vec<(usize, usize)> = Vec::new();
        return r;
    }
    // Interval edges, computed once; fall back to all pairs if one does not
    // fit exactly.
    let mut lefts: Vec<Rat> = Vec::new();
    let mut rights: Vec<Rat> = Vec::new();
    let mut t: usize = 0;
    while t < n
        invariant
            t <= n,
            bodies@.len() == n,
            all_wf(bodies@),
            lefts@.len() == t,
            rights@.len() == t,
            forall|u: int|
                0 <= u < t ==> (#[trigger] lefts@[u])@ == left_edge(bodies@[u]) && lefts@[u].wf(),
            forall|u: int|
                0 <= u < t ==> (#[trigger] rights@[u])@ == right_edge(bodies@[u])
                    && rights@[u].wf(),
            forall|u: int|
                0 <= u < t ==> fits(left_edge(#[trigger] bodies@[u])) && fits(
                    right_edge(bodies@[u]),
                ),
        decreases n - t,
    {
        let l = bodies[t].pos.x.minus(bodies[t].r);
        let rr = bodies[t].pos.x.plus(bodies[t].r);
        match (l, rr) {
            (Some(l), Some(rr)) => {
                lefts.push(l);
                rights.push(rr);
            },
            _ => {
                return all_pairs(n);
            },
        }
        t = t + 1;
    }
    proof {
        assert(edges_fit(bodies@));
    }
    let mut r: Vec<(usize, usize)> = Vec::new();
    let mut ws: usize = 0;
    let mut rb: Rat = rights[0];
    let mut i: usize = 1;
    while i < n
        invariant
            1 <= i <= n,
            ws < i,
            bodies@.len() == n,
            all_wf(bodies@),
            edges_fit(bodies@),
            lefts@.len() == n,
            rights@.len() == n,
            forall|u: int|
                0 <= u < n ==> (#[trigger] lefts@[u])@ == left_edge(bodies@[u]) && lefts@[u].wf(),
            forall|u: int|
                0 <= u < n ==> (#[trigger] rights@[u])@ == right_edge(bodies@[u])
                    && rights@[u].wf(),
            rb.wf(),
            forall|u: int| ws <= u < i ==> fle(right_edge(#[trigger] bodies@[u]), rb@),
            left_monotone(bodies@) ==> forall|u: int|
                0 <= u < ws ==> flt(right_edge(#[trigger] bodies@[u]), left_edge(bodies@[ws as int])),
            forall|k: int|
                0 <= k < r@.len() ==> (#[trigger] r@[k]).0 < r@[k].1 && (r@[k].1 as int) < n,
            left_monotone(bodies@) ==> forall|a: usize, b: usize|
                a < b && (b as int) < i && x_overlap(
                    bodies@[a as int],
                    bodies@[b as int],
                ) ==> #[trigger] r@.contains((a, b)),
        decreases n - i,
    {
        if lefts[i].le(rb) {
            if rb.lt(rights[i]) {
                let ghost rb0 = rb@;
                rb = rights[i];
                proof {
                    assert forall|u: int| ws <= u < i implies fle(
                        right_edge(#[trigger] bodies@[u]),
                        rb@,
                    ) by {
                        lemma_edge_wf(bodies@[u]);
                        lemma_fle_trans(right_edge(bodies@[u]), rb0, rb@);
                    }
                }
            }
            let mut j: usize = ws;
            while j < i
                invariant
                    ws <= j <= i,
                    i < n,
                    bodies@.len() == n,
                    forall|k: int|
                        0 <= k < r@.len() ==> (#[trigger] r@[k]).0 < r@[k].1 && (r@[k].1 as int)
                            < n,
                    left_monotone(bodies@) ==> forall|a: usize, b: usize|
                        a < b && (b as int) < i && x_overlap(
                            bodies@[a as int],
                            bodies@[b as int],
                        ) ==> #[trigger] r@.contains((a, b)),
                    forall|u: usize| ws <= u < j ==> #[trigger] r@.contains((u, i)),
                decreases i - j,
            {
                let ghost r0 = r@;
                r.push((j, i));
                proof {
                    if left_monotone(bodies@) {
                        assert forall|a: usize, b: usize|
                            a < b && (b as int) < i && x_overlap(
                                bodies@[a as int],
                                bodies@[b as int],
                            ) implies #[trigger] r@.contains((a, b)) by {
                            lemma_push_preserves_contains(r0, (j, i), (a, b));
                        }
                    }
                    assert forall|u: usize| ws <= u < j + 1 implies #[trigger] r@.contains(
                        (u, i),
                    ) by {
                        if u < j {
                            lemma_push_preserves_contains(r0, (j, i), (u, i));
                        } else {
                            assert(r@[r0.len() as int] == (j, i));
                        }
                    }
                }
                j = j + 1;
            }
            proof {
                if left_monotone(bodies@) {
                    assert forall|a: usize, b: usize|
                        a < b && (b as int) < i + 1 && x_overlap(
                            bodies@[a as int],
                            bodies@[b as int],
                        ) implies #[trigger] r@.contains((a, b)) by {
                        if (b as int) == i as int && (a as int) < ws {
                            // A closed-window body ends strictly before this
                            // window opened, and left edges are monotone, so
                            // the pair cannot x-overlap.
                            lemma_edge_wf(bodies@[a as int]);
                            lemma_edge_wf(bodies@[ws as int]);
                            lemma_edge_wf(bodies@[i as int]);
                            lemma_flt_fle_trans(
                                right_edge(bodies@[a as int]),
                                left_edge(bodies@[ws as int]),
                                left_edge(bodies@[i as int]),
                            );
                        }
                    }
                }
            }
        } else {
            proof {
                if left_monotone(bodies@) {
                    assert forall|u: int| 0 <= u < i implies flt(
                        right_edge(#[trigger] bodies@[u]),
                        left_edge(bodies@[i as int]),
                    ) by {
                        lemma_edge_wf(bodies@[u]);
                        lemma_edge_wf(bodies@[ws as int]);
                        lemma_edge_wf(bodies@[i as int]);
                        if ws <= u {
                            lemma_fle_flt_trans(
                                right_edge(bodies@[u]),
                                rb@,
                                left_edge(bodies@[i as int]),
                            );
                        } else {
                            lemma_flt_fle_trans(
                                right_edge(bodies@[u]),
                                left_edge(bodies@[ws as int]),
                                left_edge(bodies@[i as int]),
                            );
                        }
                    }
                    assert forall|a: usize, b: usize|
                        a < b && (b as int) < i + 1 && x_overlap(
                            bodies@[a as int],
                            bodies@[b as int],
                        ) implies #[trigger] r@.contains((a, b)) by {
                    }
                }
            }
            ws = i;
            rb = rights[i];
        }
        i = i + 1;
    }
    r
}

/// Moving a term across an inequality of cleared-denominator products is a
/// ring identity.
proof fn lemma_edge_shift(p1n: int, p1d: int, p2n: int, p2d: int, r1n: int, r1d: int, r2n: int,
    r2d: int)
    ensures
        (p1n * r1d - r1n * p1d) * (p2d * r2d) - (p2n * r2d + r2n * p2d) * (p1d * r1d) == (p1n
            * p2d - p2n * p1d) * (r1d * r2d) - (r1n * r2d + r2n * r1d) * (p1d * p2d),
        (p2n * r2d - r2n * p2d) * (p1d * r1d) - (p1n * r1d + r1n * p1d) * (p2d * r2d) == (-(r1n
            * r2d + r2n * r1d)) * (p1d * p2d) - (p1n * p2d - p2n * p1d) * (r1d * r2d),
{
    assert((p1n * r1d - r1n * p1d) * (p2d * r2d) == (p1n * r1d) * (p2d * r2d) - (r1n * p1d) * (p2d
        * r2d)) by (nonlinear_arith);
    assert((p2n * r2d + r2n * p2d) * (p1d * r1d) == (p2n * r2d) * (p1d * r1d) + (r2n * p2d) * (p1d
        * r1d)) by (nonlinear_arith);
    assert((p1n * p2d - p2n * p1d) * (r1d * r2d) == (p1n * p2d) * (r1d * r2d) - (p2n * p1d) * (r1d
        * r2d)) by (nonlinear_arith);
    assert((r1n * r2d + r2n * r1d) * (p1d * p2d) == (r1n * r2d) * (p1d * p2d) + (r2n * r1d) * (p1d
        * p2d)) by (nonlinear_arith);
    assert((p2n * r2d - r2n * p2d) * (p1d * r1d) == (p2n * r2d) * (p1d * r1d) - (r2n * p2d) * (p1d
        * r1d)) by (nonlinear_arith);
    assert((p1n * r1d + r1n * p1d) * (p2d * r2d) == (p1n * r1d) * (p2d * r2d) + (r1n * p1d) * (p2d
        * r2d)) by (nonlinear_arith);
    assert((-(r1n * r2d + r2n * r1d)) * (p1d * p2d) == -((r1n * r2d) * (p1d * p2d)) - ((r2n * r1d)
        * (p1d * p2d))) by (nonlinear_arith);
    assert((p1n * r1d) * (p2d * r2d) == (p1n * p2d) * (r1d * r2d)) by (nonlinear_arith);
    assert((r1n * p1d) * (p2d * r2d) == (r1n * r2d) * (p1d * p2d)) by (nonlinear_arith);
    assert((p2n * r2d) * (p1d * r1d) == (p2n * p1d) * (r1d * r2d)) by (nonlinear_arith);
    assert((r2n * p2d) * (p1d * r1d) == (r2n * r1d) * (p1d * p2d)) by (nonlinear_arith);
}

/// A pair that truly overlaps as disks also overlaps in its x-intervals:
/// the broad phase loses nothing that the narrow phase would confirm.
pub proof fn lemma_overlap_implies_x_overlap(a: Body, b: Body)
    requires
        a.wf(),
        b.wf(),
        spec_overlap(a, b),
    ensures
        x_overlap(a, b),
{
    let dx = fsub(a.pos.x@, b.pos.x@);
    let dy = fsub(a.pos.y@, b.pos.y@);
    let q = vdot(vsub(a.pos@, b.pos@), vsub(a.pos@, b.pos@));
    let rr = fadd(a.r@, b.r@);
    let xn = dx.n;
    let xd = dx.d;
    let yn = dy.n;
    let yd = dy.d;
    // dx * dx <= q, since the y-contribution is a sum of squares.
    assert((xn * xn) * ((xd * xd) * (yd * yd)) <= ((xn * xn) * (yd * yd) + (yn * yn) * (xd * xd))
        * (xd * xd)) by (nonlinear_arith);
    assert(fle(fmul(dx, dx), q));
    assert(xd > 0 && yd > 0 && xd * xd > 0 && (xd * xd) * (yd * yd) > 0 && a.r@.d * b.r@.d > 0 && (a.r@.d * b.r@.d)
        * (a.r@.d * b.r@.d) > 0 && a.r@.n * b.r@.d + b.r@.n * a.r@.d > 0) by (nonlinear_arith)
        requires
            xd == a.pos.x@.d * b.pos.x@.d,
            yd == a.pos.y@.d * b.pos.y@.d,
            a.pos.x@.d > 0,
            a.pos.y@.d > 0,
            b.pos.x@.d > 0,
            b.pos.y@.d > 0,
            a.r@.n > 0,
            a.r@.d > 0,
            b.r@.n > 0,
            b.r@.d > 0,
    ;
    assert(fmul(dx, dx).wf() && q.wf() && fmul(rr, rr).wf() && rr.wf() && rr.n > 0);
    lemma_fle_trans(fmul(dx, dx), q, fmul(rr, rr));
    lemma_abs_le(dx, rr);
    let p1n = a.pos.x@.n;
    let p1d = a.pos.x@.d;
    let p2n = b.pos.x@.n;
    let p2d = b.pos.x@.d;
    let r1n = a.r@.n;
    let r1d = a.r@.d;
    let r2n = b.r@.n;
    let r2d = b.r@.d;
    // dx <= rr gives left_edge(a) <= right_edge(b), and -rr <= dx gives
    // left_edge(b) <= right_edge(a): the same inequality with terms moved
    // across, which is a ring identity after clearing denominators.
    lemma_edge_shift(p1n, p1d, p2n, p2d, r1n, r1d, r2n, r2d);
}

/// The full collision pipeline: sort for the sweep, collect sweep-and-prune
/// candidates, and filter them by the exact narrow phase. The body sequence
/// is permanently reordered (the documented sort); the returned index pairs
/// refer to the reordered sequence.
///
/// Every flagged pair truly overlaps; and whenever the exact overlap
/// arithmetic of a pair fits, every truly overlapping pair is flagged - so
/// the pipeline flags exactly the pairs a brute-force quadratic overlap
/// scan over the reordered sequence would.
pub fn collide_pairs(bodies: &mut Vec<Body>) -> (r: Vec<(usize, usize)>)
    requires
        all_wf(old(bodies)@),
    ensures
        all_wf(final(bodies)@),
        final(bodies)@.len() == old(bodies)@.len(),
        final(bodies)@.to_multiset() == old(bodies)@.to_multiset(),
        forall|k: int|
            0 <= k < r@.len() ==> (#[trigger] r@[k]).0 < r@[k].1 && (r@[k].1 as int)
                < final(bodies)@.len() && spec_overlap(
                final(bodies)@[r@[k].0 as int],
                final(bodies)@[r@[k].1 as int],
            ),
        forall|a: usize, b: usize|
            a < b && (b as int) < final(bodies)@.len() && overlap_fits(
                final(bodies)@[a as int],
                final(bodies)@[b as int],
            ) && spec_overlap(final(bodies)@[a as int], final(bodies)@[b as int])
                ==> #[trigger] r@.contains((a, b)),
{
    sort_bodies(bodies);
    let n: usize = bodies.len();
    let cands = sweep_pairs(bodies);
    let mut r: Vec<(usize, usize)> = Vec::new();
    let mut k: usize = 0;
    while k < cands.len()
        invariant
            k <= cands@.len(),
            bodies@.len() == n,
            all_wf(bodies@),
            forall|t: int|
                0 <= t < cands@.len() ==> (#[trigger] cands@[t]).0 < cands@[t].1 && (
                cands@[t].1 as int) < n,
            forall|t: int|
                0 <= t < r@.len() ==> (#[trigger] r@[t]).0 < r@[t].1 && (r@[t].1 as int) < n
                    && spec_overlap(bodies@[r@[t].0 as int], bodies@[r@[t].1 as int]),
            forall|t: int|
                0 <= t < k && overlap_fits(
                    bodies@[cands@[t].0 as int],
                    bodies@[cands@[t].1 as int],
                ) && spec_overlap(
                    bodies@[cands@[t].0 as int],
                    bodies@[cands@[t].1 as int],
                ) ==> r@.contains(#[trigger] cands@[t]),
        decreases cands@.len() - k,
    {
        let p = cands[k];
        let a = p.0;
        let b = p.1;
        let ghost r0 = r@;
        if bodies[a].check_collision(&bodies[b]) {
            r.push((a, b));
        }
        proof {
            assert forall|t: int|
                0 <= t < k + 1 && overlap_fits(
                    bodies@[cands@[t].0 as int],
                    bodies@[cands@[t].1 as int],
                ) && spec_overlap(
                    bodies@[cands@[t].0 as int],
                    bodies@[cands@[t].1 as int],
                ) implies r@.contains(#[trigger] cands@[t]) by {
                if t < k {
                    if r@ != r0 {
                        lemma_push_preserves_contains(r0, (a, b), cands@[t]);
                    }
                } else {
                    assert(r@[r@.len() - 1] == (a, b));
                }
            }
        }
        k = k + 1;
    }
    proof {
        assert(left_monotone(bodies@) || !edges_fit(bodies@));
        assert forall|a: usize, b: usize|
            a < b && (b as int) < bodies@.len() && overlap_fits(
                bodies@[a as int],
                bodies@[b as int],
            ) && spec_overlap(bodies@[a as int], bodies@[b as int]) implies #[trigger] r@
            .contains((a, b)) by {
            lemma_overlap_implies_x_overlap(bodies@[a as int], bodies@[b as int]);
            assert(cands@.contains((a, b)));
            let t = choose|t: int| 0 <= t < cands@.len() && cands@[t] == (a, b);
            assert(r@.contains(cands@[t]));
        }
    }
    r
}

} // verus!
