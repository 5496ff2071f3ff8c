//! Sums, dot products and residuals over sequences of fractions.
//!
//! The solver states its contracts over these spec functions: a candidate
//! solution is acceptable when the sum of squared row residuals stays within
//! the fixed tolerance, and no component is negative.

use crate::rational::{
    lemma_q_add_cong, lemma_q_add_nonneg_grows, lemma_q_add_wf, lemma_q_le_trans, lemma_q_mul_cong,
    lemma_q_mul_wf, lemma_q_sq_bound, lemma_q_sq_nonneg, q_add, q_eq, q_int, q_le, q_mul, q_neg,
    q_sq, q_sub, q_wf, Qv,
};
use vstd::prelude::*;

verus! {

pub open spec fn all_wf(s: Seq<Qv>) -> bool {
    forall|i: int| 0 <= i < s.len() ==> q_wf(#[trigger] s[i])
}

pub open spec fn all_zero(s: Seq<Qv>) -> bool {
    forall|i: int| 0 <= i < s.len() ==> q_eq(#[trigger] s[i], q_int(0))
}

pub open spec fn all_nonneg(s: Seq<Qv>) -> bool {
    forall|i: int| 0 <= i < s.len() ==> q_le(q_int(0), #[trigger] s[i])
}

pub open spec fn q_sum(s: Seq<Qv>) -> Qv
    decreases s.len(),
{
    if s.len() == 0 {
        q_int(0)
    } else {
        q_add(q_sum(s.drop_last()), s.last())
    }
}

/// Dot product; zero on a length mismatch so the definition is total.
pub open spec fn q_dot(a: Seq<Qv>, x: Seq<Qv>) -> Qv
    decreases a.len(),
{
    if a.len() == 0 || a.len() != x.len() {
        q_int(0)
    } else {
        q_add(q_dot(a.drop_last(), x.drop_last()), q_mul(a.last(), x.last()))
    }
}

pub proof fn lemma_q_sum_push(s: Seq<Qv>, x: Qv)
    ensures
        q_sum(s.push(x)) == q_add(q_sum(s), x),
{
    assert(s.push(x).drop_last() =~= s);
    assert(s.push(x).last() == x);
}

pub proof fn lemma_q_sum_wf(s: Seq<Qv>)
    requires
        all_wf(s),
    ensures
        q_wf(q_sum(s)),
    decreases s.len(),
{
    if s.len() > 0 {
        lemma_q_sum_wf(s.drop_last());
        lemma_q_add_wf(q_sum(s.drop_last()), s.last());
    }
}

pub proof fn lemma_q_dot_wf(a: Seq<Qv>, x: Seq<Qv>)
    requires
        all_wf(a),
        all_wf(x),
    ensures
        q_wf(q_dot(a, x)),
    decreases a.len(),
{
    if a.len() != 0 && a.len() == x.len() {
        lemma_q_dot_wf(a.drop_last(), x.drop_last());
        lemma_q_mul_wf(a.last(), x.last());
        lemma_q_add_wf(q_dot(a.drop_last(), x.drop_last()), q_mul(a.last(), x.last()));
    }
}

pub proof fn lemma_q_sum_nonneg(s: Seq<Qv>)
    requires
        all_wf(s),
        all_nonneg(s),
    ensures
        q_wf(q_sum(s)),
        q_le(q_int(0), q_sum(s)),
    decreases s.len(),
{
    if s.len() > 0 {
        lemma_q_sum_nonneg(s.drop_last());
        lemma_q_add_wf(q_sum(s.drop_last()), s.last());
        lemma_q_add_nonneg_grows(q_sum(s.drop_last()), s.last());
        lemma_q_le_trans(q_int(0), q_sum(s.drop_last()), q_sum(s));
    }
}

/// In a sum of non-negative terms, every term is at most the sum.
pub proof fn lemma_q_sum_term_le(s: Seq<Qv>, i: int)
    requires
        all_wf(s),
        all_nonneg(s),
        0 <= i < s.len(),
    ensures
        q_le(s[i], q_sum(s)),
    decreases s.len(),
{
    lemma_q_sum_wf(s.drop_last());
    if i == s.len() - 1 {
        lemma_q_sum_nonneg(s.drop_last());
        crate::rational::lemma_q_add_nonneg_grows_left(s.last(), q_sum(s.drop_last()));
    } else {
        lemma_q_sum_term_le(s.drop_last(), i);
        lemma_q_add_nonneg_grows(q_sum(s.drop_last()), s.last());
        lemma_q_add_wf(q_sum(s.drop_last()), s.last());
        lemma_q_le_trans(s[i], q_sum(s.drop_last()), q_sum(s));
    }
}

/// A dot product whose pointwise products equal the terms of a sum equals
/// that sum.
pub proof fn lemma_q_dot_eq_sum_pointwise(row: Seq<Qv>, x: Seq<Qv>, target: Seq<Qv>)
    requires
        row.len() == x.len(),
        target.len() == row.len(),
        all_wf(row),
        all_wf(x),
        all_wf(target),
        forall|i: int| 0 <= i < row.len() ==> q_eq(q_mul(row[i], x[i]), #[trigger] target[i]),
    ensures
        q_eq(q_dot(row, x), q_sum(target)),
    decreases row.len(),
{
    if row.len() == 0 {
    } else {
        lemma_q_dot_eq_sum_pointwise(row.drop_last(), x.drop_last(), target.drop_last());
        lemma_q_dot_wf(row.drop_last(), x.drop_last());
        lemma_q_sum_wf(target.drop_last());
        crate::rational::lemma_q_mul_wf(row.last(), x.last());
        crate::rational::lemma_q_add_cong(
            q_dot(row.drop_last(), x.drop_last()),
            q_sum(target.drop_last()),
            q_mul(row.last(), x.last()),
            target.last(),
        );
    }
}

/// A dot product with a row that is one at `i` and zero elsewhere picks the
/// `i`-th component.
pub proof fn lemma_q_dot_pin(row: Seq<Qv>, x: Seq<Qv>, i: int)
    requires
        row.len() == x.len(),
        all_wf(row),
        all_wf(x),
        0 <= i < row.len(),
        q_eq(row[i], q_int(1)),
        forall|k: int| 0 <= k < row.len() && k != i ==> q_eq(#[trigger] row[k], q_int(0)),
    ensures
        q_eq(q_dot(row, x), x[i]),
    decreases row.len(),
{
    let n = row.len() as int;
    let dprev = q_dot(row.drop_last(), x.drop_last());
    lemma_q_dot_wf(row.drop_last(), x.drop_last());
    crate::rational::lemma_q_mul_wf(row.last(), x.last());
    if i == n - 1 {
        lemma_q_dot_zero_row(row.drop_last(), x.drop_last());
        crate::rational::lemma_q_mul_one(row.last(), x.last());
        assert(x.last() == x[i]);
        crate::rational::lemma_q_add_cong(dprev, dprev, q_mul(row.last(), x.last()), x[i]);
        crate::rational::lemma_q_add_zero_left(dprev, x[i]);
        crate::rational::lemma_q_add_wf(dprev, x[i]);
        crate::rational::lemma_q_eq_trans(q_dot(row, x), q_add(dprev, x[i]), x[i]);
    } else {
        lemma_q_dot_pin(row.drop_last(), x.drop_last(), i);
        crate::rational::lemma_q_mul_zero(row.last(), x.last());
        crate::rational::lemma_q_add_zero_right(dprev, q_mul(row.last(), x.last()));
        crate::rational::lemma_q_add_wf(dprev, q_mul(row.last(), x.last()));
        crate::rational::lemma_q_eq_trans(q_dot(row, x), dprev, x[i]);
    }
}

/// A dot product with an all-zero row is zero.
pub proof fn lemma_q_dot_zero_row(row: Seq<Qv>, x: Seq<Qv>)
    requires
        row.len() == x.len(),
        all_wf(row),
        all_wf(x),
        forall|k: int| 0 <= k < row.len() ==> q_eq(#[trigger] row[k], q_int(0)),
    ensures
        q_eq(q_dot(row, x), q_int(0)),
    decreases row.len(),
{
    if row.len() > 0 {
        lemma_q_dot_zero_row(row.drop_last(), x.drop_last());
        lemma_q_dot_wf(row.drop_last(), x.drop_last());
        crate::rational::lemma_q_mul_zero(row.last(), x.last());
        crate::rational::lemma_q_mul_wf(row.last(), x.last());
        crate::rational::lemma_q_add_zero_right(
            q_dot(row.drop_last(), x.drop_last()),
            q_mul(row.last(), x.last()),
        );
        crate::rational::lemma_q_add_wf(
            q_dot(row.drop_last(), x.drop_last()),
            q_mul(row.last(), x.last()),
        );
        crate::rational::lemma_q_eq_trans(
            q_dot(row, x),
            q_dot(row.drop_last(), x.drop_last()),
            q_int(0),
        );
    }
}

// ---------------------------------------------------------------------------
// Residuals of a linear system.
// ---------------------------------------------------------------------------

/// The solver's residual tolerance, `1/100`.
pub open spec fn q_tol() -> Qv {
    Qv { n: 1, d: 100 }
}

pub open spec fn q_tol_sq() -> Qv {
    Qv { n: 1, d: 10000 }
}

pub open spec fn mat_wf(a: Seq<Seq<Qv>>, cols: int) -> bool {
    forall|i: int| 0 <= i < a.len() ==> (#[trigger] a[i]).len() == cols && all_wf(a[i])
}

/// Squared residual of every row of `a * x == b`.
pub open spec fn residual_terms(a: Seq<Seq<Qv>>, b: Seq<Qv>, x: Seq<Qv>) -> Seq<Qv> {
    Seq::new(a.len(), |i: int| q_sq(q_sub(q_dot(a[i], x), b[i])))
}

/// The Euclidean norm of the residual is within the tolerance: the sum of
/// squared row residuals is at most `(1/100)^2`.
pub open spec fn residual_ok(a: Seq<Seq<Qv>>, b: Seq<Qv>, x: Seq<Qv>) -> bool {
    q_le(q_sum(residual_terms(a, b, x)), q_tol_sq())
}

pub proof fn lemma_residual_terms_wf(a: Seq<Seq<Qv>>, b: Seq<Qv>, x: Seq<Qv>)
    requires
        mat_wf(a, x.len() as int),
        all_wf(b),
        all_wf(x),
        b.len() == a.len(),
    ensures
        all_wf(residual_terms(a, b, x)),
        all_nonneg(residual_terms(a, b, x)),
{
    let terms = residual_terms(a, b, x);
    assert forall|i: int| 0 <= i < terms.len() implies q_wf(#[trigger] terms[i]) && q_le(
        q_int(0),
        terms[i],
    ) by {
        lemma_q_dot_wf(a[i], x);
        lemma_q_add_wf(q_dot(a[i], x), q_neg(b[i]));
        lemma_q_sq_nonneg(q_sub(q_dot(a[i], x), b[i]));
    }
}

/// When the summed squared residual is within tolerance, each single row's
/// residual lies between `-1/100` and `1/100`.
pub proof fn lemma_residual_row_small(a: Seq<Seq<Qv>>, b: Seq<Qv>, x: Seq<Qv>, i: int)
    requires
        mat_wf(a, x.len() as int),
        all_wf(b),
        all_wf(x),
        b.len() == a.len(),
        residual_ok(a, b, x),
        0 <= i < a.len(),
    ensures
        q_le(q_neg(q_tol()), q_sub(q_dot(a[i], x), b[i])),
        q_le(q_sub(q_dot(a[i], x), b[i]), q_tol()),
{
    let terms = residual_terms(a, b, x);
    lemma_residual_terms_wf(a, b, x);
    lemma_q_sum_term_le(terms, i);
    lemma_q_sum_wf(terms);
    lemma_q_le_trans(terms[i], q_sum(terms), q_tol_sq());
    let diff = q_sub(q_dot(a[i], x), b[i]);
    lemma_q_dot_wf(a[i], x);
    lemma_q_add_wf(q_dot(a[i], x), q_neg(b[i]));
    assert(q_sq(q_tol()) == q_tol_sq());
    lemma_q_sq_bound(diff, q_tol());
}

} // verus!
