//! The constraint solver, at the matrix level.
//!
//! `solve_system` takes the linear system `A * x == b` that the editor
//! assembles and returns multipliers. A candidate is computed by exact
//! Gauss-Jordan elimination (free variables zero) and then validated: an
//! all-zero candidate is degenerate, a residual above the tolerance is
//! infeasible, a negative component is rejected. The validation, not the
//! elimination, carries the solver's guarantees.

use crate::error::Error;
use crate::linalg::{
    all_nonneg, all_wf, all_zero, lemma_q_dot_wf, lemma_q_sum_wf, q_dot, q_sum, q_tol_sq,
    residual_ok, residual_terms,
};
use crate::rational::{
    lemma_q_acc_step, lemma_q_add_cong, lemma_q_add_wf, lemma_q_eq_trans, lemma_q_le_cong,
    lemma_q_mul_cong, lemma_q_mul_wf, lemma_q_neg_cong, q_add, q_eq, q_int, q_le, q_mul, q_neg,
    q_sq, q_sub, q_wf, Qv, Rat,
};
use vstd::prelude::*;

verus! {

broadcast use crate::rational::lemma_rat_wf;

/// All entries of a sequence of fraction views are well-formed.
pub proof fn lemma_rat_seq_wf(s: Seq<Rat>)
    ensures
        all_wf(s.map(|i: int, r: Rat| r@)),
{
    let m = s.map(|i: int, r: Rat| r@);
    assert forall|i: int| 0 <= i < m.len() implies q_wf(#[trigger] m[i]) by {
        assert(m[i] == s[i]@);
    }
}

/// The fraction views of a vector of rationals.
pub open spec fn vec_qv(v: Seq<Rat>) -> Seq<Qv> {
    v.map(|i: int, r: Rat| r@)
}

/// The fraction views of a matrix of rationals.
pub open spec fn mat_qv(m: Seq<Vec<Rat>>) -> Seq<Seq<Qv>> {
    m.map(|i: int, row: Vec<Rat>| vec_qv(row@))
}

/// Exact dot product of two equally long vectors.
fn dot(row: &Vec<Rat>, x: &Vec<Rat>) -> (r: Option<Rat>)
    requires
        row@.len() == x@.len(),
    ensures
        match r {
            Some(d) => q_eq(d@, q_dot(vec_qv(row@), vec_qv(x@))),
            None => true,
        },
{
    let ghost rv = vec_qv(row@);
    let ghost xv = vec_qv(x@);
    let mut acc = Rat::zero();
    let mut i: usize = 0;
    proof {
        assert(rv.take(0) =~= Seq::<Qv>::empty());
        assert(xv.take(0) =~= Seq::<Qv>::empty());
    }
    while i < row.len()
        invariant
            i <= row.len(),
            row@.len() == x@.len(),
            rv == vec_qv(row@),
            xv == vec_qv(x@),
            q_eq(acc@, q_dot(rv.take(i as int), xv.take(i as int))),
        decreases row.len() - i,
    {
        let t = match row[i].mul(x[i]) {
            None => {
                return None;
            },
            Some(v) => v,
        };
        let next = match acc.add(t) {
            None => {
                return None;
            },
            Some(v) => v,
        };
        proof {
            let pr = rv.take(i as int);
            let px = xv.take(i as int);
            lemma_rat_seq_wf(row@.take(i as int));
            assert(row@.take(i as int).map(|k: int, r: Rat| r@) =~= pr);
            lemma_rat_seq_wf(x@.take(i as int));
            assert(x@.take(i as int).map(|k: int, r: Rat| r@) =~= px);
            lemma_q_dot_wf(pr, px);
            // The new term equals the spec product of the current entries.
            assert(rv[i as int] == row@[i as int]@);
            assert(xv[i as int] == x@[i as int]@);
            lemma_q_acc_step(next@, acc@, q_dot(pr, px), t@);
            // Extending both prefixes extends the dot product by that term.
            assert(rv.take(i + 1).drop_last() =~= pr);
            assert(xv.take(i + 1).drop_last() =~= px);
            assert(rv.take(i + 1).last() == rv[i as int]);
            assert(xv.take(i + 1).last() == xv[i as int]);
            assert(q_dot(rv.take(i + 1), xv.take(i + 1)) == q_add(
                q_dot(pr, px),
                q_mul(rv[i as int], xv[i as int]),
            ));
            // The accumulator matches once the term is rewritten.
            lemma_q_mul_cong(rv[i as int], rv[i as int], xv[i as int], xv[i as int]);
            lemma_q_mul_wf(rv[i as int], xv[i as int]);
            lemma_q_add_cong(q_dot(pr, px), q_dot(pr, px), t@, q_mul(rv[i as int], xv[i as int]));
            lemma_q_add_wf(q_dot(pr, px), t@);
            lemma_q_eq_trans(
                next@,
                q_add(q_dot(pr, px), t@),
                q_add(q_dot(pr, px), q_mul(rv[i as int], xv[i as int])),
            );
        }
        acc = next;
        i = i + 1;
    }
    proof {
        assert(rv.take(row@.len() as int) =~= rv);
        assert(xv.take(x@.len() as int) =~= xv);
    }
    Some(acc)
}

/// Exact sum of squared row residuals of `A * x == b`.
fn residual_sumsq(a: &Vec<Vec<Rat>>, b: &Vec<Rat>, x: &Vec<Rat>) -> (r: Option<Rat>)
    requires
        a@.len() == b@.len(),
        forall|i: int| 0 <= i < a@.len() ==> (#[trigger] a@[i])@.len() == x@.len(),
    ensures
        match r {
            Some(s) => q_eq(s@, q_sum(residual_terms(mat_qv(a@), vec_qv(b@), vec_qv(x@)))),
            None => true,
        },
{
    let ghost av = mat_qv(a@);
    let ghost bv = vec_qv(b@);
    let ghost xv = vec_qv(x@);
    let ghost terms = residual_terms(av, bv, xv);
    let mut acc = Rat::zero();
    let mut i: usize = 0;
    proof {
        assert(terms.take(0) =~= Seq::<Qv>::empty());
    }
    while i < a.len()
        invariant
            i <= a.len(),
            a@.len() == b@.len(),
            forall|k: int| 0 <= k < a@.len() ==> (#[trigger] a@[k])@.len() == x@.len(),
            av == mat_qv(a@),
            bv == vec_qv(b@),
            xv == vec_qv(x@),
            terms == residual_terms(av, bv, xv),
            q_eq(acc@, q_sum(terms.take(i as int))),
        decreases a.len() - i,
    {
        let d = match dot(&a[i], x) {
            None => {
                return None;
            },
            Some(v) => v,
        };
        let diff = match d.sub(b[i]) {
            None => {
                return None;
            },
            Some(v) => v,
        };
        let sq = match diff.mul(diff) {
            None => {
                return None;
            },
            Some(v) => v,
        };
        let next = match acc.add(sq) {
            None => {
                return None;
            },
            Some(v) => v,
        };
        proof {
            let ii = i as int;
            assert(av[ii] == vec_qv(a@[ii]@));
            assert(bv[ii] == b@[ii]@);
            let specdot = q_dot(av[ii], xv);
            lemma_rat_seq_wf(a@[ii]@);
            lemma_rat_seq_wf(x@);
            lemma_q_dot_wf(av[ii], xv);
            // diff equals the spec row residual.
            assert(q_wf(b@[ii]@));
            assert(q_wf(q_neg(b@[ii]@)));
            assert(q_wf(q_neg(bv[ii])));
            lemma_q_neg_cong(bv[ii], bv[ii]);
            lemma_q_add_cong(d@, specdot, q_neg(b@[ii]@), q_neg(bv[ii]));
            lemma_q_add_wf(d@, q_neg(b@[ii]@));
            assert(q_wf(q_neg(bv[ii])));
            lemma_q_eq_trans(diff@, q_sub(d@, b@[ii]@), q_sub(specdot, bv[ii]));
            // sq equals the squared residual.
            let specdiff = q_sub(specdot, bv[ii]);
            lemma_q_add_wf(specdot, q_neg(bv[ii]));
            lemma_q_mul_cong(diff@, specdiff, diff@, specdiff);
            lemma_q_mul_wf(diff@, diff@);
            lemma_q_mul_wf(specdiff, specdiff);
            lemma_q_eq_trans(sq@, q_mul(diff@, diff@), q_sq(specdiff));
            assert(terms[ii] == q_sq(specdiff));
            // Fold the term into the running sum.
            let prefix = terms.take(ii);
            assert forall|k: int| 0 <= k < prefix.len() implies q_wf(#[trigger] prefix[k]) by {
                assert(prefix[k] == terms[k]);
                assert(av[k] == vec_qv(a@[k]@));
                lemma_rat_seq_wf(a@[k]@);
                lemma_q_dot_wf(av[k], xv);
                assert(q_wf(q_neg(bv[k]))) by {
                    assert(bv[k] == b@[k]@);
                    assert(q_wf(b@[k]@));
                }
                lemma_q_add_wf(q_dot(av[k], xv), q_neg(bv[k]));
                lemma_q_mul_wf(q_sub(q_dot(av[k], xv), bv[k]), q_sub(q_dot(av[k], xv), bv[k]));
            }
            lemma_q_sum_wf(prefix);
            lemma_q_acc_step(next@, acc@, q_sum(prefix), sq@);
            assert(terms.take(ii + 1).drop_last() =~= prefix);
            assert(terms.take(ii + 1).last() == terms[ii]);
            lemma_q_add_cong(q_sum(prefix), q_sum(prefix), sq@, terms[ii]);
            lemma_q_add_wf(q_sum(prefix), sq@);
            lemma_q_eq_trans(
                next@,
                q_add(q_sum(prefix), sq@),
                q_add(q_sum(prefix), terms[ii]),
            );
            assert(q_sum(terms.take(ii + 1)) == q_add(q_sum(prefix), terms[ii]));
        }
        acc = next;
        i = i + 1;
    }
    proof {
        assert(terms.take(a@.len() as int) =~= terms);
    }
    Some(acc)
}

/// Post-solve validation in the fixed order: all-zero, residual,
/// non-negativity. Exact except where the arithmetic leaves the
/// representable range, which is reported as a numerical failure.
pub fn validate_candidate(a: &Vec<Vec<Rat>>, b: &Vec<Rat>, x: &Vec<Rat>) -> (r: Result<
    (),
    Error,
>)
    requires
        a@.len() == b@.len(),
        forall|i: int| 0 <= i < a@.len() ==> (#[trigger] a@[i])@.len() == x@.len(),
    ensures
        r matches Ok(()) ==> !all_zero(vec_qv(x@)) && residual_ok(
            mat_qv(a@),
            vec_qv(b@),
            vec_qv(x@),
        ) && all_nonneg(vec_qv(x@)),
        (r == Err::<(), Error>(Error::SolveDegenerate)) <==> all_zero(vec_qv(x@)),
        r == Err::<(), Error>(Error::SolveInfeasible) ==> !all_zero(vec_qv(x@)) && !residual_ok(
            mat_qv(a@),
            vec_qv(b@),
            vec_qv(x@),
        ),
        r == Err::<(), Error>(Error::SolveNegative) ==> !all_zero(vec_qv(x@)) && residual_ok(
            mat_qv(a@),
            vec_qv(b@),
            vec_qv(x@),
        ) && !all_nonneg(vec_qv(x@)),
        r is Err ==> (r == Err::<(), Error>(Error::SolveDegenerate) || r == Err::<(), Error>(
            Error::SolveInfeasible,
        ) || r == Err::<(), Error>(Error::SolveNegative) || r == Err::<(), Error>(
            Error::NumericalFailure,
        )),
        // Except for range exhaustion the outcome is decided exactly: the
        // checks pass if and only if the candidate is acceptable.
        r != Err::<(), Error>(Error::NumericalFailure) ==> ((r is Ok) == (!all_zero(vec_qv(x@))
            && residual_ok(mat_qv(a@), vec_qv(b@), vec_qv(x@)) && all_nonneg(vec_qv(x@)))),
{
    let ghost xv = vec_qv(x@);
    // All-zero check.
    let mut zero_so_far = true;
    let mut i: usize = 0;
    while i < x.len()
        invariant
            i <= x.len(),
            xv == vec_qv(x@),
            zero_so_far <==> (forall|k: int| 0 <= k < i ==> q_eq(#[trigger] xv[k], q_int(0))),
        decreases x.len() - i,
    {
        let z = x[i].is_zero();
        proof {
            assert(xv[i as int] == x@[i as int]@);
        }
        if !z {
            zero_so_far = false;
        }
        i = i + 1;
    }
    if zero_so_far {
        return Err(Error::SolveDegenerate);
    }
    // Residual check.
    let ssq = match residual_sumsq(a, b, x) {
        None => {
            return Err(Error::NumericalFailure);
        },
        Some(v) => v,
    };
    let tolsq = match Rat::new(1, 10000) {
        None => {
            proof {
                assert(false);
            }
            return Err(Error::NumericalFailure);
        },
        Some(v) => v,
    };
    let fits = ssq.le(tolsq);
    proof {
        let av = mat_qv(a@);
        let bv = vec_qv(b@);
        let terms = residual_terms(av, bv, xv);
        assert forall|i: int| 0 <= i < av.len() implies (#[trigger] av[i]).len() == xv.len()
            && all_wf(av[i]) by {
            assert(av[i] == vec_qv(a@[i]@));
            lemma_rat_seq_wf(a@[i]@);
        }
        lemma_rat_seq_wf(b@);
        lemma_rat_seq_wf(x@);
        crate::linalg::lemma_residual_terms_wf(av, bv, xv);
        lemma_q_sum_wf(terms);
        lemma_q_le_cong(ssq@, q_sum(terms), tolsq@, q_tol_sq());
    }
    if !fits {
        return Err(Error::SolveInfeasible);
    }
    // Non-negativity check.
    let mut neg_seen = false;
    let mut j: usize = 0;
    while j < x.len()
        invariant
            j <= x.len(),
            xv == vec_qv(x@),
            !neg_seen <==> (forall|k: int| 0 <= k < j ==> q_le(q_int(0), #[trigger] xv[k])),
        decreases x.len() - j,
    {
        let n = x[j].is_neg();
        proof {
            assert(xv[j as int] == x@[j as int]@);
        }
        if n {
            neg_seen = true;
        }
        j = j + 1;
    }
    if neg_seen {
        return Err(Error::SolveNegative);
    }
    Ok(())
}

/// Gauss-Jordan elimination over the exact rationals; free columns get zero.
/// Only the shape of the candidate is promised: the validation pass judges
/// its quality.
fn eliminate(a: &Vec<Vec<Rat>>, b: &Vec<Rat>, ncols: usize) -> (r: Option<Vec<Rat>>)
    requires
        a@.len() == b@.len(),
        forall|i: int| 0 <= i < a@.len() ==> (#[trigger] a@[i])@.len() == ncols,
        ncols < 1000000000,
    ensures
        match r {
            Some(x) => x@.len() == ncols,
            None => true,
        },
{
    let nrows = a.len();
    let mut rows: Vec<Vec<Rat>> = Vec::new();
    let mut i: usize = 0;
    while i < nrows
        invariant
            i <= nrows,
            nrows == a@.len() == b@.len(),
            ncols < 1000000000,
            forall|k: int| 0 <= k < a@.len() ==> (#[trigger] a@[k])@.len() == ncols,
            rows@.len() == i,
            forall|k: int| 0 <= k < i ==> (#[trigger] rows@[k])@.len() == ncols + 1,
        decreases nrows - i,
    {
        let mut row: Vec<Rat> = Vec::new();
        let mut k: usize = 0;
        while k < ncols
            invariant
                k <= ncols,
                i < a@.len(),
                (a@[i as int])@.len() == ncols,
                row@.len() == k,
            decreases ncols - k,
        {
            row.push(a[i][k]);
            k = k + 1;
        }
        row.push(b[i]);
        rows.push(row);
        i = i + 1;
    }
    let mut pivot_of_col: Vec<usize> = Vec::new();
    let mut c: usize = 0;
    while c < ncols
        invariant
            c <= ncols,
            pivot_of_col@.len() == c,
        decreases ncols - c,
    {
        pivot_of_col.push(nrows);
        c = c + 1;
    }
    let mut used: Vec<bool> = Vec::new();
    let mut u: usize = 0;
    while u < nrows
        invariant
            u <= nrows,
            used@.len() == u,
        decreases nrows - u,
    {
        used.push(false);
        u = u + 1;
    }
    let mut col: usize = 0;
    while col < ncols
        invariant
            col <= ncols,
            ncols < 1000000000,
            rows@.len() == nrows,
            used@.len() == nrows,
            pivot_of_col@.len() == ncols,
            forall|k: int| 0 <= k < nrows ==> (#[trigger] rows@[k])@.len() == ncols + 1,
        decreases ncols - col,
    {
        let mut p: usize = nrows;
        let mut r: usize = 0;
        while r < nrows
            invariant
                r <= nrows,
                p <= nrows,
                rows@.len() == nrows,
                used@.len() == nrows,
                forall|k: int| 0 <= k < nrows ==> (#[trigger] rows@[k])@.len() == ncols + 1,
                col < ncols,
            decreases nrows - r,
        {
            if p == nrows && !used[r] && !rows[r][col].is_zero() {
                p = r;
            }
            r = r + 1;
        }
        if p < nrows {
            used[p] = true;
            pivot_of_col[col] = p;
            let piv = rows[p][col];
            let mut newp: Vec<Rat> = Vec::new();
            let mut k: usize = 0;
            while k < ncols + 1
                invariant
                    k <= ncols + 1,
                    ncols < 1000000000,
                    p < nrows,
                    rows@.len() == nrows,
                    forall|q: int| 0 <= q < nrows ==> (#[trigger] rows@[q])@.len() == ncols + 1,
                    newp@.len() == k,
                decreases ncols + 1 - k,
            {
                let q = match rows[p][k].div(piv) {
                    None => {
                        return None;
                    },
                    Some(v) => v,
                };
                newp.push(q);
                k = k + 1;
            }
            rows[p] = newp;
            let mut j: usize = 0;
            while j < nrows
                invariant
                    j <= nrows,
                    ncols < 1000000000,
                    p < nrows,
                    col < ncols,
                    rows@.len() == nrows,
                    forall|q: int| 0 <= q < nrows ==> (#[trigger] rows@[q])@.len() == ncols + 1,
                decreases nrows - j,
            {
                if j != p {
                    if !rows[j][col].is_zero() {
                        let f = rows[j][col];
                        let mut newj: Vec<Rat> = Vec::new();
                        let mut k2: usize = 0;
                        while k2 < ncols + 1
                            invariant
                                k2 <= ncols + 1,
                                ncols < 1000000000,
                                p < nrows,
                                j < nrows,
                                rows@.len() == nrows,
                                forall|q: int|
                                    0 <= q < nrows ==> (#[trigger] rows@[q])@.len() == ncols + 1,
                                newj@.len() == k2,
                            decreases ncols + 1 - k2,
                        {
                            let prod = match f.mul(rows[p][k2]) {
                                None => {
                                    return None;
                                },
                                Some(v) => v,
                            };
                            let val = match rows[j][k2].sub(prod) {
                                None => {
                                    return None;
                                },
                                Some(v) => v,
                            };
                            newj.push(val);
                            k2 = k2 + 1;
                        }
                        rows[j] = newj;
                    }
                }
                j = j + 1;
            }
        }
        col = col + 1;
    }
    let mut x: Vec<Rat> = Vec::new();
    let mut c2: usize = 0;
    while c2 < ncols
        invariant
            c2 <= ncols,
            x@.len() == c2,
            rows@.len() == nrows,
            pivot_of_col@.len() == ncols,
            forall|k: int| 0 <= k < nrows ==> (#[trigger] rows@[k])@.len() == ncols + 1,
        decreases ncols - c2,
    {
        let p = pivot_of_col[c2];
        if p < nrows {
            x.push(rows[p][ncols]);
        } else {
            x.push(Rat::zero());
        }
        c2 = c2 + 1;
    }
    Some(x)
}

/// Solve `A * x == b` for the machine multipliers.
///
/// A system whose right-hand side is entirely zero has the all-zero vector
/// as its least-norm solution and is reported degenerate outright. An `Ok`
/// result is a nonzero, non-negative exact candidate whose residual is
/// within the tolerance. Every other failure except range exhaustion is
/// witnessed by the ghost result: the concrete candidate the elimination
/// produced, which fails the corresponding check.
pub fn solve_system(a: &Vec<Vec<Rat>>, b: &Vec<Rat>, ncols: usize) -> (r: (
    Result<Vec<Rat>, Error>,
    Ghost<Seq<Qv>>,
))
    requires
        a@.len() == b@.len(),
        forall|i: int| 0 <= i < a@.len() ==> (#[trigger] a@[i])@.len() == ncols,
        ncols < 1000000000,
    ensures
        match r.0 {
            Ok(x) => x@.len() == ncols && !all_zero(vec_qv(x@)) && residual_ok(
                mat_qv(a@),
                vec_qv(b@),
                vec_qv(x@),
            ) && all_nonneg(vec_qv(x@)),
            Err(e) => e == Error::SolveDegenerate || e == Error::SolveInfeasible || e
                == Error::SolveNegative || e == Error::NumericalFailure,
        },
        all_zero(vec_qv(b@)) ==> r.0 == Err::<Vec<Rat>, Error>(Error::SolveDegenerate),
        !all_zero(vec_qv(b@)) && r.0 == Err::<Vec<Rat>, Error>(Error::SolveDegenerate) ==> r.1@.len()
            == ncols && all_zero(r.1@),
        r.0 == Err::<Vec<Rat>, Error>(Error::SolveInfeasible) ==> r.1@.len() == ncols
            && !all_zero(r.1@) && !residual_ok(mat_qv(a@), vec_qv(b@), r.1@),
        r.0 == Err::<Vec<Rat>, Error>(Error::SolveNegative) ==> r.1@.len() == ncols && !all_zero(
            r.1@,
        ) && residual_ok(mat_qv(a@), vec_qv(b@), r.1@) && !all_nonneg(r.1@),
{
    let ghost bv = vec_qv(b@);
    let mut bz = true;
    let mut i: usize = 0;
    while i < b.len()
        invariant
            i <= b.len(),
            bv == vec_qv(b@),
            bz <==> (forall|k: int| 0 <= k < i ==> q_eq(#[trigger] bv[k], q_int(0))),
        decreases b.len() - i,
    {
        let z = b[i].is_zero();
        proof {
            assert(bv[i as int] == b@[i as int]@);
        }
        if !z {
            bz = false;
        }
        i = i + 1;
    }
    if bz {
        return (Err(Error::SolveDegenerate), Ghost(Seq::empty()));
    }
    let x = match eliminate(a, b, ncols) {
        None => {
            return (Err(Error::NumericalFailure), Ghost(Seq::empty()));
        },
        Some(v) => v,
    };
    match validate_candidate(a, b, &x) {
        Ok(()) => {
            let ghost cand = vec_qv(x@);
            (Ok(x), Ghost(cand))
        },
        Err(e) => (Err(e), Ghost(vec_qv(x@))),
    }
}

} // verus!
