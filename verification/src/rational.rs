//! Exact rational arithmetic.
//!
//! Every quantity the planner works with (speeds, amounts, machine counts,
//! percentage bonuses) is an exact fraction. `Qv` is the mathematical value: a
//! ghost pair of unbounded integers. `Rat` is the executable representation: a
//! reduced fraction with bounded numerator and positive bounded denominator,
//! so that products and cross-multiplied comparisons provably fit in `i128`.
//! Operations whose reduced result would leave the bounds return `None`; the
//! solver reports such an outcome as a numerical failure.

use vstd::prelude::*;
use vstd::arithmetic::div_mod::{
    lemma_add_mod_noop, lemma_fundamental_div_mod, lemma_mod_multiples_basic, lemma_mod_self_0,
};

verus! {

/// Mathematical fraction value: numerator `n` over denominator `d`.
/// Only used in specifications; `d > 0` (see `q_wf`) for all values the
/// executable code produces.
pub struct Qv {
    pub n: int,
    pub d: int,
}

pub open spec fn q_wf(a: Qv) -> bool {
    a.d > 0
}

pub open spec fn q_int(i: int) -> Qv {
    Qv { n: i, d: 1 }
}

/// Value equality of fractions, by cross-multiplication.
pub open spec fn q_eq(a: Qv, b: Qv) -> bool {
    a.n * b.d == b.n * a.d
}

pub open spec fn q_add(a: Qv, b: Qv) -> Qv {
    Qv { n: a.n * b.d + b.n * a.d, d: a.d * b.d }
}

pub open spec fn q_neg(a: Qv) -> Qv {
    Qv { n: -a.n, d: a.d }
}

pub open spec fn q_sub(a: Qv, b: Qv) -> Qv {
    q_add(a, q_neg(b))
}

pub open spec fn q_mul(a: Qv, b: Qv) -> Qv {
    Qv { n: a.n * b.n, d: a.d * b.d }
}

/// Reciprocal, with the sign moved into the numerator.
pub open spec fn q_inv(a: Qv) -> Qv {
    if a.n >= 0 {
        Qv { n: a.d, d: a.n }
    } else {
        Qv { n: -a.d, d: -a.n }
    }
}

pub open spec fn q_div(a: Qv, b: Qv) -> Qv {
    q_mul(a, q_inv(b))
}

/// `a <= b`, by cross-multiplication; meaningful when both sides are `q_wf`.
pub open spec fn q_le(a: Qv, b: Qv) -> bool {
    a.n * b.d <= b.n * a.d
}

pub open spec fn q_lt(a: Qv, b: Qv) -> bool {
    a.n * b.d < b.n * a.d
}

pub open spec fn q_sq(a: Qv) -> Qv {
    q_mul(a, a)
}

// ---------------------------------------------------------------------------
// Laws of the fraction algebra.
// ---------------------------------------------------------------------------

pub proof fn lemma_q_eq_trans(a: Qv, b: Qv, c: Qv) by (nonlinear_arith)
    requires
        b.d != 0,
        q_eq(a, b),
        q_eq(b, c),
    ensures
        q_eq(a, c),
{
}

pub proof fn lemma_q_add_wf(a: Qv, b: Qv) by (nonlinear_arith)
    requires
        q_wf(a),
        q_wf(b),
    ensures
        q_wf(q_add(a, b)),
{
}

pub proof fn lemma_q_mul_wf(a: Qv, b: Qv) by (nonlinear_arith)
    requires
        q_wf(a),
        q_wf(b),
    ensures
        q_wf(q_mul(a, b)),
{
}

/// Regrouping of a product of four factors.
pub proof fn lemma_mul4_pair(p: int, q: int, r: int, s: int) by (nonlinear_arith)
    ensures
        (p * q) * (r * s) == (p * r) * (q * s),
{
}

/// Cross regrouping of a product of four factors.
pub proof fn lemma_mul4_swap(p: int, q: int, r: int, s: int) by (nonlinear_arith)
    ensures
        (p * q) * (r * s) == (p * s) * (q * r),
{
}

pub proof fn lemma_q_add_cong(a: Qv, a2: Qv, b: Qv, b2: Qv)
    requires
        q_wf(a),
        q_wf(a2),
        q_wf(b),
        q_wf(b2),
        q_eq(a, a2),
        q_eq(b, b2),
    ensures
        q_eq(q_add(a, b), q_add(a2, b2)),
{
    vstd::arithmetic::mul::lemma_mul_is_distributive_add_other_way(
        a2.d * b2.d,
        a.n * b.d,
        b.n * a.d,
    );
    lemma_mul4_pair(a.n, b.d, a2.d, b2.d);
    lemma_mul4_swap(b.n, a.d, a2.d, b2.d);
    vstd::arithmetic::mul::lemma_mul_is_distributive_add_other_way(
        a.d * b.d,
        a2.n * b2.d,
        b2.n * a2.d,
    );
    lemma_mul4_pair(a2.n, b2.d, a.d, b.d);
    lemma_mul4_swap(b2.n, a2.d, a.d, b.d);
    assert(b2.d * b.d == b.d * b2.d);
    assert(a2.d * a.d == a.d * a2.d);
}

pub proof fn lemma_q_mul_cong(a: Qv, a2: Qv, b: Qv, b2: Qv)
    requires
        q_wf(a),
        q_wf(a2),
        q_wf(b),
        q_wf(b2),
        q_eq(a, a2),
        q_eq(b, b2),
    ensures
        q_eq(q_mul(a, b), q_mul(a2, b2)),
{
    lemma_mul4_pair(a.n, b.n, a2.d, b2.d);
    assert((a.n * a2.d) * (b.n * b2.d) == (a2.n * a.d) * (b2.n * b.d));
    lemma_mul4_pair(a2.n, a.d, b2.n, b.d);
}

pub proof fn lemma_q_neg_cong(a: Qv, a2: Qv) by (nonlinear_arith)
    requires
        q_eq(a, a2),
    ensures
        q_eq(q_neg(a), q_neg(a2)),
{
}

/// One direction of `lemma_q_le_cong`.
pub proof fn lemma_q_le_mono(a: Qv, a2: Qv, b: Qv, b2: Qv)
    requires
        q_wf(a),
        q_wf(a2),
        q_wf(b),
        q_wf(b2),
        q_eq(a, a2),
        q_eq(b, b2),
        q_le(a, b),
    ensures
        q_le(a2, b2),
{
    lemma_mul_pos(a2.d, b2.d);
    lemma_mul_pos(a.d, b.d);
    vstd::arithmetic::mul::lemma_mul_inequality(a.n * b.d, b.n * a.d, a2.d * b2.d);
    // Left side: (a.n*b.d)*(a2.d*b2.d) equals (a2.n*b2.d)*(a.d*b.d).
    lemma_mul4_pair(a.n, b.d, a2.d, b2.d);
    assert((a.n * a2.d) * (b.d * b2.d) == (a2.n * a.d) * (b.d * b2.d));
    lemma_mul4_swap(a2.n, a.d, b.d, b2.d);
    // Right side: (b.n*a.d)*(a2.d*b2.d) equals (b2.n*a2.d)*(a.d*b.d).
    lemma_mul4_swap(b.n, a.d, a2.d, b2.d);
    assert((b.n * b2.d) * (a.d * a2.d) == (b2.n * b.d) * (a.d * a2.d));
    lemma_mul4_swap(b2.n, b.d, a.d, a2.d);
    assert(b.d * a.d == a.d * b.d);
    assert((a2.n * b2.d) * (a.d * b.d) <= (b2.n * a2.d) * (a.d * b.d));
    vstd::arithmetic::mul::lemma_mul_inequality_converse(a2.n * b2.d, b2.n * a2.d, a.d * b.d);
}

pub proof fn lemma_q_le_cong(a: Qv, a2: Qv, b: Qv, b2: Qv)
    requires
        q_wf(a),
        q_wf(a2),
        q_wf(b),
        q_wf(b2),
        q_eq(a, a2),
        q_eq(b, b2),
    ensures
        q_le(a, b) == q_le(a2, b2),
{
    if q_le(a, b) {
        lemma_q_le_mono(a, a2, b, b2);
    }
    if q_le(a2, b2) {
        lemma_q_le_mono(a2, a, b2, b);
    }
}

/// A square is never negative.
pub proof fn lemma_q_sq_nonneg(a: Qv) by (nonlinear_arith)
    requires
        q_wf(a),
    ensures
        q_le(q_int(0), q_sq(a)),
        q_wf(q_sq(a)),
{
}

/// Adding a non-negative term can only grow a fraction.
pub proof fn lemma_q_add_nonneg_grows(a: Qv, b: Qv) by (nonlinear_arith)
    requires
        q_wf(a),
        q_wf(b),
        q_le(q_int(0), b),
    ensures
        q_le(a, q_add(a, b)),
{
}

/// Adding a non-negative term on the left can only grow a fraction.
pub proof fn lemma_q_add_nonneg_grows_left(b: Qv, a: Qv) by (nonlinear_arith)
    requires
        q_wf(a),
        q_wf(b),
        q_le(q_int(0), a),
    ensures
        q_le(b, q_add(a, b)),
{
}

pub proof fn lemma_q_le_trans(a: Qv, b: Qv, c: Qv) by (nonlinear_arith)
    requires
        q_wf(a),
        q_wf(b),
        q_wf(c),
        q_le(a, b),
        q_le(b, c),
    ensures
        q_le(a, c),
{
}

/// `q_add` with zero keeps the value.
pub proof fn lemma_q_add_zero(a: Qv)
    ensures
        q_eq(q_add(a, q_int(0)), a),
{
}

/// A fraction equals zero exactly when its numerator is zero.
pub proof fn lemma_q_zero_iff(a: Qv)
    ensures
        q_eq(a, q_int(0)) <==> a.n == 0,
{
}

pub proof fn lemma_q_inv_wf(b: Qv)
    requires
        q_wf(b),
        b.n != 0,
    ensures
        q_wf(q_inv(b)),
{
}

/// Congruence of division in the dividend, for a fixed nonzero divisor.
pub proof fn lemma_q_div_cong_left(a: Qv, a2: Qv, b: Qv)
    requires
        q_wf(a),
        q_wf(a2),
        q_wf(b),
        b.n != 0,
        q_eq(a, a2),
    ensures
        q_eq(q_div(a, b), q_div(a2, b)),
{
    lemma_q_inv_wf(b);
    lemma_q_mul_cong(a, a2, q_inv(b), q_inv(b));
}

/// Multiplying by a zero-valued fraction yields zero.
pub proof fn lemma_q_mul_zero(a: Qv, b: Qv)
    requires
        q_eq(a, q_int(0)),
    ensures
        q_eq(q_mul(a, b), q_int(0)),
{
    lemma_q_zero_iff(a);
    assert(a.n * b.n == 0) by (nonlinear_arith)
        requires
            a.n == 0,
    ;
    lemma_q_zero_iff(q_mul(a, b));
}

/// Multiplying by a one-valued fraction keeps the value.
pub proof fn lemma_q_mul_one(a: Qv, b: Qv) by (nonlinear_arith)
    requires
        q_wf(a),
        q_wf(b),
        q_eq(a, q_int(1)),
    ensures
        q_eq(q_mul(a, b), b),
{
}

/// Adding a zero-valued fraction on the left keeps the value.
pub proof fn lemma_q_add_zero_left(z: Qv, v: Qv) by (nonlinear_arith)
    requires
        q_wf(z),
        q_wf(v),
        q_eq(z, q_int(0)),
    ensures
        q_eq(q_add(z, v), v),
{
}

/// Adding a zero-valued fraction on the right keeps the value.
pub proof fn lemma_q_add_zero_right(v: Qv, z: Qv) by (nonlinear_arith)
    requires
        q_wf(z),
        q_wf(v),
        q_eq(z, q_int(0)),
    ensures
        q_eq(q_add(v, z), v),
{
}

/// Subtracting a zero-valued fraction keeps the value.
pub proof fn lemma_q_sub_zero(d: Qv, bz: Qv)
    requires
        q_wf(d),
        q_wf(bz),
        q_eq(bz, q_int(0)),
    ensures
        q_eq(q_sub(d, bz), d),
{
    lemma_q_zero_iff(bz);
    lemma_q_zero_iff(q_neg(bz));
    lemma_q_add_zero_right(d, q_neg(bz));
}

/// Congruence of strict comparison.
pub proof fn lemma_q_lt_cong(a: Qv, a2: Qv, b: Qv, b2: Qv)
    requires
        q_wf(a),
        q_wf(a2),
        q_wf(b),
        q_wf(b2),
        q_eq(a, a2),
        q_eq(b, b2),
    ensures
        q_lt(a, b) == q_lt(a2, b2),
{
    lemma_q_le_cong(b, b2, a, a2);
}

/// Step of an accumulation loop: an accumulator equal in value to a partial
/// result, extended by one term, stays equal to the extended result.
pub proof fn lemma_q_acc_step(acc_new: Qv, acc_old: Qv, target_old: Qv, elem: Qv)
    requires
        q_wf(acc_old),
        q_wf(target_old),
        q_wf(elem),
        q_eq(acc_new, q_add(acc_old, elem)),
        q_eq(acc_old, target_old),
    ensures
        q_eq(acc_new, q_add(target_old, elem)),
{
    lemma_q_add_cong(acc_old, target_old, elem, elem);
    lemma_q_add_wf(acc_old, elem);
    lemma_q_eq_trans(acc_new, q_add(acc_old, elem), q_add(target_old, elem));
}

/// A square below `t * t` (for non-negative `t`) bounds the base between
/// `-t` and `t`.
pub proof fn lemma_q_sq_bound(a: Qv, t: Qv) by (nonlinear_arith)
    requires
        q_wf(a),
        q_wf(t),
        q_le(q_int(0), t),
        q_le(q_sq(a), q_sq(t)),
    ensures
        q_le(q_neg(t), a),
        q_le(a, t),
{
}

// ---------------------------------------------------------------------------
// Integer square root.
// ---------------------------------------------------------------------------

/// The floor of the square root of `v`.
pub open spec fn isqrt_spec(v: nat) -> nat
    decreases v,
{
    if v == 0 {
        0
    } else {
        let r = isqrt_spec((v - 1) as nat);
        if (r + 1) * (r + 1) <= v {
            r + 1
        } else {
            r
        }
    }
}

pub proof fn lemma_isqrt_spec_correct(v: nat)
    ensures
        isqrt_spec(v) * isqrt_spec(v) <= v,
        v < (isqrt_spec(v) + 1) * (isqrt_spec(v) + 1),
    decreases v,
{
    if v > 0 {
        lemma_isqrt_spec_correct((v - 1) as nat);
        let r = isqrt_spec((v - 1) as nat);
        assert(r * r <= v - 1);
        assert(v - 1 < (r + 1) * (r + 1));
        if (r + 1) * (r + 1) <= v {
            assert(isqrt_spec(v) == r + 1);
            assert(v < (r + 1 + 1) * (r + 1 + 1)) by (nonlinear_arith)
                requires
                    v <= (r + 1) * (r + 1),
                    r >= 0,
            ;
        } else {
            assert(isqrt_spec(v) == r);
        }
    } else {
        assert(isqrt_spec(v) == 0);
        assert(v < (isqrt_spec(v) + 1) * (isqrt_spec(v) + 1)) by (nonlinear_arith)
            requires
                v == 0,
                isqrt_spec(v) == 0,
        ;
    }
}

pub proof fn lemma_isqrt_unique(v: nat, k: nat)
    requires
        k * k <= v,
        v < (k + 1) * (k + 1),
    ensures
        k == isqrt_spec(v),
{
    lemma_isqrt_spec_correct(v);
    let r = isqrt_spec(v);
    if k < r {
        assert((k + 1) * (k + 1) <= r * r) by (nonlinear_arith)
            requires
                k + 1 <= r,
                k >= 0,
        ;
    }
    if r < k {
        assert((r + 1) * (r + 1) <= k * k) by (nonlinear_arith)
            requires
                r + 1 <= k,
                r >= 0,
        ;
    }
}

/// Binary-search integer square root.
pub fn isqrt_u64(v: u64) -> (r: u64)
    ensures
        r as nat == isqrt_spec(v as nat),
        (r as nat) * (r as nat) <= v as nat,
        (v as nat) < ((r as nat) + 1) * ((r as nat) + 1),
{
    let mut lo: u64 = 0;
    let mut hi: u64 = 0x1_0000_0000;
    proof {
        assert((hi as int) * (hi as int) > v as int) by (nonlinear_arith)
            requires
                (hi as int) == 4294967296,
                (v as int) < 4294967296 * 4294967296,
        ;
    }
    while lo + 1 < hi
        invariant
            lo < hi,
            hi <= 0x1_0000_0000,
            (lo as nat) * (lo as nat) <= v as nat,
            (v as nat) < (hi as nat) * (hi as nat),
        decreases hi - lo,
    {
        let mid = lo + (hi - lo) / 2;
        proof {
            assert((mid as int) * (mid as int) < 4294967296 * 4294967296) by (nonlinear_arith)
                requires
                    (mid as int) < 4294967296,
                    (mid as int) >= 0,
            ;
        }
        if mid * mid <= v {
            lo = mid;
        } else {
            hi = mid;
        }
    }
    proof {
        lemma_isqrt_unique(v as nat, lo as nat);
    }
    lo
}

// ---------------------------------------------------------------------------
// Executable reduced fractions.
// ---------------------------------------------------------------------------

/// Magnitude bound on the numerator and denominator of a `Rat`; chosen so
/// that any product of two bounded values, and any sum of two such products,
/// fits in `i128`.
pub const RAT_BOUND: i64 = 0x4000_0000_0000_0000;

/// Both components of the fraction are within `b`: the condition under
/// which the arithmetic operations owe a result, since the exact (reduced)
/// outcome of one operation on such inputs stays representable.
pub open spec fn q_in_range(q: Qv, b: int) -> bool {
    -b <= q.n <= b && 0 < q.d <= b
}

/// The in-range threshold for one arithmetic step, `2^30`: products of two
/// such components stay within `RAT_BOUND` even before reduction.
pub const RAT_OP_RANGE: i64 = 0x4000_0000;

proof fn lemma_mul_bound(x: int, y: int, b: int) by (nonlinear_arith)
    requires
        -b <= x <= b,
        -b <= y <= b,
        0 <= b,
    ensures
        -(b * b) <= x * y <= b * b,
{
}

proof fn lemma_mul_pos(x: int, y: int) by (nonlinear_arith)
    requires
        0 < x,
        0 < y,
    ensures
        0 < x * y,
{
}

/// If `dv` divides `y` and the remainder of `x` by `y`, it divides `x`.
proof fn lemma_divides_step(dv: int, x: int, y: int)
    requires
        1 <= dv,
        0 < y,
        0 <= x,
        y % dv == 0,
        (x % y) % dv == 0,
    ensures
        x % dv == 0,
{
    lemma_fundamental_div_mod(x, y);
    lemma_fundamental_div_mod(y, dv);
    let q = x / y;
    let k = y / dv;
    assert(y * q == (k * q) * dv) by (nonlinear_arith)
        requires
            y == dv * k,
    ;
    lemma_mod_multiples_basic(k * q, dv);
    lemma_add_mod_noop(y * q, x % y, dv);
    lemma_mod_multiples_basic(0, dv);
}

/// Exact division: when `dv` divides `x`, the quotient multiplies back and
/// is no larger than `x`.
proof fn lemma_exact_div(x: int, dv: int)
    requires
        1 <= dv,
        0 <= x,
        x % dv == 0,
    ensures
        x == dv * (x / dv),
        0 <= x / dv <= x,
{
    lemma_fundamental_div_mod(x, dv);
    let q = x / dv;
    assert(0 <= q <= x) by (nonlinear_arith)
        requires
            x == dv * q,
            1 <= dv,
            0 <= x,
    ;
}

/// Greatest-common-divisor style reduction factor: a positive common divisor
/// of `a` and `b` found by Euclid's algorithm.
fn gcd_i128(a: i128, b: i128) -> (g: i128)
    requires
        0 <= a,
        0 < b,
    ensures
        1 <= g <= b,
        (a as int) % (g as int) == 0,
        (b as int) % (g as int) == 0,
{
    let mut x: i128 = a;
    let mut y: i128 = b;
    while y != 0
        invariant
            0 <= x,
            0 <= y,
            x > 0 || y > 0,
            forall|dv: int|
                1 <= dv && #[trigger] ((x as int) % dv) == 0 && ((y as int) % dv) == 0 ==> ((
                a as int) % dv) == 0 && ((b as int) % dv) == 0,
        decreases y,
    {
        let t: i128 = x % y;
        proof {
            assert forall|dv: int|
                1 <= dv && #[trigger] ((y as int) % dv) == 0 && ((t as int) % dv)
                    == 0 implies ((a as int) % dv) == 0 && ((b as int) % dv) == 0 by {
                lemma_divides_step(dv, x as int, y as int);
            }
        }
        x = y;
        y = t;
    }
    proof {
        lemma_mod_self_0(x as int);
        lemma_mod_multiples_basic(0, x as int);
        assert((x as int) % (x as int) == 0 && (y as int) % (x as int) == 0);
        if x > b {
            lemma_fundamental_div_mod(b as int, x as int);
            assert(b as int == (x as int) * ((b as int) / (x as int)) + (b as int) % (x as int));
            assert((b as int) / (x as int) == 0) by {
                vstd::arithmetic::div_mod::lemma_basic_div(b as int, x as int);
            }
            assert(false);
        }
    }
    x
}

/// Executable rational number: a fraction reduced so that numerator and
/// denominator stay within `RAT_BOUND`, with a positive denominator.
#[derive(Clone, Copy, Debug)]
pub struct Rat {
    num: i64,
    den: i64,
}

impl View for Rat {
    type V = Qv;

    /// The denominator is positive for every value the constructors build;
    /// the guard below only keeps the view well-formed by definition.
    closed spec fn view(&self) -> Qv {
        Qv { n: self.num as int, d: if self.den <= 0 { 1 } else { self.den as int } }
    }
}

impl Rat {
    #[verifier::type_invariant]
    spec fn bounded(self) -> bool {
        0 < self.den <= RAT_BOUND && -RAT_BOUND <= self.num <= RAT_BOUND
    }
}

/// The view of every `Rat` is a well-formed fraction.
pub broadcast proof fn lemma_rat_wf(r: Rat)
    ensures
        #[trigger] q_wf(r@),
{
}

/// Reduce `n / d` and represent it if it fits. The inputs cover every value
/// an arithmetic method can produce: a sum of at most two products of
/// bounded components.
fn mk(n: i128, d: i128) -> (r: Option<Rat>)
    requires
        d != 0,
        -2 * ((RAT_BOUND as int) * (RAT_BOUND as int)) <= n <= 2 * ((RAT_BOUND as int) * (
        RAT_BOUND as int)),
        -2 * ((RAT_BOUND as int) * (RAT_BOUND as int)) <= d <= 2 * ((RAT_BOUND as int) * (
        RAT_BOUND as int)),
    ensures
        match r {
            Some(x) => q_eq(x@, Qv { n: n as int, d: d as int }),
            None => true,
        },
        (-(RAT_BOUND as int) <= n <= RAT_BOUND as int && -(RAT_BOUND as int) <= d
            <= RAT_BOUND as int) ==> r is Some,
{
    let (n1, d1): (i128, i128) = if d < 0 {
        (-n, -d)
    } else {
        (n, d)
    };
    let na: i128 = if n1 < 0 {
        -n1
    } else {
        n1
    };
    let g = gcd_i128(na, d1);
    let nq = na / g;
    let dq = d1 / g;
    proof {
        lemma_exact_div(na as int, g as int);
        lemma_exact_div(d1 as int, g as int);
        assert(1 <= dq) by (nonlinear_arith)
            requires
                d1 as int == (g as int) * (dq as int),
                1 <= g,
                1 <= d1,
                0 <= dq,
        ;
        // The reduced pair stands for the same value as (n1, d1).
        if n1 >= 0 {
            assert((nq as int) * (d1 as int) == (n1 as int) * (dq as int)) by (nonlinear_arith)
                requires
                    d1 as int == (g as int) * (dq as int),
                    n1 as int == (g as int) * (nq as int),
            ;
        } else {
            assert((-(nq as int)) * (d1 as int) == (n1 as int) * (dq as int)) by (nonlinear_arith)
                requires
                    d1 as int == (g as int) * (dq as int),
                    n1 as int == -((g as int) * (nq as int)),
            ;
        }
        // (n1, d1) stands for the same value as (n, d).
        assert((n1 as int) * (d as int) == (n as int) * (d1 as int)) by (nonlinear_arith)
            requires
                (n1 as int == n as int && d1 as int == d as int) || (n1 as int == -(n as int)
                    && d1 as int == -(d as int)),
        ;
    }
    let num_red: i128 = if n1 < 0 {
        -nq
    } else {
        nq
    };
    if -(RAT_BOUND as i128) <= num_red && num_red <= RAT_BOUND as i128 && dq <= RAT_BOUND as i128 {
        let result = Rat { num: num_red as i64, den: dq as i64 };
        proof {
            lemma_q_eq_trans(
                result@,
                Qv { n: n1 as int, d: d1 as int },
                Qv { n: n as int, d: d as int },
            );
        }
        Some(result)
    } else {
        None
    }
}

impl Rat {
    pub fn zero() -> (r: Rat)
        ensures
            r@ == q_int(0),
    {
        Rat { num: 0, den: 1 }
    }

    pub fn one() -> (r: Rat)
        ensures
            r@ == q_int(1),
    {
        Rat { num: 1, den: 1 }
    }

    pub fn from_int(i: i64) -> (r: Option<Rat>)
        ensures
            match r {
                Some(x) => x@ == q_int(i as int),
                None => true,
            },
            (-RAT_BOUND <= i && i <= RAT_BOUND) ==> r is Some,
    {
        if -RAT_BOUND <= i && i <= RAT_BOUND {
            Some(Rat { num: i, den: 1 })
        } else {
            None
        }
    }

    /// The integer `i` as a fraction, for values known to be in range.
    pub fn from_small(i: i64) -> (r: Rat)
        requires
            -RAT_BOUND <= i <= RAT_BOUND,
        ensures
            r@ == q_int(i as int),
    {
        Rat { num: i, den: 1 }
    }

    /// The fraction `num / den`, reduced; `None` when `den` is zero or the
    /// reduced value leaves the representable range.
    pub fn new(num: i64, den: i64) -> (r: Option<Rat>)
        ensures
            match r {
                Some(x) => den != 0 && q_eq(x@, Qv { n: num as int, d: den as int }),
                None => true,
            },
            (-RAT_BOUND <= num && num <= RAT_BOUND && 0 < den && den <= RAT_BOUND) ==> r is Some,
    {
        if den == 0 {
            None
        } else {
            mk(num as i128, den as i128)
        }
    }

    pub fn add(self, other: Rat) -> (r: Option<Rat>)
        ensures
            match r {
                Some(x) => q_eq(x@, q_add(self@, other@)),
                None => true,
            },
            q_in_range(self@, RAT_OP_RANGE as int) && q_in_range(other@, RAT_OP_RANGE as int)
                ==> r is Some,
    {
        proof {
            use_type_invariant(self);
            use_type_invariant(other);
            lemma_mul_bound(self.num as int, other.den as int, RAT_BOUND as int);
            lemma_mul_bound(other.num as int, self.den as int, RAT_BOUND as int);
            lemma_mul_bound(self.den as int, other.den as int, RAT_BOUND as int);
            lemma_mul_pos(self.den as int, other.den as int);
            if q_in_range(self@, RAT_OP_RANGE as int) && q_in_range(other@, RAT_OP_RANGE as int) {
                lemma_mul_bound(self.num as int, other.den as int, RAT_OP_RANGE as int);
                lemma_mul_bound(other.num as int, self.den as int, RAT_OP_RANGE as int);
                lemma_mul_bound(self.den as int, other.den as int, RAT_OP_RANGE as int);
            }
        }
        let n = (self.num as i128) * (other.den as i128) + (other.num as i128) * (self.den
            as i128);
        let d = (self.den as i128) * (other.den as i128);
        mk(n, d)
    }

    pub fn sub(self, other: Rat) -> (r: Option<Rat>)
        ensures
            match r {
                Some(x) => q_eq(x@, q_sub(self@, other@)),
                None => true,
            },
            q_in_range(self@, RAT_OP_RANGE as int) && q_in_range(other@, RAT_OP_RANGE as int)
                ==> r is Some,
    {
        proof {
            use_type_invariant(self);
            use_type_invariant(other);
            lemma_mul_bound(self.num as int, other.den as int, RAT_BOUND as int);
            lemma_mul_bound(other.num as int, self.den as int, RAT_BOUND as int);
            lemma_mul_bound(self.den as int, other.den as int, RAT_BOUND as int);
            lemma_mul_pos(self.den as int, other.den as int);
            vstd::arithmetic::mul::lemma_mul_unary_negation(other@.n, self@.d);
            if q_in_range(self@, RAT_OP_RANGE as int) && q_in_range(other@, RAT_OP_RANGE as int) {
                lemma_mul_bound(self.num as int, other.den as int, RAT_OP_RANGE as int);
                lemma_mul_bound(other.num as int, self.den as int, RAT_OP_RANGE as int);
                lemma_mul_bound(self.den as int, other.den as int, RAT_OP_RANGE as int);
            }
        }
        let n = (self.num as i128) * (other.den as i128) - (other.num as i128) * (self.den
            as i128);
        let d = (self.den as i128) * (other.den as i128);
        mk(n, d)
    }

    pub fn mul(self, other: Rat) -> (r: Option<Rat>)
        ensures
            match r {
                Some(x) => q_eq(x@, q_mul(self@, other@)),
                None => true,
            },
            q_in_range(self@, RAT_OP_RANGE as int) && q_in_range(other@, RAT_OP_RANGE as int)
                ==> r is Some,
    {
        proof {
            use_type_invariant(self);
            use_type_invariant(other);
            lemma_mul_bound(self.num as int, other.num as int, RAT_BOUND as int);
            lemma_mul_bound(self.den as int, other.den as int, RAT_BOUND as int);
            lemma_mul_pos(self.den as int, other.den as int);
            if q_in_range(self@, RAT_OP_RANGE as int) && q_in_range(other@, RAT_OP_RANGE as int) {
                lemma_mul_bound(self.num as int, other.num as int, RAT_OP_RANGE as int);
                lemma_mul_bound(self.den as int, other.den as int, RAT_OP_RANGE as int);
            }
        }
        let n = (self.num as i128) * (other.num as i128);
        let d = (self.den as i128) * (other.den as i128);
        mk(n, d)
    }

    /// Division; `None` when `other` is zero or on range exhaustion.
    pub fn div(self, other: Rat) -> (r: Option<Rat>)
        ensures
            match r {
                Some(x) => !q_eq(other@, q_int(0)) && q_eq(x@, q_div(self@, other@)),
                None => true,
            },
            q_in_range(self@, RAT_OP_RANGE as int) && q_in_range(other@, RAT_OP_RANGE as int)
                && other@.n != 0 ==> r is Some,
    {
        proof {
            use_type_invariant(self);
            use_type_invariant(other);
        }
        if other.num == 0 {
            None
        } else {
            proof {
                lemma_mul_bound(self.num as int, other.den as int, RAT_BOUND as int);
                lemma_mul_bound(self.den as int, other.num as int, RAT_BOUND as int);
                vstd::arithmetic::mul::lemma_mul_nonzero(self.den as int, other.num as int);
                if q_in_range(self@, RAT_OP_RANGE as int) && q_in_range(
                    other@,
                    RAT_OP_RANGE as int,
                ) {
                    lemma_mul_bound(self.num as int, other.den as int, RAT_OP_RANGE as int);
                    lemma_mul_bound(self.den as int, other.num as int, RAT_OP_RANGE as int);
                }
            }
            let n = (self.num as i128) * (other.den as i128);
            let d = (self.den as i128) * (other.num as i128);
            let r = mk(n, d);
            proof {
                if r is Some {
                    let x = r->Some_0;
                    if other@.n < 0 {
                        assert((n as int) * (self@.d * -(other@.n)) == (self@.n * -(other@.d)) * (
                        d as int)) by (nonlinear_arith)
                            requires
                                n as int == self@.n * other@.d,
                                d as int == self@.d * other@.n,
                        ;
                    }
                    lemma_q_eq_trans(x@, Qv { n: n as int, d: d as int }, q_div(self@, other@));
                }
            }
            r
        }
    }

    pub fn neg(self) -> (r: Rat)
        ensures
            r@ == q_neg(self@),
    {
        proof {
            use_type_invariant(self);
        }
        Rat { num: -self.num, den: self.den }
    }

    pub fn le(self, other: Rat) -> (r: bool)
        ensures
            r == q_le(self@, other@),
    {
        proof {
            use_type_invariant(self);
            use_type_invariant(other);
            lemma_mul_bound(self.num as int, other.den as int, RAT_BOUND as int);
            lemma_mul_bound(other.num as int, self.den as int, RAT_BOUND as int);
        }
        (self.num as i128) * (other.den as i128) <= (other.num as i128) * (self.den as i128)
    }

    pub fn lt(self, other: Rat) -> (r: bool)
        ensures
            r == q_lt(self@, other@),
    {
        proof {
            use_type_invariant(self);
            use_type_invariant(other);
            lemma_mul_bound(self.num as int, other.den as int, RAT_BOUND as int);
            lemma_mul_bound(other.num as int, self.den as int, RAT_BOUND as int);
        }
        (self.num as i128) * (other.den as i128) < (other.num as i128) * (self.den as i128)
    }

    pub fn eq_val(self, other: Rat) -> (r: bool)
        ensures
            r == q_eq(self@, other@),
    {
        proof {
            use_type_invariant(self);
            use_type_invariant(other);
            lemma_mul_bound(self.num as int, other.den as int, RAT_BOUND as int);
            lemma_mul_bound(other.num as int, self.den as int, RAT_BOUND as int);
        }
        (self.num as i128) * (other.den as i128) == (other.num as i128) * (self.den as i128)
    }

    pub fn is_zero(self) -> (r: bool)
        ensures
            r == q_eq(self@, q_int(0)),
    {
        proof {
            use_type_invariant(self);
        }
        self.num == 0
    }

    pub fn is_neg(self) -> (r: bool)
        ensures
            r == q_lt(self@, q_int(0)),
    {
        proof {
            use_type_invariant(self);
        }
        self.num < 0
    }

    pub fn is_pos(self) -> (r: bool)
        ensures
            r == q_lt(q_int(0), self@),
    {
        proof {
            use_type_invariant(self);
        }
        self.num > 0
    }

    /// Numerator of the reduced representation.
    pub fn numer(self) -> (r: i64)
        ensures
            r as int == self@.n,
    {
        self.num
    }

    /// Denominator of the reduced representation; always positive.
    pub fn denom(self) -> (r: i64)
        ensures
            r as int == self@.d,
            r > 0,
    {
        proof {
            use_type_invariant(self);
        }
        self.den
    }
}

} // verus!
