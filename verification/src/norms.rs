//! Aggregate norm reductions over vectors of complex values: the sum of
//! per-element norms and the sum of per-element squared norms, with the
//! algebraic laws the squared-norm reduction satisfies.

use vstd::prelude::*;

use crate::complex::{lemma_norm_squared_nonneg, lemma_norm_squared_zero, norm_squared_of, Complex};
use crate::sqrt::{lemma_sqrt_floor_exists, lemma_sqrt_floor_le, sqrt_floor};

verus! {

/// The sum of the squared norms of the elements of `s`.
pub open spec fn sum_norm_squared(s: Seq<Complex>) -> int
    decreases s.len(),
{
    if s.len() == 0 {
        0
    } else {
        sum_norm_squared(s.drop_last()) + norm_squared_of(s.last())
    }
}

/// The sum of the (floor-rounded) norms of the elements of `s`.
pub open spec fn sum_norm(s: Seq<Complex>) -> int
    decreases s.len(),
{
    if s.len() == 0 {
        0
    } else {
        sum_norm(s.drop_last()) + sqrt_floor(norm_squared_of(s.last()))
    }
}

/// A sum of squared norms is never negative.
pub proof fn lemma_sum_norm_squared_nonneg(s: Seq<Complex>)
    ensures
        0 <= sum_norm_squared(s),
    decreases s.len(),
{
    if s.len() > 0 {
        lemma_sum_norm_squared_nonneg(s.drop_last());
        lemma_norm_squared_nonneg(s.last());
    }
}

/// A sum of norms is never negative.
pub proof fn lemma_sum_norm_nonneg(s: Seq<Complex>)
    ensures
        0 <= sum_norm(s),
    decreases s.len(),
{
    if s.len() > 0 {
        lemma_sum_norm_nonneg(s.drop_last());
        lemma_norm_squared_nonneg(s.last());
        lemma_sqrt_floor_le(norm_squared_of(s.last()));
    }
}

/// Extending a prefix by one element adds that element's squared norm.
proof fn lemma_sum_norm_squared_take_step(s: Seq<Complex>, i: int)
    requires
        0 <= i < s.len(),
    ensures
        sum_norm_squared(s.take(i + 1)) == sum_norm_squared(s.take(i)) + norm_squared_of(s[i]),
{
    assert(s.take(i + 1).drop_last() =~= s.take(i));
    assert(s.take(i + 1).last() == s[i]);
}

/// Extending a prefix by one element adds that element's norm.
proof fn lemma_sum_norm_take_step(s: Seq<Complex>, i: int)
    requires
        0 <= i < s.len(),
    ensures
        sum_norm(s.take(i + 1)) == sum_norm(s.take(i)) + sqrt_floor(norm_squared_of(s[i])),
{
    assert(s.take(i + 1).drop_last() =~= s.take(i));
    assert(s.take(i + 1).last() == s[i]);
}

/// A prefix sum of squared norms never exceeds the whole sum.
proof fn lemma_sum_norm_squared_take_le(s: Seq<Complex>, i: int)
    requires
        0 <= i <= s.len(),
    ensures
        sum_norm_squared(s.take(i)) <= sum_norm_squared(s),
    decreases s.len() - i,
{
    if i == s.len() {
        assert(s.take(i) =~= s);
    } else {
        lemma_sum_norm_squared_take_step(s, i);
        lemma_norm_squared_nonneg(s[i]);
        lemma_sum_norm_squared_take_le(s, i + 1);
    }
}

/// A prefix sum of norms never exceeds the whole sum.
proof fn lemma_sum_norm_take_le(s: Seq<Complex>, i: int)
    requires
        0 <= i <= s.len(),
    ensures
        sum_norm(s.take(i)) <= sum_norm(s),
    decreases s.len() - i,
{
    if i == s.len() {
        assert(s.take(i) =~= s);
    } else {
        lemma_sum_norm_take_step(s, i);
        lemma_norm_squared_nonneg(s[i]);
        lemma_sqrt_floor_le(norm_squared_of(s[i]));
        lemma_sum_norm_take_le(s, i + 1);
    }
}

/// Each norm is at most the squared norm, so the norm sum is bounded by the
/// squared-norm sum.
pub proof fn lemma_sum_norm_le_sum_norm_squared(s: Seq<Complex>)
    ensures
        sum_norm(s) <= sum_norm_squared(s),
    decreases s.len(),
{
    if s.len() > 0 {
        lemma_sum_norm_le_sum_norm_squared(s.drop_last());
        lemma_norm_squared_nonneg(s.last());
        lemma_sqrt_floor_le(norm_squared_of(s.last()));
    }
}

/// Sum of the per-element norms of `a` (an L1-style reduction over
/// per-element Euclidean magnitudes, not an aggregate Euclidean norm).
pub fn two_norm(a: Vec<Complex>) -> (r: i64)
    requires
        sum_norm_squared(a@) <= i64::MAX,
    ensures
        r == sum_norm(a@),
{
    let mut total: i64 = 0;
    let mut i: usize = 0;
    while i < a.len()
        invariant
            i <= a.len(),
            sum_norm_squared(a@) <= i64::MAX,
            0 <= total,
            total == sum_norm(a@.take(i as int)),
        decreases a.len() - i,
    {
        proof {
            lemma_norm_squared_nonneg(a@[i as int]);
            lemma_sum_norm_squared_nonneg(a@.take(i as int));
            lemma_sum_norm_squared_take_step(a@, i as int);
            lemma_sum_norm_squared_take_le(a@, i as int + 1);
            lemma_sum_norm_take_step(a@, i as int);
            lemma_sum_norm_take_le(a@, i as int + 1);
            lemma_sum_norm_le_sum_norm_squared(a@);
            lemma_sum_norm_nonneg(a@.take(i as int));
        }
        let v = a[i].norm();
        total = total + v;
        i = i + 1;
    }
    proof {
        assert(a@.take(a@.len() as int) =~= a@);
    }
    total
}

/// Sum of the per-element squared norms of `a`.
pub fn two_norm_squared(a: Vec<Complex>) -> (r: i64)
    requires
        sum_norm_squared(a@) <= i64::MAX,
    ensures
        r == sum_norm_squared(a@),
{
    let mut total: i64 = 0;
    let mut i: usize = 0;
    while i < a.len()
        invariant
            i <= a.len(),
            sum_norm_squared(a@) <= i64::MAX,
            0 <= total,
            total == sum_norm_squared(a@.take(i as int)),
        decreases a.len() - i,
    {
        proof {
            lemma_norm_squared_nonneg(a@[i as int]);
            lemma_sum_norm_squared_nonneg(a@.take(i as int));
            lemma_sum_norm_squared_take_step(a@, i as int);
            lemma_sum_norm_squared_take_le(a@, i as int + 1);
        }
        let v = a[i].norm_squared();
        total = total + v;
        i = i + 1;
    }
    proof {
        assert(a@.take(a@.len() as int) =~= a@);
    }
    total
}

/// Positive-definiteness: a sequence whose aggregate squared norm is zero
/// consists of zero values only (equivalently, a nonzero aggregate squared
/// norm means some element is nonzero).
pub proof fn lemma_sum_norm_squared_zero(s: Seq<Complex>)
    requires
        sum_norm_squared(s) == 0,
    ensures
        forall|i: int| 0 <= i < s.len() ==> s[i].re == 0 && s[i].im == 0,
    decreases s.len(),
{
    if s.len() > 0 {
        lemma_sum_norm_squared_nonneg(s.drop_last());
        lemma_norm_squared_nonneg(s.last());
        lemma_norm_squared_zero(s.last());
        lemma_sum_norm_squared_zero(s.drop_last());
        assert forall|i: int| 0 <= i < s.len() implies s[i].re == 0 && s[i].im == 0 by {
            if i < s.len() - 1 {
                assert(s.drop_last()[i] == s[i]);
            } else {
                assert(s[i] == s.last());
            }
        }
    }
}

/// Scaling a squared norm: where `d` is `c` scaled by `k` component-wise,
/// the squared norm is multiplied by `k^2`.
proof fn lemma_norm_squared_scale(c: Complex, d: Complex, k: int)
    requires
        d.re == k * c.re,
        d.im == k * c.im,
    ensures
        norm_squared_of(d) == k * k * norm_squared_of(c),
{
    let a = c.re as int;
    let b = c.im as int;
    assert((k * a) * (k * a) + (k * b) * (k * b) == k * k * (a * a + b * b)) by (nonlinear_arith);
}

/// Homogeneity of the squared-norm reduction: where `t` is `s` with every
/// element scaled by `k` component-wise, the aggregate squared norm is
/// multiplied by `k^2`.
pub proof fn lemma_sum_norm_squared_homogeneity(s: Seq<Complex>, t: Seq<Complex>, k: int)
    requires
        t.len() == s.len(),
        forall|i: int| 0 <= i < s.len() ==> t[i].re == k * s[i].re && t[i].im == k * s[i].im,
    ensures
        sum_norm_squared(t) == k * k * sum_norm_squared(s),
    decreases s.len(),
{
    if s.len() > 0 {
        assert forall|i: int|
            0 <= i < s.drop_last().len() implies t.drop_last()[i].re == k * s.drop_last()[i].re
            && t.drop_last()[i].im == k * s.drop_last()[i].im by {
            assert(s.drop_last()[i] == s[i]);
            assert(t.drop_last()[i] == t[i]);
        }
        lemma_sum_norm_squared_homogeneity(s.drop_last(), t.drop_last(), k);
        assert(t.last().re == k * s.last().re && t.last().im == k * s.last().im);
        lemma_norm_squared_scale(s.last(), t.last(), k);
        let x = sum_norm_squared(s.drop_last());
        let y = norm_squared_of(s.last());
        assert(k * k * x + k * k * y == k * k * (x + y)) by (nonlinear_arith);
    }
}

/// The squared-norm reduction scales by `|k|` exactly where `|k|` and `k^2`
/// agree — for `k` in `{-1, 0, 1}` — or where the aggregate is zero; for
/// every other scalar the factor is `k^2` (`lemma_sum_norm_squared_homogeneity`).
pub proof fn lemma_sum_norm_squared_abs_homogeneity(s: Seq<Complex>, t: Seq<Complex>, k: int)
    requires
        t.len() == s.len(),
        forall|i: int| 0 <= i < s.len() ==> t[i].re == k * s[i].re && t[i].im == k * s[i].im,
        k == -1 || k == 0 || k == 1 || sum_norm_squared(s) == 0,
    ensures
        sum_norm_squared(t) == vstd::math::abs(k) * sum_norm_squared(s),
{
    lemma_sum_norm_squared_homogeneity(s, t, k);
    if k == -1 || k == 0 || k == 1 {
        assert(k * k == vstd::math::abs(k));
    } else {
        assert(k * k * 0 == 0) by (nonlinear_arith);
        assert(vstd::math::abs(k) * 0 == 0) by (nonlinear_arith);
    }
}

} // verus!
