//! The complex value type: an immutable pair of 64-bit integer components,
//! with component-wise addition, the standard complex product, scalar
//! multiplication, conjugation, and the Euclidean norm (floor square root of
//! the squared norm).

use vstd::prelude::*;

use crate::sqrt::{is_sqrt_floor, isqrt, lemma_sqrt_floor_unique, sqrt_floor};

verus! {

/// An immutable complex value `re + im * i`. Equality is exact component
/// equality; every operation returns a new value.
#[derive(Clone, Copy, Debug, PartialEq, Eq, Structural)]
pub struct Complex {
    pub re: i64,
    pub im: i64,
}

/// The squared Euclidean norm `re^2 + im^2`, as an unbounded integer.
pub open spec fn norm_squared_of(c: Complex) -> int {
    c.re * c.re + c.im * c.im
}

/// A squared norm is a sum of two squares and so never negative.
pub proof fn lemma_norm_squared_nonneg(c: Complex)
    ensures
        0 <= norm_squared_of(c),
{
    let a = c.re as int;
    let b = c.im as int;
    assert(0 <= a * a + b * b) by (nonlinear_arith);
}

/// Only the zero value has a zero squared norm.
pub proof fn lemma_norm_squared_zero(c: Complex)
    requires
        norm_squared_of(c) == 0,
    ensures
        c.re == 0,
        c.im == 0,
{
    let a = c.re as int;
    let b = c.im as int;
    assert(a == 0 && b == 0) by (nonlinear_arith)
        requires
            a * a + b * b == 0,
    ;
}

/// The product of two values in i64 range stays within the fixed bounds
/// `i64::MIN * i64::MAX` and `i64::MIN * i64::MIN`.
proof fn lemma_i64_product_bounds(x: int, y: int)
    by (nonlinear_arith)
    requires
        i64::MIN <= x <= i64::MAX,
        i64::MIN <= y <= i64::MAX,
    ensures
        (i64::MIN as int) * (i64::MAX as int) <= x * y <= (i64::MIN as int) * (i64::MIN as int),
{
}

impl Complex {
    /// Constructs the value; any pair of components is accepted.
    pub fn new(re: i64, im: i64) -> (c: Complex)
        ensures
            c.re == re,
            c.im == im,
    {
        Complex { re, im }
    }

    /// Component-wise sum.
    pub fn plus(&self, other: &Complex) -> (r: Complex)
        requires
            i64::MIN <= self.re + other.re <= i64::MAX,
            i64::MIN <= self.im + other.im <= i64::MAX,
        ensures
            r.re == self.re + other.re,
            r.im == self.im + other.im,
    {
        Complex { re: self.re + other.re, im: self.im + other.im }
    }

    /// Standard complex product `(ac - bd, ad + bc)`.
    pub fn mult(&self, other: &Complex) -> (r: Complex)
        requires
            i64::MIN <= self.re * other.re - self.im * other.im <= i64::MAX,
            i64::MIN <= self.re * other.im + self.im * other.re <= i64::MAX,
        ensures
            r.re == self.re * other.re - self.im * other.im,
            r.im == self.re * other.im + self.im * other.re,
    {
        let a = self.re as i128;
        let b = self.im as i128;
        let c = other.re as i128;
        let d = other.im as i128;
        proof {
            lemma_i64_product_bounds(a as int, c as int);
            lemma_i64_product_bounds(b as int, d as int);
            lemma_i64_product_bounds(a as int, d as int);
            lemma_i64_product_bounds(b as int, c as int);
        }
        let re_wide = a * c - b * d;
        let im_wide = a * d + b * c;
        Complex { re: re_wide as i64, im: im_wide as i64 }
    }

    /// Scales both components by the real scalar.
    pub fn mult_scalar(&self, scalar: i64) -> (r: Complex)
        requires
            i64::MIN <= self.re * scalar <= i64::MAX,
            i64::MIN <= self.im * scalar <= i64::MAX,
        ensures
            r.re == self.re * scalar,
            r.im == self.im * scalar,
    {
        Complex { re: self.re * scalar, im: self.im * scalar }
    }

    /// Complex conjugate: the imaginary component negated.
    pub fn conj(&self) -> (r: Complex)
        requires
            self.im != i64::MIN,
        ensures
            r.re == self.re,
            r.im == -self.im,
    {
        Complex { re: self.re, im: -self.im }
    }

    /// The squared Euclidean norm `re^2 + im^2`.
    pub fn norm_squared(&self) -> (r: i64)
        requires
            norm_squared_of(*self) <= i64::MAX,
        ensures
            r == norm_squared_of(*self),
            0 <= r,
    {
        let a = self.re;
        let b = self.im;
        proof {
            assert(0 <= a * a && 0 <= b * b) by (nonlinear_arith);
        }
        a * a + b * b
    }

    /// The Euclidean norm, rounded down to an integer: the floor square root
    /// of `re^2 + im^2`.
    pub fn norm(&self) -> (r: i64)
        requires
            norm_squared_of(*self) <= i64::MAX,
        ensures
            r == sqrt_floor(norm_squared_of(*self)),
            is_sqrt_floor(norm_squared_of(*self), r as int),
    {
        let ns = self.norm_squared();
        let root = isqrt(ns as u64);
        proof {
            lemma_sqrt_floor_unique(norm_squared_of(*self), root as int);
            assert(root <= root * root) by (nonlinear_arith)
                requires
                    root == 0 || 1 <= root,
            ;
        }
        root as i64
    }
}

/// Additive identity: a value whose components satisfy the sum contract
/// against the zero value is the left operand itself.
pub proof fn lemma_additive_identity(a: Complex, z: Complex, r: Complex)
    requires
        z.re == 0,
        z.im == 0,
        r.re == a.re + z.re,
        r.im == a.im + z.im,
    ensures
        r == a,
{
}

/// The integer norm brackets the squared norm: `norm^2 <= re^2 + im^2 <
/// (norm + 1)^2`.
pub proof fn lemma_norm_brackets_norm_squared(c: Complex)
    ensures
        is_sqrt_floor(norm_squared_of(c), sqrt_floor(norm_squared_of(c))),
{
    lemma_norm_squared_nonneg(c);
    crate::sqrt::lemma_sqrt_floor_exists(norm_squared_of(c));
}

/// Where the squared norm is a perfect square, the norm squares back to it
/// exactly: `norm^2 == re^2 + im^2`.
pub proof fn lemma_norm_squares_back(c: Complex, s: int)
    requires
        s * s == norm_squared_of(c),
    ensures
        sqrt_floor(norm_squared_of(c)) * sqrt_floor(norm_squared_of(c)) == norm_squared_of(c),
{
    let n = norm_squared_of(c);
    let w = if s < 0 { -s } else { s };
    assert(is_sqrt_floor(n, w)) by (nonlinear_arith)
        requires
            s * s == n,
            w == if s < 0 { -s } else { s },
    ;
    lemma_sqrt_floor_unique(n, w);
    assert(w * w == n) by (nonlinear_arith)
        requires
            s * s == n,
            w == -s || w == s,
    ;
    assert(sqrt_floor(n) * sqrt_floor(n) == n) by (nonlinear_arith)
        requires
            sqrt_floor(n) == w,
            w * w == n,
    ;
}

} // verus!
