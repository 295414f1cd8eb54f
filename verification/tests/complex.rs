use complex_norm::Complex;

#[test]
fn test_modulus() {
    let a = Complex::new(3, 4);
    assert_eq!(a.norm(), 5);
    assert_eq!(a.norm_squared(), 25);
}

#[test]
fn test_new_components() {
    let a = Complex::new(-7, 11);
    assert_eq!(a.re, -7);
    assert_eq!(a.im, 11);
}

#[test]
fn test_additive_identity() {
    let a = Complex::new(1, 1);
    let zero = Complex::new(0, 0);
    assert_eq!(a.plus(&zero), Complex::new(1, 1));
}

#[test]
fn test_plus_componentwise() {
    let a = Complex::new(3, -2);
    let b = Complex::new(-1, 7);
    assert_eq!(a.plus(&b), Complex::new(2, 5));
}

#[test]
fn test_mult() {
    let a = Complex::new(1, 2);
    let b = Complex::new(3, 4);
    assert_eq!(a.mult(&b), Complex::new(-5, 10));
}

#[test]
fn test_mult_by_i_rotates() {
    let a = Complex::new(5, -3);
    let i = Complex::new(0, 1);
    assert_eq!(a.mult(&i), Complex::new(3, 5));
}

#[test]
fn test_mult_large_components() {
    // The intermediate product re * re exceeds i64, but both final
    // components fit.
    let a = Complex::new(4_700_000_000_000_000_000, 200_000_000_000_000_000);
    let b = Complex::new(2, 1);
    assert_eq!(
        a.mult(&b),
        Complex::new(9_200_000_000_000_000_000, 5_100_000_000_000_000_000)
    );
}

#[test]
fn test_mult_scalar() {
    let a = Complex::new(2, -3);
    assert_eq!(a.mult_scalar(4), Complex::new(8, -12));
    assert_eq!(a.mult_scalar(0), Complex::new(0, 0));
}

#[test]
fn test_conj() {
    let a = Complex::new(2, -3);
    assert_eq!(a.conj(), Complex::new(2, 3));
    assert_eq!(a.conj().conj(), a);
}

#[test]
fn test_conj_norm_squared_unchanged() {
    let a = Complex::new(-6, 8);
    assert_eq!(a.conj().norm_squared(), a.norm_squared());
}

#[test]
fn test_norm_of_zero() {
    let zero = Complex::new(0, 0);
    assert_eq!(zero.norm(), 0);
    assert_eq!(zero.norm_squared(), 0);
}

#[test]
fn test_norm_rounds_down() {
    // 1^2 + 1^2 == 2 is not a perfect square; the norm is floor(sqrt(2)).
    let a = Complex::new(1, 1);
    assert_eq!(a.norm(), 1);
    assert_eq!(a.norm_squared(), 2);
}

#[test]
fn test_norm_negative_components() {
    let a = Complex::new(-3, -4);
    assert_eq!(a.norm(), 5);
    assert_eq!(a.norm_squared(), 25);
}

#[test]
fn test_norm_largest_inputs() {
    // The largest components whose squared norm still fits in an i64.
    let a = Complex::new(2147483647, 2147483647);
    assert_eq!(a.norm_squared(), 9223372028264841218);
    assert_eq!(a.norm(), 3037000498);
}
