use complex_norm::norms::{two_norm, two_norm_squared};
use complex_norm::Complex;

#[test]
fn test_two_norm_squared_sum() {
    let x = vec![Complex::new(3, 4), Complex::new(0, 0), Complex::new(5, 12)];
    assert_eq!(two_norm_squared(x), 194);
}

#[test]
fn test_two_norm_sum() {
    let x = vec![Complex::new(3, 4), Complex::new(0, 0), Complex::new(5, 12)];
    assert_eq!(two_norm(x), 18);
}

#[test]
fn test_two_norm_empty() {
    assert_eq!(two_norm(Vec::new()), 0);
    assert_eq!(two_norm_squared(Vec::new()), 0);
}

#[test]
fn test_two_norm_rounds_each_element_down() {
    // Element norms are floor(sqrt(2)) == 1 and floor(sqrt(8)) == 2.
    let x = vec![Complex::new(1, 1), Complex::new(2, 2)];
    assert_eq!(two_norm(x), 3);
}

#[test]
fn test_two_norm_squared_positive_definiteness() {
    let zero = Complex::new(0, 0);
    let zeros = vec![zero, zero, zero, zero];
    assert_eq!(two_norm_squared(zeros), 0);

    let x = vec![zero, zero, Complex::new(0, -1), zero];
    let y = x.clone();
    assert_ne!(two_norm_squared(x), 0);
    assert_ne!(y, vec![zero, zero, zero, zero]);
}

#[test]
fn test_two_norm_squared_homogeneity() {
    let x = vec![Complex::new(1, 2), Complex::new(3, -4)];
    let k: i64 = 3;
    let scaled: Vec<Complex> = x.iter().map(|c| c.mult_scalar(k)).collect();
    // Scaling by k multiplies the aggregate squared norm by k * k.
    assert_eq!(two_norm_squared(x), 30);
    assert_eq!(two_norm_squared(scaled), 270);
}

#[test]
fn test_two_norm_squared_abs_homogeneity_unit_scalar() {
    // For k in {-1, 0, 1} the factor k * k coincides with |k|.
    let x = vec![Complex::new(1, 2), Complex::new(3, -4)];
    let negated: Vec<Complex> = x.iter().map(|c| c.mult_scalar(-1)).collect();
    assert_eq!(two_norm_squared(negated), two_norm_squared(x));
}
