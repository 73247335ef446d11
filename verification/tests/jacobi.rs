use fem_core::element::jacobi::Jacobi;

use num::bigint::BigInt;

fn check(jacobi: &Jacobi, x_num: i64, x_den: i64, expected_num: i64, expected_den: i64) {
    let (numerator, denominator) = jacobi.evaluate_rational(x_num, x_den);
    assert_eq!(numerator, BigInt::from(expected_num));
    assert_eq!(denominator, BigInt::from(expected_den));
}

#[test]
fn test_new() {
    let jac = Jacobi::new(1, 2, 3).unwrap();
    assert_eq!(jac.get_degree(), 1, "Incorrect degree in new");
    assert_eq!(jac.get_alpha(), 2, "Incorrect alpha in new");
    assert_eq!(jac.get_beta(), 3, "Incorrect beta in new");
}

#[test]
fn test_none() {
    let jac = Jacobi::new(1, -2, 3);
    assert!(jac.is_none(), "Did not give None for alpha equal to -2");
    let jac = Jacobi::new(1, 2, -3);
    assert!(jac.is_none(), "Did not give None for bet equal to -3");
}

#[test]
fn test_1_1_1() {
    let jac = Jacobi::new(1, 1, 1).unwrap();
    check(&jac, -1, 1, -4, 2, );
    check(&jac, 1, 1, 4, 2);
    check(&jac, 0, 1, 0, 2);
}

#[test]
fn test_2_1_1() {
    let jac = Jacobi::new(2, 1, 1).unwrap();
    check(&jac, -1, 1, 12, 4);
    check(&jac, 1, 1, 12, 4);
    check(&jac, -1, 5, -60, 100);
    check(&jac, 1, 5, -60, 100);
}

#[test]
fn test_2_2_1() {
    let jac = Jacobi::new(2, 2, 1).unwrap();
    check(&jac, -1, 1, 12, 4);
    check(&jac, 1, 1, 24, 4);
    check(&jac, -1, 5, -84, 100);
    check(&jac, 1, 5, -24, 100);
}

#[test]
fn test_2_1_2() {
    let jac = Jacobi::new(2, 1, 2).unwrap();
    check(&jac, -1, 1, 24, 4);
    check(&jac, 1, 1, 12, 4);
    check(&jac, -1, 5, -24, 100);
    check(&jac, 1, 5, -84, 100);
}

#[test]
fn test_3_2_3() {
    let jac = Jacobi::new(3, 2, 3).unwrap();
    check(&jac, -1, 1, -160, 8);
    check(&jac, 1, 1, 80, 8);
    check(&jac, -1, 5, 1360, 1000);
    check(&jac, 1, 5, -560, 1000);
    check(&jac, 0, 1, 5, 8);
}

#[test]
fn test_6_3_1() {
    let jac = Jacobi::new(6, 3, 1).unwrap();
    check(&jac, -1, 1, 448, 64);
    check(&jac, -7, 10, -20603828, 64000000);
    check(&jac, -1, 5, -756672, 1000000);
    check(&jac, 0, 1, -14, 64);
    check(&jac, 1, 5, 1189888, 1000000);
    check(&jac, 7, 10, -101690988, 64000000);
    check(&jac, 1, 1, 5376, 64);
}

#[test]
fn test_coefficients_3_2_3() {
    let jac = Jacobi::new(3, 2, 3).unwrap();
    let coeffs = jac.get_coefficients();
    let expected = vec![20i64, 75, 60, 10];
    assert_eq!(coeffs.len(), expected.len());
    for (coeff, want) in coeffs.iter().zip(expected.iter()) {
        assert_eq!(*coeff, BigInt::from(*want));
    }
}

#[test]
fn test_boundary_parameters() {
    let jac = Jacobi::new(2, -1, -1);
    assert!(jac.is_some(), "Construction must succeed at the boundary -1");
    let jac = Jacobi::new(0, 0, 0).unwrap();
    check(&jac, 7, 9, 1, 1);
}

#[test]
fn test_symmetry_scenario() {
    // Evaluating (alpha, beta) at -x matches (-1)^degree times (beta, alpha)
    // at x: degree 3 here, so the sign flips.
    let left = Jacobi::new(3, 2, 3).unwrap();
    let right = Jacobi::new(3, 3, 2).unwrap();
    let (ln, ld) = left.evaluate_rational(-3, 7);
    let (rn, rd) = right.evaluate_rational(3, 7);
    assert_eq!(ln, -rn);
    assert_eq!(ld, rd);
}

#[test]
fn test_endpoint_identities() {
    // At the right endpoint the value is C(degree+alpha, degree); at the
    // left it is (-1)^degree * C(degree+beta, degree).
    let jac = Jacobi::new(4, 2, 1).unwrap();
    let (numerator, denominator) = jac.evaluate_rational(1, 1);
    // C(6, 4) = 15, denominator 2^4
    assert_eq!(numerator, BigInt::from(15 * 16));
    assert_eq!(denominator, BigInt::from(16));
    let (numerator, denominator) = jac.evaluate_rational(-1, 1);
    // (-1)^4 * C(5, 4) = 5
    assert_eq!(numerator, BigInt::from(5 * 16));
    assert_eq!(denominator, BigInt::from(16));
}
