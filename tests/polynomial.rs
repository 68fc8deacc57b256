use secret_sharing::field::ShareError;
use secret_sharing::polynomial::{polynomial_eval, polynomial_multiply, polynomial_print};

#[test]
fn eval_sums_coefficient_times_power() {
    assert_eq!(polynomial_eval(&[1, 2, 3], 2), Ok(17));
    assert_eq!(polynomial_eval(&[5], 9), Ok(5));
    assert_eq!(polynomial_eval(&[], 9), Ok(0));
    assert_eq!(polynomial_eval(&[1, 1, 1], -3), Ok(7));
    assert_eq!(polynomial_eval(&[4, 100, 126], 3), Ok(4 + 300 + 1134));
}

#[test]
fn eval_reports_overflow() {
    assert_eq!(polynomial_eval(&[0, 0, 1], 100000), Err(ShareError::ArithmeticOverflow));
    assert_eq!(polynomial_eval(&[i32::MAX, 1], 1), Err(ShareError::ArithmeticOverflow));
    assert_eq!(polynomial_eval(&[0, 3], i32::MAX), Err(ShareError::ArithmeticOverflow));
    assert_eq!(polynomial_eval(&[0, 1], i32::MAX), Ok(i32::MAX));
}

#[test]
fn multiply_convolves() {
    assert_eq!(polynomial_multiply(&[1, 2], &[3, 4]), Ok(vec![3, 10, 8]));
    assert_eq!(polynomial_multiply(&[5], &[2]), Ok(vec![10]));
    assert_eq!(polynomial_multiply(&[1, 0, -1], &[2, 5]), Ok(vec![2, 5, -2, -5]));
    assert_eq!(polynomial_multiply(&[], &[2, 5]), Ok(vec![0]));
    assert_eq!(polynomial_multiply(&[3, 4, 5], &[]), Ok(vec![0, 0]));
    assert_eq!(polynomial_multiply(&[], &[]), Ok(vec![]));
}

#[test]
fn multiply_reports_overflow() {
    assert_eq!(polynomial_multiply(&[65536], &[65536]), Err(ShareError::ArithmeticOverflow));
    assert_eq!(polynomial_multiply(&[i32::MAX, i32::MAX], &[1, 1]), Err(ShareError::ArithmeticOverflow));
    assert_eq!(polynomial_multiply(&[i32::MAX, -i32::MAX], &[1, 1]), Ok(vec![i32::MAX, 0, -i32::MAX]));
}

#[test]
fn print_single_coefficient() {
    assert_eq!(polynomial_print(&[5]), "5");
}

#[test]
fn print_two_coefficients() {
    assert_eq!(polynomial_print(&[5, 3]), "5 + 3 x^1");
}

#[test]
fn print_zero_polynomial() {
    assert_eq!(polynomial_print(&[0, 0, 0]), "0 + 0 x^1 + 0 x^2");
}

#[test]
fn print_negative_and_long_polynomials() {
    assert_eq!(polynomial_print(&[-12, 3]), "-12 + 3 x^1");
    assert_eq!(polynomial_print(&[]), "");
    let text = polynomial_print(&[1; 11]);
    assert!(text.ends_with("1 x^9 + 1 x^10"));
}

#[test]
fn print_extreme_coefficients() {
    assert_eq!(polynomial_print(&[i32::MIN, i32::MAX]), "-2147483648 + 2147483647 x^1");
    assert_eq!(polynomial_print(&[10, -100, 0]), "10 + -100 x^1 + 0 x^2");
}
