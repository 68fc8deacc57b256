use secret_sharing::field::{calc_mod, ShareError, PRIME};
use secret_sharing::plot::{plot_point, Trace};
use secret_sharing::polynomial::{polynomial_eval, polynomial_multiply};
use secret_sharing::shamir::{
    combine_additive, combine_multiplicative, combine_polynomials_additive, reduce_all,
    shamir_sharing, share, shares_from_polynomial,
};

#[test]
fn shares_are_reduced_values_at_one_to_n() {
    assert_eq!(shares_from_polynomial(&[1, 1]), Ok(vec![2, 3]));
    assert_eq!(shares_from_polynomial(&[5, 100, 126]), Ok(vec![231 % 127, 709 % 127, 1439 % 127]));
    assert_eq!(shares_from_polynomial(&[]), Ok(vec![]));
}

#[test]
fn shares_report_overflow() {
    let mut big = vec![0; 40];
    big[39] = 1;
    assert_eq!(shares_from_polynomial(&big), Err(ShareError::ArithmeticOverflow));
}

#[test]
fn polynomial_share_rejects_zero_parties() {
    assert_eq!(share(5, 0), Err(ShareError::InvalidPartyCount));
}

#[test]
fn share_of_five_matches_its_polynomial() {
    for _ in 0..100 {
        let (shares, polynomial) = share(5, 3).unwrap();
        assert_eq!(polynomial.len(), 3);
        assert_eq!(polynomial[0], 5);
        assert!(polynomial[1..].iter().all(|&c| 0 <= c && c < PRIME));
        assert_eq!(shares.len(), 3);
        for k in 1..=3 {
            let y = polynomial_eval(&polynomial, k).unwrap();
            assert_eq!(calc_mod(y), shares[(k - 1) as usize]);
        }
    }
}

#[test]
fn share_of_field_secret_succeeds_up_to_eight_parties() {
    for n in 1..=8 {
        for _ in 0..20 {
            let (shares, polynomial) = share(126, n).unwrap();
            assert_eq!(shares.len(), n);
            assert_eq!(polynomial.len(), n);
        }
    }
}

#[test]
fn share_with_one_party_is_constant() {
    assert_eq!(share(5, 1), Ok((vec![5], vec![5])));
    assert_eq!(share(-2, 1), Ok((vec![125], vec![-2])));
}

#[test]
fn combine_additive_adds_pointwise() {
    assert_eq!(combine_additive(&[100, 5, -1], &[30, 6, 0]), Ok(vec![3, 11, 126]));
    assert_eq!(combine_additive(&[1, 2], &[1]), Err(ShareError::ShapeMismatch));
    assert_eq!(combine_polynomials_additive(&[5, 120], &[2, 10]), Ok(vec![7, 3]));
    assert_eq!(combine_polynomials_additive(&[5], &[]), Err(ShareError::ShapeMismatch));
}

#[test]
fn combine_multiplicative_multiplies_pointwise() {
    assert_eq!(combine_multiplicative(&[10, 126], &[13, 126]), Ok(vec![3, 1]));
    assert_eq!(combine_multiplicative(&[i32::MAX], &[i32::MAX]), Ok(vec![((i32::MAX as i64).pow(2) % 127) as i32]));
    assert_eq!(combine_multiplicative(&[1], &[1, 2]), Err(ShareError::ShapeMismatch));
}

#[test]
fn reduce_all_reduces_each_value() {
    assert_eq!(reduce_all(&[130, -1, 5]), vec![3, 126, 5]);
}

#[test]
fn sum_of_shares_are_shares_of_summed_polynomial() {
    for _ in 0..100 {
        let (sa, pa) = share(30, 4).unwrap();
        let (sb, pb) = share(120, 4).unwrap();
        let combined = combine_additive(&sa, &sb).unwrap();
        let poly = combine_polynomials_additive(&pa, &pb).unwrap();
        assert_eq!(poly[0], 23);
        for i in 0..4 {
            assert_eq!(combined[i], calc_mod(sa[i] + sb[i]));
            let y = polynomial_eval(&poly, (i + 1) as i32).unwrap();
            assert_eq!(combined[i], calc_mod(y));
        }
    }
}

#[test]
fn homomorphic_run_combines_consistently() {
    let run = shamir_sharing();
    assert_eq!(run.polynomial1[0], 5);
    assert_eq!(run.polynomial2[0], 2);
    assert_eq!(run.combined_polynomial[0], 7);
    for i in 0..3 {
        let y = polynomial_eval(&run.combined_polynomial, (i + 1) as i32).unwrap();
        assert_eq!(run.combined_shares[i], calc_mod(y));
    }
    let product = polynomial_multiply(&run.polynomial3, &run.polynomial4).unwrap();
    assert_eq!(run.combined_polynomial2, reduce_all(&product));
    assert!(run.combined_polynomial2.iter().all(|&c| 0 <= c && c < PRIME));
    assert_eq!(run.combined_polynomial2[0], 10);
    for i in 0..2 {
        assert_eq!(run.combined_shares2[i], calc_mod(run.shares3[i] * run.shares4[i]));
    }
}

#[test]
fn plot_point_builds_points_and_line() {
    let (points, line) = plot_point(&[7, 9], &[5, 2], 0).unwrap();
    match points {
        Trace::Points(t) => {
            assert_eq!(t.x, vec![0, 1, 2]);
            assert_eq!(t.y, vec![5, 7, 9]);
            assert_eq!(t.mode, "markers");
            assert_eq!(t.trace_type, "scatter");
            assert_eq!(t.name, "Shares 1");
            assert_eq!(t.text, vec!["Value".to_string(), "Share 1".to_string(), "Share 2".to_string()]);
        }
        Trace::Polynomial(_) => panic!("expected points first"),
    }
    match line {
        Trace::Polynomial(t) => {
            assert_eq!(t.x, (-6..6).collect::<Vec<i32>>());
            let expected: Vec<i32> = (-6..6).map(|x| calc_mod(5 + 2 * x)).collect();
            assert_eq!(t.y, expected);
            assert_eq!(t.y[0], 120);
            assert_eq!(t.mode, "lines");
            assert_eq!(t.name, "Polynomial 1");
        }
        Trace::Points(_) => panic!("expected the line second"),
    }
}

#[test]
fn plot_point_reports_overflow() {
    let mut big = vec![0; 20];
    big[19] = 1;
    assert!(matches!(plot_point(&[1], &big, 11), Err(ShareError::ArithmeticOverflow)));
}
