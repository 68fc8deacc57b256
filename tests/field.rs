use secret_sharing::field::{calc_mod, ShareError, PRIME};

#[test]
fn calc_mod_keeps_canonical_values() {
    for v in 0..PRIME {
        assert_eq!(calc_mod(v), v);
    }
}

#[test]
fn calc_mod_wraps_positive_values() {
    assert_eq!(calc_mod(127), 0);
    assert_eq!(calc_mod(130), 3);
    assert_eq!(calc_mod(254 + 5), 5);
    assert_eq!(calc_mod(i32::MAX), (i32::MAX as i64).rem_euclid(127) as i32);
}

#[test]
fn calc_mod_maps_negative_values_into_the_field() {
    assert_eq!(calc_mod(-1), 126);
    assert_eq!(calc_mod(-127), 0);
    assert_eq!(calc_mod(-128), 126);
    assert_eq!(calc_mod(-300), 81);
    assert_eq!(calc_mod(i32::MIN), (i32::MIN as i64).rem_euclid(127) as i32);
}

#[test]
fn calc_mod_is_idempotent_and_in_range() {
    let samples = [i32::MIN, -100000, -254, -127, -1, 0, 1, 126, 127, 5000, i32::MAX];
    for &v in samples.iter() {
        let r = calc_mod(v);
        assert!(0 <= r && r < PRIME);
        assert_eq!(calc_mod(r), r);
    }
}

#[test]
fn share_error_variants_are_distinct() {
    assert_ne!(ShareError::InvalidPartyCount, ShareError::ShapeMismatch);
    assert_ne!(ShareError::ShapeMismatch, ShareError::ArithmeticOverflow);
}
