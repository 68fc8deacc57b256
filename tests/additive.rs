use secret_sharing::additive::{addictive_sharing, open, share, share_from_offsets, sum_received_shares};
use secret_sharing::field::{calc_mod, ShareError, PRIME};

#[test]
fn open_sums_and_reduces() {
    assert_eq!(open(&[5, 3]), 8);
    assert_eq!(open(&[100, 50]), 23);
    assert_eq!(open(&[-1]), 126);
    assert_eq!(open(&[-100, -100, 3]), calc_mod(-197));
    assert_eq!(open(&[]), 0);
    assert_eq!(open(&[i32::MAX, i32::MAX]), ((i32::MAX as i64) * 2).rem_euclid(127) as i32);
}

#[test]
fn sum_received_shares_sums_and_reduces() {
    assert_eq!(sum_received_shares(&[120, 10, -3]), 0);
    assert_eq!(sum_received_shares(&[1, 2, 3]), 6);
}

#[test]
fn share_from_offsets_completes_the_set() {
    assert_eq!(share_from_offsets(10, &[5, -20]), vec![5, -20, 25]);
    assert_eq!(share_from_offsets(10, &[126, 126]), vec![126, 126, 12]);
    assert_eq!(share_from_offsets(-3, &[]), vec![124]);
}

#[test]
fn share_rejects_zero_parties() {
    assert_eq!(share(10, 0), Err(ShareError::InvalidPartyCount));
}

#[test]
fn share_of_ten_into_three_always_opens_to_ten() {
    for _ in 0..200 {
        let shares = share(10, 3).unwrap();
        assert_eq!(shares.len(), 3);
        let total: i64 = shares.iter().map(|&s| s as i64).sum();
        assert_eq!(total.rem_euclid(127), 10);
        assert_eq!(open(&shares), 10);
    }
}

#[test]
fn share_then_open_recovers_every_secret() {
    for s in 0..PRIME {
        for n in 2..6 {
            let shares = share(s, n).unwrap();
            assert_eq!(shares.len(), n);
            assert_eq!(open(&shares), s);
        }
    }
}

#[test]
fn share_draws_offsets_within_the_prime() {
    for _ in 0..50 {
        let shares = share(77, 6).unwrap();
        for &s in shares[..5].iter() {
            assert!(-PRIME < s && s < PRIME);
        }
        assert!(0 <= shares[5] && shares[5] < PRIME);
    }
}

#[test]
fn share_with_one_party_is_the_reduced_secret() {
    assert_eq!(share(10, 1).unwrap(), vec![10]);
    assert_eq!(share(200, 1).unwrap(), vec![73]);
    assert_eq!(share(-5, 1).unwrap(), vec![122]);
}

#[test]
fn broadcast_sums_add_up_to_the_sum_of_secrets() {
    for _ in 0..100 {
        let a = share(40, 4).unwrap();
        let b = share(100, 4).unwrap();
        let partials: Vec<i32> = (0..4).map(|i| sum_received_shares(&[a[i], b[i]])).collect();
        assert_eq!(open(&partials), calc_mod(140));
    }
}

#[test]
fn three_owner_run_recovers_the_total() {
    let run = addictive_sharing();
    assert_eq!(run.opened, vec![10, 13, 22]);
    assert_eq!(run.total, 45);
    assert_eq!(open(&run.alice_shares), 10);
    assert_eq!(open(&run.bob_shares), 13);
    assert_eq!(open(&run.chris_shares), 22);
    assert_eq!(run.total, calc_mod(run.party_sums[0] + run.party_sums[1] + run.party_sums[2]));
    assert_eq!(run.party_sums.len(), 3);
    for i in 0..3 {
        let received = [run.alice_shares[i], run.bob_shares[i], run.chris_shares[i]];
        assert_eq!(run.party_sums[i], sum_received_shares(&received));
    }
}
