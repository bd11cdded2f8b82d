//! Tests of the fee and interest calculator.

use nft_loans::{owner_payout, payback_for, treasury_cut};

#[test]
fn payback_exact_scenario() {
    // principal 1000 at 8% interest pays back 1080
    assert_eq!(payback_for(1000, 800), 1080);
}

#[test]
fn payback_zero_interest_is_principal() {
    assert_eq!(payback_for(1000, 0), 1000);
    assert_eq!(payback_for(0, 0), 0);
    assert_eq!(payback_for(u128::MAX / 2, 0), u128::MAX / 2);
}

#[test]
fn payback_never_below_principal() {
    let cases: [(u128, u64); 6] = [
        (0, 800),
        (1, 1),
        (9999, 10000),
        (10000, 1),
        (123456789, 777),
        (u128::MAX / 2, 9999),
    ];
    for (p, r) in cases {
        assert!(payback_for(p, r) >= p);
    }
}

#[test]
fn payback_rounds_down() {
    // 1 * 9999 / 10000 floors to 0 interest
    assert_eq!(payback_for(1, 9999), 1);
    // 10001 * 1 / 10000 floors to 1
    assert_eq!(payback_for(10001, 1), 10002);
}

#[test]
fn payback_wide_multiplication_no_overflow() {
    // The intermediate product principal * rate exceeds 128 bits; the
    // result must still be exact.
    let p = u128::MAX / 2;
    assert_eq!(payback_for(p, 10000), 2 * p);
}

#[test]
fn payback_above_full_rate() {
    // interest rates above 100% are not clamped
    assert_eq!(payback_for(1000, 20000), 3000);
    assert_eq!(payback_for(1000, 10001), 2000);
}

#[test]
fn fee_split_scenario() {
    // principal 1000 at a 2% fee: 980 to the owner, 20 to the treasury
    assert_eq!(owner_payout(1000, 200), 980);
    assert_eq!(treasury_cut(1000, 200), 20);
}

#[test]
fn fee_split_identity_samples() {
    let principals: [u128; 6] = [0, 1, 3, 999, 1000, u128::MAX];
    let fees: [u64; 5] = [0, 1, 200, 9999, 10000];
    for p in principals {
        for f in fees {
            let payout = owner_payout(p, f);
            let cut = treasury_cut(p, f);
            assert_eq!(payout + cut, p);
            assert!(cut <= p);
        }
    }
}

#[test]
fn fee_zero_takes_nothing() {
    assert_eq!(treasury_cut(12345, 0), 0);
    assert_eq!(owner_payout(12345, 0), 12345);
}

#[test]
fn fee_full_takes_everything() {
    assert_eq!(treasury_cut(12345, 10000), 12345);
    assert_eq!(owner_payout(12345, 10000), 0);
    assert_eq!(treasury_cut(u128::MAX, 10000), u128::MAX);
}

#[test]
fn fee_small_principal_floors_to_owner() {
    // 1 * 9999 / 10000 floors to 0: the cut vanishes, the owner keeps 1,
    // and the identity still holds.
    assert_eq!(treasury_cut(1, 9999), 0);
    assert_eq!(owner_payout(1, 9999), 1);
}
