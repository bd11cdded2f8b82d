//! Fee and interest calculator.
//!
//! Rates are expressed in basis points: units of 1/10000 of the principal.
//! All divisions are integer (floor) divisions.  The executable functions
//! split the division so that no intermediate product overflows `u128`, and
//! each is proved to return exactly the mathematical value of its spec
//! function.  The owner payout is derived as principal minus the treasury
//! cut, so the two always split the principal exactly.

use vstd::prelude::*;
use vstd::arithmetic::div_mod::{
    lemma_fundamental_div_mod, lemma_div_is_ordered, lemma_div_multiples_vanish,
    lemma_hoist_over_denominator, lemma_mod_bound, lemma_div_pos_is_pos,
};
use vstd::arithmetic::mul::{
    lemma_mul_inequality, lemma_mul_upper_bound, lemma_mul_is_distributive_add_other_way,
    lemma_mul_nonnegative, lemma_mul_is_commutative,
};

verus! {

/// The share of `amount` given by a rate of `bps` basis points,
/// rounded down: `amount * bps / 10000`.
pub open spec fn scaled_share(amount: int, bps: int) -> int {
    amount * bps / 10000
}

/// The amount owed back on a loan: principal plus interest.
pub open spec fn payback_spec(principal: int, interest_bps: int) -> int {
    principal + scaled_share(principal, interest_bps)
}

/// The fee retained for the treasury when a loan is funded.
pub open spec fn treasury_cut_spec(principal: int, fee_bps: int) -> int {
    scaled_share(principal, fee_bps)
}

/// The amount forwarded to the collateral owner when a loan is funded:
/// the principal minus the treasury cut.
pub open spec fn owner_payout_spec(principal: int, fee_bps: int) -> int {
    principal - treasury_cut_spec(principal, fee_bps)
}

/// Splitting the scaled share at the denominator:
/// `p*b/10000 == (p/10000)*b + (p%10000)*b/10000`, together with the bounds
/// that make the split computable without overflow.
proof fn lemma_scaled_share_split(p: int, b: int)
    requires
        p >= 0,
        b >= 0,
    ensures
        scaled_share(p, b) == (p / 10000) * b + ((p % 10000) * b) / 10000,
        (p / 10000) * b <= scaled_share(p, b),
        scaled_share(p, b) >= 0,
        b <= 10000 ==> scaled_share(p, b) <= p,
{
    let q = p / 10000;
    let r = p % 10000;
    lemma_fundamental_div_mod(p, 10000);
    lemma_mod_bound(p, 10000);
    lemma_div_pos_is_pos(p, 10000);
    assert(p == 10000 * q + r);
    assert(p * b == (10000 * q + r) * b);
    lemma_mul_is_distributive_add_other_way(b, 10000 * q, r);
    assert((10000 * q + r) * b == (10000 * q) * b + r * b);
    assert((10000 * q) * b == (q * b) * 10000) by (nonlinear_arith);
    assert(p * b == (q * b) * 10000 + r * b);
    // hoist: (r*b)/10000 + q*b == (r*b + (q*b)*10000) / 10000
    lemma_hoist_over_denominator(r * b, q * b, 10000nat);
    assert(scaled_share(p, b) == q * b + (r * b) / 10000);
    // lower bound of the split: (r*b)/10000 >= 0
    lemma_mul_nonnegative(r, b);
    lemma_div_pos_is_pos(r * b, 10000);
    lemma_mul_nonnegative(q, b);
    // b <= 10000 ==> p*b/10000 <= p
    if b <= 10000 {
        lemma_mul_inequality(b, 10000, p);
        lemma_mul_is_commutative(p, b);
        lemma_mul_is_commutative(p, 10000);
        assert(p * b <= p * 10000);
        lemma_div_is_ordered(p * b, p * 10000, 10000);
        lemma_div_multiples_vanish(p, 10000);
        assert(p * 10000 == 10000 * p) by (nonlinear_arith);
        assert(scaled_share(p, b) <= p);
    }
}

/// Computes `principal * bps / 10000` exactly, without any intermediate
/// product leaving `u128`.
fn scaled_share_exec(principal: u128, bps: u64) -> (share: u128)
    requires
        scaled_share(principal as int, bps as int) <= u128::MAX,
    ensures
        share == scaled_share(principal as int, bps as int),
{
    let q: u128 = principal / 10000;
    let r: u128 = principal % 10000;
    let b: u128 = bps as u128;
    proof {
        lemma_scaled_share_split(principal as int, bps as int);
        // r * b fits easily: r < 10000, b < 2^64
        lemma_mul_upper_bound(r as int, 9999, b as int, u64::MAX as int);
    }
    q * b + (r * b) / 10000
}

/// The amount that repays a loan of `principal` at `interest_bps` basis
/// points of interest, fixed once at loan creation.
pub fn payback_for(principal: u128, interest_bps: u64) -> (payback: u128)
    requires
        payback_spec(principal as int, interest_bps as int) <= u128::MAX,
    ensures
        payback == payback_spec(principal as int, interest_bps as int),
        payback >= principal,
{
    proof {
        lemma_scaled_share_split(principal as int, interest_bps as int);
    }
    let share = scaled_share_exec(principal, interest_bps);
    principal + share
}

/// The fee retained for the treasury when a loan of `principal` is funded
/// at a fee rate of `fee_bps` basis points.
pub fn treasury_cut(principal: u128, fee_bps: u64) -> (cut: u128)
    requires
        fee_bps <= 10000,
    ensures
        cut == treasury_cut_spec(principal as int, fee_bps as int),
        cut <= principal,
{
    proof {
        lemma_scaled_share_split(principal as int, fee_bps as int);
    }
    scaled_share_exec(principal, fee_bps)
}

/// The amount forwarded to the collateral owner when a loan of `principal`
/// is funded: the principal minus the treasury cut.
pub fn owner_payout(principal: u128, fee_bps: u64) -> (payout: u128)
    requires
        fee_bps <= 10000,
    ensures
        payout == owner_payout_spec(principal as int, fee_bps as int),
        payout <= principal,
{
    let cut = treasury_cut(principal, fee_bps);
    principal - cut
}

/// Law: for every principal and every fee rate within the basis-point range,
/// the owner payout and the treasury cut split the principal exactly, and
/// both lie between zero and the principal.
pub proof fn lemma_fee_split_exact(principal: u128, fee_bps: u64)
    requires
        fee_bps <= 10000,
    ensures
        owner_payout_spec(principal as int, fee_bps as int)
            + treasury_cut_spec(principal as int, fee_bps as int) == principal,
        0 <= treasury_cut_spec(principal as int, fee_bps as int) <= principal,
        0 <= owner_payout_spec(principal as int, fee_bps as int) <= principal,
{
    lemma_scaled_share_split(principal as int, fee_bps as int);
}

/// Law: the payback amount never falls below the principal, and at a zero
/// interest rate it equals the principal exactly.
pub proof fn lemma_payback_at_least_principal(principal: u128, interest_bps: u64)
    ensures
        payback_spec(principal as int, interest_bps as int) >= principal,
        payback_spec(principal as int, 0) == principal,
{
    lemma_scaled_share_split(principal as int, interest_bps as int);
    assert(principal as int * 0 == 0) by (nonlinear_arith);
    assert(scaled_share(principal as int, 0) == 0) by {
        lemma_div_pos_is_pos(0, 10000);
        assert(0int / 10000 == 0);
    }
}

} // verus!
