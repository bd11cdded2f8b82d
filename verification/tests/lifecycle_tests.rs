//! Tests of the loan lifecycle state machine: deposit, funding, repayment,
//! cancellation, default claims, the admin operations, and every error.

use nft_loans::state::DEFAULT_PAYMENT_PERIOD;
use nft_loans::{LoanError, LoanStatus, MsgInput, NFTLoans, SettlementAction};

fn new_contract() -> NFTLoans {
    NFTLoans::new(
        "admin.near".to_string(),
        "treasury.near".to_string(),
        800,
        200,
    )
}

fn deposit(c: &mut NFTLoans, depositor: &str, token: &str, principal: u128, now: u64) -> u64 {
    c.nft_on_transfer(
        depositor.to_string(),
        "nft.near".to_string(),
        token.to_string(),
        Some(MsgInput { description: None, loan_amount_requested: principal }),
        now,
    )
    .unwrap()
}

#[test]
fn deposit_creates_pending_loan() {
    let mut c = new_contract();
    let id = deposit(&mut c, "alice.near", "token-1", 1000, 7);
    assert_eq!(id, 0);
    assert_eq!(c.get_last_loan(), 1);
    let out = c.get_nft_loan(0).unwrap();
    assert_eq!(out.id, 0);
    assert_eq!(out.loan.nft_owner, "alice.near");
    assert_eq!(out.loan.nft_contract, "nft.near");
    assert_eq!(out.loan.nft_id, "token-1");
    assert_eq!(out.loan.loan_requested, 1000);
    assert_eq!(out.loan.loan_payback, 1080);
    assert_eq!(out.loan.status, LoanStatus::Pending);
    assert_eq!(out.loan.submission_time, 7);
    assert_eq!(out.loan.loan_time, None);
    assert_eq!(out.loan.loan_deadline, None);
    assert_eq!(out.loan.loaner_id, None);
}

#[test]
fn deposit_malformed_message_rejected() {
    let mut c = new_contract();
    let r = c.nft_on_transfer(
        "alice.near".to_string(),
        "nft.near".to_string(),
        "token-1".to_string(),
        None,
        7,
    );
    assert_eq!(r.unwrap_err(), LoanError::MalformedInput);
    assert_eq!(c.get_last_loan(), 0);
    assert!(c.get_nft_loan(0).is_none());
}

#[test]
fn fund_repay_scenario() {
    // principal 1000, interest 8% -> payback 1080; fee 2% -> owner 980,
    // treasury 20; repayment before the deadline turns the loan Payed and
    // the active counter drops back to zero.
    let mut c = new_contract();
    deposit(&mut c, "alice.near", "token-1", 1000, 7);
    let bob = "bob.near".to_string();
    let actions = c.loan_for_nft(0, &bob, 1000, 100).unwrap();
    assert_eq!(
        actions,
        vec![
            SettlementAction::MintReward { to: "bob.near".to_string(), amount: 3000 },
            SettlementAction::TransferValue { to: "alice.near".to_string(), amount: 980 },
            SettlementAction::TransferValue { to: "treasury.near".to_string(), amount: 20 },
        ]
    );
    let loan = c.get_nft_loan(0).unwrap().loan;
    assert_eq!(loan.status, LoanStatus::Loaned);
    assert_eq!(loan.loaner_id, Some("bob.near".to_string()));
    assert_eq!(loan.loan_time, Some(100));
    assert_eq!(loan.loan_deadline, Some(100 + DEFAULT_PAYMENT_PERIOD));
    assert_eq!(c.loans_active, 1);
    assert_eq!(c.total_amount_lent, 1000);
    assert_eq!(c.loan_current_ath, 1000);

    let alice = "alice.near".to_string();
    let actions = c.pay_loan(0, &alice, 1080, 5000).unwrap();
    assert_eq!(
        actions,
        vec![
            SettlementAction::TransferValue { to: "bob.near".to_string(), amount: 1080 },
            SettlementAction::MintReward { to: "alice.near".to_string(), amount: 3240 },
            SettlementAction::TransferAsset {
                asset_contract: "nft.near".to_string(),
                asset_id: "token-1".to_string(),
                to: "alice.near".to_string(),
                memo: "Withdraw of NFT from Nativo Loans".to_string(),
            },
        ]
    );
    assert_eq!(c.get_nft_loan(0).unwrap().loan.status, LoanStatus::Payed);
    assert_eq!(c.loans_active, 0);
    assert_eq!(c.total_amount_payed, 1080);
}

#[test]
fn fund_only_once() {
    let mut c = new_contract();
    deposit(&mut c, "alice.near", "token-1", 1000, 7);
    let bob = "bob.near".to_string();
    c.loan_for_nft(0, &bob, 1000, 100).unwrap();
    let carol = "carol.near".to_string();
    assert_eq!(c.loan_for_nft(0, &carol, 1000, 200).unwrap_err(), LoanError::InvalidState);
    // the first funding stands
    assert_eq!(c.get_nft_loan(0).unwrap().loan.loaner_id, Some("bob.near".to_string()));
    assert_eq!(c.loans_active, 1);
}

#[test]
fn fund_unknown_loan_not_found() {
    let mut c = new_contract();
    let bob = "bob.near".to_string();
    assert_eq!(c.loan_for_nft(3, &bob, 1000, 100).unwrap_err(), LoanError::NotFound);
}

#[test]
fn fund_wrong_amount_mismatch() {
    let mut c = new_contract();
    deposit(&mut c, "alice.near", "token-1", 1000, 7);
    let bob = "bob.near".to_string();
    assert_eq!(c.loan_for_nft(0, &bob, 999, 100).unwrap_err(), LoanError::AmountMismatch);
    assert_eq!(c.loan_for_nft(0, &bob, 1080, 100).unwrap_err(), LoanError::AmountMismatch);
    assert_eq!(c.get_nft_loan(0).unwrap().loan.status, LoanStatus::Pending);
}

#[test]
fn fund_by_owner_unauthorized() {
    let mut c = new_contract();
    deposit(&mut c, "alice.near", "token-1", 1000, 7);
    let alice = "alice.near".to_string();
    assert_eq!(c.loan_for_nft(0, &alice, 1000, 100).unwrap_err(), LoanError::Unauthorized);
}

#[test]
fn fund_without_minting_skips_reward() {
    let mut c = new_contract();
    let admin = "admin.near".to_string();
    assert_eq!(c.minting_ntv(false, &admin), Ok(false));
    deposit(&mut c, "alice.near", "token-1", 1000, 7);
    let bob = "bob.near".to_string();
    let actions = c.loan_for_nft(0, &bob, 1000, 100).unwrap();
    assert_eq!(
        actions,
        vec![
            SettlementAction::TransferValue { to: "alice.near".to_string(), amount: 980 },
            SettlementAction::TransferValue { to: "treasury.near".to_string(), amount: 20 },
        ]
    );
}

#[test]
fn repay_at_deadline_succeeds() {
    let mut c = new_contract();
    deposit(&mut c, "alice.near", "token-1", 1000, 7);
    let bob = "bob.near".to_string();
    c.loan_for_nft(0, &bob, 1000, 100).unwrap();
    let alice = "alice.near".to_string();
    let deadline = 100 + DEFAULT_PAYMENT_PERIOD;
    assert!(c.pay_loan(0, &alice, 1080, deadline).is_ok());
    assert_eq!(c.get_nft_loan(0).unwrap().loan.status, LoanStatus::Payed);
}

#[test]
fn repay_after_deadline_expired() {
    let mut c = new_contract();
    deposit(&mut c, "alice.near", "token-1", 1000, 7);
    let bob = "bob.near".to_string();
    c.loan_for_nft(0, &bob, 1000, 100).unwrap();
    let alice = "alice.near".to_string();
    let deadline = 100 + DEFAULT_PAYMENT_PERIOD;
    assert_eq!(c.pay_loan(0, &alice, 1080, deadline + 1).unwrap_err(), LoanError::DeadlineExpired);
    assert_eq!(c.get_nft_loan(0).unwrap().loan.status, LoanStatus::Loaned);
    assert_eq!(c.loans_active, 1);
}

#[test]
fn repay_only_once() {
    let mut c = new_contract();
    deposit(&mut c, "alice.near", "token-1", 1000, 7);
    let bob = "bob.near".to_string();
    c.loan_for_nft(0, &bob, 1000, 100).unwrap();
    let alice = "alice.near".to_string();
    assert!(c.pay_loan(0, &alice, 1080, 200).is_ok());
    assert_eq!(c.pay_loan(0, &alice, 1080, 300).unwrap_err(), LoanError::InvalidState);
}

#[test]
fn repay_wrong_amount_mismatch() {
    let mut c = new_contract();
    deposit(&mut c, "alice.near", "token-1", 1000, 7);
    let bob = "bob.near".to_string();
    c.loan_for_nft(0, &bob, 1000, 100).unwrap();
    let alice = "alice.near".to_string();
    assert_eq!(c.pay_loan(0, &alice, 1000, 200).unwrap_err(), LoanError::AmountMismatch);
}

#[test]
fn repay_by_non_owner_unauthorized() {
    let mut c = new_contract();
    deposit(&mut c, "alice.near", "token-1", 1000, 7);
    let bob = "bob.near".to_string();
    c.loan_for_nft(0, &bob, 1000, 100).unwrap();
    assert_eq!(c.pay_loan(0, &bob, 1080, 200).unwrap_err(), LoanError::Unauthorized);
}

#[test]
fn repay_pending_invalid_state() {
    let mut c = new_contract();
    deposit(&mut c, "alice.near", "token-1", 1000, 7);
    let alice = "alice.near".to_string();
    assert_eq!(c.pay_loan(0, &alice, 1080, 200).unwrap_err(), LoanError::InvalidState);
}

#[test]
fn default_claim_window_scenario() {
    // funded at time 1000 with a period of 604800: a claim one tick before
    // the deadline is refused, one exactly at the deadline succeeds, the
    // loan turns Expired, and both indices lose the entry.
    let mut c = new_contract();
    c.payment_period = 604800;
    deposit(&mut c, "alice.near", "token-1", 1000, 7);
    let bob = "bob.near".to_string();
    c.loan_for_nft(0, &bob, 1000, 1000).unwrap();
    assert_eq!(c.get_nft_loan(0).unwrap().loan.loan_deadline, Some(1000 + 604800));
    assert_eq!(
        c.withdraw_nft_loaner(0, &bob, 1000 + 604799).unwrap_err(),
        LoanError::DeadlineNotReached
    );
    let actions = c.withdraw_nft_loaner(0, &bob, 1000 + 604800).unwrap();
    assert_eq!(
        actions,
        vec![SettlementAction::TransferAsset {
            asset_contract: "nft.near".to_string(),
            asset_id: "token-1".to_string(),
            to: "bob.near".to_string(),
            memo: "Withdraw of NFT from Nativo Loans".to_string(),
        }]
    );
    assert_eq!(c.get_nft_loan(0).unwrap().loan.status, LoanStatus::Expired);
    assert_eq!(c.loans_active, 0);
    let alice = "alice.near".to_string();
    assert_eq!(c.loan_supply_for_owner(&alice), 0);
    assert_eq!(c.loan_supply_for_lender(&bob), 0);
}

#[test]
fn default_claim_by_non_lender_unauthorized() {
    let mut c = new_contract();
    deposit(&mut c, "alice.near", "token-1", 1000, 7);
    let bob = "bob.near".to_string();
    c.loan_for_nft(0, &bob, 1000, 100).unwrap();
    let carol = "carol.near".to_string();
    let after = 100 + DEFAULT_PAYMENT_PERIOD;
    assert_eq!(c.withdraw_nft_loaner(0, &carol, after).unwrap_err(), LoanError::Unauthorized);
}

#[test]
fn default_claim_pending_invalid_state() {
    let mut c = new_contract();
    deposit(&mut c, "alice.near", "token-1", 1000, 7);
    let bob = "bob.near".to_string();
    assert_eq!(c.withdraw_nft_loaner(0, &bob, 99999).unwrap_err(), LoanError::InvalidState);
}

#[test]
fn cancel_pending_loan() {
    let mut c = new_contract();
    deposit(&mut c, "alice.near", "token-1", 1000, 7);
    let alice = "alice.near".to_string();
    let actions = c.withdraw_nft_owner(0, &alice).unwrap();
    assert_eq!(
        actions,
        vec![SettlementAction::TransferAsset {
            asset_contract: "nft.near".to_string(),
            asset_id: "token-1".to_string(),
            to: "alice.near".to_string(),
            memo: "Withdraw of NFT from Nativo Loans".to_string(),
        }]
    );
    assert_eq!(c.get_nft_loan(0).unwrap().loan.status, LoanStatus::Canceled);
    assert_eq!(c.loan_supply_for_owner(&alice), 0);
    // the record itself is retained forever
    assert_eq!(c.get_last_loan(), 1);
}

#[test]
fn cancel_loaned_invalid_state() {
    let mut c = new_contract();
    deposit(&mut c, "alice.near", "token-1", 1000, 7);
    let bob = "bob.near".to_string();
    c.loan_for_nft(0, &bob, 1000, 100).unwrap();
    let alice = "alice.near".to_string();
    assert_eq!(c.withdraw_nft_owner(0, &alice).unwrap_err(), LoanError::InvalidState);
    assert_eq!(c.get_nft_loan(0).unwrap().loan.status, LoanStatus::Loaned);
}

#[test]
fn cancel_twice_second_invalid_state() {
    let mut c = new_contract();
    deposit(&mut c, "alice.near", "token-1", 1000, 7);
    let alice = "alice.near".to_string();
    assert!(c.withdraw_nft_owner(0, &alice).is_ok());
    assert_eq!(c.withdraw_nft_owner(0, &alice).unwrap_err(), LoanError::InvalidState);
}

#[test]
fn cancel_by_non_owner_unauthorized() {
    let mut c = new_contract();
    deposit(&mut c, "alice.near", "token-1", 1000, 7);
    let bob = "bob.near".to_string();
    assert_eq!(c.withdraw_nft_owner(0, &bob).unwrap_err(), LoanError::Unauthorized);
}

#[test]
fn cancel_unknown_loan_not_found() {
    let mut c = new_contract();
    let alice = "alice.near".to_string();
    assert_eq!(c.withdraw_nft_owner(9, &alice).unwrap_err(), LoanError::NotFound);
}

#[test]
fn admin_toggles_minting() {
    let mut c = new_contract();
    assert!(c.is_ntv_enable());
    let admin = "admin.near".to_string();
    assert_eq!(c.minting_ntv(false, &admin), Ok(false));
    assert!(!c.is_ntv_enable());
    assert_eq!(c.minting_ntv(true, &admin), Ok(true));
    assert!(c.is_ntv_enable());
}

#[test]
fn admin_check_on_minting_toggle() {
    let mut c = new_contract();
    let mallory = "mallory.near".to_string();
    assert_eq!(c.minting_ntv(false, &mallory), Err(LoanError::Unauthorized));
    assert!(c.is_ntv_enable());
}

#[test]
fn admin_sets_multiplier() {
    let mut c = new_contract();
    let admin = "admin.near".to_string();
    assert_eq!(c.multiply_ntv(7, &admin), Ok(7));
    assert_eq!(c.ntv_multiply, 7);
    let mallory = "mallory.near".to_string();
    assert_eq!(c.multiply_ntv(9, &mallory), Err(LoanError::Unauthorized));
    assert_eq!(c.ntv_multiply, 7);
}

#[test]
fn ath_tracks_highest_funding() {
    let mut c = new_contract();
    deposit(&mut c, "alice.near", "token-1", 5000, 7);
    deposit(&mut c, "alice.near", "token-2", 1000, 8);
    let bob = "bob.near".to_string();
    c.loan_for_nft(0, &bob, 5000, 100).unwrap();
    assert_eq!(c.loan_current_ath, 5000);
    c.loan_for_nft(1, &bob, 1000, 200).unwrap();
    // a smaller funding does not lower the all-time high
    assert_eq!(c.loan_current_ath, 5000);
    assert_eq!(c.total_amount_lent, 6000);
    assert_eq!(c.loans_active, 2);
}
