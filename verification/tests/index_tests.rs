//! Tests of the account indices, the query surface and the metrics.

use nft_loans::{AccountIndex, IndexError, LoanStatus, Metrics, MsgInput, NFTLoans};

fn new_contract() -> NFTLoans {
    NFTLoans::new(
        "admin.near".to_string(),
        "treasury.near".to_string(),
        800,
        200,
    )
}

fn deposit(c: &mut NFTLoans, depositor: &str, token: &str, principal: u128, now: u64) -> u64 {
    c.nft_on_transfer(
        depositor.to_string(),
        "nft.near".to_string(),
        token.to_string(),
        Some(MsgInput { description: Some(format!("loan for {}", token)), loan_amount_requested: principal }),
        now,
    )
    .unwrap()
}

#[test]
fn account_index_add_remove_query() {
    let mut ix = AccountIndex::new();
    let alice = "alice.near".to_string();
    let bob = "bob.near".to_string();
    ix.add(&alice, 3);
    ix.add(&alice, 1);
    ix.add(&bob, 2);
    // insertion order is kept
    assert_eq!(ix.query(&alice, 0, 50), vec![3, 1]);
    assert_eq!(ix.query(&bob, 0, 50), vec![2]);
    assert_eq!(ix.supply(&alice), 2);
    // adding an id a second time changes nothing
    ix.add(&alice, 3);
    assert_eq!(ix.query(&alice, 0, 50), vec![3, 1]);
    // removal keeps the order of the rest
    assert_eq!(ix.remove(&alice, 3), Ok(()));
    assert_eq!(ix.query(&alice, 0, 50), vec![1]);
    // removing the last id prunes the account
    assert_eq!(ix.remove(&alice, 1), Ok(()));
    assert_eq!(ix.supply(&alice), 0);
    assert_eq!(ix.query(&alice, 0, 50), Vec::<u64>::new());
    assert_eq!(ix.query(&bob, 0, 50), vec![2]);
}

#[test]
fn account_index_remove_not_owned() {
    let mut ix = AccountIndex::new();
    let alice = "alice.near".to_string();
    let bob = "bob.near".to_string();
    ix.add(&alice, 1);
    assert_eq!(ix.remove(&alice, 2), Err(IndexError::NotOwned));
    assert_eq!(ix.remove(&bob, 1), Err(IndexError::NotOwned));
    assert_eq!(ix.query(&alice, 0, 50), vec![1]);
}

#[test]
fn account_index_query_pagination() {
    let mut ix = AccountIndex::new();
    let alice = "alice.near".to_string();
    for id in 0..10u64 {
        ix.add(&alice, id);
    }
    assert_eq!(ix.query(&alice, 0, 3), vec![0, 1, 2]);
    assert_eq!(ix.query(&alice, 8, 5), vec![8, 9]);
    assert_eq!(ix.query(&alice, 10, 5), Vec::<u64>::new());
    assert_eq!(ix.query(&alice, 0, 0), Vec::<u64>::new());
}

#[test]
fn indices_follow_roles_through_lifecycle() {
    // After a mixed add/remove history, a queried id always names a record
    // whose role field is exactly the queried account.
    let mut c = new_contract();
    deposit(&mut c, "alice.near", "token-1", 1000, 1); // id 0: stays Pending
    deposit(&mut c, "alice.near", "token-2", 2000, 2); // id 1: funded, repaid
    deposit(&mut c, "carol.near", "token-3", 3000, 3); // id 2: funded, expires
    deposit(&mut c, "carol.near", "token-4", 4000, 4); // id 3: canceled
    let bob = "bob.near".to_string();
    c.loan_for_nft(1, &bob, 2000, 100).unwrap();
    c.loan_for_nft(2, &bob, 3000, 100).unwrap();
    let alice = "alice.near".to_string();
    c.pay_loan(1, &alice, 2160, 200).unwrap();
    let carol = "carol.near".to_string();
    c.withdraw_nft_owner(3, &carol).unwrap();
    let deadline = 100 + c.payment_period;
    c.withdraw_nft_loaner(2, &bob, deadline).unwrap();

    // alice keeps her pending and her repaid loan
    let for_alice = c.loans_for_owner(&alice, None, None);
    let ids: Vec<u64> = for_alice.iter().map(|o| o.id).collect();
    assert_eq!(ids, vec![0, 1]);
    for out in &for_alice {
        assert_eq!(out.loan.nft_owner, "alice.near");
        assert!(out.loan.status != LoanStatus::Canceled);
        assert!(out.loan.status != LoanStatus::Expired);
    }
    // carol's canceled and expired loans left her index
    assert_eq!(c.loan_supply_for_owner(&carol), 0);
    assert!(c.loans_for_owner(&carol, None, None).is_empty());
    // bob keeps the repaid loan, the expired one left his index
    let for_bob = c.loans_for_lender(&bob, None, None);
    assert_eq!(for_bob.len(), 1);
    assert_eq!(for_bob[0].id, 1);
    assert_eq!(for_bob[0].loan.loaner_id, Some("bob.near".to_string()));
    assert_eq!(for_bob[0].loan.status, LoanStatus::Payed);
    // the records themselves are all retained
    assert_eq!(c.get_last_loan(), 4);
    assert_eq!(c.get_nft_loan(2).unwrap().loan.status, LoanStatus::Expired);
    assert_eq!(c.get_nft_loan(3).unwrap().loan.status, LoanStatus::Canceled);
}

#[test]
fn list_all_loans_paged() {
    let mut c = new_contract();
    for k in 0..5u64 {
        deposit(&mut c, "alice.near", &format!("token-{}", k), 1000 + k as u128, k);
    }
    let all = c.get_nfts_for_loan(None, None);
    assert_eq!(all.len(), 5);
    for (k, out) in all.iter().enumerate() {
        assert_eq!(out.id, k as u64);
        assert_eq!(out.loan.loan_requested, 1000 + k as u128);
    }
    let middle = c.get_nfts_for_loan(Some(1), Some(2));
    assert_eq!(middle.len(), 2);
    assert_eq!(middle[0].id, 1);
    assert_eq!(middle[1].id, 2);
    let tail = c.get_nfts_for_loan(Some(4), Some(50));
    assert_eq!(tail.len(), 1);
    assert_eq!(tail[0].id, 4);
    assert!(c.get_nfts_for_loan(Some(5), None).is_empty());
}

#[test]
fn loans_for_owner_paged() {
    let mut c = new_contract();
    for k in 0..4u64 {
        deposit(&mut c, "alice.near", &format!("token-{}", k), 1000, k);
    }
    let alice = "alice.near".to_string();
    assert_eq!(c.loan_supply_for_owner(&alice), 4);
    let page = c.loans_for_owner(&alice, Some(1), Some(2));
    assert_eq!(page.len(), 2);
    assert_eq!(page[0].id, 1);
    assert_eq!(page[1].id, 2);
    let nobody = "nobody.near".to_string();
    assert!(c.loans_for_owner(&nobody, None, None).is_empty());
    assert_eq!(c.loan_supply_for_owner(&nobody), 0);
}

#[test]
fn lender_index_tracks_funding() {
    let mut c = new_contract();
    deposit(&mut c, "alice.near", "token-1", 1000, 1);
    deposit(&mut c, "alice.near", "token-2", 2000, 2);
    let bob = "bob.near".to_string();
    assert_eq!(c.loan_supply_for_lender(&bob), 0);
    c.loan_for_nft(0, &bob, 1000, 100).unwrap();
    c.loan_for_nft(1, &bob, 2000, 150).unwrap();
    assert_eq!(c.loan_supply_for_lender(&bob), 2);
    let lent = c.loans_for_lender(&bob, None, None);
    assert_eq!(lent.len(), 2);
    assert_eq!(lent[0].id, 0);
    assert_eq!(lent[1].id, 1);
}

#[test]
fn metrics_reflect_state() {
    let mut c = new_contract();
    assert_eq!(
        c.get_loans_metrics(),
        Metrics {
            total_loans: 0,
            total_loans_active: 0,
            total_amount_payed: 0,
            ntv_status: true,
            ntv_multiply: 3,
            total_amount_lent: 0,
            loan_current_ath: 0,
        }
    );
    deposit(&mut c, "alice.near", "token-1", 1000, 7);
    let bob = "bob.near".to_string();
    c.loan_for_nft(0, &bob, 1000, 100).unwrap();
    let alice = "alice.near".to_string();
    c.pay_loan(0, &alice, 1080, 200).unwrap();
    assert_eq!(
        c.get_loans_metrics(),
        Metrics {
            total_loans: 1,
            total_loans_active: 0,
            total_amount_payed: 1080,
            ntv_status: true,
            ntv_multiply: 3,
            total_amount_lent: 1000,
            loan_current_ath: 1000,
        }
    );
}

#[test]
fn contract_getters() {
    let c = new_contract();
    assert_eq!(c.get_contract_interest(), 800);
    assert_eq!(c.get_last_loan(), 0);
    assert!(c.get_nft_loan(0).is_none());
}

#[test]
fn description_is_kept() {
    let mut c = new_contract();
    deposit(&mut c, "alice.near", "token-1", 1000, 7);
    assert_eq!(
        c.get_nft_loan(0).unwrap().loan.description,
        Some("loan for token-1".to_string())
    );
}
