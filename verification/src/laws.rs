//! Laws of the lifecycle state machine, stated over the same spec model
//! the operations' contracts use and proved from it: single funding,
//! deadline-bounded repayment and default claims, and the agreement of
//! the account indices with the record store.

use vstd::prelude::*;
use crate::metadata::{LoanError, LoanStatus};
use crate::state::{NFTLoans, funded_view, with_status, owner_tracked, lender_tracked};

verus! {

/// Law: a loan can be funded only once.  After a successful funding of
/// `loan_id` — that is, in any state whose records carry the funded record
/// at that id — every further funding attempt on the same id, by any
/// caller with any attached amount, is refused with `InvalidState`.
pub proof fn lemma_funded_only_once(
    pre: NFTLoans,
    post: NFTLoans,
    loan_id: u64,
    lender: Seq<char>,
    now: u64,
    signer2: Seq<char>,
    deposit2: u128,
)
    requires
        loan_id < pre.loans().len(),
        post.loans() == pre.loans().update(
            loan_id as int,
            funded_view(pre.loans()[loan_id as int], lender, now, pre.payment_period),
        ),
    ensures
        post.fund_outcome(loan_id, signer2, deposit2) == Some(LoanError::InvalidState),
{
    assert(post.loans()[loan_id as int].status == LoanStatus::Loaned);
}

/// Law: a repayment of a loaned loan by its collateral owner, attaching
/// exactly the payback amount, succeeds whenever it arrives at or before
/// the deadline — a repayment exactly at the deadline still succeeds.
pub proof fn lemma_repay_in_window_succeeds(s: NFTLoans, loan_id: u64, now: u64)
    requires
        loan_id < s.loans().len(),
        s.loans()[loan_id as int].status == LoanStatus::Loaned,
        now <= s.loans()[loan_id as int].loan_deadline->0,
    ensures
        s.pay_outcome(
            loan_id,
            s.loans()[loan_id as int].nft_owner,
            s.loans()[loan_id as int].loan_payback,
            now,
        ) is None,
{
}

/// Law: no repayment attempt on a loaned loan succeeds strictly after the
/// deadline, whoever calls and whatever is attached; and where the amount
/// and the caller are right, the refusal is precisely `DeadlineExpired`.
pub proof fn lemma_repay_after_deadline_fails(
    s: NFTLoans,
    loan_id: u64,
    now: u64,
    signer: Seq<char>,
    deposit: u128,
)
    requires
        loan_id < s.loans().len(),
        s.loans()[loan_id as int].status == LoanStatus::Loaned,
        now > s.loans()[loan_id as int].loan_deadline->0,
    ensures
        s.pay_outcome(loan_id, signer, deposit, now) is Some,
        deposit == s.loans()[loan_id as int].loan_payback && signer
            == s.loans()[loan_id as int].nft_owner ==> s.pay_outcome(loan_id, signer, deposit, now)
            == Some(LoanError::DeadlineExpired),
{
}

/// Law: a repayment succeeds at most once.  After a successful repayment
/// of `loan_id` — in any state whose records carry that id as `Payed` —
/// every further repayment attempt on the same id is refused with
/// `InvalidState`.
pub proof fn lemma_repay_only_once(
    pre: NFTLoans,
    post: NFTLoans,
    loan_id: u64,
    signer2: Seq<char>,
    deposit2: u128,
    now2: u64,
)
    requires
        loan_id < pre.loans().len(),
        post.loans() == pre.loans().update(
            loan_id as int,
            with_status(pre.loans()[loan_id as int], LoanStatus::Payed),
        ),
    ensures
        post.pay_outcome(loan_id, signer2, deposit2, now2) == Some(LoanError::InvalidState),
{
    assert(post.loans()[loan_id as int].status == LoanStatus::Payed);
}

/// Law: no default claim on a loaned loan succeeds strictly before the
/// deadline: whoever calls is refused with `DeadlineNotReached`.
pub proof fn lemma_claim_before_deadline_fails(
    s: NFTLoans,
    loan_id: u64,
    now: u64,
    signer: Seq<char>,
)
    requires
        loan_id < s.loans().len(),
        s.loans()[loan_id as int].status == LoanStatus::Loaned,
        now < s.loans()[loan_id as int].loan_deadline->0,
    ensures
        s.claim_outcome(loan_id, signer, now) == Some(LoanError::DeadlineNotReached),
{
}

/// Law: the terminal states are final.  A loan that is `Payed`, `Expired`
/// or `Canceled` admits no transition at all: funding, repayment,
/// cancellation and default claims are all refused with `InvalidState`,
/// whoever calls, whatever is attached, whenever.
pub proof fn lemma_terminal_states_are_final(
    s: NFTLoans,
    loan_id: u64,
    signer: Seq<char>,
    deposit: u128,
    now: u64,
)
    requires
        loan_id < s.loans().len(),
        s.loans()[loan_id as int].status == LoanStatus::Payed || s.loans()[loan_id as int].status
            == LoanStatus::Expired || s.loans()[loan_id as int].status == LoanStatus::Canceled,
    ensures
        s.fund_outcome(loan_id, signer, deposit) == Some(LoanError::InvalidState),
        s.pay_outcome(loan_id, signer, deposit, now) == Some(LoanError::InvalidState),
        s.cancel_outcome(loan_id, signer) == Some(LoanError::InvalidState),
        s.claim_outcome(loan_id, signer, now) == Some(LoanError::InvalidState),
{
}

/// Law: the owner index never disagrees with the record store.  In every
/// well-formed state, an id listed for account `a` names an existing
/// record whose collateral owner is exactly `a` and that is still tracked
/// (neither canceled nor expired).  Every lifecycle operation ends in a
/// well-formed state, so this holds after any sequence of them.
pub proof fn lemma_owner_index_consistent(s: NFTLoans, a: Seq<char>, id: u64)
    requires
        s.wf(),
        s.owner_ids(a).contains(id),
    ensures
        id < s.loans().len(),
        s.loans()[id as int].nft_owner == a,
        owner_tracked(s.loans()[id as int].status),
{
}

/// Law: the lender index never disagrees with the record store.  In every
/// well-formed state, an id listed for account `a` names an existing
/// record whose lender is exactly `a` and that is still tracked (funded
/// and not expired).
pub proof fn lemma_lender_index_consistent(s: NFTLoans, a: Seq<char>, id: u64)
    requires
        s.wf(),
        s.lender_ids(a).contains(id),
    ensures
        id < s.loans().len(),
        s.loans()[id as int].loaner_id == Some(a),
        lender_tracked(s.loans()[id as int].status),
{
}

} // verus!
