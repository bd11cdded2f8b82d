//! The lifecycle state machine and its state: the loan record store, the
//! two per-account indices, the aggregate metrics and the configuration.
//!
//! Each public operation is one atomic unit of work: it checks every guard
//! before the first state mutation, and either fails with a named error
//! and an unchanged state, or commits the whole transition and returns the
//! settlement requests the host must submit.  The host supplies the
//! ambient facts of a call (caller account, attached amount, current time)
//! as plain arguments.

use vstd::prelude::*;
use crate::calc::{
    payback_spec, owner_payout_spec, treasury_cut_spec, payback_for, owner_payout, treasury_cut,
};
use crate::index::{AccountIndex, lemma_remove_value_unique};
use crate::metadata::{
    Loan, LoanError, LoanStatus, LoanView, MsgInput, MsgInputView, loan_wf,
};
use crate::settlement::{ActionView, SettlementAction, actions_view};

verus! {

/// Payment period a fresh contract starts with: seven days, in nanoseconds.
pub const DEFAULT_PAYMENT_PERIOD: u64 = 1_000_000_000 * 60 * 60 * 24 * 7;

/// Reward multiplier a fresh contract starts with.
pub const DEFAULT_NTV_MULTIPLY: u128 = 3;

/// The memo attached to every collateral-asset transfer request.
pub open spec fn withdraw_memo() -> Seq<char> {
    "Withdraw of NFT from Nativo Loans"@
}

/// The whole contract state.
pub struct NFTLoans {
    /// Account allowed to run the admin operations.
    pub owner_account_id: String,
    /// Account that receives the funding fee.
    pub treasury_account_id: String,
    /// Next loan id; equals the number of loans ever created.
    pub last_loan_id: u64,
    /// Interest rate in basis points, fixed at construction.
    pub contract_interest: u64,
    /// The record store: the loan with id `i` lives at position `i`.
    /// Records are never deleted; terminal loans stay queryable forever.
    pub loans_by_id: Vec<Loan>,
    /// Loan ids per collateral owner.
    pub loans_per_owner: AccountIndex,
    /// Loan ids per lender.
    pub loans_per_lender: AccountIndex,
    /// Cumulative amount lent out.
    pub total_amount_lent: u128,
    /// Cumulative amount received as repayments.
    pub total_amount_payed: u128,
    /// Multiplier applied to funded amounts when minting reward tokens.
    pub ntv_multiply: u128,
    /// Length of the repayment window.
    pub payment_period: u64,
    /// Fee rate in basis points, at most 10000, fixed at construction.
    pub contract_fee: u64,
    /// Whether reward-token minting is enabled.
    pub is_minting_ntv: bool,
    /// Highest single funding amount observed.
    pub loan_current_ath: u128,
    /// Number of loans currently in `Loaned` status.
    pub loans_active: u128,
}

/// 1 if the loan is currently `Loaned`, else 0.
pub open spec fn loaned_one(l: LoanView) -> int {
    if l.status == LoanStatus::Loaned {
        1
    } else {
        0
    }
}

/// How many loans of `s` are currently `Loaned`.
pub open spec fn count_loaned(s: Seq<LoanView>) -> int
    decreases s.len(),
{
    if s.len() == 0 {
        0
    } else {
        count_loaned(s.drop_last()) + loaned_one(s.last())
    }
}

/// The count of `Loaned` loans lies between 0 and the number of loans.
pub proof fn lemma_count_loaned_bounds(s: Seq<LoanView>)
    ensures
        0 <= count_loaned(s) <= s.len(),
    decreases s.len(),
{
    if s.len() > 0 {
        lemma_count_loaned_bounds(s.drop_last());
    }
}

/// Replacing one loan changes the count of `Loaned` loans exactly by the
/// difference the replacement makes at that position.
pub proof fn lemma_count_loaned_update(s: Seq<LoanView>, i: int, l: LoanView)
    requires
        0 <= i < s.len(),
    ensures
        count_loaned(s.update(i, l)) == count_loaned(s) - loaned_one(s[i]) + loaned_one(l),
    decreases s.len(),
{
    let s2 = s.update(i, l);
    if i == s.len() - 1 {
        assert(s2.drop_last() =~= s.drop_last());
        assert(s2.last() == l);
    } else {
        assert(s2.drop_last() =~= s.drop_last().update(i, l));
        assert(s2.last() == s.last());
        lemma_count_loaned_update(s.drop_last(), i, l);
    }
}

/// A sequence with a `Loaned` loan at some position counts at least one.
pub proof fn lemma_count_loaned_positive(s: Seq<LoanView>, i: int)
    requires
        0 <= i < s.len(),
        s[i].status == LoanStatus::Loaned,
    ensures
        count_loaned(s) >= 1,
    decreases s.len(),
{
    if i == s.len() - 1 {
        lemma_count_loaned_bounds(s.drop_last());
    } else {
        lemma_count_loaned_positive(s.drop_last(), i);
    }
}

/// Appending a loan adds its own contribution to the count.
pub proof fn lemma_count_loaned_push(s: Seq<LoanView>, l: LoanView)
    ensures
        count_loaned(s.push(l)) == count_loaned(s) + loaned_one(l),
{
    assert(s.push(l).drop_last() =~= s);
    assert(s.push(l).last() == l);
}

/// Whether a loan in status `st` is still tracked by the owner index:
/// entries are removed only on cancellation and on expiry.
pub open spec fn owner_tracked(st: LoanStatus) -> bool {
    st != LoanStatus::Canceled && st != LoanStatus::Expired
}

/// Whether a loan in status `st` is still tracked by the lender index:
/// an entry appears on funding and is removed only on expiry.
pub open spec fn lender_tracked(st: LoanStatus) -> bool {
    st == LoanStatus::Loaned || st == LoanStatus::Payed
}

/// The record a freshly accepted deposit creates.
pub open spec fn created_view(
    depositor: Seq<char>,
    asset_contract: Seq<char>,
    asset_id: Seq<char>,
    m: MsgInputView,
    interest_bps: u64,
    now: u64,
) -> LoanView {
    LoanView {
        nft_owner: depositor,
        nft_contract: asset_contract,
        nft_id: asset_id,
        description: m.description,
        loan_requested: m.loan_amount_requested,
        loan_payback: payback_spec(m.loan_amount_requested as int, interest_bps as int) as u128,
        status: LoanStatus::Pending,
        submission_time: now,
        loan_time: None,
        loan_deadline: None,
        loaner_id: None,
    }
}

/// The record after funding: status `Loaned`, the lender and the window
/// recorded, everything else untouched.
pub open spec fn funded_view(l: LoanView, lender: Seq<char>, now: u64, period: u64) -> LoanView {
    LoanView {
        status: LoanStatus::Loaned,
        loaner_id: Some(lender),
        loan_time: Some(now),
        loan_deadline: Some((now + period) as u64),
        ..l
    }
}

/// The record with only its status replaced.
pub open spec fn with_status(l: LoanView, st: LoanStatus) -> LoanView {
    LoanView { status: st, ..l }
}

impl NFTLoans {
    /// The record store as a sequence of loan views; the id is the position.
    pub open spec fn loans(self) -> Seq<LoanView> {
        self.loans_by_id@.map_values(|l: Loan| l@)
    }

    /// The loan ids recorded for collateral owner `a`, in insertion order.
    pub open spec fn owner_ids(self, a: Seq<char>) -> Seq<u64> {
        self.loans_per_owner.ids_of(a)
    }

    /// The loan ids recorded for lender `a`, in insertion order.
    pub open spec fn lender_ids(self, a: Seq<char>) -> Seq<u64> {
        self.loans_per_lender.ids_of(a)
    }

    /// The configuration fields no lifecycle operation may change.
    pub open spec fn same_config(self, post: NFTLoans) -> bool {
        &&& post.owner_account_id@ == self.owner_account_id@
        &&& post.treasury_account_id@ == self.treasury_account_id@
        &&& post.contract_interest == self.contract_interest
        &&& post.contract_fee == self.contract_fee
        &&& post.payment_period == self.payment_period
        &&& post.ntv_multiply == self.ntv_multiply
        &&& post.is_minting_ntv == self.is_minting_ntv
    }

    /// Well-formedness of the whole state.
    ///
    /// Beyond the well-formedness of each record and of both indices, this
    /// carries the two central consistency invariants: the active-loan
    /// counter equals the number of `Loaned` records, and each index lists
    /// exactly the ids whose record names that account in the matching
    /// role and is still tracked there.
    pub open spec fn wf(self) -> bool {
        &&& self.contract_fee <= 10000
        &&& self.last_loan_id == self.loans().len()
        &&& self.loans_per_owner.wf()
        &&& self.loans_per_lender.wf()
        &&& self.loans_active == count_loaned(self.loans())
        &&& forall|i: int|
            0 <= i < self.loans().len() ==> loan_wf(#[trigger] self.loans()[i], self.payment_period)
        &&& forall|a: Seq<char>, id: u64| #[trigger]
            self.owner_ids(a).contains(id) ==> {
                &&& id < self.loans().len()
                &&& self.loans()[id as int].nft_owner == a
                &&& owner_tracked(self.loans()[id as int].status)
            }
        &&& forall|i: int|
            0 <= i < self.loans().len() && owner_tracked(#[trigger] self.loans()[i].status)
                ==> self.owner_ids(self.loans()[i].nft_owner).contains(i as u64)
        &&& forall|a: Seq<char>, id: u64| #[trigger]
            self.lender_ids(a).contains(id) ==> {
                &&& id < self.loans().len()
                &&& self.loans()[id as int].loaner_id == Some(a)
                &&& lender_tracked(self.loans()[id as int].status)
            }
        &&& forall|i: int|
            0 <= i < self.loans().len() && lender_tracked(#[trigger] self.loans()[i].status)
                ==> self.loans()[i].loaner_id is Some && self.lender_ids(
                self.loans()[i].loaner_id->0,
            ).contains(i as u64)
    }

    /// Well-formedness only reads the records, the indices, the active-loan
    /// counter, the id counter, the fee rate and the payment period: a state
    /// that agrees with a well-formed one on those is well-formed.
    pub proof fn lemma_wf_same_core(self, post: NFTLoans)
        requires
            self.wf(),
            post.loans_by_id == self.loans_by_id,
            post.loans_per_owner == self.loans_per_owner,
            post.loans_per_lender == self.loans_per_lender,
            post.loans_active == self.loans_active,
            post.last_loan_id == self.last_loan_id,
            post.contract_fee == self.contract_fee,
            post.payment_period == self.payment_period,
        ensures
            post.wf(),
    {
        assert(post.loans() == self.loans());
        assert forall|a: Seq<char>, id: u64| #[trigger] post.owner_ids(a).contains(id) implies {
            &&& id < post.loans().len()
            &&& post.loans()[id as int].nft_owner == a
            &&& owner_tracked(post.loans()[id as int].status)
        } by {
            assert(self.owner_ids(a).contains(id));
        }
        assert forall|i: int|
            0 <= i < post.loans().len() && owner_tracked(
                #[trigger] post.loans()[i].status,
            ) implies post.owner_ids(post.loans()[i].nft_owner).contains(i as u64) by {
            assert(self.owner_ids(self.loans()[i].nft_owner).contains(i as u64));
        }
        assert forall|a: Seq<char>, id: u64| #[trigger] post.lender_ids(a).contains(id) implies {
            &&& id < post.loans().len()
            &&& post.loans()[id as int].loaner_id == Some(a)
            &&& lender_tracked(post.loans()[id as int].status)
        } by {
            assert(self.lender_ids(a).contains(id));
        }
        assert forall|i: int|
            0 <= i < post.loans().len() && lender_tracked(
                #[trigger] post.loans()[i].status,
            ) implies post.loans()[i].loaner_id is Some && post.lender_ids(
            post.loans()[i].loaner_id->0,
        ).contains(i as u64) by {
            assert(self.lender_ids(self.loans()[i].loaner_id->0).contains(i as u64));
        }
    }

    /// Initializes a fresh contract with no loans, the default payment
    /// period and reward multiplier, and reward minting enabled.
    pub fn new(
        owner_account_id: String,
        treasury_account_id: String,
        contract_interest: u64,
        contract_fee: u64,
    ) -> (r: NFTLoans)
        requires
            contract_fee <= 10000,
        ensures
            r.wf(),
            r.owner_account_id@ == owner_account_id@,
            r.treasury_account_id@ == treasury_account_id@,
            r.contract_interest == contract_interest,
            r.contract_fee == contract_fee,
            r.last_loan_id == 0,
            r.loans() == Seq::<LoanView>::empty(),
            forall|a: Seq<char>| r.owner_ids(a) == Seq::<u64>::empty(),
            forall|a: Seq<char>| r.lender_ids(a) == Seq::<u64>::empty(),
            r.total_amount_lent == 0,
            r.total_amount_payed == 0,
            r.loan_current_ath == 0,
            r.loans_active == 0,
            r.ntv_multiply == DEFAULT_NTV_MULTIPLY,
            r.payment_period == DEFAULT_PAYMENT_PERIOD,
            r.is_minting_ntv,
    {
        let r = NFTLoans {
            owner_account_id,
            treasury_account_id,
            last_loan_id: 0,
            contract_interest,
            loans_by_id: Vec::new(),
            loans_per_owner: AccountIndex::new(),
            loans_per_lender: AccountIndex::new(),
            total_amount_payed: 0,
            total_amount_lent: 0,
            loan_current_ath: 0,
            loans_active: 0,
            ntv_multiply: DEFAULT_NTV_MULTIPLY,
            payment_period: DEFAULT_PAYMENT_PERIOD,
            contract_fee,
            is_minting_ntv: true,
        };
        proof {
            assert(r.loans() =~= Seq::<LoanView>::empty());
        }
        r
    }

    /// Handles an inbound collateral-transfer notification: creates a fresh
    /// `Pending` record for the depositor `signer_id`, with the payback
    /// amount computed once from the current interest rate, and registers
    /// the new id in the owner index.  `msg` carries the decoded request
    /// message, or `None` where it could not be decoded: then the whole
    /// call is refused with `MalformedInput` and no record is created.
    /// On success the new loan's id is returned.
    pub fn nft_on_transfer(
        &mut self,
        signer_id: String,
        nft_contract: String,
        token_id: String,
        msg: Option<MsgInput>,
        now: u64,
    ) -> (r: Result<u64, LoanError>)
        requires
            old(self).wf(),
            old(self).last_loan_id < u64::MAX,
            msg matches Some(m) ==> payback_spec(
                m.loan_amount_requested as int,
                old(self).contract_interest as int,
            ) <= u128::MAX,
        ensures
            final(self).wf(),
            old(self).same_config(*final(self)),
            match r {
                Ok(id) => {
                    &&& msg is Some
                    &&& id == old(self).last_loan_id
                    &&& final(self).last_loan_id == old(self).last_loan_id + 1
                    &&& final(self).loans() == old(self).loans().push(
                        created_view(
                            signer_id@,
                            nft_contract@,
                            token_id@,
                            msg->0@,
                            old(self).contract_interest,
                            now,
                        ),
                    )
                    &&& final(self).owner_ids(signer_id@) == old(self).owner_ids(signer_id@).push(
                        id,
                    )
                    &&& forall|a: Seq<char>|
                        a != signer_id@ ==> final(self).owner_ids(a) == old(self).owner_ids(a)
                    &&& forall|a: Seq<char>| final(self).lender_ids(a) == old(self).lender_ids(a)
                    &&& final(self).loans_active == old(self).loans_active
                    &&& final(self).total_amount_lent == old(self).total_amount_lent
                    &&& final(self).total_amount_payed == old(self).total_amount_payed
                    &&& final(self).loan_current_ath == old(self).loan_current_ath
                },
                Err(e) => {
                    &&& e == LoanError::MalformedInput
                    &&& msg is None
                    &&& *final(self) == *old(self)
                },
            },
    {
        let m = match msg {
            Some(m) => m,
            None => {
                return Err(LoanError::MalformedInput);
            },
        };
        let ghost pre = *self;
        let id = self.last_loan_id;
        let payback = payback_for(m.loan_amount_requested, self.contract_interest);
        let new_loan = Loan {
            nft_owner: signer_id.clone(),
            nft_contract,
            nft_id: token_id,
            description: m.description,
            loan_requested: m.loan_amount_requested,
            loan_payback: payback,
            status: LoanStatus::Pending,
            submission_time: now,
            loan_time: None,
            loan_deadline: None,
            loaner_id: None,
        };
        let ghost lv = new_loan@;
        self.loans_by_id.push(new_loan);
        proof {
            assert(self.loans() =~= pre.loans().push(lv));
            assert(!pre.owner_ids(signer_id@).contains(id));
        }
        self.loans_per_owner.add(&signer_id, id);
        self.last_loan_id = id + 1;
        proof {
            let post = *self;
            let n = pre.loans().len() as int;
            assert(post.loans() == pre.loans().push(lv));
            lemma_count_loaned_push(pre.loans(), lv);
            crate::index::lemma_push_contains(pre.owner_ids(signer_id@), id);
            assert(post.owner_ids(signer_id@) == pre.owner_ids(signer_id@).push(id));
            assert forall|i: int|
                0 <= i < post.loans().len() implies loan_wf(
                #[trigger] post.loans()[i],
                post.payment_period,
            ) by {
                if i < n {
                    assert(post.loans()[i] == pre.loans()[i]);
                    assert(loan_wf(pre.loans()[i], pre.payment_period));
                }
            }
            assert forall|a: Seq<char>, id2: u64| #[trigger]
                post.owner_ids(a).contains(id2) implies {
                &&& id2 < post.loans().len()
                &&& post.loans()[id2 as int].nft_owner == a
                &&& owner_tracked(post.loans()[id2 as int].status)
            } by {
                if a == signer_id@ && id2 == id {
                    assert(post.loans()[id as int] == lv);
                } else {
                    assert(pre.owner_ids(a).contains(id2));
                    assert(post.loans()[id2 as int] == pre.loans()[id2 as int]);
                }
            }
            assert forall|i: int|
                0 <= i < post.loans().len() && owner_tracked(
                    #[trigger] post.loans()[i].status,
                ) implies post.owner_ids(post.loans()[i].nft_owner).contains(i as u64) by {
                if i < n {
                    assert(pre.owner_ids(pre.loans()[i].nft_owner).contains(i as u64));
                    if pre.loans()[i].nft_owner == signer_id@ {
                        assert(post.owner_ids(signer_id@).contains(i as u64));
                    }
                } else {
                    assert(post.loans()[i] == lv);
                    assert(post.owner_ids(signer_id@).contains(id));
                }
            }
            assert forall|a: Seq<char>, id2: u64| #[trigger]
                post.lender_ids(a).contains(id2) implies {
                &&& id2 < post.loans().len()
                &&& post.loans()[id2 as int].loaner_id == Some(a)
                &&& lender_tracked(post.loans()[id2 as int].status)
            } by {
                assert(pre.lender_ids(a).contains(id2));
                assert(post.loans()[id2 as int] == pre.loans()[id2 as int]);
            }
            assert forall|i: int|
                0 <= i < post.loans().len() && lender_tracked(
                    #[trigger] post.loans()[i].status,
                ) implies post.loans()[i].loaner_id is Some && post.lender_ids(
                post.loans()[i].loaner_id->0,
            ).contains(i as u64) by {
                assert(post.loans()[i] == pre.loans()[i]);
                assert(pre.lender_ids(pre.loans()[i].loaner_id->0).contains(i as u64));
            }
        }
        Ok(id)
    }

    /// The guard verdict of a funding call: the first failing guard's
    /// error, in the order the guards are checked, or `None` when every
    /// guard passes and the transition `Pending -> Loaned` is taken.
    pub open spec fn fund_outcome(self, loan_id: u64, signer: Seq<char>, deposit: u128) -> Option<
        LoanError,
    > {
        if loan_id >= self.loans().len() {
            Some(LoanError::NotFound)
        } else if self.loans()[loan_id as int].status != LoanStatus::Pending {
            Some(LoanError::InvalidState)
        } else if deposit != self.loans()[loan_id as int].loan_requested {
            Some(LoanError::AmountMismatch)
        } else if signer == self.loans()[loan_id as int].nft_owner {
            Some(LoanError::Unauthorized)
        } else {
            None
        }
    }

    /// The settlement requests a successful funding call submits: the
    /// reward minting for the lender where minting is enabled, then the
    /// owner payout and the treasury cut.
    pub open spec fn fund_actions(self, loan_id: u64, lender: Seq<char>, deposit: u128) -> Seq<
        ActionView,
    > {
        let l = self.loans()[loan_id as int];
        let payout = ActionView::TransferValue {
            to: l.nft_owner,
            amount: owner_payout_spec(l.loan_requested as int, self.contract_fee as int) as u128,
        };
        let fee = ActionView::TransferValue {
            to: self.treasury_account_id@,
            amount: treasury_cut_spec(l.loan_requested as int, self.contract_fee as int) as u128,
        };
        if self.is_minting_ntv {
            seq![
                ActionView::MintReward { to: lender, amount: (deposit * self.ntv_multiply) as u128 },
                payout,
                fee,
            ]
        } else {
            seq![payout, fee]
        }
    }

    /// Funds a pending loan: `signer_id` becomes the lender, the repayment
    /// window opens now and closes one payment period later.  The guards
    /// are checked in order — the loan exists, it is still `Pending`, the
    /// attached amount equals the principal, and the caller is not the
    /// collateral owner — and every guard is checked before the first
    /// mutation.  On success the aggregate counters are updated and the
    /// settlement requests (owner payout, treasury cut, and reward minting
    /// where enabled) are returned for the host to submit.
    pub fn loan_for_nft(
        &mut self,
        loan_id: u64,
        signer_id: &String,
        attached_deposit: u128,
        now: u64,
    ) -> (r: Result<Vec<SettlementAction>, LoanError>)
        requires
            old(self).wf(),
            old(self).total_amount_lent + attached_deposit <= u128::MAX,
            now + old(self).payment_period <= u64::MAX,
            old(self).is_minting_ntv ==> attached_deposit * old(self).ntv_multiply <= u128::MAX,
        ensures
            final(self).wf(),
            old(self).same_config(*final(self)),
            match r {
                Ok(actions) => {
                    &&& old(self).fund_outcome(loan_id, signer_id@, attached_deposit) is None
                    &&& final(self).loans() == old(self).loans().update(
                        loan_id as int,
                        funded_view(
                            old(self).loans()[loan_id as int],
                            signer_id@,
                            now,
                            old(self).payment_period,
                        ),
                    )
                    &&& final(self).last_loan_id == old(self).last_loan_id
                    &&& final(self).loans_active == old(self).loans_active + 1
                    &&& final(self).total_amount_lent == old(self).total_amount_lent
                        + attached_deposit
                    &&& final(self).total_amount_payed == old(self).total_amount_payed
                    &&& final(self).loan_current_ath == if attached_deposit > old(
                        self,
                    ).loan_current_ath {
                        attached_deposit
                    } else {
                        old(self).loan_current_ath
                    }
                    &&& final(self).lender_ids(signer_id@) == old(self).lender_ids(
                        signer_id@,
                    ).push(loan_id)
                    &&& forall|a: Seq<char>|
                        a != signer_id@ ==> final(self).lender_ids(a) == old(self).lender_ids(a)
                    &&& forall|a: Seq<char>| final(self).owner_ids(a) == old(self).owner_ids(a)
                    &&& actions_view(actions@) == old(self).fund_actions(
                        loan_id,
                        signer_id@,
                        attached_deposit,
                    )
                },
                Err(e) => {
                    &&& Some(e) == old(self).fund_outcome(loan_id, signer_id@, attached_deposit)
                    &&& *final(self) == *old(self)
                },
            },
    {
        let ghost pre = *self;
        let n = self.loans_by_id.len();
        if loan_id >= n as u64 {
            return Err(LoanError::NotFound);
        }
        let idx = loan_id as usize;
        if !(self.loans_by_id[idx].status == LoanStatus::Pending) {
            return Err(LoanError::InvalidState);
        }
        if attached_deposit != self.loans_by_id[idx].loan_requested {
            return Err(LoanError::AmountMismatch);
        }
        if *signer_id == self.loans_by_id[idx].nft_owner {
            return Err(LoanError::Unauthorized);
        }
        // Every guard passed: commit the transition.
        let payout = owner_payout(self.loans_by_id[idx].loan_requested, self.contract_fee);
        let cut = treasury_cut(self.loans_by_id[idx].loan_requested, self.contract_fee);
        let deadline = now + self.payment_period;
        self.loans_by_id[idx].status = LoanStatus::Loaned;
        self.loans_by_id[idx].loaner_id = Some(signer_id.clone());
        self.loans_by_id[idx].loan_time = Some(now);
        self.loans_by_id[idx].loan_deadline = Some(deadline);
        let ghost lv = funded_view(pre.loans()[loan_id as int], signer_id@, now, pre.payment_period);
        proof {
            assert(self.loans() =~= pre.loans().update(loan_id as int, lv));
            lemma_count_loaned_bounds(pre.loans());
        }
        self.loans_active = self.loans_active + 1;
        self.total_amount_lent = self.total_amount_lent + attached_deposit;
        if attached_deposit > self.loan_current_ath {
            self.loan_current_ath = attached_deposit;
        }
        proof {
            assert(!pre.lender_ids(signer_id@).contains(loan_id));
        }
        self.loans_per_lender.add(signer_id, loan_id);
        let mut actions: Vec<SettlementAction> = Vec::new();
        if self.is_minting_ntv {
            actions.push(
                SettlementAction::MintReward {
                    to: signer_id.clone(),
                    amount: attached_deposit * self.ntv_multiply,
                },
            );
        }
        actions.push(
            SettlementAction::TransferValue {
                to: self.loans_by_id[idx].nft_owner.clone(),
                amount: payout,
            },
        );
        actions.push(
            SettlementAction::TransferValue { to: self.treasury_account_id.clone(), amount: cut },
        );
        proof {
            let post = *self;
            let n = pre.loans().len() as int;
            assert(actions_view(actions@) =~= pre.fund_actions(
                loan_id,
                signer_id@,
                attached_deposit,
            ));
            lemma_count_loaned_update(pre.loans(), loan_id as int, lv);
            crate::index::lemma_push_contains(pre.lender_ids(signer_id@), loan_id);
            assert forall|i: int|
                0 <= i < post.loans().len() implies loan_wf(
                #[trigger] post.loans()[i],
                post.payment_period,
            ) by {
                if i != loan_id {
                    assert(post.loans()[i] == pre.loans()[i]);
                    assert(loan_wf(pre.loans()[i], pre.payment_period));
                }
            }
            assert forall|a: Seq<char>, id2: u64| #[trigger]
                post.owner_ids(a).contains(id2) implies {
                &&& id2 < post.loans().len()
                &&& post.loans()[id2 as int].nft_owner == a
                &&& owner_tracked(post.loans()[id2 as int].status)
            } by {
                assert(pre.owner_ids(a).contains(id2));
                if id2 != loan_id {
                    assert(post.loans()[id2 as int] == pre.loans()[id2 as int]);
                }
            }
            assert forall|i: int|
                0 <= i < post.loans().len() && owner_tracked(
                    #[trigger] post.loans()[i].status,
                ) implies post.owner_ids(post.loans()[i].nft_owner).contains(i as u64) by {
                if i != loan_id {
                    assert(post.loans()[i] == pre.loans()[i]);
                }
                assert(pre.owner_ids(pre.loans()[i].nft_owner).contains(i as u64));
            }
            assert forall|a: Seq<char>, id2: u64| #[trigger]
                post.lender_ids(a).contains(id2) implies {
                &&& id2 < post.loans().len()
                &&& post.loans()[id2 as int].loaner_id == Some(a)
                &&& lender_tracked(post.loans()[id2 as int].status)
            } by {
                if a == signer_id@ {
                    if id2 == loan_id {
                        assert(post.loans()[loan_id as int] == lv);
                    } else {
                        assert(pre.lender_ids(a).contains(id2));
                        assert(post.loans()[id2 as int] == pre.loans()[id2 as int]);
                    }
                } else {
                    assert(pre.lender_ids(a).contains(id2));
                    assert(id2 != loan_id);
                    assert(post.loans()[id2 as int] == pre.loans()[id2 as int]);
                }
            }
            assert forall|i: int|
                0 <= i < post.loans().len() && lender_tracked(
                    #[trigger] post.loans()[i].status,
                ) implies post.loans()[i].loaner_id is Some && post.lender_ids(
                post.loans()[i].loaner_id->0,
            ).contains(i as u64) by {
                if i == loan_id {
                    assert(post.loans()[i] == lv);
                    assert(post.lender_ids(signer_id@).contains(loan_id));
                } else {
                    assert(post.loans()[i] == pre.loans()[i]);
                    assert(pre.lender_ids(pre.loans()[i].loaner_id->0).contains(i as u64));
                }
            }
        }
        Ok(actions)
    }

    /// The guard verdict of a repayment call: the first failing guard's
    /// error, in the order the guards are checked, or `None` when every
    /// guard passes and the transition `Loaned -> Payed` is taken.  A
    /// repayment exactly at the deadline still succeeds; one strictly
    /// after it is refused with `DeadlineExpired`.
    pub open spec fn pay_outcome(
        self,
        loan_id: u64,
        signer: Seq<char>,
        deposit: u128,
        now: u64,
    ) -> Option<LoanError> {
        if loan_id >= self.loans().len() {
            Some(LoanError::NotFound)
        } else if self.loans()[loan_id as int].status != LoanStatus::Loaned {
            Some(LoanError::InvalidState)
        } else if deposit != self.loans()[loan_id as int].loan_payback {
            Some(LoanError::AmountMismatch)
        } else if signer != self.loans()[loan_id as int].nft_owner {
            Some(LoanError::Unauthorized)
        } else if now > self.loans()[loan_id as int].loan_deadline->0 {
            Some(LoanError::DeadlineExpired)
        } else {
            None
        }
    }

    /// The settlement requests a successful repayment submits: the payback
    /// forwarded to the lender, the reward minting for the payer where
    /// minting is enabled, and the collateral returned to its owner.
    pub open spec fn pay_actions(self, loan_id: u64, deposit: u128) -> Seq<ActionView> {
        let l = self.loans()[loan_id as int];
        let forward = ActionView::TransferValue { to: l.loaner_id->0, amount: deposit };
        let back = ActionView::TransferAsset {
            asset_contract: l.nft_contract,
            asset_id: l.nft_id,
            to: l.nft_owner,
            memo: withdraw_memo(),
        };
        if self.is_minting_ntv {
            seq![
                forward,
                ActionView::MintReward {
                    to: l.nft_owner,
                    amount: (deposit * self.ntv_multiply) as u128,
                },
                back,
            ]
        } else {
            seq![forward, back]
        }
    }

    /// Repays a loaned loan: the collateral owner attaches exactly the
    /// payback amount no later than the deadline.  The guards are checked
    /// in order — the loan exists, it is `Loaned`, the attached amount
    /// equals the payback amount, the caller is the collateral owner, and
    /// the deadline has not passed — all before the first mutation.  On
    /// success the payback is forwarded to the lender, reward tokens are
    /// minted for the payer where enabled, and the collateral is returned.
    pub fn pay_loan(
        &mut self,
        loan_id: u64,
        signer_id: &String,
        attached_deposit: u128,
        now: u64,
    ) -> (r: Result<Vec<SettlementAction>, LoanError>)
        requires
            old(self).wf(),
            old(self).total_amount_payed + attached_deposit <= u128::MAX,
            old(self).is_minting_ntv ==> attached_deposit * old(self).ntv_multiply <= u128::MAX,
        ensures
            final(self).wf(),
            old(self).same_config(*final(self)),
            match r {
                Ok(actions) => {
                    &&& old(self).pay_outcome(loan_id, signer_id@, attached_deposit, now) is None
                    &&& final(self).loans() == old(self).loans().update(
                        loan_id as int,
                        with_status(old(self).loans()[loan_id as int], LoanStatus::Payed),
                    )
                    &&& final(self).last_loan_id == old(self).last_loan_id
                    &&& final(self).loans_active == old(self).loans_active - 1
                    &&& final(self).total_amount_payed == old(self).total_amount_payed
                        + attached_deposit
                    &&& final(self).total_amount_lent == old(self).total_amount_lent
                    &&& final(self).loan_current_ath == old(self).loan_current_ath
                    &&& forall|a: Seq<char>| final(self).owner_ids(a) == old(self).owner_ids(a)
                    &&& forall|a: Seq<char>| final(self).lender_ids(a) == old(self).lender_ids(a)
                    &&& actions_view(actions@) == old(self).pay_actions(loan_id, attached_deposit)
                },
                Err(e) => {
                    &&& Some(e) == old(self).pay_outcome(loan_id, signer_id@, attached_deposit, now)
                    &&& *final(self) == *old(self)
                },
            },
    {
        let ghost pre = *self;
        let n = self.loans_by_id.len();
        if loan_id >= n as u64 {
            return Err(LoanError::NotFound);
        }
        let idx = loan_id as usize;
        if !(self.loans_by_id[idx].status == LoanStatus::Loaned) {
            return Err(LoanError::InvalidState);
        }
        if attached_deposit != self.loans_by_id[idx].loan_payback {
            return Err(LoanError::AmountMismatch);
        }
        if !(*signer_id == self.loans_by_id[idx].nft_owner) {
            return Err(LoanError::Unauthorized);
        }
        proof {
            assert(loan_wf(pre.loans()[loan_id as int], pre.payment_period));
        }
        let deadline = match self.loans_by_id[idx].loan_deadline {
            Some(d) => d,
            None => unreached(),
        };
        if now > deadline {
            return Err(LoanError::DeadlineExpired);
        }
        // Every guard passed: commit the transition.
        proof {
            lemma_count_loaned_positive(pre.loans(), loan_id as int);
        }
        self.loans_active = self.loans_active - 1;
        self.total_amount_payed = self.total_amount_payed + attached_deposit;
        let loaner = match &self.loans_by_id[idx].loaner_id {
            Some(l) => l.clone(),
            None => unreached(),
        };
        let mut actions: Vec<SettlementAction> = Vec::new();
        actions.push(SettlementAction::TransferValue { to: loaner, amount: attached_deposit });
        if self.is_minting_ntv {
            actions.push(
                SettlementAction::MintReward {
                    to: signer_id.clone(),
                    amount: attached_deposit * self.ntv_multiply,
                },
            );
        }
        actions.push(
            SettlementAction::TransferAsset {
                asset_contract: self.loans_by_id[idx].nft_contract.clone(),
                asset_id: self.loans_by_id[idx].nft_id.clone(),
                to: signer_id.clone(),
                memo: String::from_str("Withdraw of NFT from Nativo Loans"),
            },
        );
        self.loans_by_id[idx].status = LoanStatus::Payed;
        let ghost lv = with_status(pre.loans()[loan_id as int], LoanStatus::Payed);
        proof {
            let post = *self;
            assert(post.loans() =~= pre.loans().update(loan_id as int, lv));
            assert(actions_view(actions@) =~= pre.pay_actions(loan_id, attached_deposit));
            lemma_count_loaned_update(pre.loans(), loan_id as int, lv);
            assert forall|i: int|
                0 <= i < post.loans().len() implies loan_wf(
                #[trigger] post.loans()[i],
                post.payment_period,
            ) by {
                if i != loan_id {
                    assert(post.loans()[i] == pre.loans()[i]);
                }
                assert(loan_wf(pre.loans()[i], pre.payment_period));
            }
            assert forall|a: Seq<char>, id2: u64| #[trigger]
                post.owner_ids(a).contains(id2) implies {
                &&& id2 < post.loans().len()
                &&& post.loans()[id2 as int].nft_owner == a
                &&& owner_tracked(post.loans()[id2 as int].status)
            } by {
                assert(pre.owner_ids(a).contains(id2));
                if id2 != loan_id {
                    assert(post.loans()[id2 as int] == pre.loans()[id2 as int]);
                }
            }
            assert forall|i: int|
                0 <= i < post.loans().len() && owner_tracked(
                    #[trigger] post.loans()[i].status,
                ) implies post.owner_ids(post.loans()[i].nft_owner).contains(i as u64) by {
                if i != loan_id {
                    assert(post.loans()[i] == pre.loans()[i]);
                }
                assert(pre.owner_ids(pre.loans()[i].nft_owner).contains(i as u64));
            }
            assert forall|a: Seq<char>, id2: u64| #[trigger]
                post.lender_ids(a).contains(id2) implies {
                &&& id2 < post.loans().len()
                &&& post.loans()[id2 as int].loaner_id == Some(a)
                &&& lender_tracked(post.loans()[id2 as int].status)
            } by {
                assert(pre.lender_ids(a).contains(id2));
                if id2 != loan_id {
                    assert(post.loans()[id2 as int] == pre.loans()[id2 as int]);
                }
            }
            assert forall|i: int|
                0 <= i < post.loans().len() && lender_tracked(
                    #[trigger] post.loans()[i].status,
                ) implies post.loans()[i].loaner_id is Some && post.lender_ids(
                post.loans()[i].loaner_id->0,
            ).contains(i as u64) by {
                if i != loan_id {
                    assert(post.loans()[i] == pre.loans()[i]);
                }
                assert(pre.lender_ids(pre.loans()[i].loaner_id->0).contains(i as u64));
            }
        }
        Ok(actions)
    }

    /// The guard verdict of a cancellation call: the first failing guard's
    /// error, or `None` when every guard passes and the transition
    /// `Pending -> Canceled` is taken.  Only a still-pending offer can be
    /// canceled, and only by its collateral owner.
    pub open spec fn cancel_outcome(self, loan_id: u64, signer: Seq<char>) -> Option<LoanError> {
        if loan_id >= self.loans().len() {
            Some(LoanError::NotFound)
        } else if self.loans()[loan_id as int].status != LoanStatus::Pending {
            Some(LoanError::InvalidState)
        } else if signer != self.loans()[loan_id as int].nft_owner {
            Some(LoanError::Unauthorized)
        } else {
            None
        }
    }

    /// The settlement request a successful cancellation submits: the
    /// collateral returned to its owner.
    pub open spec fn cancel_actions(self, loan_id: u64) -> Seq<ActionView> {
        let l = self.loans()[loan_id as int];
        seq![
            ActionView::TransferAsset {
                asset_contract: l.nft_contract,
                asset_id: l.nft_id,
                to: l.nft_owner,
                memo: withdraw_memo(),
            },
        ]
    }

    /// Cancels a still-pending loan offer: the collateral owner withdraws
    /// the collateral before anybody funds the loan.  The guards — the
    /// loan exists, it is `Pending`, the caller is the collateral owner —
    /// are all checked before the first mutation.  On success the record
    /// turns `Canceled`, the owner index drops the id, and the collateral
    /// is returned to the caller.
    pub fn withdraw_nft_owner(&mut self, loan_id: u64, signer_id: &String) -> (r: Result<
        Vec<SettlementAction>,
        LoanError,
    >)
        requires
            old(self).wf(),
        ensures
            final(self).wf(),
            old(self).same_config(*final(self)),
            match r {
                Ok(actions) => {
                    &&& old(self).cancel_outcome(loan_id, signer_id@) is None
                    &&& final(self).loans() == old(self).loans().update(
                        loan_id as int,
                        with_status(old(self).loans()[loan_id as int], LoanStatus::Canceled),
                    )
                    &&& final(self).last_loan_id == old(self).last_loan_id
                    &&& final(self).loans_active == old(self).loans_active
                    &&& final(self).total_amount_lent == old(self).total_amount_lent
                    &&& final(self).total_amount_payed == old(self).total_amount_payed
                    &&& final(self).loan_current_ath == old(self).loan_current_ath
                    &&& final(self).owner_ids(signer_id@) == old(self).owner_ids(
                        signer_id@,
                    ).remove_value(loan_id)
                    &&& forall|a: Seq<char>|
                        a != signer_id@ ==> final(self).owner_ids(a) == old(self).owner_ids(a)
                    &&& forall|a: Seq<char>| final(self).lender_ids(a) == old(self).lender_ids(a)
                    &&& actions_view(actions@) == old(self).cancel_actions(loan_id)
                },
                Err(e) => {
                    &&& Some(e) == old(self).cancel_outcome(loan_id, signer_id@)
                    &&& *final(self) == *old(self)
                },
            },
    {
        let ghost pre = *self;
        let n = self.loans_by_id.len();
        if loan_id >= n as u64 {
            return Err(LoanError::NotFound);
        }
        let idx = loan_id as usize;
        if !(self.loans_by_id[idx].status == LoanStatus::Pending) {
            return Err(LoanError::InvalidState);
        }
        if !(*signer_id == self.loans_by_id[idx].nft_owner) {
            return Err(LoanError::Unauthorized);
        }
        // Every guard passed: commit the transition.
        self.loans_by_id[idx].status = LoanStatus::Canceled;
        proof {
            assert(pre.owner_ids(signer_id@).contains(loan_id));
            pre.loans_per_owner.lemma_ids_of_unique(signer_id@);
            lemma_remove_value_unique(pre.owner_ids(signer_id@), loan_id);
        }
        let removed = self.loans_per_owner.remove(signer_id, loan_id);
        match removed {
            Ok(()) => {},
            Err(_) => {
                proof {
                    assert(false);
                }
                return Err(LoanError::InternalConsistency);
            },
        }
        let mut actions: Vec<SettlementAction> = Vec::new();
        actions.push(
            SettlementAction::TransferAsset {
                asset_contract: self.loans_by_id[idx].nft_contract.clone(),
                asset_id: self.loans_by_id[idx].nft_id.clone(),
                to: signer_id.clone(),
                memo: String::from_str("Withdraw of NFT from Nativo Loans"),
            },
        );
        let ghost lv = with_status(pre.loans()[loan_id as int], LoanStatus::Canceled);
        proof {
            let post = *self;
            assert(post.loans() =~= pre.loans().update(loan_id as int, lv));
            assert(actions_view(actions@) =~= pre.cancel_actions(loan_id));
            lemma_count_loaned_update(pre.loans(), loan_id as int, lv);
            assert forall|i: int|
                0 <= i < post.loans().len() implies loan_wf(
                #[trigger] post.loans()[i],
                post.payment_period,
            ) by {
                if i != loan_id {
                    assert(post.loans()[i] == pre.loans()[i]);
                }
                assert(loan_wf(pre.loans()[i], pre.payment_period));
            }
            assert forall|a: Seq<char>, id2: u64| #[trigger]
                post.owner_ids(a).contains(id2) implies {
                &&& id2 < post.loans().len()
                &&& post.loans()[id2 as int].nft_owner == a
                &&& owner_tracked(post.loans()[id2 as int].status)
            } by {
                if a == signer_id@ {
                    assert(pre.owner_ids(a).contains(id2) && id2 != loan_id);
                } else {
                    assert(pre.owner_ids(a).contains(id2));
                    assert(id2 != loan_id);
                }
                assert(post.loans()[id2 as int] == pre.loans()[id2 as int]);
            }
            assert forall|i: int|
                0 <= i < post.loans().len() && owner_tracked(
                    #[trigger] post.loans()[i].status,
                ) implies post.owner_ids(post.loans()[i].nft_owner).contains(i as u64) by {
                assert(i != loan_id);
                assert(post.loans()[i] == pre.loans()[i]);
                assert(pre.owner_ids(pre.loans()[i].nft_owner).contains(i as u64));
            }
            assert forall|a: Seq<char>, id2: u64| #[trigger]
                post.lender_ids(a).contains(id2) implies {
                &&& id2 < post.loans().len()
                &&& post.loans()[id2 as int].loaner_id == Some(a)
                &&& lender_tracked(post.loans()[id2 as int].status)
            } by {
                assert(pre.lender_ids(a).contains(id2));
                assert(id2 != loan_id);
                assert(post.loans()[id2 as int] == pre.loans()[id2 as int]);
            }
            assert forall|i: int|
                0 <= i < post.loans().len() && lender_tracked(
                    #[trigger] post.loans()[i].status,
                ) implies post.loans()[i].loaner_id is Some && post.lender_ids(
                post.loans()[i].loaner_id->0,
            ).contains(i as u64) by {
                assert(i != loan_id);
                assert(post.loans()[i] == pre.loans()[i]);
                assert(pre.lender_ids(pre.loans()[i].loaner_id->0).contains(i as u64));
            }
        }
        Ok(actions)
    }

    /// The guard verdict of a default claim: the first failing guard's
    /// error, or `None` when every guard passes and the transition
    /// `Loaned -> Expired` is taken.  A claim exactly at the deadline
    /// already succeeds; one strictly before it is refused with
    /// `DeadlineNotReached`, and only the lender may claim.
    pub open spec fn claim_outcome(self, loan_id: u64, signer: Seq<char>, now: u64) -> Option<
        LoanError,
    > {
        if loan_id >= self.loans().len() {
            Some(LoanError::NotFound)
        } else if self.loans()[loan_id as int].status != LoanStatus::Loaned {
            Some(LoanError::InvalidState)
        } else if now < self.loans()[loan_id as int].loan_deadline->0 {
            Some(LoanError::DeadlineNotReached)
        } else if Some(signer) != self.loans()[loan_id as int].loaner_id {
            Some(LoanError::Unauthorized)
        } else {
            None
        }
    }

    /// The settlement request a successful default claim submits: the
    /// collateral transferred to the lender.
    pub open spec fn claim_actions(self, loan_id: u64) -> Seq<ActionView> {
        let l = self.loans()[loan_id as int];
        seq![
            ActionView::TransferAsset {
                asset_contract: l.nft_contract,
                asset_id: l.nft_id,
                to: l.loaner_id->0,
                memo: withdraw_memo(),
            },
        ]
    }

    /// Claims the collateral of a defaulted loan: once the deadline has
    /// been reached without repayment, the lender takes the collateral.
    /// The guards — the loan exists, it is `Loaned`, the deadline has been
    /// reached, the caller is the lender — are all checked before the
    /// first mutation.  On success the record turns `Expired`, both
    /// indices drop the id, and the collateral is transferred to the
    /// caller.
    pub fn withdraw_nft_loaner(&mut self, loan_id: u64, signer_id: &String, now: u64) -> (r: Result<
        Vec<SettlementAction>,
        LoanError,
    >)
        requires
            old(self).wf(),
        ensures
            final(self).wf(),
            old(self).same_config(*final(self)),
            match r {
                Ok(actions) => {
                    &&& old(self).claim_outcome(loan_id, signer_id@, now) is None
                    &&& final(self).loans() == old(self).loans().update(
                        loan_id as int,
                        with_status(old(self).loans()[loan_id as int], LoanStatus::Expired),
                    )
                    &&& final(self).last_loan_id == old(self).last_loan_id
                    &&& final(self).loans_active == old(self).loans_active - 1
                    &&& final(self).total_amount_lent == old(self).total_amount_lent
                    &&& final(self).total_amount_payed == old(self).total_amount_payed
                    &&& final(self).loan_current_ath == old(self).loan_current_ath
                    &&& final(self).owner_ids(old(self).loans()[loan_id as int].nft_owner) == old(
                        self,
                    ).owner_ids(old(self).loans()[loan_id as int].nft_owner).remove_value(loan_id)
                    &&& forall|a: Seq<char>|
                        a != old(self).loans()[loan_id as int].nft_owner ==> final(self).owner_ids(
                            a,
                        ) == old(self).owner_ids(a)
                    &&& final(self).lender_ids(signer_id@) == old(self).lender_ids(
                        signer_id@,
                    ).remove_value(loan_id)
                    &&& forall|a: Seq<char>|
                        a != signer_id@ ==> final(self).lender_ids(a) == old(self).lender_ids(a)
                    &&& actions_view(actions@) == old(self).claim_actions(loan_id)
                },
                Err(e) => {
                    &&& Some(e) == old(self).claim_outcome(loan_id, signer_id@, now)
                    &&& *final(self) == *old(self)
                },
            },
    {
        let ghost pre = *self;
        let n = self.loans_by_id.len();
        if loan_id >= n as u64 {
            return Err(LoanError::NotFound);
        }
        let idx = loan_id as usize;
        if !(self.loans_by_id[idx].status == LoanStatus::Loaned) {
            return Err(LoanError::InvalidState);
        }
        proof {
            assert(loan_wf(pre.loans()[loan_id as int], pre.payment_period));
        }
        let deadline = match self.loans_by_id[idx].loan_deadline {
            Some(d) => d,
            None => unreached(),
        };
        if now < deadline {
            return Err(LoanError::DeadlineNotReached);
        }
        let authorized = match &self.loans_by_id[idx].loaner_id {
            Some(l) => *signer_id == *l,
            None => unreached(),
        };
        if !authorized {
            return Err(LoanError::Unauthorized);
        }
        // Every guard passed: commit the transition.
        proof {
            lemma_count_loaned_positive(pre.loans(), loan_id as int);
        }
        self.loans_active = self.loans_active - 1;
        self.loans_by_id[idx].status = LoanStatus::Expired;
        let ghost owner_view = pre.loans()[loan_id as int].nft_owner;
        proof {
            assert(pre.owner_ids(owner_view).contains(loan_id));
            pre.loans_per_owner.lemma_ids_of_unique(owner_view);
            lemma_remove_value_unique(pre.owner_ids(owner_view), loan_id);
            assert(pre.lender_ids(signer_id@).contains(loan_id));
            pre.loans_per_lender.lemma_ids_of_unique(signer_id@);
            lemma_remove_value_unique(pre.lender_ids(signer_id@), loan_id);
        }
        let owner = self.loans_by_id[idx].nft_owner.clone();
        let removed_owner = self.loans_per_owner.remove(&owner, loan_id);
        match removed_owner {
            Ok(()) => {},
            Err(_) => {
                proof {
                    assert(false);
                }
                return Err(LoanError::InternalConsistency);
            },
        }
        let removed_lender = self.loans_per_lender.remove(signer_id, loan_id);
        match removed_lender {
            Ok(()) => {},
            Err(_) => {
                proof {
                    assert(false);
                }
                return Err(LoanError::InternalConsistency);
            },
        }
        let mut actions: Vec<SettlementAction> = Vec::new();
        actions.push(
            SettlementAction::TransferAsset {
                asset_contract: self.loans_by_id[idx].nft_contract.clone(),
                asset_id: self.loans_by_id[idx].nft_id.clone(),
                to: signer_id.clone(),
                memo: String::from_str("Withdraw of NFT from Nativo Loans"),
            },
        );
        let ghost lv = with_status(pre.loans()[loan_id as int], LoanStatus::Expired);
        proof {
            let post = *self;
            assert(post.loans() =~= pre.loans().update(loan_id as int, lv));
            assert(actions_view(actions@) =~= pre.claim_actions(loan_id));
            lemma_count_loaned_update(pre.loans(), loan_id as int, lv);
            assert forall|i: int|
                0 <= i < post.loans().len() implies loan_wf(
                #[trigger] post.loans()[i],
                post.payment_period,
            ) by {
                if i != loan_id {
                    assert(post.loans()[i] == pre.loans()[i]);
                }
                assert(loan_wf(pre.loans()[i], pre.payment_period));
            }
            assert forall|a: Seq<char>, id2: u64| #[trigger]
                post.owner_ids(a).contains(id2) implies {
                &&& id2 < post.loans().len()
                &&& post.loans()[id2 as int].nft_owner == a
                &&& owner_tracked(post.loans()[id2 as int].status)
            } by {
                if a == owner_view {
                    assert(pre.owner_ids(a).contains(id2) && id2 != loan_id);
                } else {
                    assert(pre.owner_ids(a).contains(id2));
                    assert(id2 != loan_id);
                }
                assert(post.loans()[id2 as int] == pre.loans()[id2 as int]);
            }
            assert forall|i: int|
                0 <= i < post.loans().len() && owner_tracked(
                    #[trigger] post.loans()[i].status,
                ) implies post.owner_ids(post.loans()[i].nft_owner).contains(i as u64) by {
                assert(i != loan_id);
                assert(post.loans()[i] == pre.loans()[i]);
                assert(pre.owner_ids(pre.loans()[i].nft_owner).contains(i as u64));
            }
            assert forall|a: Seq<char>, id2: u64| #[trigger]
                post.lender_ids(a).contains(id2) implies {
                &&& id2 < post.loans().len()
                &&& post.loans()[id2 as int].loaner_id == Some(a)
                &&& lender_tracked(post.loans()[id2 as int].status)
            } by {
                if a == signer_id@ {
                    assert(pre.lender_ids(a).contains(id2) && id2 != loan_id);
                } else {
                    assert(pre.lender_ids(a).contains(id2));
                    assert(id2 != loan_id);
                }
                assert(post.loans()[id2 as int] == pre.loans()[id2 as int]);
            }
            assert forall|i: int|
                0 <= i < post.loans().len() && lender_tracked(
                    #[trigger] post.loans()[i].status,
                ) implies post.loans()[i].loaner_id is Some && post.lender_ids(
                post.loans()[i].loaner_id->0,
            ).contains(i as u64) by {
                assert(i != loan_id);
                assert(post.loans()[i] == pre.loans()[i]);
                assert(pre.lender_ids(pre.loans()[i].loaner_id->0).contains(i as u64));
            }
        }
        Ok(actions)
    }

    /// Enables or disables reward-token minting.  Only the contract owner
    /// may call this; anybody else is refused with `Unauthorized`.
    pub fn minting_ntv(&mut self, enable: bool, signer_id: &String) -> (r: Result<
        bool,
        LoanError,
    >)
        requires
            old(self).wf(),
        ensures
            final(self).wf(),
            signer_id@ == old(self).owner_account_id@ ==> {
                &&& r == Ok::<bool, LoanError>(enable)
                &&& *final(self) == (NFTLoans { is_minting_ntv: enable, ..*old(self) })
            },
            signer_id@ != old(self).owner_account_id@ ==> {
                &&& r == Err::<bool, LoanError>(LoanError::Unauthorized)
                &&& *final(self) == *old(self)
            },
    {
        if !(*signer_id == self.owner_account_id) {
            return Err(LoanError::Unauthorized);
        }
        self.is_minting_ntv = enable;
        proof {
            old(self).lemma_wf_same_core(*self);
        }
        Ok(enable)
    }

    /// Sets the reward multiplier.  Only the contract owner may call this;
    /// anybody else is refused with `Unauthorized`.
    pub fn multiply_ntv(&mut self, multiply: u128, signer_id: &String) -> (r: Result<
        u128,
        LoanError,
    >)
        requires
            old(self).wf(),
        ensures
            final(self).wf(),
            signer_id@ == old(self).owner_account_id@ ==> {
                &&& r == Ok::<u128, LoanError>(multiply)
                &&& *final(self) == (NFTLoans { ntv_multiply: multiply, ..*old(self) })
            },
            signer_id@ != old(self).owner_account_id@ ==> {
                &&& r == Err::<u128, LoanError>(LoanError::Unauthorized)
                &&& *final(self) == *old(self)
            },
    {
        if !(*signer_id == self.owner_account_id) {
            return Err(LoanError::Unauthorized);
        }
        self.ntv_multiply = multiply;
        proof {
            old(self).lemma_wf_same_core(*self);
        }
        Ok(multiply)
    }
}

} // verus!
