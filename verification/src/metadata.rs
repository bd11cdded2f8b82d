//! Data model: loan records, their mathematical view, aggregate metrics,
//! the inbound loan-request message, and the error taxonomy.

use vstd::prelude::*;

verus! {

/// Identifier of a loan.  Ids are assigned sequentially, starting at zero,
/// and are never reused or deleted.
pub type LoanId = u64;

/// Status of a loan.  `Pending` is the only initial state; `Payed`,
/// `Expired` and `Canceled` are terminal.
#[derive(Clone, Copy, Debug, PartialEq, Eq, Structural)]
pub enum LoanStatus {
    /// Collateral deposited, nobody has funded the loan yet.
    Pending,
    /// Somebody funded the loan; the repayment window is open.
    Loaned,
    /// The deadline passed unpaid and the lender claimed the collateral.
    Expired,
    /// The collateral owner paid the loan back within the window.
    Payed,
    /// The collateral owner withdrew the offer before it was funded.
    Canceled,
}

/// A loan record, the unit stored by the record store.
#[derive(Debug)]
pub struct Loan {
    /// Account that deposited the collateral and requested the loan.
    pub nft_owner: String,
    /// Contract that holds the collateral asset.
    pub nft_contract: String,
    /// Identifier of the collateral asset within its contract.
    pub nft_id: String,
    /// Free-form description attached by the requester.
    pub description: Option<String>,
    /// Principal requested by the collateral owner.
    pub loan_requested: u128,
    /// Principal plus interest, computed once at creation and immutable.
    pub loan_payback: u128,
    /// Current status of the loan.
    pub status: LoanStatus,
    /// Timestamp of the collateral deposit.
    pub submission_time: u64,
    /// Timestamp of funding; set exactly when the loan leaves `Pending`
    /// for `Loaned` and immutable afterwards.
    pub loan_time: Option<u64>,
    /// Repayment deadline: funding time plus the contract's payment period.
    pub loan_deadline: Option<u64>,
    /// Account that funded the loan.
    pub loaner_id: Option<String>,
}

/// The mathematical view of a [`Loan`]: account names become character
/// sequences, everything else is carried over unchanged.
pub ghost struct LoanView {
    pub nft_owner: Seq<char>,
    pub nft_contract: Seq<char>,
    pub nft_id: Seq<char>,
    pub description: Option<Seq<char>>,
    pub loan_requested: u128,
    pub loan_payback: u128,
    pub status: LoanStatus,
    pub submission_time: u64,
    pub loan_time: Option<u64>,
    pub loan_deadline: Option<u64>,
    pub loaner_id: Option<Seq<char>>,
}

impl View for Loan {
    type V = LoanView;

    open spec fn view(&self) -> LoanView {
        LoanView {
            nft_owner: self.nft_owner@,
            nft_contract: self.nft_contract@,
            nft_id: self.nft_id@,
            description: match self.description {
                Some(d) => Some(d@),
                None => None,
            },
            loan_requested: self.loan_requested,
            loan_payback: self.loan_payback,
            status: self.status,
            submission_time: self.submission_time,
            loan_time: self.loan_time,
            loan_deadline: self.loan_deadline,
            loaner_id: match self.loaner_id {
                Some(a) => Some(a@),
                None => None,
            },
        }
    }
}

/// Well-formedness of a single loan record: the payback never falls below
/// the principal, and the funding fields (`loan_time`, `loan_deadline`,
/// `loaner_id`) are all absent before funding and all present from funding
/// on, with the deadline exactly one payment period after the funding time.
pub open spec fn loan_wf(l: LoanView, payment_period: u64) -> bool {
    &&& l.loan_payback >= l.loan_requested
    &&& match l.status {
        LoanStatus::Pending | LoanStatus::Canceled => {
            &&& l.loan_time is None
            &&& l.loan_deadline is None
            &&& l.loaner_id is None
        },
        LoanStatus::Loaned | LoanStatus::Payed | LoanStatus::Expired => {
            &&& l.loan_time is Some
            &&& l.loaner_id is Some
            &&& l.loan_deadline is Some
            &&& l.loan_deadline->0 == l.loan_time->0 + payment_period
        },
    }
}

impl Loan {
    /// An exact copy of the record, equal to it in the view model.
    pub fn clone_loan(&self) -> (r: Loan)
        ensures
            r@ == self@,
    {
        Loan {
            nft_owner: self.nft_owner.clone(),
            nft_contract: self.nft_contract.clone(),
            nft_id: self.nft_id.clone(),
            description: match &self.description {
                Some(d) => Some(d.clone()),
                None => None,
            },
            loan_requested: self.loan_requested,
            loan_payback: self.loan_payback,
            status: self.status,
            submission_time: self.submission_time,
            loan_time: self.loan_time,
            loan_deadline: self.loan_deadline,
            loaner_id: match &self.loaner_id {
                Some(a) => Some(a.clone()),
                None => None,
            },
        }
    }
}

/// Aggregate metrics derived from the contract state.
#[derive(Clone, Copy, Debug, PartialEq, Eq, Structural)]
pub struct Metrics {
    /// Number of loans ever created.
    pub total_loans: u64,
    /// Number of loans currently in `Loaned` status.
    pub total_loans_active: u128,
    /// Cumulative amount received as repayments.
    pub total_amount_payed: u128,
    /// Whether reward-token minting is enabled.
    pub ntv_status: bool,
    /// Multiplier applied to funded amounts when minting reward tokens.
    pub ntv_multiply: u128,
    /// Cumulative amount lent out.
    pub total_amount_lent: u128,
    /// Highest single funding amount observed.
    pub loan_current_ath: u128,
}

/// A loan record together with its id, the shape in which loans are
/// reported to callers.
#[derive(Debug)]
pub struct LoanOutput {
    /// Id of the loan.
    pub id: LoanId,
    /// The record itself.
    pub loan: Loan,
}

/// The decoded message attached to a collateral deposit: an optional
/// description and the principal the depositor requests.
#[derive(Debug)]
pub struct MsgInput {
    pub description: Option<String>,
    pub loan_amount_requested: u128,
}

/// The mathematical view of a [`MsgInput`].
pub ghost struct MsgInputView {
    pub description: Option<Seq<char>>,
    pub loan_amount_requested: u128,
}

impl View for MsgInput {
    type V = MsgInputView;

    open spec fn view(&self) -> MsgInputView {
        MsgInputView {
            description: match self.description {
                Some(d) => Some(d@),
                None => None,
            },
            loan_amount_requested: self.loan_amount_requested,
        }
    }
}

/// Why a lifecycle operation was refused.  Every guard failure aborts the
/// whole operation with no state change.
#[derive(Clone, Copy, Debug, PartialEq, Eq, Structural)]
pub enum LoanError {
    /// No loan exists under the given id.
    NotFound,
    /// The loan's status admits no such transition.
    InvalidState,
    /// The attached amount differs from the required amount.
    AmountMismatch,
    /// The caller does not play the role the transition demands.
    Unauthorized,
    /// A default claim arrived strictly before the deadline.
    DeadlineNotReached,
    /// A repayment arrived strictly after the deadline.
    DeadlineExpired,
    /// The deposit message could not be decoded, or requests an amount
    /// whose payback cannot be represented.
    MalformedInput,
    /// The record store and an account index disagree.  Unreachable from
    /// any well-formed state; kept so the disagreement is named, never
    /// silently swallowed.
    InternalConsistency,
}

} // verus!
