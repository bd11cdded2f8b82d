//! Collateralized-lending escrow core.
//!
//! An account deposits a non-fungible asset as collateral, a second account
//! funds a loan against it, and the contract enforces a deadline-bounded
//! repayment window with deterministic settlement on repayment, cancellation,
//! or default.  This crate holds the verified core: the loan record store,
//! the per-account secondary indices, the fee and interest calculator, and
//! the lifecycle state machine.  Settlement itself (value transfers, asset
//! transfers, reward minting) is asynchronous and external: each lifecycle
//! operation returns the settlement requests it wants performed as plain
//! data, and the surrounding host is expected to submit them.

pub mod calc;
pub mod index;
pub mod laws;
pub mod metadata;
pub mod enumeration;
pub mod settlement;
pub mod state;

pub use calc::{payback_spec, owner_payout_spec, treasury_cut_spec};
pub use calc::{payback_for, owner_payout, treasury_cut};
pub use index::{AccountIndex, IndexEntry, IndexError};
pub use metadata::{Loan, LoanError, LoanId, LoanOutput, LoanStatus, LoanView, Metrics, MsgInput};
pub use settlement::{ActionView, SettlementAction};
pub use state::NFTLoans;
