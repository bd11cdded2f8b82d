//! Settlement requests: the outbound side of the lifecycle state machine.
//!
//! Moving value, returning or seizing the collateral asset, and minting
//! reward tokens are performed by external collaborators, asynchronously
//! and fire-and-forget.  The core therefore never performs them: each
//! lifecycle operation returns the exact list of requests it wants
//! submitted, as plain data, and the host around the core forwards them.
//! A request that later fails at its collaborator does not revert the
//! state transition that produced it; that is an accepted limitation of
//! the fire-and-forget design.

use vstd::prelude::*;

verus! {

/// One settlement request.
#[derive(Debug, PartialEq, Eq)]
pub enum SettlementAction {
    /// Transfer `amount` of the native asset to `to`.
    TransferValue { to: String, amount: u128 },
    /// Ask `asset_contract` to transfer the collateral asset `asset_id`
    /// to `to`, with a human-readable `memo`.
    TransferAsset { asset_contract: String, asset_id: String, to: String, memo: String },
    /// Mint `amount` reward tokens for `to`.
    MintReward { to: String, amount: u128 },
}

/// The mathematical view of a [`SettlementAction`].
pub ghost enum ActionView {
    TransferValue { to: Seq<char>, amount: u128 },
    TransferAsset { asset_contract: Seq<char>, asset_id: Seq<char>, to: Seq<char>, memo: Seq<char> },
    MintReward { to: Seq<char>, amount: u128 },
}

impl View for SettlementAction {
    type V = ActionView;

    open spec fn view(&self) -> ActionView {
        match self {
            SettlementAction::TransferValue { to, amount } => ActionView::TransferValue {
                to: to@,
                amount: *amount,
            },
            SettlementAction::TransferAsset { asset_contract, asset_id, to, memo } => {
                ActionView::TransferAsset {
                    asset_contract: asset_contract@,
                    asset_id: asset_id@,
                    to: to@,
                    memo: memo@,
                }
            },
            SettlementAction::MintReward { to, amount } => ActionView::MintReward {
                to: to@,
                amount: *amount,
            },
        }
    }
}

/// The views of a list of settlement requests, in submission order.
pub open spec fn actions_view(actions: Seq<SettlementAction>) -> Seq<ActionView> {
    actions.map_values(|a: SettlementAction| a@)
}

} // verus!
