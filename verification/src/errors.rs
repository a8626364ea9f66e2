//! Error taxonomy of the reward-accrual core.
//!
//! Every error aborts the enclosing command; the host's transaction semantics
//! discard all partial effects, and the library mirrors that by leaving the
//! state untouched whenever it returns an error.

use vstd::prelude::*;

verus! {

#[derive(Debug, PartialEq, Eq)]
pub enum ContractError {
    /// The acting identity does not match the expected principal.
    Unauthorized { actual: String, expected: String },
    /// A claim cycle was initiated while no token is active.
    NoActiveNfts,
    /// Undelegate or redelegate was called with zero entries.
    EmptyDelegationBatch,
    /// An undelegation or redelegation asked for more than the ledger holds.
    InsufficientStake,
    /// The token was already broken; breaking is a one-way transition.
    AlreadyBroken,
    /// A claim cycle was initiated while another one is still in flight.
    ClaimAlreadyInProgress,
    /// The settle step observed a balance below the one recorded at
    /// initiation.
    SettlementBalanceRegression,
    /// Internal-consistency failure: the active token count would drop below
    /// zero.  Never reached from a well-formed state.
    ActiveCountUnderflow,
}

impl ContractError {
    /// Short diagnostic name of the error variant.
    pub fn describe(&self) -> (r: &'static str)
    {
        match self {
            ContractError::Unauthorized { .. } => "unauthorized",
            ContractError::NoActiveNfts => "no active nfts",
            ContractError::EmptyDelegationBatch => "empty delegation batch",
            ContractError::InsufficientStake => "insufficient stake",
            ContractError::AlreadyBroken => "already broken",
            ContractError::ClaimAlreadyInProgress => "claim already in progress",
            ContractError::SettlementBalanceRegression => "settlement balance regression",
            ContractError::ActiveCountUnderflow => "active count underflow",
        }
    }
}

} // verus!
