//! Errors of the ledger's operations.
use vstd::prelude::*;

verus! {

/// Why an operation was refused. A refused operation leaves the store as it
/// was.
#[derive(Clone, Copy, Debug, PartialEq, Eq, Structural)]
pub enum ContractError {
    /// The caller is not the owner, or not the staking token's contract.
    Unauthorized,
    /// The funds attached to a native bond fall short of the amount.
    InsufficientFunds,
    /// An unbond asks for more than the staker has bonded.
    InsufficientBondAmount,
    /// A new schedule has fewer slots than the current one.
    ScheduleTooShort,
    /// A new schedule drops, or holds fewer copies of, a slot that has started.
    RemovesStartedDistribution,
    /// A new schedule adds a slot that would already have started.
    AddsStartedDistribution,
    /// A checked subtraction would have gone below zero.
    ArithmeticUnderflow,
    /// An amount or index would leave its integer range, or a slot that is
    /// being accrued has no positive length.
    Overflow,
    /// The token hook carried no message that could be read.
    MalformedPayload,
}

impl ContractError {
    /// A short description of the error.
    pub fn message(&self) -> (r: &'static str) {
        match self {
            ContractError::Unauthorized => "unauthorized",
            ContractError::InsufficientFunds => "Insufficient funds for bonding",
            ContractError::InsufficientBondAmount => "Cannot unbond more than bond amount",
            ContractError::ScheduleTooShort => "cannot update; the new schedule must support all of the previous schedule",
            ContractError::RemovesStartedDistribution => "new schedule removes already started distribution",
            ContractError::AddsStartedDistribution => "new schedule adds an already started distribution",
            ContractError::ArithmeticUnderflow => "Cannot Sub with given operands",
            ContractError::Overflow => "arithmetic overflow",
            ContractError::MalformedPayload => "data should be given",
        }
    }
}

} // verus!
