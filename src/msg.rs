//! What callers hand to the ledger's operations and what they get back.
use vstd::prelude::*;

use crate::schedule::Slot;
use crate::state::AssetInfo;

verus! {

/// An amount of a native denomination.
#[derive(Clone, Debug, PartialEq, Eq)]
pub struct Coin {
    pub denom: String,
    pub amount: u128,
}

/// Who calls an operation, and the native funds attached to the call.
#[derive(Clone, Debug, PartialEq, Eq)]
pub struct MessageInfo {
    /// The caller's address.
    pub sender: String,
    /// The caller's canonical address: the key of its record.
    pub sender_raw: Vec<u8>,
    pub funds: Vec<Coin>,
}

/// An instruction to send `amount` of `asset` to `recipient`. A native asset
/// goes by a bank send; a token by a call of the token contract's transfer.
#[derive(Clone, Debug, PartialEq, Eq)]
pub struct Transfer {
    pub recipient: String,
    pub asset: AssetInfo,
    pub amount: u128,
}

/// The outcome of a migration.
#[derive(Clone, Debug, PartialEq, Eq)]
pub struct Migration {
    /// What the cut schedule distributes.
    pub distributed_amount: u128,
    /// The undistributed rest, sent to the successor.
    pub transfer: Transfer,
}

/// The parameters of a new farm.
#[derive(Clone, Debug, PartialEq, Eq)]
pub struct InstantiateMsg {
    pub reward_token: AssetInfo,
    pub staking_token: AssetInfo,
    pub distribution_schedule: Vec<Slot>,
}

/// What a token contract's hook may ask for.
#[derive(Clone, Copy, Debug, PartialEq, Eq)]
pub enum Cw20HookMsg {
    Bond,
}

/// A token contract's notice that `amount` was sent to the farm by `sender`.
#[derive(Clone, Debug, PartialEq, Eq)]
pub struct Cw20ReceiveMsg {
    /// The address that sent the tokens.
    pub sender: String,
    /// Its canonical address.
    pub sender_raw: Vec<u8>,
    pub amount: u128,
    /// The hook's payload, decoded; `None` where it could not be.
    pub hook: Option<Cw20HookMsg>,
}

/// The operations that change the farm.
#[derive(Clone, Debug, PartialEq, Eq)]
pub enum ExecuteMsg {
    Receive(Cw20ReceiveMsg),
    Bond { amount: u128 },
    Unbond { amount: u128 },
    Withdraw,
    MigrateStaking { new_staking_contract: String },
    UpdateConfig { distribution_schedule: Vec<Slot> },
}

/// The configuration as queried: each asset by its address or denomination.
#[derive(Clone, Debug, PartialEq, Eq)]
pub struct ConfigResponse {
    pub reward_token: String,
    pub staking_token: String,
    pub distribution_schedule: Vec<Slot>,
}

/// What an executed operation hands back.
#[derive(Clone, Debug, PartialEq, Eq)]
pub enum Response {
    /// Nothing to send.
    Done,
    /// One transfer to carry out.
    Transfer(Transfer),
    /// A migration, with its transfer to the successor.
    Migrated(Migration),
}

} // verus!
