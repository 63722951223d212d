//! Reward accrual and bonded-stake ledger of a staking farm.
//!
//! Participants bond a staking asset and earn a reward asset that is emitted
//! along a schedule of linear emission slots. A global reward index records
//! the cumulative reward per bonded unit; each staker settles against it.

pub mod contract;
pub mod error;
mod math;
pub mod mock_querier;
pub mod msg;
pub mod schedule;
pub mod state;

pub use error::ContractError;
pub use math::DECIMAL_FRACTIONAL;
