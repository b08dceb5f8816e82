//! A rotating savings and credit association: a fixed cohort pools equal
//! contributions every round and pays the whole pot to one member per
//! round, until every member has received it once.
//!
//! The rules stand in [`group`], [`contribution`], [`payout`] and [`admin`].
//! Each takes the records that a call touches, as they were read, and gives
//! back the records to write, the transfers of tokens that the call stands
//! or falls with, and the events to report; or the reason why the call is
//! refused. [`escrow`] keeps the deposits. [`lifecycle`] and [`laws`] state
//! what follows from the rules for every group and all its money.
//!
//! [`contract`] puts the rules to work on a ledger [`storage`] that is a
//! value, so that the contract as a whole has a contract too.

pub mod address;
pub mod admin;
pub mod contract;
pub mod contribution;
pub mod errors;
pub mod escrow;
pub mod group;
pub mod laws;
pub mod lifecycle;
pub mod payout;
pub mod roster;
pub mod storage;
pub mod table;
pub mod types;

pub use address::Address;
pub use contract::SoroSaveContract;
pub use errors::ContractError;
pub use escrow::{Deposit, DepositLedger};
pub use storage::DataKey;
pub use types::{
    Dispute, Event, GroupStatus, GroupTemplate, RoundInfo, SavingsGroup, Transfer,
};
