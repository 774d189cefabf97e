//! Ledger-accounting engines: a pooled-deposit reward distributor driven by an
//! accumulator per share, and a multi-schedule token-vesting engine that keeps a
//! hold on each account equal to its still-locked total. Both move funds through
//! an in-memory custody ledger that the caller owns and threads through every call.

use vstd::prelude::*;

pub mod ledger;
pub mod mock;
pub mod native_pools;
pub mod table;
pub mod vesting;

verus! {

/// Identifies an account in the custody ledger.
pub type AccountId = u64;

/// An amount of the single fungible asset.
pub type Balance = u128;

/// A block height.
pub type BlockNumber = u64;

} // verus!
