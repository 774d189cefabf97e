//! A genesis ledger with a few endowed accounts, and the settings that go with it.

use vstd::prelude::*;

use crate::ledger::{AssetCustody, Ledger};
use crate::{AccountId, Balance};

verus! {

pub const ALICE: AccountId = 1;

pub const BOB: AccountId = 2;

pub const CHARLIE: AccountId = 3;

/// The account from which the reward authority injects rewards.
pub const TREASURY: AccountId = 4;

/// The account that holds a reward pool's funds.
pub const POOL_ACCOUNT: AccountId = 100;

pub const ALICE_BALANCE: Balance = 100;

pub const BOB_BALANCE: Balance = 100;

pub const CHARLIE_BALANCE: Balance = 100;

pub const TREASURY_BALANCE: Balance = 1_000;

pub const MAX_VESTING_SCHEDULES: u32 = 3;

pub const MIN_VESTED_TRANSFER: Balance = 5;

/// Builds the genesis ledger.
#[derive(Clone, Copy, Debug, Default)]
pub struct ExtBuilder;

impl ExtBuilder {
    /// A ledger in which ALICE, BOB, CHARLIE and TREASURY hold their genesis balances,
    /// every other account holds nothing, and no hold is registered.
    pub fn build() -> (l: Ledger)
        ensures
            l.wf(),
            l.issuance() == ALICE_BALANCE + BOB_BALANCE + CHARLIE_BALANCE + TREASURY_BALANCE,
            l.free_of(ALICE) == ALICE_BALANCE,
            l.free_of(BOB) == BOB_BALANCE,
            l.free_of(CHARLIE) == CHARLIE_BALANCE,
            l.free_of(TREASURY) == TREASURY_BALANCE,
            forall|x: AccountId|
                x != ALICE && x != BOB && x != CHARLIE && x != TREASURY ==> #[trigger] l.free_of(x)
                    == 0,
            forall|x: AccountId| #[trigger] l.hold_of(x) == None::<nat>,
    {
        let mut l = Ledger::new();
        let ghost l0 = l;
        let a = l.endow(ALICE, ALICE_BALANCE);
        let ghost l1 = l;
        let b = l.endow(BOB, BOB_BALANCE);
        let ghost l2 = l;
        let c = l.endow(CHARLIE, CHARLIE_BALANCE);
        let ghost l3 = l;
        let t = l.endow(TREASURY, TREASURY_BALANCE);
        assert(a && b && c && t);
        assert forall|x: AccountId| #[trigger] l.hold_of(x) == None::<nat> by {
            assert(l0.hold_of(x) == None::<nat>);
            assert(l1.hold_of(x) == None::<nat>);
            assert(l2.hold_of(x) == None::<nat>);
            assert(l3.hold_of(x) == None::<nat>);
        }
        l
    }
}

} // verus!
