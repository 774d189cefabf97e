use pool_vesting::ledger::AssetCustody;
use pool_vesting::mock::{
    ExtBuilder, ALICE, ALICE_BALANCE, BOB, BOB_BALANCE, CHARLIE, MAX_VESTING_SCHEDULES,
    MIN_VESTED_TRANSFER,
};
use pool_vesting::vesting::{Config, Error, Pallet, VestingSchedule};

fn engine() -> Pallet {
    Pallet::new(Config {
        max_vesting_schedules: MAX_VESTING_SCHEDULES,
        min_vested_transfer: MIN_VESTED_TRANSFER,
    })
}

/// Vested transfer end-to-end flow with intermediate claims.
#[test]
fn vested_transfer_works() {
    let mut ledger = ExtBuilder::build();
    let mut vesting = engine();
    // Current block
    let now = 1;

    // Create a schedule: total 20 vested over 2 periods.
    let schedule = VestingSchedule { start: 10, period: 5, period_count: 2, per_period: 10 };

    // Perform vested transfer from Alice to Bob.
    assert_eq!(vesting.vested_transfer(&mut ledger, ALICE, BOB, schedule.clone(), now), Ok(()));

    // One schedule stored for Bob and full amount locked.
    assert_eq!(vesting.vesting_schedules(BOB).len(), 1);
    assert_eq!(vesting.locked_balance(BOB, now), 20);

    // Move one period forward and claim.
    let now = 15;
    assert_eq!(vesting.claim(&mut ledger, BOB, now), Ok(()));
    assert_eq!(vesting.locked_balance(BOB, now), 10);

    // Move past the final period and claim again to unlock everything.
    let now = 25;
    assert_eq!(vesting.claim(&mut ledger, BOB, now), Ok(()));
    assert_eq!(vesting.locked_balance(BOB, now), 0);
    assert!(ledger.hold(BOB).is_none());
}

/// Transfer must fail if period or period_count is zero.
#[test]
fn vested_transfer_fails_if_zero_period_or_count() {
    let mut ledger = ExtBuilder::build();
    let mut vesting = engine();
    let zero_period = VestingSchedule { start: 10, period: 0, period_count: 1, per_period: 10 };
    assert_eq!(
        vesting.vested_transfer(&mut ledger, ALICE, BOB, zero_period, 0),
        Err(Error::ZeroVestingPeriod)
    );

    let zero_count = VestingSchedule { start: 10, period: 5, period_count: 0, per_period: 10 };
    assert_eq!(
        vesting.vested_transfer(&mut ledger, ALICE, BOB, zero_count, 0),
        Err(Error::ZeroVestingPeriodCount)
    );
    assert_eq!(ledger.free_balance(ALICE), ALICE_BALANCE);
    assert_eq!(vesting.vesting_schedules(BOB).len(), 0);
}

/// Claim correctly updates and removes locks when fully vested.
#[test]
fn claim_works() {
    let mut ledger = ExtBuilder::build();
    let mut vesting = engine();
    let schedule = VestingSchedule { start: 5, period: 5, period_count: 3, per_period: 10 };
    assert_eq!(vesting.vested_transfer(&mut ledger, ALICE, BOB, schedule, 0), Ok(()));

    // Fast-forward beyond full vesting.
    let now = 30;
    assert_eq!(vesting.claim(&mut ledger, BOB, now), Ok(()));

    assert_eq!(vesting.locked_balance(BOB, now), 0);
    assert!(ledger.hold(BOB).is_none());
}

/// Root can overwrite an account's vesting schedules.
#[test]
fn update_vesting_schedules_works() {
    let mut ledger = ExtBuilder::build();
    let mut vesting = engine();
    let schedule1 = VestingSchedule { start: 10, period: 10, period_count: 3, per_period: 10 };
    let schedule2 = VestingSchedule { start: 20, period: 10, period_count: 2, per_period: 10 };
    let schedules = vec![schedule1.clone(), schedule2.clone()];

    assert_eq!(vesting.update_vesting_schedules(&mut ledger, CHARLIE, schedules, 0), Ok(()));
    assert_eq!(vesting.vesting_schedules(CHARLIE).len(), 2);
    assert_eq!(vesting.locked_balance(CHARLIE, 0), 50);

    // Partial vesting after some blocks.
    let now = 25;
    assert_eq!(vesting.claim(&mut ledger, CHARLIE, now), Ok(()));
    assert!(vesting.locked_balance(CHARLIE, now) < 50);
}

/// Claims on multiple schedules unlock proportionally over time.
#[test]
fn multiple_vesting_schedule_claim_works() {
    let mut ledger = ExtBuilder::build();
    let mut vesting = engine();
    let schedule1 = VestingSchedule { start: 5, period: 5, period_count: 2, per_period: 10 }; // total 20
    let schedule2 = VestingSchedule { start: 10, period: 5, period_count: 2, per_period: 10 }; // total 20

    assert_eq!(vesting.vested_transfer(&mut ledger, ALICE, BOB, schedule1, 0), Ok(()));
    assert_eq!(vesting.vested_transfer(&mut ledger, ALICE, BOB, schedule2, 0), Ok(()));

    assert_eq!(vesting.vesting_schedules(BOB).len(), 2);
    assert_eq!(vesting.locked_balance(BOB, 0), 40);

    let now = 15;
    assert_eq!(vesting.claim(&mut ledger, BOB, now), Ok(()));
    let locked_mid = vesting.locked_balance(BOB, now);
    assert!(locked_mid < 40 && locked_mid > 0);

    let now = 30;
    assert_eq!(vesting.claim(&mut ledger, BOB, now), Ok(()));
    assert_eq!(vesting.locked_balance(BOB, now), 0);
}

#[test]
fn vested_transfer_moves_funds_and_holds_them() {
    let mut ledger = ExtBuilder::build();
    let mut vesting = engine();
    let schedule = VestingSchedule { start: 10, period: 5, period_count: 2, per_period: 10 };
    assert_eq!(vesting.vested_transfer(&mut ledger, ALICE, BOB, schedule, 1), Ok(()));
    assert_eq!(ledger.free_balance(ALICE), ALICE_BALANCE - 20);
    assert_eq!(ledger.free_balance(BOB), BOB_BALANCE + 20);
    assert_eq!(ledger.hold(BOB), Some(20));
    assert_eq!(ledger.spendable_balance(BOB), BOB_BALANCE);
    assert_eq!(vesting.vesting_schedules(BOB), vec![schedule]);
    assert_eq!(vesting.claim(&mut ledger, BOB, 15), Ok(()));
    assert_eq!(ledger.hold(BOB), Some(10));
    assert_eq!(vesting.claim(&mut ledger, BOB, 25), Ok(()));
    assert_eq!(ledger.hold(BOB), None);
    assert_eq!(ledger.spendable_balance(BOB), BOB_BALANCE + 20);
}

#[test]
fn two_schedules_lock_and_release() {
    let mut ledger = ExtBuilder::build();
    let mut vesting = engine();
    let s1 = VestingSchedule { start: 5, period: 5, period_count: 2, per_period: 10 };
    let s2 = VestingSchedule { start: 10, period: 5, period_count: 4, per_period: 5 };
    assert_eq!(vesting.vested_transfer(&mut ledger, ALICE, BOB, s1, 0), Ok(()));
    assert_eq!(vesting.vested_transfer(&mut ledger, ALICE, BOB, s2, 0), Ok(()));
    assert_eq!(vesting.locked_balance(BOB, 0), 40);
    assert_eq!(ledger.hold(BOB), Some(40));
    assert_eq!(vesting.claim(&mut ledger, BOB, 12), Ok(()));
    let mid = vesting.locked_balance(BOB, 12);
    assert_eq!(mid, 30);
    assert_eq!(ledger.hold(BOB), Some(30));
    assert_eq!(vesting.vested_balance(BOB, 12), 10);
    assert_eq!(vesting.claim(&mut ledger, BOB, 30), Ok(()));
    assert_eq!(vesting.locked_balance(BOB, 30), 0);
    assert_eq!(vesting.vested_balance(BOB, 30), 40);
    assert!(ledger.hold(BOB).is_none());
}

#[test]
fn zero_period_is_reported_before_zero_count() {
    let mut ledger = ExtBuilder::build();
    let mut vesting = engine();
    let both = VestingSchedule { start: 10, period: 0, period_count: 0, per_period: 10 };
    assert_eq!(vesting.vested_transfer(&mut ledger, ALICE, BOB, both, 0), Err(Error::ZeroVestingPeriod));
}

#[test]
fn vested_transfer_validation_errors() {
    let mut ledger = ExtBuilder::build();
    let mut vesting = engine();
    let started = VestingSchedule { start: 3, period: 5, period_count: 2, per_period: 10 };
    assert_eq!(vesting.vested_transfer(&mut ledger, ALICE, BOB, started, 3), Err(Error::InvalidVestingStart));
    let low = VestingSchedule { start: 10, period: 5, period_count: 2, per_period: 2 };
    assert_eq!(vesting.vested_transfer(&mut ledger, ALICE, BOB, low, 0), Err(Error::AmountLow));
    let big = VestingSchedule { start: 10, period: 5, period_count: 2, per_period: 60 };
    assert_eq!(
        vesting.vested_transfer(&mut ledger, ALICE, BOB, big, 0),
        Err(Error::InsufficientBalanceToLock)
    );
    let overflow = VestingSchedule { start: 10, period: 5, period_count: 2, per_period: u128::MAX };
    assert_eq!(vesting.vested_transfer(&mut ledger, ALICE, BOB, overflow, 0), Err(Error::ArithmeticOverflow));
    assert_eq!(ledger.free_balance(ALICE), ALICE_BALANCE);
    assert_eq!(ledger.free_balance(BOB), BOB_BALANCE);
}

#[test]
fn too_many_schedules_is_refused() {
    let mut ledger = ExtBuilder::build();
    let mut vesting = engine();
    let s = VestingSchedule { start: 10, period: 5, period_count: 1, per_period: 5 };
    for _ in 0..MAX_VESTING_SCHEDULES {
        assert_eq!(vesting.vested_transfer(&mut ledger, ALICE, BOB, s, 0), Ok(()));
    }
    let before = ledger.free_balance(ALICE);
    assert_eq!(vesting.vested_transfer(&mut ledger, ALICE, BOB, s, 0), Err(Error::TooManyVestingSchedules));
    assert_eq!(ledger.free_balance(ALICE), before);
    assert_eq!(vesting.vesting_schedules(BOB).len(), MAX_VESTING_SCHEDULES as usize);
    let four = vec![s, s, s, s];
    assert_eq!(
        vesting.update_vesting_schedules(&mut ledger, CHARLIE, four, 0),
        Err(Error::TooManyVestingSchedules)
    );
}

#[test]
fn update_vesting_schedules_needs_balance() {
    let mut ledger = ExtBuilder::build();
    let mut vesting = engine();
    let s = VestingSchedule { start: 10, period: 5, period_count: 3, per_period: 40 };
    assert_eq!(
        vesting.update_vesting_schedules(&mut ledger, CHARLIE, vec![s], 0),
        Err(Error::InsufficientBalanceToLock)
    );
    let huge = VestingSchedule { start: 10, period: 5, period_count: 1, per_period: u128::MAX };
    assert_eq!(
        vesting.update_vesting_schedules(&mut ledger, CHARLIE, vec![huge, huge], 0),
        Err(Error::ArithmeticOverflow)
    );
    assert!(ledger.hold(CHARLIE).is_none());
    assert_eq!(vesting.update_vesting_schedules(&mut ledger, CHARLIE, vec![], 0), Ok(()));
    assert!(ledger.hold(CHARLIE).is_none());
}

#[test]
fn update_vesting_schedule_replaces_one() {
    let mut ledger = ExtBuilder::build();
    let mut vesting = engine();
    let s1 = VestingSchedule { start: 10, period: 5, period_count: 2, per_period: 10 };
    let s2 = VestingSchedule { start: 10, period: 5, period_count: 1, per_period: 5 };
    assert_eq!(vesting.vested_transfer(&mut ledger, ALICE, BOB, s1, 0), Ok(()));
    assert_eq!(vesting.update_vesting_schedule(&mut ledger, BOB, 1, s2, 0), Err(Error::InvalidVestingIndex));
    let bad_period = VestingSchedule { period: 0, ..s2 };
    assert_eq!(vesting.update_vesting_schedule(&mut ledger, BOB, 0, bad_period, 0), Err(Error::ZeroVestingPeriod));
    let bad_count = VestingSchedule { period_count: 0, ..s2 };
    assert_eq!(
        vesting.update_vesting_schedule(&mut ledger, BOB, 0, bad_count, 0),
        Err(Error::ZeroVestingPeriodCount)
    );
    assert_eq!(vesting.update_vesting_schedule(&mut ledger, BOB, 0, s2, 0), Ok(()));
    assert_eq!(vesting.vesting_schedules(BOB), vec![s2]);
    assert_eq!(ledger.hold(BOB), Some(5));
}

#[test]
fn force_remove_vesting_schedule_works() {
    let mut ledger = ExtBuilder::build();
    let mut vesting = engine();
    let s1 = VestingSchedule { start: 10, period: 5, period_count: 2, per_period: 10 };
    let s2 = VestingSchedule { start: 20, period: 5, period_count: 1, per_period: 7 };
    assert_eq!(vesting.vested_transfer(&mut ledger, ALICE, BOB, s1, 0), Ok(()));
    assert_eq!(vesting.vested_transfer(&mut ledger, ALICE, BOB, s2, 0), Ok(()));
    assert_eq!(ledger.hold(BOB), Some(27));
    assert_eq!(vesting.force_remove_vesting_schedule(&mut ledger, BOB, 2, 0), Err(Error::InvalidVestingIndex));
    assert_eq!(vesting.force_remove_vesting_schedule(&mut ledger, BOB, 0, 0), Ok(()));
    assert_eq!(vesting.vesting_schedules(BOB), vec![s2]);
    assert_eq!(ledger.hold(BOB), Some(7));
    assert_eq!(vesting.force_remove_vesting_schedule(&mut ledger, BOB, 0, 0), Ok(()));
    assert_eq!(vesting.vesting_schedules(BOB).len(), 0);
    assert!(ledger.hold(BOB).is_none());
}

#[test]
fn schedule_math() {
    let s = VestingSchedule { start: 10, period: 5, period_count: 3, per_period: 7 };
    assert_eq!(s.total_amount(), Some(21));
    assert_eq!(s.vested_amount(9), 0);
    assert_eq!(s.vested_amount(10), 0);
    assert_eq!(s.vested_amount(14), 0);
    assert_eq!(s.vested_amount(15), 7);
    assert_eq!(s.vested_amount(24), 14);
    assert_eq!(s.vested_amount(1_000), 21);
    assert_eq!(s.locked_amount(0), 21);
    assert_eq!(s.locked_amount(20), 7);
    assert_eq!(s.locked_amount(40), 0);
    assert!(s.is_valid_start_block(9));
    assert!(!s.is_valid_start_block(10));
    let zero_period = VestingSchedule { period: 0, ..s };
    assert_eq!(zero_period.vested_amount(100), 0);
    assert_eq!(zero_period.locked_amount(100), 21);
    let overflowing = VestingSchedule { start: 0, period: 1, period_count: 2, per_period: u128::MAX };
    assert_eq!(overflowing.total_amount(), None);
    assert_eq!(overflowing.vested_amount(5), u128::MAX);
    assert_eq!(overflowing.locked_amount(0), 0);
}
