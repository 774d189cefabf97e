//! Linear vesting schedules, several per account, and a hold on each account equal
//! to what its schedules still lock.
//!
//! A schedule unlocks `per_period` at the end of each of its `period_count` periods
//! of `period` blocks, the first of which begins at `start`. The hold on an account is
//! recomputed from all its schedules whenever they change or are claimed, and is
//! removed rather than set to zero once nothing is locked.

use vstd::prelude::*;

use crate::ledger::{frees_moved, holds_moved, rehold, spendable_of, AssetCustody};
use crate::table::{lookup, Table};
use crate::{AccountId, Balance, BlockNumber};

verus! {

/// One linear unlock tranche.
#[derive(Clone, Copy, Debug, PartialEq, Eq, Structural)]
pub struct VestingSchedule {
    /// The block at which the first period begins.
    pub start: BlockNumber,
    /// The length of a period, in blocks.
    pub period: BlockNumber,
    /// The number of periods.
    pub period_count: u32,
    /// What each elapsed period unlocks.
    pub per_period: Balance,
}

/// Why a vesting operation failed.
#[derive(Clone, Copy, Debug, PartialEq, Eq, Structural)]
pub enum Error {
    /// The schedule's period is zero.
    ZeroVestingPeriod,
    /// The schedule has no periods.
    ZeroVestingPeriodCount,
    /// The account's spendable balance is below what is to be locked.
    InsufficientBalanceToLock,
    /// The account would hold more schedules than allowed.
    TooManyVestingSchedules,
    /// The schedule's total is below the minimum vested transfer.
    AmountLow,
    /// No schedule has that index.
    InvalidVestingIndex,
    /// A schedule's total, or the sum of what is locked, does not fit in a `Balance`.
    ArithmeticOverflow,
    /// The schedule does not start after the current block.
    InvalidVestingStart,
}

/// How a vesting engine is set up.
#[derive(Clone, Copy, Debug)]
pub struct Config {
    /// The most schedules that one account may hold.
    pub max_vesting_schedules: u32,
    /// The least total that a vested transfer may carry.
    pub min_vested_transfer: Balance,
}

/// The state of a vesting engine.
pub ghost struct VestingView {
    pub max_vesting_schedules: nat,
    pub min_vested_transfer: nat,
    /// The schedules of each account, in insertion order.
    pub schedules: Seq<(AccountId, Vec<VestingSchedule>)>,
}

/// The vesting engine.
pub struct Pallet {
    config: Config,
    schedules: Table<Vec<VestingSchedule>>,
}

/// `x` fits in a `Balance`.
pub open spec fn fits(x: nat) -> bool {
    x <= Balance::MAX
}

/// `x`, or the largest `Balance` where it is larger.
pub open spec fn clamp(x: nat) -> nat {
    if fits(x) {
        x
    } else {
        Balance::MAX as nat
    }
}

/// What a schedule unlocks in all.
pub open spec fn total_of(s: VestingSchedule) -> nat {
    s.per_period as nat * s.period_count as nat
}

/// The periods of `s` that have ended by block `now`.
pub open spec fn elapsed_periods(s: VestingSchedule, now: nat) -> nat {
    let elapsed = ((now - s.start) as nat) / (s.period as nat);
    if elapsed > s.period_count {
        s.period_count as nat
    } else {
        elapsed
    }
}

/// What `s` has unlocked by block `now`: nothing before `start` or with a zero
/// period, else `per_period` for each period ended, clamped to a `Balance`.
pub open spec fn vested_of(s: VestingSchedule, now: nat) -> nat {
    if now < s.start || s.period == 0 {
        0
    } else {
        clamp(s.per_period as nat * elapsed_periods(s, now))
    }
}

/// What `s` still locks at block `now`: its total less what has vested, never below
/// zero; a total that does not fit counts as zero.
pub open spec fn locked_of(s: VestingSchedule, now: nat) -> nat {
    let total = if fits(total_of(s)) {
        total_of(s)
    } else {
        0
    };
    if total >= vested_of(s, now) {
        (total - vested_of(s, now)) as nat
    } else {
        0
    }
}

/// The sum of what the schedules still lock at block `now`.
pub open spec fn locked_sum(ss: Seq<VestingSchedule>, now: nat) -> nat
    decreases ss.len(),
{
    if ss.len() == 0 {
        0
    } else {
        locked_sum(ss.drop_last(), now) + locked_of(ss.last(), now)
    }
}

/// The sum of what the schedules have unlocked by block `now`.
pub open spec fn vested_sum(ss: Seq<VestingSchedule>, now: nat) -> nat
    decreases ss.len(),
{
    if ss.len() == 0 {
        0
    } else {
        vested_sum(ss.drop_last(), now) + vested_of(ss.last(), now)
    }
}

/// The hold that a locked total calls for: none for zero.
pub open spec fn hold_for(total: nat) -> Option<nat> {
    if total == 0 {
        None
    } else {
        Some(total)
    }
}

/// The schedules of `who`, empty where it has none.
pub open spec fn schedules_of(s: VestingView, who: AccountId) -> Seq<VestingSchedule> {
    match lookup(s.schedules, who) {
        Some(v) => v@,
        None => Seq::empty(),
    }
}

/// From `s0` to `s1` the schedules of `who` became `ss` and nothing else changed.
pub open spec fn replaced(s0: VestingView, s1: VestingView, who: AccountId, ss: Seq<VestingSchedule>) -> bool {
    &&& s1.max_vesting_schedules == s0.max_vesting_schedules
    &&& s1.min_vested_transfer == s0.min_vested_transfer
    &&& schedules_of(s1, who) == ss
    &&& forall|k: AccountId| k != who ==> #[trigger] schedules_of(s1, k) == schedules_of(s0, k)
}

/// The result of an operation that fails with `e`, if any.
pub open spec fn outcome(e: Option<Error>) -> Result<(), Error> {
    match e {
        Some(e) => Err(e),
        None => Ok(()),
    }
}

/// Why a vested transfer of `schedule` from `who` to `dest` at block `now` fails,
/// checked in this order; `None` where it succeeds.
pub open spec fn vested_transfer_error<C: AssetCustody>(
    s: VestingView,
    l: C,
    who: AccountId,
    dest: AccountId,
    schedule: VestingSchedule,
    now: nat,
) -> Option<Error> {
    let ss = schedules_of(s, dest);
    if schedule.period == 0 {
        Some(Error::ZeroVestingPeriod)
    } else if schedule.period_count == 0 {
        Some(Error::ZeroVestingPeriodCount)
    } else if schedule.start <= now {
        Some(Error::InvalidVestingStart)
    } else if !fits(total_of(schedule)) {
        Some(Error::ArithmeticOverflow)
    } else if total_of(schedule) < s.min_vested_transfer {
        Some(Error::AmountLow)
    } else if spendable_of(l, who) < total_of(schedule) {
        Some(Error::InsufficientBalanceToLock)
    } else if ss.len() >= s.max_vesting_schedules {
        Some(Error::TooManyVestingSchedules)
    } else if !fits(locked_sum(ss.push(schedule), now)) {
        Some(Error::ArithmeticOverflow)
    } else {
        None
    }
}

/// What a successful vested transfer leaves: the schedule's total moved from `who`
/// to `dest`, the schedule appended to those of `dest`, and the hold on `dest` set
/// to what its schedules now lock.
pub open spec fn vested_transfer_post<C: AssetCustody>(
    s0: VestingView,
    l0: C,
    who: AccountId,
    dest: AccountId,
    schedule: VestingSchedule,
    now: nat,
    s1: VestingView,
    l1: C,
) -> bool {
    let ss = schedules_of(s0, dest).push(schedule);
    &&& replaced(s0, s1, dest, ss)
    &&& l1.wf()
    &&& l1.issuance() == l0.issuance()
    &&& frees_moved(l0, l1, who, dest, total_of(schedule), 0)
    &&& holds_moved(l0, l1, dest, hold_for(locked_sum(ss, now)))
}

/// Why replacing the schedules of `who` by `ss` at block `now` fails, checked in
/// this order; `None` where it succeeds.
pub open spec fn update_vesting_schedules_error<C: AssetCustody>(
    s: VestingView,
    l: C,
    who: AccountId,
    ss: Seq<VestingSchedule>,
    now: nat,
) -> Option<Error> {
    if ss.len() > s.max_vesting_schedules {
        Some(Error::TooManyVestingSchedules)
    } else if !fits(locked_sum(ss, now)) {
        Some(Error::ArithmeticOverflow)
    } else if spendable_of(l, who) < locked_sum(ss, now) {
        Some(Error::InsufficientBalanceToLock)
    } else {
        None
    }
}

/// Why replacing the schedule at `index` of `who` by `schedule` at block `now`
/// fails, checked in this order; `None` where it succeeds.
pub open spec fn update_vesting_schedule_error(
    s: VestingView,
    who: AccountId,
    index: nat,
    schedule: VestingSchedule,
    now: nat,
) -> Option<Error> {
    let ss = schedules_of(s, who);
    if index >= ss.len() {
        Some(Error::InvalidVestingIndex)
    } else if schedule.period == 0 {
        Some(Error::ZeroVestingPeriod)
    } else if schedule.period_count == 0 {
        Some(Error::ZeroVestingPeriodCount)
    } else if !fits(locked_sum(ss.update(index as int, schedule), now)) {
        Some(Error::ArithmeticOverflow)
    } else {
        None
    }
}

/// Why removing the schedule at `index` of `who` at block `now` fails, checked in
/// this order; `None` where it succeeds.
pub open spec fn force_remove_vesting_schedule_error(
    s: VestingView,
    who: AccountId,
    index: nat,
    now: nat,
) -> Option<Error> {
    let ss = schedules_of(s, who);
    if index >= ss.len() {
        Some(Error::InvalidVestingIndex)
    } else if !fits(locked_sum(ss.remove(index as int), now)) {
        Some(Error::ArithmeticOverflow)
    } else {
        None
    }
}

proof fn lemma_locked_sum_prefix(ss: Seq<VestingSchedule>, i: int, now: nat)
    requires
        0 <= i <= ss.len(),
    ensures
        locked_sum(ss.subrange(0, i), now) <= locked_sum(ss, now),
    decreases ss.len(),
{
    if i < ss.len() {
        lemma_locked_sum_prefix(ss.drop_last(), i, now);
        assert(ss.drop_last().subrange(0, i) =~= ss.subrange(0, i));
    } else {
        assert(ss.subrange(0, i) =~= ss);
    }
}

impl VestingSchedule {
    /// The schedule's total, `None` where it does not fit in a `Balance`.
    pub fn total_amount(&self) -> (r: Option<Balance>)
        ensures
            r == if fits(total_of(*self)) {
                Some(total_of(*self) as Balance)
            } else {
                None::<Balance>
            },
    {
        self.per_period.checked_mul(self.period_count as u128)
    }

    /// What the schedule has unlocked by block `now`.
    pub fn vested_amount(&self, now: BlockNumber) -> (r: Balance)
        ensures
            r == vested_of(*self, now as nat),
    {
        if now < self.start || self.period == 0 {
            return 0;
        }
        let elapsed = (now - self.start) / self.period;
        let max_periods = self.period_count as u64;
        let periods = if elapsed > max_periods {
            max_periods
        } else {
            elapsed
        };
        match self.per_period.checked_mul(periods as u128) {
            Some(v) => v,
            None => Balance::MAX,
        }
    }

    /// What the schedule still locks at block `now`.
    pub fn locked_amount(&self, now: BlockNumber) -> (r: Balance)
        ensures
            r == locked_of(*self, now as nat),
    {
        let total = match self.total_amount() {
            Some(t) => t,
            None => 0,
        };
        total.saturating_sub(self.vested_amount(now))
    }

    /// Whether the schedule starts strictly after `current_block`.
    pub fn is_valid_start_block(&self, current_block: BlockNumber) -> (r: bool)
        ensures
            r == (self.start > current_block),
    {
        self.start > current_block
    }
}

impl View for Pallet {
    type V = VestingView;

    closed spec fn view(&self) -> VestingView {
        VestingView {
            max_vesting_schedules: self.config.max_vesting_schedules as nat,
            min_vested_transfer: self.config.min_vested_transfer as nat,
            schedules: self.schedules@,
        }
    }
}

impl Pallet {
    /// The engine's invariant: accounts are distinct and none holds more schedules
    /// than allowed.
    pub closed spec fn wf(&self) -> bool {
        &&& self.schedules.wf()
        &&& forall|k: AccountId| #[trigger]
            schedules_of(self@, k).len() <= self.config.max_vesting_schedules
    }

    /// An engine with no schedules.
    pub fn new(config: Config) -> (p: Pallet)
        ensures
            p.wf(),
            p@.max_vesting_schedules == config.max_vesting_schedules,
            p@.min_vested_transfer == config.min_vested_transfer,
            forall|k: AccountId| #[trigger] schedules_of(p@, k).len() == 0,
    {
        Pallet { config, schedules: Table::new() }
    }

    /// The schedules of `who`, in insertion order.
    pub fn vesting_schedules(&self, who: AccountId) -> (r: Vec<VestingSchedule>)
        requires
            self.wf(),
        ensures
            r@ == schedules_of(self@, who),
    {
        let mut r: Vec<VestingSchedule> = Vec::new();
        match self.schedules.get(who) {
            Some(v) => {
                let mut i: usize = 0;
                while i < v.len()
                    invariant
                        i <= v@.len(),
                        r@ == v@.subrange(0, i as int),
                    decreases v@.len() - i,
                {
                    r.push(v[i]);
                    i = i + 1;
                    assert(r@ =~= v@.subrange(0, i as int));
                }
                assert(r@ =~= v@);
            },
            None => {
                assert(r@ =~= Seq::<VestingSchedule>::empty());
            },
        }
        r
    }

    /// The sum of what `schedules` still lock at block `now`.
    fn calculate_total_locked_amount(schedules: &Vec<VestingSchedule>, now: BlockNumber) -> (r: Result<
        Balance,
        Error,
    >)
        ensures
            r == if fits(locked_sum(schedules@, now as nat)) {
                Ok::<Balance, Error>(locked_sum(schedules@, now as nat) as Balance)
            } else {
                Err::<Balance, Error>(Error::ArithmeticOverflow)
            },
    {
        let mut total: Balance = 0;
        let mut i: usize = 0;
        while i < schedules.len()
            invariant
                i <= schedules@.len(),
                total == locked_sum(schedules@.subrange(0, i as int), now as nat),
            decreases schedules@.len() - i,
        {
            let locked = schedules[i].locked_amount(now);
            assert(schedules@.subrange(0, i + 1).drop_last() =~= schedules@.subrange(0, i as int));
            match total.checked_add(locked) {
                Some(t) => total = t,
                None => {
                    proof {
                        lemma_locked_sum_prefix(schedules@, i + 1, now as nat);
                    }
                    return Err(Error::ArithmeticOverflow);
                },
            }
            i = i + 1;
        }
        assert(schedules@.subrange(0, i as int) =~= schedules@);
        Ok(total)
    }

    /// Sets the hold on `who` to `total`, or removes it where `total` is zero.
    fn apply_lock<C: AssetCustody>(ledger: &mut C, who: AccountId, total: Balance)
        requires
            old(ledger).wf(),
        ensures
            rehold(*old(ledger), *final(ledger), who, hold_for(total as nat)),
    {
        if total == 0 {
            ledger.remove_hold(who);
        } else {
            ledger.set_hold(who, total);
        }
    }

    /// Recomputes what the schedules of `who` lock at block `now` and holds that on
    /// its funds, or removes the hold where nothing is locked.
    fn update_lock<C: AssetCustody>(&self, ledger: &mut C, who: AccountId, now: BlockNumber) -> (r: Result<
        Balance,
        Error,
    >)
        requires
            self.wf(),
            old(ledger).wf(),
        ensures
            final(ledger).wf(),
            match r {
                Ok(t) => t == locked_sum(schedules_of(self@, who), now as nat) && rehold(
                    *old(ledger),
                    *final(ledger),
                    who,
                    hold_for(t as nat),
                ),
                Err(e) => e == Error::ArithmeticOverflow && !fits(
                    locked_sum(schedules_of(self@, who), now as nat),
                ) && *final(ledger) == *old(ledger),
            },
    {
        let schedules = self.vesting_schedules(who);
        let total = match Self::calculate_total_locked_amount(&schedules, now) {
            Ok(t) => t,
            Err(e) => {
                return Err(e);
            },
        };
        Self::apply_lock(ledger, who, total);
        Ok(total)
    }
    /// Moves the total of `schedule` from `who` to `dest` at block `now`, appends the
    /// schedule to those of `dest` and locks what they now lock on its funds.
    pub fn vested_transfer<C: AssetCustody>(
        &mut self,
        ledger: &mut C,
        who: AccountId,
        dest: AccountId,
        schedule: VestingSchedule,
        now: BlockNumber,
    ) -> (r: Result<(), Error>)
        requires
            old(self).wf(),
            old(ledger).wf(),
        ensures
            final(self).wf(),
            final(ledger).wf(),
            r == outcome(
                vested_transfer_error(old(self)@, *old(ledger), who, dest, schedule, now as nat),
            ),
            schedule.period == 0 ==> r == Err::<(), Error>(Error::ZeroVestingPeriod),
            schedule.period != 0 && schedule.period_count == 0 ==> r == Err::<(), Error>(
                Error::ZeroVestingPeriodCount,
            ),
            r is Ok ==> vested_transfer_post(
                old(self)@,
                *old(ledger),
                who,
                dest,
                schedule,
                now as nat,
                final(self)@,
                *final(ledger),
            ),
            r is Err ==> *final(self) == *old(self) && *final(ledger) == *old(ledger),
    {
        if schedule.period == 0 {
            return Err(Error::ZeroVestingPeriod);
        }
        if schedule.period_count == 0 {
            return Err(Error::ZeroVestingPeriodCount);
        }
        if !schedule.is_valid_start_block(now) {
            return Err(Error::InvalidVestingStart);
        }
        let total = match schedule.total_amount() {
            Some(t) => t,
            None => {
                return Err(Error::ArithmeticOverflow);
            },
        };
        if total < self.config.min_vested_transfer {
            return Err(Error::AmountLow);
        }
        if ledger.spendable_balance(who) < total {
            return Err(Error::InsufficientBalanceToLock);
        }
        let mut list = self.vesting_schedules(dest);
        assert(list@.len() <= self.config.max_vesting_schedules);
        if list.len() >= self.config.max_vesting_schedules as usize {
            return Err(Error::TooManyVestingSchedules);
        }
        list.push(schedule);
        let locked = match Self::calculate_total_locked_amount(&list, now) {
            Ok(t) => t,
            Err(e) => {
                return Err(e);
            },
        };
        let sent = ledger.transfer(who, dest, total);
        assert(sent is Ok);
        self.store(dest, list);
        Self::apply_lock(ledger, dest, locked);
        Ok(())
    }

    /// Replaces the schedules of `who` by `list`, keeping the invariant.
    fn store(&mut self, who: AccountId, list: Vec<VestingSchedule>)
        requires
            old(self).wf(),
            list@.len() <= old(self)@.max_vesting_schedules,
        ensures
            final(self).wf(),
            replaced(old(self)@, final(self)@, who, list@),
    {
        let ghost s0 = self@;
        let ghost ss = list@;
        self.schedules.set(who, list);
        assert forall|k: AccountId| #[trigger]
            schedules_of(self@, k) == if k == who {
                ss
            } else {
                schedules_of(s0, k)
            } by {
            assert(lookup(self@.schedules, k) == if k == who {
                Some(list)
            } else {
                lookup(s0.schedules, k)
            });
        }
    }

    /// Recomputes the hold on `who` from what its schedules lock at block `now`,
    /// removing it once nothing is locked.
    pub fn claim<C: AssetCustody>(&self, ledger: &mut C, who: AccountId, now: BlockNumber) -> (r: Result<(), Error>)
        requires
            self.wf(),
            old(ledger).wf(),
        ensures
            final(ledger).wf(),
            r == outcome(
                if fits(locked_sum(schedules_of(self@, who), now as nat)) {
                    None
                } else {
                    Some(Error::ArithmeticOverflow)
                },
            ),
            r is Ok ==> rehold(
                *old(ledger),
                *final(ledger),
                who,
                hold_for(locked_sum(schedules_of(self@, who), now as nat)),
            ),
            r is Err ==> *final(ledger) == *old(ledger),
    {
        match self.update_lock(ledger, who, now) {
            Ok(_) => Ok(()),
            Err(e) => Err(e),
        }
    }

    /// Replaces all schedules of `who` by `schedules` and locks what they lock at
    /// block `now`. No funds move: `who` must already hold them.
    pub fn update_vesting_schedules<C: AssetCustody>(
        &mut self,
        ledger: &mut C,
        who: AccountId,
        schedules: Vec<VestingSchedule>,
        now: BlockNumber,
    ) -> (r: Result<(), Error>)
        requires
            old(self).wf(),
            old(ledger).wf(),
        ensures
            final(self).wf(),
            final(ledger).wf(),
            r == outcome(
                update_vesting_schedules_error(old(self)@, *old(ledger), who, schedules@, now as nat),
            ),
            r is Ok ==> replaced(old(self)@, final(self)@, who, schedules@) && rehold(
                *old(ledger),
                *final(ledger),
                who,
                hold_for(locked_sum(schedules@, now as nat)),
            ),
            r is Err ==> *final(self) == *old(self) && *final(ledger) == *old(ledger),
    {
        if schedules.len() > self.config.max_vesting_schedules as usize {
            return Err(Error::TooManyVestingSchedules);
        }
        let locked = match Self::calculate_total_locked_amount(&schedules, now) {
            Ok(t) => t,
            Err(e) => {
                return Err(e);
            },
        };
        if ledger.spendable_balance(who) < locked {
            return Err(Error::InsufficientBalanceToLock);
        }
        self.store(who, schedules);
        Self::apply_lock(ledger, who, locked);
        Ok(())
    }

    /// Replaces the schedule at `index` of `who` by `schedule` and locks what the
    /// schedules of `who` then lock at block `now`.
    pub fn update_vesting_schedule<C: AssetCustody>(
        &mut self,
        ledger: &mut C,
        who: AccountId,
        index: u32,
        schedule: VestingSchedule,
        now: BlockNumber,
    ) -> (r: Result<(), Error>)
        requires
            old(self).wf(),
            old(ledger).wf(),
        ensures
            final(self).wf(),
            final(ledger).wf(),
            r == outcome(
                update_vesting_schedule_error(old(self)@, who, index as nat, schedule, now as nat),
            ),
            r is Ok ==> {
                let ss = schedules_of(old(self)@, who).update(index as int, schedule);
                replaced(old(self)@, final(self)@, who, ss) && rehold(
                    *old(ledger),
                    *final(ledger),
                    who,
                    hold_for(locked_sum(ss, now as nat)),
                )
            },
            r is Err ==> *final(self) == *old(self) && *final(ledger) == *old(ledger),
    {
        let mut list = self.vesting_schedules(who);
        let idx = index as usize;
        if idx >= list.len() {
            return Err(Error::InvalidVestingIndex);
        }
        if schedule.period == 0 {
            return Err(Error::ZeroVestingPeriod);
        }
        if schedule.period_count == 0 {
            return Err(Error::ZeroVestingPeriodCount);
        }
        list.set(idx, schedule);
        let locked = match Self::calculate_total_locked_amount(&list, now) {
            Ok(t) => t,
            Err(e) => {
                return Err(e);
            },
        };
        self.store(who, list);
        Self::apply_lock(ledger, who, locked);
        Ok(())
    }

    /// Removes the schedule at `index` of `who`; removes the hold where no schedule
    /// is left, else locks what the rest lock at block `now`.
    pub fn force_remove_vesting_schedule<C: AssetCustody>(
        &mut self,
        ledger: &mut C,
        who: AccountId,
        schedule_index: u32,
        now: BlockNumber,
    ) -> (r: Result<(), Error>)
        requires
            old(self).wf(),
            old(ledger).wf(),
        ensures
            final(self).wf(),
            final(ledger).wf(),
            r == outcome(
                force_remove_vesting_schedule_error(old(self)@, who, schedule_index as nat, now as nat),
            ),
            r is Ok ==> {
                let ss = schedules_of(old(self)@, who).remove(schedule_index as int);
                replaced(old(self)@, final(self)@, who, ss) && rehold(
                    *old(ledger),
                    *final(ledger),
                    who,
                    hold_for(locked_sum(ss, now as nat)),
                )
            },
            r is Err ==> *final(self) == *old(self) && *final(ledger) == *old(ledger),
    {
        let mut list = self.vesting_schedules(who);
        let idx = schedule_index as usize;
        if idx >= list.len() {
            return Err(Error::InvalidVestingIndex);
        }
        list.remove(idx);
        if list.len() == 0 {
            self.store(who, list);
            ledger.remove_hold(who);
            return Ok(());
        }
        let locked = match Self::calculate_total_locked_amount(&list, now) {
            Ok(t) => t,
            Err(e) => {
                return Err(e);
            },
        };
        self.store(who, list);
        Self::apply_lock(ledger, who, locked);
        Ok(())
    }

    /// What the schedules of `who` have unlocked by block `now`, clamped to a `Balance`.
    pub fn vested_balance(&self, who: AccountId, now: BlockNumber) -> (r: Balance)
        requires
            self.wf(),
        ensures
            r == clamp(vested_sum(schedules_of(self@, who), now as nat)),
    {
        let schedules = self.vesting_schedules(who);
        let mut total: Balance = 0;
        let mut i: usize = 0;
        while i < schedules.len()
            invariant
                i <= schedules@.len(),
                total == clamp(vested_sum(schedules@.subrange(0, i as int), now as nat)),
            decreases schedules@.len() - i,
        {
            assert(schedules@.subrange(0, i + 1).drop_last() =~= schedules@.subrange(0, i as int));
            total = total.saturating_add(schedules[i].vested_amount(now));
            i = i + 1;
        }
        assert(schedules@.subrange(0, i as int) =~= schedules@);
        total
    }

    /// What the schedules of `who` still lock at block `now`, clamped to a `Balance`.
    pub fn locked_balance(&self, who: AccountId, now: BlockNumber) -> (r: Balance)
        requires
            self.wf(),
        ensures
            r == clamp(locked_sum(schedules_of(self@, who), now as nat)),
    {
        let schedules = self.vesting_schedules(who);
        let mut total: Balance = 0;
        let mut i: usize = 0;
        while i < schedules.len()
            invariant
                i <= schedules@.len(),
                total == clamp(locked_sum(schedules@.subrange(0, i as int), now as nat)),
            decreases schedules@.len() - i,
        {
            assert(schedules@.subrange(0, i + 1).drop_last() =~= schedules@.subrange(0, i as int));
            total = total.saturating_add(schedules[i].locked_amount(now));
            i = i + 1;
        }
        assert(schedules@.subrange(0, i as int) =~= schedules@);
        total
    }
}

} // verus!
