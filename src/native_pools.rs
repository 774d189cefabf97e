//! A pool of deposits that shares injected rewards among depositors in proportion
//! to their principal, through an accumulator of reward per unit of principal.
//!
//! Every operation settles the account it touches before it changes its principal,
//! and either completes or fails without changing the pool or the ledger. Overflow of
//! any product or total is reported as `ArithmeticOverflow`, never clamped.

use vstd::prelude::*;

use crate::ledger::{exchanged, lemma_exchange_compose, spendable_of, AssetCustody};
use crate::table::{keys_unique, lookup, sum_of, value_or_zero, Table};
use crate::{AccountId, Balance, BlockNumber};

verus! {

/// The fixed-point scale of the accumulator.
pub const PRECISION: u128 = 1_000_000_000_000;

/// One depositor's position in the pool.
#[derive(Clone, Copy, Debug, PartialEq, Eq, Structural)]
pub struct DepositInfo {
    /// The principal deposited.
    pub amount: Balance,
    /// The block of the latest deposit.
    pub deposit_block: BlockNumber,
    /// The accumulator-weighted principal at the latest settlement.
    pub reward_debt: Balance,
}

/// Why a pool operation failed.
#[derive(Clone, Copy, Debug, PartialEq, Eq, Structural)]
pub enum Error {
    /// The account has no deposit in the pool.
    NoDeposit,
    /// The amount exceeds the principal or the spendable balance.
    InsufficientBalance,
    /// An amount that must be positive is zero.
    ZeroAmount,
    /// The pool account cannot cover a payout.
    InsufficientPoolBalance,
    /// A product or a total does not fit in a `Balance`.
    ArithmeticOverflow,
}

/// How a pool is set up.
#[derive(Clone, Copy, Debug)]
pub struct Config {
    /// The account that holds the pooled funds.
    pub pallet_account: AccountId,
}

/// The state of a pool, with the funds that it moved in and out of its account.
pub ghost struct PoolView {
    pub pool_account: AccountId,
    pub total_deposited: nat,
    pub total_rewards: nat,
    pub acc_reward_per_share: nat,
    pub last_reward_block: nat,
    /// One entry per depositor.
    pub deposits: Seq<(AccountId, DepositInfo)>,
    /// Funds that the pool's operations moved into the pool account.
    pub paid_in: nat,
    /// Funds that the pool's operations moved out of the pool account.
    pub paid_out: nat,
}

/// The reward pool.
pub struct Pallet {
    pool_account: AccountId,
    total_deposited: Balance,
    total_rewards: Balance,
    acc_reward_per_share: Balance,
    last_reward_block: BlockNumber,
    deposits: Table<DepositInfo>,
    paid_in: Ghost<nat>,
    paid_out: Ghost<nat>,
}

/// `x` fits in a `Balance`.
pub open spec fn fits(x: nat) -> bool {
    x <= Balance::MAX
}

/// The weight under which the positions add up to `total_deposited`.
pub open spec fn amount_weight() -> spec_fn(DepositInfo) -> nat {
    |d: DepositInfo| d.amount as nat
}

/// The accumulator-weighted principal: `acc * amount / PRECISION`, rounded down.
pub open spec fn weighted(acc: nat, amount: nat) -> nat {
    (acc * amount) / (PRECISION as nat)
}

/// What a position is owed under `acc`: its weighted principal less its debt,
/// never below zero.
pub open spec fn pending(acc: nat, d: DepositInfo) -> nat {
    let due = weighted(acc, d.amount as nat);
    if due >= d.reward_debt {
        (due - d.reward_debt) as nat
    } else {
        0
    }
}

/// `a - b`, or zero where `b` is larger.
pub open spec fn saturating_sub(a: nat, b: nat) -> nat {
    if a >= b {
        (a - b) as nat
    } else {
        0
    }
}

/// The result of an operation that fails with `e`, if any.
pub open spec fn outcome(e: Option<Error>) -> Result<(), Error> {
    match e {
        Some(e) => Err(e),
        None => Ok(()),
    }
}

/// A settled position: its debt is its weighted principal under `acc`.
pub open spec fn settled(acc: nat, amount: nat, block: nat) -> DepositInfo {
    DepositInfo {
        amount: amount as u128,
        deposit_block: block as u64,
        reward_debt: weighted(acc, amount) as u128,
    }
}

/// The principal of `who`, or zero where it has no deposit.
pub open spec fn principal_of(s: PoolView, who: AccountId) -> nat {
    value_or_zero(s.deposits, who, amount_weight())
}

/// What a deposit by `who` pays out first: the rewards pending on its position.
pub open spec fn deposit_payout(s: PoolView, who: AccountId) -> nat {
    match lookup(s.deposits, who) {
        Some(d) => pending(s.acc_reward_per_share, d),
        None => 0,
    }
}

/// The spendable balance of the pool account once `who` has moved `amount` into it.
pub open spec fn pool_spendable_after<C: AssetCustody>(l: C, who: AccountId, pool: AccountId, amount: nat) -> nat {
    if who == pool {
        spendable_of(l, pool)
    } else {
        let free = l.free_of(pool) + amount;
        match l.hold_of(pool) {
            Some(h) => if free >= h {
                (free - h) as nat
            } else {
                0
            },
            None => free,
        }
    }
}

/// Why a deposit of `amount` by `who` fails, checked in this order; `None` where it succeeds.
pub open spec fn deposit_error<C: AssetCustody>(s: PoolView, l: C, who: AccountId, amount: nat) -> Option<Error> {
    let new_amount = principal_of(s, who) + amount;
    let p = deposit_payout(s, who);
    if amount == 0 {
        Some(Error::ZeroAmount)
    } else if spendable_of(l, who) < amount {
        Some(Error::InsufficientBalance)
    } else if !fits(s.total_deposited + amount) || !fits(s.acc_reward_per_share * new_amount) {
        Some(Error::ArithmeticOverflow)
    } else if p > 0 && pool_spendable_after(l, who, s.pool_account, amount) < p {
        Some(Error::InsufficientPoolBalance)
    } else {
        None
    }
}

/// The funds that an operation moves between `who` and the pool account, counted
/// only where they are two accounts.
pub open spec fn flow(who: AccountId, pool: AccountId, amount: nat) -> nat {
    if who != pool {
        amount
    } else {
        0
    }
}

/// What a successful deposit of `amount` by `who` at block `now` leaves: `who` pays
/// `amount` in and receives its pending rewards; its principal grows by `amount` and
/// is settled under the unchanged accumulator.
pub open spec fn deposit_post<C: AssetCustody>(
    s0: PoolView,
    l0: C,
    who: AccountId,
    amount: nat,
    now: nat,
    s1: PoolView,
    l1: C,
) -> bool {
    let p = deposit_payout(s0, who);
    let acc = s0.acc_reward_per_share;
    &&& exchanged(l0, l1, who, s0.pool_account, amount, p)
    &&& s1.pool_account == s0.pool_account
    &&& s1.total_deposited == s0.total_deposited + amount
    &&& s1.total_rewards == saturating_sub(s0.total_rewards, p)
    &&& s1.acc_reward_per_share == acc
    &&& s1.last_reward_block == now
    &&& lookup(s1.deposits, who) == Some(settled(acc, principal_of(s0, who) + amount, now))
    &&& forall|k: AccountId| k != who ==> #[trigger] lookup(s1.deposits, k) == lookup(s0.deposits, k)
    &&& s1.paid_in == s0.paid_in + flow(who, s0.pool_account, amount)
    &&& s1.paid_out == s0.paid_out + flow(who, s0.pool_account, p)
}

/// The principal that a withdrawal of `amount` takes out of `d`: all of it where
/// no amount is given.
pub open spec fn withdrawal(d: DepositInfo, amount: Option<Balance>) -> nat {
    match amount {
        Some(a) => a as nat,
        None => d.amount as nat,
    }
}

/// Why a withdrawal by `who` fails, checked in this order; `None` where it succeeds.
pub open spec fn withdraw_error<C: AssetCustody>(s: PoolView, l: C, who: AccountId, amount: Option<Balance>) -> Option<
    Error,
> {
    match lookup(s.deposits, who) {
        None => Some(Error::NoDeposit),
        Some(d) => {
            let w = withdrawal(d, amount);
            let p = pending(s.acc_reward_per_share, d);
            if !fits(s.acc_reward_per_share * (d.amount as nat)) {
                Some(Error::ArithmeticOverflow)
            } else if w == 0 {
                Some(Error::ZeroAmount)
            } else if w > d.amount {
                Some(Error::InsufficientBalance)
            } else if !fits(w + p) {
                Some(Error::ArithmeticOverflow)
            } else if spendable_of(l, s.pool_account) < w + p {
                Some(Error::InsufficientPoolBalance)
            } else {
                None
            }
        },
    }
}

/// What a successful withdrawal by `who` at block `now` leaves: `who` receives the
/// principal withdrawn and its pending rewards; what principal is left is settled
/// under the unchanged accumulator, and a position left empty is deleted.
pub open spec fn withdraw_post<C: AssetCustody>(
    s0: PoolView,
    l0: C,
    who: AccountId,
    amount: Option<Balance>,
    now: nat,
    s1: PoolView,
    l1: C,
) -> bool {
    let d = lookup(s0.deposits, who)->Some_0;
    let acc = s0.acc_reward_per_share;
    let w = withdrawal(d, amount);
    let p = pending(acc, d);
    let rest = (d.amount - w) as nat;
    &&& exchanged(l0, l1, who, s0.pool_account, 0, w + p)
    &&& s1.pool_account == s0.pool_account
    &&& s1.total_deposited == s0.total_deposited - w
    &&& s1.total_rewards == saturating_sub(s0.total_rewards, p)
    &&& s1.acc_reward_per_share == acc
    &&& s1.last_reward_block == now
    &&& lookup(s1.deposits, who) == if rest == 0 {
        None
    } else {
        Some(settled(acc, rest, d.deposit_block as nat))
    }
    &&& forall|k: AccountId| k != who ==> #[trigger] lookup(s1.deposits, k) == lookup(s0.deposits, k)
    &&& s1.paid_in == s0.paid_in
    &&& s1.paid_out == s0.paid_out + flow(who, s0.pool_account, w + p)
}

/// Why a claim by `who` fails, checked in this order; `None` where it succeeds.
pub open spec fn claim_rewards_error<C: AssetCustody>(s: PoolView, l: C, who: AccountId) -> Option<Error> {
    match lookup(s.deposits, who) {
        None => Some(Error::NoDeposit),
        Some(d) => {
            let p = pending(s.acc_reward_per_share, d);
            if !fits(s.acc_reward_per_share * (d.amount as nat)) {
                Some(Error::ArithmeticOverflow)
            } else if p == 0 {
                Some(Error::ZeroAmount)
            } else if spendable_of(l, s.pool_account) < p {
                Some(Error::InsufficientPoolBalance)
            } else {
                None
            }
        },
    }
}

/// What a successful claim by `who` at block `now` leaves: `who` receives its pending
/// rewards, and its principal, untouched, is settled under the unchanged accumulator.
pub open spec fn claim_rewards_post<C: AssetCustody>(
    s0: PoolView,
    l0: C,
    who: AccountId,
    now: nat,
    s1: PoolView,
    l1: C,
) -> bool {
    let d = lookup(s0.deposits, who)->Some_0;
    let acc = s0.acc_reward_per_share;
    let p = pending(acc, d);
    &&& exchanged(l0, l1, who, s0.pool_account, 0, p)
    &&& s1.pool_account == s0.pool_account
    &&& s1.total_deposited == s0.total_deposited
    &&& s1.total_rewards == saturating_sub(s0.total_rewards, p)
    &&& s1.acc_reward_per_share == acc
    &&& s1.last_reward_block == now
    &&& lookup(s1.deposits, who) == Some(settled(acc, d.amount as nat, d.deposit_block as nat))
    &&& forall|k: AccountId| k != who ==> #[trigger] lookup(s1.deposits, k) == lookup(s0.deposits, k)
    &&& s1.paid_in == s0.paid_in
    &&& s1.paid_out == s0.paid_out + flow(who, s0.pool_account, p)
}

/// What an injection of `amount` raises the accumulator by: `amount * PRECISION`
/// shared over the principal, rounded down; nothing while the pool holds no principal.
pub open spec fn accumulator_increment(total_deposited: nat, amount: nat) -> nat {
    if total_deposited == 0 {
        0
    } else {
        (amount * (PRECISION as nat)) / total_deposited
    }
}

/// Why an injection of `amount` from `depositor` fails, checked in this order;
/// `None` where it succeeds.
pub open spec fn deposit_rewards_error<C: AssetCustody>(s: PoolView, l: C, depositor: AccountId, amount: nat) -> Option<
    Error,
> {
    if amount == 0 {
        Some(Error::ZeroAmount)
    } else if spendable_of(l, depositor) < amount {
        Some(Error::InsufficientBalance)
    } else if !fits(s.total_rewards + amount) || (s.total_deposited > 0 && (!fits(amount * (PRECISION as nat))
        || !fits(s.acc_reward_per_share + accumulator_increment(s.total_deposited, amount)))) {
        Some(Error::ArithmeticOverflow)
    } else {
        None
    }
}

/// What a successful injection leaves: the pool account receives `amount`, the
/// rewards grow by it, and the accumulator by its share per unit of principal.
pub open spec fn deposit_rewards_post<C: AssetCustody>(
    s0: PoolView,
    l0: C,
    depositor: AccountId,
    amount: nat,
    s1: PoolView,
    l1: C,
) -> bool {
    &&& exchanged(l0, l1, depositor, s0.pool_account, amount, 0)
    &&& s1.pool_account == s0.pool_account
    &&& s1.total_deposited == s0.total_deposited
    &&& s1.total_rewards == s0.total_rewards + amount
    &&& s1.acc_reward_per_share == s0.acc_reward_per_share + accumulator_increment(
        s0.total_deposited,
        amount,
    )
    &&& s1.last_reward_block == s0.last_reward_block
    &&& s1.deposits == s0.deposits
    &&& s1.paid_in == s0.paid_in + flow(depositor, s0.pool_account, amount)
    &&& s1.paid_out == s0.paid_out
}

proof fn lemma_mul_mono(a: nat, b: nat, c: nat)
    requires
        b <= c,
    ensures
        a * b <= a * c,
{
    assert(a * b <= a * c) by (nonlinear_arith)
        requires
            b <= c,
    ;
}

proof fn lemma_weighted_fits(acc: nat, amount: nat)
    requires
        fits(acc * amount),
    ensures
        weighted(acc, amount) <= acc * amount,
        fits(weighted(acc, amount)),
{
    assert(acc * amount >= 0) by (nonlinear_arith);
    assert((acc * amount) / (PRECISION as nat) <= acc * amount) by (nonlinear_arith)
        requires
            acc * amount >= 0,
    ;
}

/// `total_deposited` equals the sum of the principal over all positions; each
/// depositor has one position, and no position is empty.
pub proof fn lemma_total_deposited_is_sum(pool: &Pallet)
    requires
        pool.wf(),
    ensures
        keys_unique(pool@.deposits),
        pool@.total_deposited == sum_of(pool@.deposits, amount_weight()),
        forall|k: AccountId| #[trigger]
            lookup(pool@.deposits, k) matches Some(d) ==> d.amount > 0,
{
}

/// Claiming twice in immediate succession: the second claim finds nothing pending
/// and fails with `ZeroAmount`.
pub proof fn lemma_claim_rewards_twice<C: AssetCustody>(
    s0: PoolView,
    l0: C,
    who: AccountId,
    now: nat,
    s1: PoolView,
    l1: C,
)
    requires
        claim_rewards_error(s0, l0, who) == None::<Error>,
        claim_rewards_post(s0, l0, who, now, s1, l1),
    ensures
        claim_rewards_error(s1, l1, who) == Some(Error::ZeroAmount),
        deposit_payout(s1, who) == 0,
{
    let d = lookup(s0.deposits, who)->Some_0;
    lemma_weighted_fits(s0.acc_reward_per_share, d.amount as nat);
}

/// While a pool is in step with the ledger, the funds that its operations moved out
/// of the pool account never exceed those they moved into it.
pub proof fn lemma_outflow_bounded<C: AssetCustody>(pool: &Pallet, l: C)
    requires
        pool.in_step(l),
    ensures
        pool@.paid_out <= pool@.paid_in,
{
}

impl View for Pallet {
    type V = PoolView;

    closed spec fn view(&self) -> PoolView {
        PoolView {
            pool_account: self.pool_account,
            total_deposited: self.total_deposited as nat,
            total_rewards: self.total_rewards as nat,
            acc_reward_per_share: self.acc_reward_per_share as nat,
            last_reward_block: self.last_reward_block as nat,
            deposits: self.deposits@,
            paid_in: self.paid_in@,
            paid_out: self.paid_out@,
        }
    }
}

impl Pallet {
    /// The pool's invariant: depositors are distinct, every position holds principal,
    /// and `total_deposited` is the sum of all principal.
    pub closed spec fn wf(&self) -> bool {
        &&& self.deposits.wf()
        &&& self.total_deposited == sum_of(self.deposits@, amount_weight())
        &&& forall|k: AccountId| #[trigger]
            lookup(self.deposits@, k) matches Some(d) ==> d.amount > 0
    }

    /// The pool account holds exactly what the pool's operations moved into it less
    /// what they moved out of it.
    pub open spec fn in_step<C: AssetCustody>(&self, l: C) -> bool {
        l.free_of(self@.pool_account) + self@.paid_out == self@.paid_in
    }

    /// An empty pool whose funds are kept on `config.pallet_account`.
    pub fn new(config: Config) -> (p: Pallet)
        ensures
            p.wf(),
            p@.pool_account == config.pallet_account,
            p@.total_deposited == 0,
            p@.total_rewards == 0,
            p@.acc_reward_per_share == 0,
            p@.last_reward_block == 0,
            p@.deposits.len() == 0,
            p@.paid_in == 0,
            p@.paid_out == 0,
    {
        Pallet {
            pool_account: config.pallet_account,
            total_deposited: 0,
            total_rewards: 0,
            acc_reward_per_share: 0,
            last_reward_block: 0,
            deposits: Table::new(),
            paid_in: Ghost(0),
            paid_out: Ghost(0),
        }
    }

    fn position(&self, who: AccountId) -> (r: Option<DepositInfo>)
        requires
            self.wf(),
        ensures
            r == lookup(self@.deposits, who),
            r matches Some(d) ==> d.amount <= self.total_deposited,
    {
        proof {
            crate::table::lemma_sum_key(self.deposits@, who, amount_weight());
        }
        match self.deposits.get(who) {
            Some(d) => Some(*d),
            None => None,
        }
    }

    /// Touches the bookkeeping block.
    fn update_pool(&mut self, now: BlockNumber)
        ensures
            *final(self) == (Pallet { last_reward_block: now, ..*old(self) }),
    {
        self.last_reward_block = now;
    }

    /// Deposits `amount` from `who` at block `now`, first paying out the rewards
    /// pending on its existing position.
    pub fn deposit<C: AssetCustody>(&mut self, ledger: &mut C, who: AccountId, amount: Balance, now: BlockNumber) -> (r:
        Result<(), Error>)
        requires
            old(self).wf(),
            old(ledger).wf(),
        ensures
            final(self).wf(),
            final(ledger).wf(),
            r == outcome(deposit_error(old(self)@, *old(ledger), who, amount as nat)),
            r is Ok ==> deposit_post(
                old(self)@,
                *old(ledger),
                who,
                amount as nat,
                now as nat,
                final(self)@,
                *final(ledger),
            ),
            r is Err ==> *final(self) == *old(self) && *final(ledger) == *old(ledger),
            final(self)@.acc_reward_per_share == old(self)@.acc_reward_per_share,
            old(self).in_step(*old(ledger)) ==> final(self).in_step(*final(ledger)),
    {
        let ghost s0 = self@;
        let ghost l0 = *ledger;
        if amount == 0 {
            return Err(Error::ZeroAmount);
        }
        if ledger.spendable_balance(who) < amount {
            return Err(Error::InsufficientBalance);
        }
        let acc = self.acc_reward_per_share;
        let existing = self.position(who);
        let old_amount = match existing {
            Some(d) => d.amount,
            None => 0,
        };
        assert(old_amount == principal_of(s0, who));
        let total = match self.total_deposited.checked_add(amount) {
            Some(t) => t,
            None => {
                return Err(Error::ArithmeticOverflow);
            },
        };
        let new_amount = old_amount + amount;
        let new_debt = match acc.checked_mul(new_amount) {
            Some(x) => x / PRECISION,
            None => {
                return Err(Error::ArithmeticOverflow);
            },
        };
        let payout = match existing {
            Some(d) => {
                proof {
                    lemma_mul_mono(acc as nat, d.amount as nat, new_amount as nat);
                }
                let due = acc * d.amount / PRECISION;
                due.saturating_sub(d.reward_debt)
            },
            None => 0,
        };
        assert(payout == deposit_payout(s0, who));
        let pool = self.pool_account;
        if payout > 0 {
            let available = if who == pool {
                ledger.spendable_balance(pool)
            } else {
                proof {
                    l0.lemma_balances_bounded(who, pool);
                }
                let credited = ledger.free_balance(pool) + amount;
                match ledger.hold(pool) {
                    Some(h) => credited.saturating_sub(h),
                    None => credited,
                }
            };
            if available < payout {
                return Err(Error::InsufficientPoolBalance);
            }
        }
        proof {
            lemma_weighted_fits(acc as nat, new_amount as nat);
        }
        self.update_pool(now);
        let paid = ledger.transfer(who, pool, amount);
        assert(paid is Ok);
        let ghost lm = *ledger;
        if payout > 0 {
            let back = ledger.transfer(pool, who, payout);
            assert(back is Ok);
            proof {
                lemma_exchange_compose(l0, lm, *ledger, who, pool, amount as nat, payout as nat);
            }
            self.total_rewards = self.total_rewards.saturating_sub(payout);
        }
        let ghost t0 = self.deposits@;
        self.deposits.set(who, DepositInfo { amount: new_amount, deposit_block: now, reward_debt: new_debt });
        assert(sum_of(self.deposits@, amount_weight()) + value_or_zero(t0, who, amount_weight())
            == sum_of(t0, amount_weight()) + new_amount);
        self.total_deposited = total;
        self.paid_in = Ghost(self.paid_in@ + flow(who, pool, amount as nat));
        self.paid_out = Ghost(self.paid_out@ + flow(who, pool, payout as nat));
        Ok(())
    }
    /// Withdraws principal from the position of `who` at block `now`, all of it where
    /// `amount` is `None`, and pays out the rewards pending on the position with it.
    pub fn withdraw<C: AssetCustody>(
        &mut self,
        ledger: &mut C,
        who: AccountId,
        amount: Option<Balance>,
        now: BlockNumber,
    ) -> (r: Result<(), Error>)
        requires
            old(self).wf(),
            old(ledger).wf(),
        ensures
            final(self).wf(),
            final(ledger).wf(),
            r == outcome(withdraw_error(old(self)@, *old(ledger), who, amount)),
            r is Ok ==> withdraw_post(
                old(self)@,
                *old(ledger),
                who,
                amount,
                now as nat,
                final(self)@,
                *final(ledger),
            ),
            r is Err ==> *final(self) == *old(self) && *final(ledger) == *old(ledger),
            final(self)@.acc_reward_per_share == old(self)@.acc_reward_per_share,
            old(self).in_step(*old(ledger)) ==> final(self).in_step(*final(ledger)),
    {
        let ghost s0 = self@;
        let info = match self.position(who) {
            Some(d) => d,
            None => {
                return Err(Error::NoDeposit);
            },
        };
        let acc = self.acc_reward_per_share;
        let payout = match self.calculate_pending_rewards(who) {
            Ok(p) => p,
            Err(e) => {
                return Err(e);
            },
        };
        let w = match amount {
            Some(a) => a,
            None => info.amount,
        };
        if w == 0 {
            return Err(Error::ZeroAmount);
        }
        if w > info.amount {
            return Err(Error::InsufficientBalance);
        }
        let pool = self.pool_account;
        let total_payout = match w.checked_add(payout) {
            Some(t) => t,
            None => {
                return Err(Error::ArithmeticOverflow);
            },
        };
        if ledger.spendable_balance(pool) < total_payout {
            return Err(Error::InsufficientPoolBalance);
        }
        let rest = info.amount - w;
        self.update_pool(now);
        let ghost t0 = self.deposits@;
        if rest == 0 {
            self.deposits.remove(who);
            assert(sum_of(self.deposits@, amount_weight()) + value_or_zero(t0, who, amount_weight())
                == sum_of(t0, amount_weight()));
        } else {
            proof {
                lemma_mul_mono(acc as nat, rest as nat, info.amount as nat);
                lemma_weighted_fits(acc as nat, rest as nat);
            }
            let debt = acc * rest / PRECISION;
            self.deposits.set(
                who,
                DepositInfo { amount: rest, deposit_block: info.deposit_block, reward_debt: debt },
            );
            assert(sum_of(self.deposits@, amount_weight()) + value_or_zero(t0, who, amount_weight())
                == sum_of(t0, amount_weight()) + rest);
        }
        self.total_deposited = self.total_deposited - w;
        self.total_rewards = self.total_rewards.saturating_sub(payout);
        let sent = ledger.transfer(pool, who, total_payout);
        assert(sent is Ok);
        self.paid_out = Ghost(self.paid_out@ + flow(who, pool, total_payout as nat));
        Ok(())
    }

    /// Pays out the rewards pending on the position of `who` at block `now`, leaving
    /// its principal in the pool.
    pub fn claim_rewards<C: AssetCustody>(&mut self, ledger: &mut C, who: AccountId, now: BlockNumber) -> (r: Result<
        (),
        Error,
    >)
        requires
            old(self).wf(),
            old(ledger).wf(),
        ensures
            final(self).wf(),
            final(ledger).wf(),
            r == outcome(claim_rewards_error(old(self)@, *old(ledger), who)),
            r is Ok ==> claim_rewards_post(
                old(self)@,
                *old(ledger),
                who,
                now as nat,
                final(self)@,
                *final(ledger),
            ),
            r is Err ==> *final(self) == *old(self) && *final(ledger) == *old(ledger),
            final(self)@.acc_reward_per_share == old(self)@.acc_reward_per_share,
            old(self).in_step(*old(ledger)) ==> final(self).in_step(*final(ledger)),
    {
        let info = match self.position(who) {
            Some(d) => d,
            None => {
                return Err(Error::NoDeposit);
            },
        };
        let acc = self.acc_reward_per_share;
        let payout = match self.calculate_pending_rewards(who) {
            Ok(p) => p,
            Err(e) => {
                return Err(e);
            },
        };
        if payout == 0 {
            return Err(Error::ZeroAmount);
        }
        let pool = self.pool_account;
        if ledger.spendable_balance(pool) < payout {
            return Err(Error::InsufficientPoolBalance);
        }
        proof {
            lemma_weighted_fits(acc as nat, info.amount as nat);
        }
        self.update_pool(now);
        let debt = acc * info.amount / PRECISION;
        let ghost t0 = self.deposits@;
        self.deposits.set(
            who,
            DepositInfo { amount: info.amount, deposit_block: info.deposit_block, reward_debt: debt },
        );
        assert(sum_of(self.deposits@, amount_weight()) + value_or_zero(t0, who, amount_weight())
            == sum_of(t0, amount_weight()) + info.amount);
        self.total_rewards = self.total_rewards.saturating_sub(payout);
        let sent = ledger.transfer(pool, who, payout);
        assert(sent is Ok);
        self.paid_out = Ghost(self.paid_out@ + flow(who, pool, payout as nat));
        Ok(())
    }

    /// Injects `amount` of rewards from `depositor`, the reward authority, and shares
    /// them over the principal in the pool.
    pub fn deposit_rewards<C: AssetCustody>(&mut self, ledger: &mut C, depositor: AccountId, amount: Balance) -> (r:
        Result<(), Error>)
        requires
            old(self).wf(),
            old(ledger).wf(),
        ensures
            final(self).wf(),
            final(ledger).wf(),
            r == outcome(deposit_rewards_error(old(self)@, *old(ledger), depositor, amount as nat)),
            r is Ok ==> deposit_rewards_post(
                old(self)@,
                *old(ledger),
                depositor,
                amount as nat,
                final(self)@,
                *final(ledger),
            ),
            r is Err ==> *final(self) == *old(self) && *final(ledger) == *old(ledger),
            final(self)@.acc_reward_per_share >= old(self)@.acc_reward_per_share,
            old(self).in_step(*old(ledger)) ==> final(self).in_step(*final(ledger)),
    {
        if amount == 0 {
            return Err(Error::ZeroAmount);
        }
        if ledger.spendable_balance(depositor) < amount {
            return Err(Error::InsufficientBalance);
        }
        let rewards = match self.total_rewards.checked_add(amount) {
            Some(t) => t,
            None => {
                return Err(Error::ArithmeticOverflow);
            },
        };
        let mut acc = self.acc_reward_per_share;
        let total_deposited = self.total_deposited;
        if total_deposited != 0 {
            let scaled = match amount.checked_mul(PRECISION) {
                Some(x) => x,
                None => {
                    return Err(Error::ArithmeticOverflow);
                },
            };
            acc = match acc.checked_add(scaled / total_deposited) {
                Some(a) => a,
                None => {
                    return Err(Error::ArithmeticOverflow);
                },
            };
        }
        let pool = self.pool_account;
        let paid = ledger.transfer(depositor, pool, amount);
        assert(paid is Ok);
        self.total_rewards = rewards;
        self.acc_reward_per_share = acc;
        self.paid_in = Ghost(self.paid_in@ + flow(depositor, pool, amount as nat));
        Ok(())
    }

    /// The rewards pending on the position of `who`.
    pub fn calculate_pending_rewards(&self, who: AccountId) -> (r: Result<Balance, Error>)
        requires
            self.wf(),
        ensures
            match lookup(self@.deposits, who) {
                None => r == Err::<Balance, Error>(Error::NoDeposit),
                Some(d) => if fits(self@.acc_reward_per_share * (d.amount as nat)) {
                    r == Ok::<Balance, Error>(pending(self@.acc_reward_per_share, d) as Balance)
                } else {
                    r == Err::<Balance, Error>(Error::ArithmeticOverflow)
                },
            },
            r matches Ok(p) ==> p == pending(
                self@.acc_reward_per_share,
                lookup(self@.deposits, who)->Some_0,
            ),
    {
        match self.position(who) {
            None => Err(Error::NoDeposit),
            Some(info) => match self.acc_reward_per_share.checked_mul(info.amount) {
                Some(x) => Ok((x / PRECISION).saturating_sub(info.reward_debt)),
                None => Err(Error::ArithmeticOverflow),
            },
        }
    }
    /// The sum of all principal in the pool.
    pub fn total_deposited(&self) -> (r: Balance)
        ensures
            r == self@.total_deposited,
    {
        self.total_deposited
    }

    /// Rewards injected and not yet paid out.
    pub fn total_rewards(&self) -> (r: Balance)
        ensures
            r == self@.total_rewards,
    {
        self.total_rewards
    }

    /// The accumulated reward per unit of principal, scaled by `PRECISION`.
    pub fn acc_reward_per_share(&self) -> (r: Balance)
        ensures
            r == self@.acc_reward_per_share,
    {
        self.acc_reward_per_share
    }

    /// The block of the latest settlement.
    pub fn last_reward_block(&self) -> (r: BlockNumber)
        ensures
            r == self@.last_reward_block,
    {
        self.last_reward_block
    }

    /// The position of `who`, if it has one.
    pub fn deposits(&self, who: AccountId) -> (r: Option<DepositInfo>)
        requires
            self.wf(),
        ensures
            r == lookup(self@.deposits, who),
    {
        self.position(who)
    }

    /// The account that holds the pooled funds.
    pub fn account_id(&self) -> (r: AccountId)
        ensures
            r == self@.pool_account,
    {
        self.pool_account
    }
}

} // verus!
