//! Custody of the single fungible asset: the interface through which the engines
//! move funds and hold them, and `Ledger`, which keeps a free balance and an
//! optional vesting hold per account in memory, with the total issuance bounding
//! every balance.

use vstd::prelude::*;

use crate::table::{
    lemma_sum_key, lemma_sum_two_keys, lookup, sum_of, value_or_zero, Table,
};
use crate::{AccountId, Balance};

verus! {

/// What the ledger keeps for one account.
#[derive(Clone, Copy, Debug)]
pub struct AccountData {
    /// Funds the account possesses.
    pub free: Balance,
    /// The vesting hold on the account's funds, if one is registered.
    pub hold: Option<Balance>,
}

/// Why custody refused a transfer.
#[derive(Clone, Copy, Debug, PartialEq, Eq, Structural)]
pub enum CustodyError {
    /// The source account's spendable balance is below the amount.
    InsufficientFunds,
}

/// What an account may move, given its free funds and its hold: the funds less the
/// hold, never below zero.
pub open spec fn spendable(free: nat, hold: Option<nat>) -> nat {
    match hold {
        Some(h) => if free >= h {
            (free - h) as nat
        } else {
            0
        },
        None => free,
    }
}

/// The free funds of account `x`, which held `free`, once `a_to_b` moved from
/// account `a` to account `b` and `b_to_a` moved back. Between an account and itself
/// nothing moves.
pub open spec fn after_exchange(
    free: nat,
    x: AccountId,
    a: AccountId,
    b: AccountId,
    a_to_b: nat,
    b_to_a: nat,
) -> int {
    if a == b {
        free as int
    } else if x == a {
        free - a_to_b + b_to_a
    } else if x == b {
        free + a_to_b - b_to_a
    } else {
        free as int
    }
}

/// The custody of funds that the engines move and hold: a free balance and an
/// optional vesting hold per account.
pub trait AssetCustody: Sized {
    /// The custody's own invariant.
    spec fn wf(&self) -> bool;

    /// The funds that `who` possesses.
    spec fn free_of(&self, who: AccountId) -> nat;

    /// The hold registered on `who`, if any.
    spec fn hold_of(&self, who: AccountId) -> Option<nat>;

    /// The sum of all free balances.
    spec fn issuance(&self) -> nat;

    /// No balance exceeds the issuance, and two accounts together do not either.
    proof fn lemma_balances_bounded(&self, a: AccountId, b: AccountId)
        requires
            self.wf(),
        ensures
            self.free_of(a) <= self.issuance(),
            a != b ==> self.free_of(a) + self.free_of(b) <= self.issuance(),
            self.issuance() <= Balance::MAX,
    ;

    /// The funds that `who` possesses.
    fn free_balance(&self, who: AccountId) -> (r: Balance)
        requires
            self.wf(),
        ensures
            r == self.free_of(who),
    ;

    /// The hold registered on `who`, if any.
    fn hold(&self, who: AccountId) -> (r: Option<Balance>)
        requires
            self.wf(),
        ensures
            match r {
                Some(h) => self.hold_of(who) == Some(h as nat),
                None => self.hold_of(who) == None::<nat>,
            },
    ;

    /// What `who` may move: its free funds less its hold.
    fn spendable_balance(&self, who: AccountId) -> (r: Balance)
        requires
            self.wf(),
        ensures
            r == spendable(self.free_of(who), self.hold_of(who)),
    ;

    /// Moves `amount` from `from` to `to`, all or nothing. Succeeds exactly when
    /// `amount` is within the spendable balance of `from`.
    fn transfer(&mut self, from: AccountId, to: AccountId, amount: Balance) -> (r: Result<
        (),
        CustodyError,
    >)
        requires
            old(self).wf(),
        ensures
            final(self).wf(),
            r is Ok <==> amount <= spendable(old(self).free_of(from), old(self).hold_of(from)),
            r is Ok ==> final(self).issuance() == old(self).issuance(),
            r is Ok ==> forall|x: AccountId| #[trigger] final(self).hold_of(x) == old(self).hold_of(x),
            r is Ok ==> forall|x: AccountId|
                #[trigger] final(self).free_of(x) == after_exchange(
                    old(self).free_of(x),
                    x,
                    from,
                    to,
                    amount as nat,
                    0,
                ),
            r is Err ==> *final(self) == *old(self),
    ;

    /// Registers a hold of `amount` on `who`, replacing any earlier one.
    fn set_hold(&mut self, who: AccountId, amount: Balance)
        requires
            old(self).wf(),
        ensures
            final(self).wf(),
            final(self).issuance() == old(self).issuance(),
            forall|x: AccountId| #[trigger] final(self).free_of(x) == old(self).free_of(x),
            forall|x: AccountId|
                #[trigger] final(self).hold_of(x) == if x == who {
                    Some(amount as nat)
                } else {
                    old(self).hold_of(x)
                },
    ;

    /// Removes the hold on `who`, if there is one.
    fn remove_hold(&mut self, who: AccountId)
        requires
            old(self).wf(),
        ensures
            final(self).wf(),
            final(self).issuance() == old(self).issuance(),
            forall|x: AccountId| #[trigger] final(self).free_of(x) == old(self).free_of(x),
            forall|x: AccountId|
                #[trigger] final(self).hold_of(x) == if x == who {
                    None
                } else {
                    old(self).hold_of(x)
                },
    ;
}

/// What `who` may move: its free funds less its hold, never below zero.
pub open spec fn spendable_of<C: AssetCustody>(l: C, who: AccountId) -> nat {
    spendable(l.free_of(who), l.hold_of(who))
}

/// From `l0` to `l1` the free balances changed as if `a_to_b` moved from account `a`
/// to account `b` and `b_to_a` moved back.
pub open spec fn frees_moved<C: AssetCustody>(
    l0: C,
    l1: C,
    a: AccountId,
    b: AccountId,
    a_to_b: nat,
    b_to_a: nat,
) -> bool {
    forall|x: AccountId|
        #[trigger] l1.free_of(x) == after_exchange(l0.free_of(x), x, a, b, a_to_b, b_to_a)
}

/// From `l0` to `l1` the hold on `who` became `hold` and no other hold changed.
pub open spec fn holds_moved<C: AssetCustody>(l0: C, l1: C, who: AccountId, hold: Option<nat>) -> bool {
    forall|x: AccountId|
        #[trigger] l1.hold_of(x) == if x == who {
            hold
        } else {
            l0.hold_of(x)
        }
}

/// From `l0` to `l1`, `a_to_b` moved from account `a` to account `b` and `b_to_a`
/// moved back; holds and issuance stayed.
pub open spec fn exchanged<C: AssetCustody>(
    l0: C,
    l1: C,
    a: AccountId,
    b: AccountId,
    a_to_b: nat,
    b_to_a: nat,
) -> bool {
    &&& l1.wf()
    &&& l1.issuance() == l0.issuance()
    &&& forall|x: AccountId| #[trigger] l1.hold_of(x) == l0.hold_of(x)
    &&& frees_moved(l0, l1, a, b, a_to_b, b_to_a)
}

/// Two exchanges between the same accounts, one each way, make one exchange.
pub proof fn lemma_exchange_compose<C: AssetCustody>(
    l0: C,
    lm: C,
    l1: C,
    a: AccountId,
    b: AccountId,
    a_to_b: nat,
    b_to_a: nat,
)
    requires
        exchanged(l0, lm, a, b, a_to_b, 0),
        exchanged(lm, l1, b, a, b_to_a, 0),
    ensures
        exchanged(l0, l1, a, b, a_to_b, b_to_a),
{
    assert forall|x: AccountId| #[trigger] l1.hold_of(x) == l0.hold_of(x) by {
        assert(lm.hold_of(x) == l0.hold_of(x));
    }
    assert forall|x: AccountId|
        #[trigger] l1.free_of(x) == after_exchange(l0.free_of(x), x, a, b, a_to_b, b_to_a) by {
        assert(lm.free_of(x) == l0.free_of(x) || x == a || x == b);
        assert(l1.free_of(x) == lm.free_of(x) || x == a || x == b);
        if a != b && x == a {
            assert(lm.free_of(a) == l0.free_of(a) - a_to_b);
        }
    }
}

/// From `l0` to `l1` only the hold on `who` changed, to `hold`.
pub open spec fn rehold<C: AssetCustody>(l0: C, l1: C, who: AccountId, hold: Option<nat>) -> bool {
    &&& l1.wf()
    &&& l1.issuance() == l0.issuance()
    &&& forall|x: AccountId| #[trigger] l1.free_of(x) == l0.free_of(x)
    &&& holds_moved(l0, l1, who, hold)
}

/// The free balances of every account and the hold registered on each, in memory.
pub struct Ledger {
    accounts: Table<AccountData>,
    total_issuance: Balance,
}

/// The weight under which the free balances add up to the issuance.
pub open spec fn free_weight() -> spec_fn(AccountData) -> nat {
    |d: AccountData| d.free as nat
}

impl AssetCustody for Ledger {
    closed spec fn wf(&self) -> bool {
        &&& self.accounts.wf()
        &&& self.total_issuance == sum_of(self.accounts@, free_weight())
    }

    /// The funds that `who` possesses.
    closed spec fn free_of(&self, who: AccountId) -> nat {
        value_or_zero(self.accounts@, who, free_weight())
    }

    /// The hold registered on `who`, if any.
    closed spec fn hold_of(&self, who: AccountId) -> Option<nat> {
        match lookup(self.accounts@, who) {
            Some(d) => match d.hold {
                Some(h) => Some(h as nat),
                None => None,
            },
            None => None,
        }
    }

    /// The sum of all free balances.
    closed spec fn issuance(&self) -> nat {
        self.total_issuance as nat
    }

    proof fn lemma_balances_bounded(&self, a: AccountId, b: AccountId)
    {
        lemma_sum_key(self.accounts@, a, free_weight());
        if a != b {
            lemma_sum_two_keys(self.accounts@, a, b, free_weight());
        }
    }

    fn free_balance(&self, who: AccountId) -> (r: Balance)
    {
        self.account(who).free
    }

    fn hold(&self, who: AccountId) -> (r: Option<Balance>)
    {
        self.account(who).hold
    }

    fn spendable_balance(&self, who: AccountId) -> (r: Balance)
    {
        let d = self.account(who);
        match d.hold {
            Some(h) => d.free.saturating_sub(h),
            None => d.free,
        }
    }

    fn transfer(&mut self, from: AccountId, to: AccountId, amount: Balance) -> (r: Result<
        (),
        CustodyError,
    >)
    {
        if amount > self.spendable_balance(from) {
            return Err(CustodyError::InsufficientFunds);
        }
        if from == to || amount == 0 {
            return Ok(());
        }
        proof {
            self.lemma_balances_bounded(from, to);
        }
        let ghost l0 = *self;
        let f = self.account(from);
        let t = self.account(to);
        let ghost s0 = self.accounts@;
        self.accounts.set(from, AccountData { free: f.free - amount, hold: f.hold });
        let ghost s1 = self.accounts@;
        assert(sum_of(s1, free_weight()) + value_or_zero(s0, from, free_weight()) == sum_of(
            s0,
            free_weight(),
        ) + (f.free - amount));
        assert(lookup(s1, to) == lookup(s0, to));
        self.accounts.set(to, AccountData { free: t.free + amount, hold: t.hold });
        assert(sum_of(self.accounts@, free_weight()) + value_or_zero(s1, to, free_weight())
            == sum_of(s1, free_weight()) + (t.free + amount));
        assert forall|x: AccountId| #[trigger] self.hold_of(x) == l0.hold_of(x) by {
            assert(lookup(self.accounts@, x) == if x == to {
                Some(AccountData { free: (t.free + amount) as u128, hold: t.hold })
            } else if x == from {
                Some(AccountData { free: (f.free - amount) as u128, hold: f.hold })
            } else {
                lookup(s0, x)
            });
        }
        Ok(())
    }

    fn set_hold(&mut self, who: AccountId, amount: Balance)
    {
        let d = self.account(who);
        let ghost s0 = self.accounts@;
        self.accounts.set(who, AccountData { free: d.free, hold: Some(amount) });
        assert(sum_of(self.accounts@, free_weight()) + value_or_zero(s0, who, free_weight())
            == sum_of(s0, free_weight()) + d.free);
    }

    fn remove_hold(&mut self, who: AccountId)
    {
        let d = self.account(who);
        let ghost s0 = self.accounts@;
        self.accounts.set(who, AccountData { free: d.free, hold: None });
        assert(sum_of(self.accounts@, free_weight()) + value_or_zero(s0, who, free_weight())
            == sum_of(s0, free_weight()) + d.free);
    }
}

impl Ledger {
    /// An empty ledger: no funds and no holds anywhere.
    pub fn new() -> (l: Ledger)
        ensures
            l.wf(),
            l.issuance() == 0,
            forall|x: AccountId| #[trigger] l.free_of(x) == 0,
            forall|x: AccountId| #[trigger] l.hold_of(x) == None::<nat>,
    {
        Ledger { accounts: Table::new(), total_issuance: 0 }
    }

    fn account(&self, who: AccountId) -> (d: AccountData)
        requires
            self.wf(),
        ensures
            d.free == self.free_of(who),
            match d.hold {
                Some(h) => self.hold_of(who) == Some(h as nat),
                None => self.hold_of(who) == None::<nat>,
            },
            lookup(self.accounts@, who) is None ==> d.free == 0 && d.hold is None,
    {
        match self.accounts.get(who) {
            Some(d) => *d,
            None => AccountData { free: 0, hold: None },
        }
    }

    /// Issues `amount` new funds to `who`. Fails, changing nothing, where the
    /// issuance would overflow.
    pub fn endow(&mut self, who: AccountId, amount: Balance) -> (ok: bool)
        requires
            old(self).wf(),
        ensures
            final(self).wf(),
            ok <==> old(self).issuance() + amount <= Balance::MAX,
            ok ==> final(self).issuance() == old(self).issuance() + amount,
            ok ==> forall|x: AccountId| #[trigger] final(self).hold_of(x) == old(self).hold_of(x),
            ok ==> forall|x: AccountId|
                #[trigger] final(self).free_of(x) == if x == who {
                    old(self).free_of(x) + amount
                } else {
                    old(self).free_of(x) as int
                },
            !ok ==> *final(self) == *old(self),
    {
        let issued = match self.total_issuance.checked_add(amount) {
            Some(t) => t,
            None => {
                return false;
            },
        };
        proof {
            self.lemma_balances_bounded(who, who);
        }
        let d = self.account(who);
        let ghost s0 = self.accounts@;
        self.accounts.set(who, AccountData { free: d.free + amount, hold: d.hold });
        self.total_issuance = issued;
        assert(sum_of(self.accounts@, free_weight()) + value_or_zero(s0, who, free_weight())
            == sum_of(s0, free_weight()) + (d.free + amount));
        true
    }

    /// The sum of all free balances.
    pub fn total_issuance(&self) -> (r: Balance)
        requires
            self.wf(),
        ensures
            r == self.issuance(),
    {
        self.total_issuance
    }
}

} // verus!
