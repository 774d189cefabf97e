//! A table keyed by account: a vector of `(key, value)` entries whose keys are unique.

use vstd::prelude::*;

use crate::AccountId;

verus! {

/// No key occurs twice among the entries.
pub open spec fn keys_unique<V>(s: Seq<(AccountId, V)>) -> bool {
    forall|i: int, j: int|
        0 <= i < s.len() && 0 <= j < s.len() && i != j ==> #[trigger] s[i].0 != #[trigger] s[j].0
}

/// The value stored under `k`, if any.
pub open spec fn lookup<V>(s: Seq<(AccountId, V)>, k: AccountId) -> Option<V> {
    if exists|i: int| 0 <= i < s.len() && s[i].0 == k {
        Some(s[choose|i: int| 0 <= i < s.len() && s[i].0 == k].1)
    } else {
        None
    }
}

/// The sum of `f` over the values of all entries.
pub open spec fn sum_of<V>(s: Seq<(AccountId, V)>, f: spec_fn(V) -> nat) -> nat
    decreases s.len(),
{
    if s.len() == 0 {
        0
    } else {
        sum_of(s.drop_last(), f) + f(s.last().1)
    }
}

/// `f` of the value stored under `k`, or zero where there is none.
pub open spec fn value_or_zero<V>(s: Seq<(AccountId, V)>, k: AccountId, f: spec_fn(V) -> nat) -> nat {
    match lookup(s, k) {
        Some(v) => f(v),
        None => 0,
    }
}

pub proof fn lemma_lookup_at<V>(s: Seq<(AccountId, V)>, i: int)
    requires
        keys_unique(s),
        0 <= i < s.len(),
    ensures
        lookup(s, s[i].0) == Some(s[i].1),
{
    let k = s[i].0;
    assert(exists|j: int| 0 <= j < s.len() && s[j].0 == k);
    let j = choose|j: int| 0 <= j < s.len() && s[j].0 == k;
    assert(j == i);
}

pub proof fn lemma_sum_push<V>(s: Seq<(AccountId, V)>, e: (AccountId, V), f: spec_fn(V) -> nat)
    ensures
        sum_of(s.push(e), f) == sum_of(s, f) + f(e.1),
{
    assert(s.push(e).drop_last() =~= s);
}

pub proof fn lemma_sum_update<V>(s: Seq<(AccountId, V)>, i: int, e: (AccountId, V), f: spec_fn(V) -> nat)
    requires
        0 <= i < s.len(),
    ensures
        sum_of(s.update(i, e), f) == sum_of(s, f) - f(s[i].1) + f(e.1),
    decreases s.len(),
{
    if i == s.len() - 1 {
        assert(s.update(i, e).drop_last() =~= s.drop_last());
    } else {
        lemma_sum_update(s.drop_last(), i, e, f);
        assert(s.update(i, e).drop_last() =~= s.drop_last().update(i, e));
    }
}

pub proof fn lemma_sum_remove<V>(s: Seq<(AccountId, V)>, i: int, f: spec_fn(V) -> nat)
    requires
        0 <= i < s.len(),
    ensures
        sum_of(s.remove(i), f) == sum_of(s, f) - f(s[i].1),
    decreases s.len(),
{
    if i == s.len() - 1 {
        assert(s.remove(i) =~= s.drop_last());
    } else {
        lemma_sum_remove(s.drop_last(), i, f);
        assert(s.remove(i).drop_last() =~= s.drop_last().remove(i));
    }
}

/// Two distinct entries together count at most the whole sum.
pub proof fn lemma_sum_two<V>(s: Seq<(AccountId, V)>, i: int, j: int, f: spec_fn(V) -> nat)
    requires
        0 <= i < s.len(),
        0 <= j < s.len(),
        i != j,
    ensures
        f(s[i].1) + f(s[j].1) <= sum_of(s, f),
    decreases s.len(),
{
    let n = s.len() - 1;
    if i == n {
        lemma_sum_one(s.drop_last(), j, f);
    } else if j == n {
        lemma_sum_one(s.drop_last(), i, f);
    } else {
        lemma_sum_two(s.drop_last(), i, j, f);
    }
}

/// One entry counts at most the whole sum.
pub proof fn lemma_sum_one<V>(s: Seq<(AccountId, V)>, i: int, f: spec_fn(V) -> nat)
    requires
        0 <= i < s.len(),
    ensures
        f(s[i].1) <= sum_of(s, f),
    decreases s.len(),
{
    if i < s.len() - 1 {
        lemma_sum_one(s.drop_last(), i, f);
    }
}

/// `f` of the values under two distinct keys together counts at most the whole sum.
pub proof fn lemma_sum_two_keys<V>(s: Seq<(AccountId, V)>, a: AccountId, b: AccountId, f: spec_fn(V) -> nat)
    requires
        keys_unique(s),
        a != b,
    ensures
        value_or_zero(s, a, f) + value_or_zero(s, b, f) <= sum_of(s, f),
{
    let ea = exists|i: int| 0 <= i < s.len() && s[i].0 == a;
    let eb = exists|i: int| 0 <= i < s.len() && s[i].0 == b;
    if ea {
        let i = choose|i: int| 0 <= i < s.len() && s[i].0 == a;
        lemma_lookup_at(s, i);
        if eb {
            let j = choose|j: int| 0 <= j < s.len() && s[j].0 == b;
            lemma_lookup_at(s, j);
            lemma_sum_two(s, i, j, f);
        } else {
            lemma_sum_one(s, i, f);
        }
    } else if eb {
        let j = choose|j: int| 0 <= j < s.len() && s[j].0 == b;
        lemma_lookup_at(s, j);
        lemma_sum_one(s, j, f);
    }
}

/// `f` of the value under one key counts at most the whole sum.
pub proof fn lemma_sum_key<V>(s: Seq<(AccountId, V)>, a: AccountId, f: spec_fn(V) -> nat)
    requires
        keys_unique(s),
    ensures
        value_or_zero(s, a, f) <= sum_of(s, f),
{
    if exists|i: int| 0 <= i < s.len() && s[i].0 == a {
        let i = choose|i: int| 0 <= i < s.len() && s[i].0 == a;
        lemma_lookup_at(s, i);
        lemma_sum_one(s, i, f);
    }
}

/// Entries keyed by account, each key at most once.
#[verifier::reject_recursive_types(V)]
pub struct Table<V> {
    entries: Vec<(AccountId, V)>,
}

impl<V> View for Table<V> {
    type V = Seq<(AccountId, V)>;

    closed spec fn view(&self) -> Seq<(AccountId, V)> {
        self.entries@
    }
}

impl<V> Table<V> {
    pub open spec fn wf(&self) -> bool {
        keys_unique(self@)
    }

    pub fn new() -> (t: Self)
        ensures
            t.wf(),
            t@.len() == 0,
            forall|k: AccountId| lookup(t@, k) == None::<V>,
            forall|f: spec_fn(V) -> nat| sum_of(t@, f) == 0,
    {
        Table { entries: Vec::new() }
    }

    fn index_of(&self, k: AccountId) -> (r: Option<usize>)
        ensures
            match r {
                Some(i) => i < self@.len() && self@[i as int].0 == k,
                None => forall|i: int| 0 <= i < self@.len() ==> self@[i].0 != k,
            },
    {
        let mut i: usize = 0;
        while i < self.entries.len()
            invariant
                i <= self@.len(),
                forall|j: int| 0 <= j < i ==> self@[j].0 != k,
            decreases self@.len() - i,
        {
            if self.entries[i].0 == k {
                return Some(i);
            }
            i = i + 1;
        }
        None
    }

    pub fn get(&self, k: AccountId) -> (r: Option<&V>)
        requires
            self.wf(),
        ensures
            match r {
                Some(v) => lookup(self@, k) == Some(*v),
                None => lookup(self@, k) == None::<V>,
            },
    {
        match self.index_of(k) {
            Some(i) => {
                proof {
                    lemma_lookup_at(self@, i as int);
                }
                Some(&self.entries[i].1)
            },
            None => None,
        }
    }
    pub fn set(&mut self, k: AccountId, v: V)
        requires
            old(self).wf(),
        ensures
            final(self).wf(),
            forall|j: AccountId|
                #[trigger] lookup(final(self)@, j) == if j == k {
                    Some(v)
                } else {
                    lookup(old(self)@, j)
                },
            forall|f: spec_fn(V) -> nat|
                #[trigger] sum_of(final(self)@, f) + value_or_zero(old(self)@, k, f) == sum_of(
                    old(self)@,
                    f,
                ) + f(v),
    {
        let ghost s0 = self@;
        match self.index_of(k) {
            Some(i) => {
                self.entries.set(i, (k, v));
                let ghost s1 = self@;
                assert(s1 =~= s0.update(i as int, (k, v)));
                assert(keys_unique(s1)) by {
                    assert forall|a: int, b: int|
                        0 <= a < s1.len() && 0 <= b < s1.len() && a != b implies #[trigger] s1[a].0
                        != #[trigger] s1[b].0 by {
                        assert(s0[a].0 != s0[b].0);
                    }
                }
                proof {
                    lemma_lookup_at(s0, i as int);
                    lemma_lookup_at(s1, i as int);
                }
                assert forall|j: AccountId|
                    #[trigger] lookup(s1, j) == if j == k {
                        Some(v)
                    } else {
                        lookup(s0, j)
                    } by {
                    if j != k {
                        if exists|x: int| 0 <= x < s0.len() && s0[x].0 == j {
                            let x = choose|x: int| 0 <= x < s0.len() && s0[x].0 == j;
                            lemma_lookup_at(s0, x);
                            lemma_lookup_at(s1, x);
                        } else {
                            assert(!exists|x: int| 0 <= x < s1.len() && s1[x].0 == j);
                        }
                    }
                }
                assert forall|f: spec_fn(V) -> nat|
                    #[trigger] sum_of(s1, f) + value_or_zero(s0, k, f) == sum_of(s0, f) + f(v) by {
                    lemma_sum_update(s0, i as int, (k, v), f);
                }
            },
            None => {
                self.entries.push((k, v));
                let ghost s1 = self@;
                assert(s1 =~= s0.push((k, v)));
                assert(keys_unique(s1)) by {
                    assert forall|a: int, b: int|
                        0 <= a < s1.len() && 0 <= b < s1.len() && a != b implies #[trigger] s1[a].0
                        != #[trigger] s1[b].0 by {
                        if a < s0.len() && b < s0.len() {
                            assert(s0[a].0 != s0[b].0);
                        } else if a < s0.len() {
                            assert(s0[a].0 != k);
                        } else {
                            assert(s0[b].0 != k);
                        }
                    }
                }
                proof {
                    lemma_lookup_at(s1, s0.len() as int);
                }
                assert forall|j: AccountId|
                    #[trigger] lookup(s1, j) == if j == k {
                        Some(v)
                    } else {
                        lookup(s0, j)
                    } by {
                    if j != k {
                        if exists|x: int| 0 <= x < s0.len() && s0[x].0 == j {
                            let x = choose|x: int| 0 <= x < s0.len() && s0[x].0 == j;
                            lemma_lookup_at(s0, x);
                            lemma_lookup_at(s1, x);
                        } else {
                            assert(!exists|x: int| 0 <= x < s1.len() && s1[x].0 == j);
                        }
                    }
                }
                assert forall|f: spec_fn(V) -> nat|
                    #[trigger] sum_of(s1, f) + value_or_zero(s0, k, f) == sum_of(s0, f) + f(v) by {
                    lemma_sum_push(s0, (k, v), f);
                }
            },
        }
    }

    pub fn remove(&mut self, k: AccountId) -> (r: Option<V>)
        requires
            old(self).wf(),
        ensures
            final(self).wf(),
            r == lookup(old(self)@, k),
            forall|j: AccountId|
                #[trigger] lookup(final(self)@, j) == if j == k {
                    None
                } else {
                    lookup(old(self)@, j)
                },
            forall|f: spec_fn(V) -> nat|
                #[trigger] sum_of(final(self)@, f) + value_or_zero(old(self)@, k, f) == sum_of(
                    old(self)@,
                    f,
                ),
    {
        let ghost s0 = self@;
        match self.index_of(k) {
            Some(i) => {
                let e = self.entries.remove(i);
                let ghost s1 = self@;
                assert(s1 =~= s0.remove(i as int));
                proof {
                    lemma_lookup_at(s0, i as int);
                }
                assert(keys_unique(s1)) by {
                    assert forall|a: int, b: int|
                        0 <= a < s1.len() && 0 <= b < s1.len() && a != b implies #[trigger] s1[a].0
                        != #[trigger] s1[b].0 by {
                        let a0 = if a < i { a } else { a + 1 };
                        let b0 = if b < i { b } else { b + 1 };
                        assert(s0[a0].0 != s0[b0].0);
                    }
                }
                assert forall|j: AccountId|
                    #[trigger] lookup(s1, j) == if j == k {
                        None
                    } else {
                        lookup(s0, j)
                    } by {
                    if j == k {
                        assert forall|x: int| 0 <= x < s1.len() implies s1[x].0 != j by {
                            let x0 = if x < i { x } else { x + 1 };
                            assert(s0[x0].0 != s0[i as int].0);
                        }
                    } else {
                        if exists|x: int| 0 <= x < s0.len() && s0[x].0 == j {
                            let x = choose|x: int| 0 <= x < s0.len() && s0[x].0 == j;
                            lemma_lookup_at(s0, x);
                            let x1 = if x < i { x } else { x - 1 };
                            lemma_lookup_at(s1, x1);
                        } else {
                            assert forall|x: int| 0 <= x < s1.len() implies s1[x].0 != j by {
                                let x0 = if x < i { x } else { x + 1 };
                                assert(s0[x0].0 != j);
                            }
                        }
                    }
                }
                assert forall|f: spec_fn(V) -> nat|
                    #[trigger] sum_of(s1, f) + value_or_zero(s0, k, f) == sum_of(s0, f) by {
                    lemma_sum_remove(s0, i as int, f);
                }
                Some(e.1)
            },
            None => {
                assert forall|f: spec_fn(V) -> nat|
                    #[trigger] sum_of(self@, f) + value_or_zero(s0, k, f) == sum_of(s0, f) by {}
                None
            },
        }
    }
}

} // verus!
