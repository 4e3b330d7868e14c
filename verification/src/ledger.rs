//! The shares that the accounts hold in one pool.

use crate::types::AccountId;
use vstd::prelude::*;

verus! {

/// The shares of one account.
#[derive(Clone, Copy, Debug, PartialEq, Eq, Structural)]
pub struct ShareEntry {
    pub account: AccountId,
    pub shares: u128,
}

/// The sum of the shares of all entries.
pub open spec fn sum_of(s: Seq<ShareEntry>) -> nat
    decreases s.len(),
{
    if s.len() == 0 {
        0
    } else {
        sum_of(s.drop_last()) + s.last().shares as nat
    }
}

/// The entries as a map from account to shares.
pub open spec fn map_of(s: Seq<ShareEntry>) -> Map<AccountId, u128>
    decreases s.len(),
{
    if s.len() == 0 {
        Map::empty()
    } else {
        map_of(s.drop_last()).insert(s.last().account, s.last().shares)
    }
}

/// No account has two entries.
pub open spec fn distinct(s: Seq<ShareEntry>) -> bool {
    forall|i: int, j: int|
        0 <= i < j < s.len() ==> (#[trigger] s[i]).account != (#[trigger] s[j]).account
}

proof fn lemma_absent(s: Seq<ShareEntry>, a: AccountId)
    requires
        forall|j: int| 0 <= j < s.len() ==> (#[trigger] s[j]).account != a,
    ensures
        !map_of(s).contains_key(a),
    decreases s.len(),
{
    if s.len() > 0 {
        assert forall|j: int| 0 <= j < s.drop_last().len() implies (#[trigger] s.drop_last()[j]).account
            != a by {
            assert(s.drop_last()[j] == s[j]);
        }
        lemma_absent(s.drop_last(), a);
    }
}

proof fn lemma_drop_last_distinct(s: Seq<ShareEntry>)
    requires
        distinct(s),
        s.len() > 0,
    ensures
        distinct(s.drop_last()),
        !map_of(s.drop_last()).contains_key(s.last().account),
{
    let d = s.drop_last();
    assert forall|i: int, j: int| 0 <= i < j < d.len() implies (#[trigger] d[i]).account != (
    #[trigger] d[j]).account by {
        assert(d[i] == s[i] && d[j] == s[j]);
    }
    assert forall|j: int| 0 <= j < d.len() implies (#[trigger] d[j]).account
        != s.last().account by {
        assert(d[j] == s[j]);
        assert(s.last() == s[s.len() - 1]);
    }
    lemma_absent(d, s.last().account);
}

proof fn lemma_present(s: Seq<ShareEntry>, i: int)
    requires
        distinct(s),
        0 <= i < s.len(),
    ensures
        map_of(s).contains_key(s[i].account),
        map_of(s)[s[i].account] == s[i].shares,
    decreases s.len(),
{
    if i < s.len() - 1 {
        lemma_drop_last_distinct(s);
        assert(s.drop_last()[i] == s[i]);
        lemma_present(s.drop_last(), i);
        assert(s.last() == s[s.len() - 1]);
        assert(s.last().account != s[i].account);
    }
}

proof fn lemma_bounded(s: Seq<ShareEntry>)
    ensures
        forall|a: AccountId| #[trigger] map_of(s).contains_key(a) ==> map_of(s)[a] <= sum_of(s),
    decreases s.len(),
{
    if s.len() > 0 {
        let d = s.drop_last();
        lemma_bounded(d);
        assert forall|a: AccountId| #[trigger] map_of(s).contains_key(a) implies map_of(s)[a]
            <= sum_of(s) by {
            if a != s.last().account {
                assert(map_of(d).contains_key(a));
            }
        }
    }
}

proof fn lemma_update(s: Seq<ShareEntry>, i: int, v: u128)
    requires
        distinct(s),
        0 <= i < s.len(),
    ensures
        ({
            let t = s.update(i, ShareEntry { account: s[i].account, shares: v });
            &&& distinct(t)
            &&& map_of(t) =~= map_of(s).insert(s[i].account, v)
            &&& sum_of(t) == sum_of(s) - s[i].shares + v
        }),
    decreases s.len(),
{
    let e = ShareEntry { account: s[i].account, shares: v };
    let t = s.update(i, e);
    assert forall|a: int, b: int| 0 <= a < b < t.len() implies (#[trigger] t[a]).account != (
    #[trigger] t[b]).account by {
        assert(t[a].account == s[a].account);
        assert(t[b].account == s[b].account);
    }
    if i == s.len() - 1 {
        assert(t.drop_last() =~= s.drop_last());
    } else {
        lemma_drop_last_distinct(s);
        assert(t.drop_last() =~= s.drop_last().update(i, e));
        assert(s.drop_last()[i] == s[i]);
        lemma_update(s.drop_last(), i, v);
        assert(t.last() == s.last());
        assert(s.last() == s[s.len() - 1]);
        assert(s.last().account != s[i].account);
    }
}

proof fn lemma_remove(s: Seq<ShareEntry>, i: int)
    requires
        distinct(s),
        0 <= i < s.len(),
    ensures
        distinct(s.remove(i)),
        map_of(s.remove(i)) =~= map_of(s).remove(s[i].account),
        sum_of(s.remove(i)) == sum_of(s) - s[i].shares,
    decreases s.len(),
{
    let t = s.remove(i);
    assert forall|a: int, b: int| 0 <= a < b < t.len() implies (#[trigger] t[a]).account != (
    #[trigger] t[b]).account by {
        assert(t[a] == if a < i {
            s[a]
        } else {
            s[a + 1]
        });
        assert(t[b] == if b < i {
            s[b]
        } else {
            s[b + 1]
        });
    }
    lemma_drop_last_distinct(s);
    if i == s.len() - 1 {
        assert(t =~= s.drop_last());
    } else {
        assert(t.drop_last() =~= s.drop_last().remove(i));
        assert(s.drop_last()[i] == s[i]);
        lemma_remove(s.drop_last(), i);
        assert(t.last() == s.last());
        assert(s.last() == s[s.len() - 1]);
        assert(s.last().account != s[i].account);
    }
}

/// The share balances of one pool, one entry for each account that holds any.
#[derive(Clone, Debug)]
pub struct ShareLedger {
    entries: Vec<ShareEntry>,
}

impl View for ShareLedger {
    type V = Map<AccountId, u128>;

    closed spec fn view(&self) -> Map<AccountId, u128> {
        map_of(self.entries@)
    }
}

impl ShareLedger {
    /// No account has two entries.
    pub closed spec fn wf(&self) -> bool {
        distinct(self.entries@)
    }

    /// The sum of all balances.
    pub closed spec fn total(&self) -> nat {
        sum_of(self.entries@)
    }

    /// The shares of `account`; an account without an entry holds none.
    pub open spec fn shares_of(&self, account: AccountId) -> u128 {
        if self@.contains_key(account) {
            self@[account]
        } else {
            0
        }
    }

    /// No balance exceeds the sum of all balances.
    pub proof fn lemma_balances_bounded(&self)
        ensures
            forall|a: AccountId| #[trigger] self@.contains_key(a) ==> self@[a] <= self.total(),
    {
        lemma_bounded(self.entries@);
    }

    /// A ledger without entries.
    pub fn new() -> (r: ShareLedger)
        ensures
            r.wf(),
            r@ == Map::<AccountId, u128>::empty(),
            r.total() == 0,
    {
        ShareLedger { entries: Vec::new() }
    }

    fn find(&self, account: AccountId) -> (r: Option<usize>)
        requires
            self.wf(),
        ensures
            match r {
                Some(i) => i < self.entries@.len() && self.entries@[i as int].account == account
                    && self@.contains_key(account) && self@[account]
                    == self.entries@[i as int].shares,
                None => !self@.contains_key(account),
            },
    {
        let mut i: usize = 0;
        while i < self.entries.len()
            invariant
                self.wf(),
                i <= self.entries.len(),
                forall|j: int| 0 <= j < i ==> (#[trigger] self.entries@[j]).account != account,
            decreases self.entries.len() - i,
        {
            if self.entries[i].account == account {
                proof {
                    lemma_present(self.entries@, i as int);
                }
                return Some(i);
            }
            i += 1;
        }
        proof {
            lemma_absent(self.entries@, account);
        }
        None
    }

    /// The shares that `account` holds.
    pub fn balance(&self, account: AccountId) -> (r: u128)
        requires
            self.wf(),
        ensures
            r == self.shares_of(account),
            r <= self.total(),
    {
        proof {
            self.lemma_balances_bounded();
        }
        match self.find(account) {
            Some(i) => self.entries[i].shares,
            None => 0,
        }
    }

    /// Adds `amount` to the shares of `account`, with a new entry where the
    /// account has none.
    pub fn credit(&mut self, account: AccountId, amount: u128)
        requires
            old(self).wf(),
            old(self).total() + amount <= u128::MAX,
        ensures
            final(self).wf(),
            final(self)@ == old(self)@.insert(
                account,
                (old(self).shares_of(account) + amount) as u128,
            ),
            final(self).total() == old(self).total() + amount,
    {
        proof {
            self.lemma_balances_bounded();
        }
        match self.find(account) {
            Some(i) => {
                let held = self.entries[i].shares;
                proof {
                    lemma_update(self.entries@, i as int, (held + amount) as u128);
                }
                self.entries[i] = ShareEntry { account, shares: held + amount };
            },
            None => {
                proof {
                    let s = self.entries@;
                    let t = s.push(ShareEntry { account, shares: amount });
                    assert(t.drop_last() =~= s);
                    assert forall|a: int, b: int| 0 <= a < b < t.len() implies (
                    #[trigger] t[a]).account != (#[trigger] t[b]).account by {
                        if b == s.len() {
                            assert(t[a] == s[a]);
                            if s[a].account == account {
                                lemma_present_any(s, a);
                            }
                        } else {
                            assert(t[a] == s[a] && t[b] == s[b]);
                        }
                    }
                }
                self.entries.push(ShareEntry { account, shares: amount });
            },
        }
    }

    /// Takes all the shares of `account` and deletes its entry.
    pub fn take(&mut self, account: AccountId) -> (r: u128)
        requires
            old(self).wf(),
        ensures
            final(self).wf(),
            r == old(self).shares_of(account),
            final(self)@ == old(self)@.remove(account),
            final(self).total() == old(self).total() - r,
    {
        match self.find(account) {
            Some(i) => {
                proof {
                    lemma_remove(self.entries@, i as int);
                }
                let e = self.entries.remove(i);
                e.shares
            },
            None => {
                assert(self@.remove(account) =~= self@);
                0
            },
        }
    }
}

/// An account with an entry is a key of the map, distinct entries or not.
proof fn lemma_present_any(s: Seq<ShareEntry>, i: int)
    requires
        0 <= i < s.len(),
    ensures
        map_of(s).contains_key(s[i].account),
    decreases s.len(),
{
    if i < s.len() - 1 {
        assert(s.drop_last()[i] == s[i]);
        lemma_present_any(s.drop_last(), i);
    }
}

} // verus!
