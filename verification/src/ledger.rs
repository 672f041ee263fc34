//! The currency ledger the escrow operations draw on and pay into: one balance
//! per account. An account exists once a balance has been set for it; a
//! deposit is only accepted for an existing account, as on the host chain.

use vstd::prelude::*;
use vstd::pervasive::VecAdditionalExecFns;

use crate::errors::Error;
use crate::types::{AccountId, Balance};

verus! {

/// Account balances, one entry per account.
pub struct Ledger {
    pub accounts: Vec<(AccountId, Balance)>,
}

impl Ledger {
    /// Each account has at most one entry.
    pub open spec fn wf(self) -> bool {
        forall|i: int, j: int|
            0 <= i < j < self.accounts@.len() ==> (#[trigger] self.accounts@[i]).0 != (
            #[trigger] self.accounts@[j]).0
    }

    /// Whether the ledger knows the account.
    pub open spec fn spec_has_account(self, a: AccountId) -> bool {
        exists|i: int| 0 <= i < self.accounts@.len() && (#[trigger] self.accounts@[i]).0 == a
    }

    /// The account's balance; zero for an unknown account.
    pub open spec fn spec_balance(self, a: AccountId) -> Balance {
        if self.spec_has_account(a) {
            let i = choose|i: int|
                0 <= i < self.accounts@.len() && (#[trigger] self.accounts@[i]).0 == a;
            self.accounts@[i].1
        } else {
            0
        }
    }

    /// In a well-formed ledger the entry at any index carries exactly the
    /// balance that `spec_balance` reports for its account.
    pub proof fn lemma_entry_balance(self, i: int)
        requires
            self.wf(),
            0 <= i < self.accounts@.len(),
        ensures
            self.spec_has_account(self.accounts@[i].0),
            self.spec_balance(self.accounts@[i].0) == self.accounts@[i].1,
    {
        let a = self.accounts@[i].0;
        assert(self.spec_has_account(a));
        let j = choose|j: int| 0 <= j < self.accounts@.len() && (#[trigger] self.accounts@[j]).0 == a;
        if i < j {
            assert(self.accounts@[i].0 != self.accounts@[j].0);
        } else if j < i {
            assert(self.accounts@[j].0 != self.accounts@[i].0);
        }
    }

    pub fn new() -> (r: Ledger)
        ensures
            r.wf(),
            forall|a: AccountId| !r.spec_has_account(a),
            forall|a: AccountId| r.spec_balance(a) == 0,
    {
        Ledger { accounts: Vec::new() }
    }

    /// Index of the account's entry, if any.
    fn find_index(&self, a: AccountId) -> (r: Option<usize>)
        ensures
            match r {
                Some(i) => i < self.accounts@.len() && self.accounts@[i as int].0 == a,
                None => !self.spec_has_account(a),
            },
    {
        let mut i: usize = 0;
        while i < self.accounts.len()
            invariant
                i <= self.accounts@.len(),
                forall|j: int| 0 <= j < i ==> (#[trigger] self.accounts@[j]).0 != a,
            decreases self.accounts@.len() - i,
        {
            if self.accounts[i].0 == a {
                return Some(i);
            }
            i = i + 1;
        }
        None
    }

    pub fn balance_of(&self, a: AccountId) -> (r: Balance)
        requires
            self.wf(),
        ensures
            r == self.spec_balance(a),
    {
        match self.find_index(a) {
            Some(i) => {
                proof {
                    self.lemma_entry_balance(i as int);
                }
                self.accounts[i].1
            }
            None => 0,
        }
    }

    pub fn has_account(&self, a: AccountId) -> (r: bool)
        ensures
            r == self.spec_has_account(a),
    {
        self.find_index(a).is_some()
    }

    /// Sets the account's balance outright, creating the account if the ledger
    /// does not know it. This is the genesis endowment, not a transfer.
    pub fn set_balance(&mut self, a: AccountId, v: Balance)
        requires
            old(self).wf(),
        ensures
            final(self).wf(),
            final(self).spec_has_account(a),
            final(self).spec_balance(a) == v,
            forall|b: AccountId|
                b != a ==> final(self).spec_has_account(b) == old(self).spec_has_account(b),
            forall|b: AccountId|
                b != a ==> final(self).spec_balance(b) == old(self).spec_balance(b),
    {
        let ghost pre = *self;
        match self.find_index(a) {
            Some(i) => {
                self.accounts.set(i, (a, v));
                proof {
                    assert(self.wf());
                    self.lemma_entry_balance(i as int);
                    assert forall|b: AccountId| b != a implies self.spec_has_account(b)
                        == pre.spec_has_account(b) && self.spec_balance(b) == pre.spec_balance(b) by {
                        Self::lemma_frame_update(pre, *self, i as int, b);
                    }
                }
            }
            None => {
                self.accounts.push((a, v));
                proof {
                    assert forall|ii: int, jj: int|
                        0 <= ii < jj < self.accounts@.len() implies (
                    #[trigger] self.accounts@[ii]).0 != (#[trigger] self.accounts@[jj]).0 by {
                        if jj == self.accounts@.len() - 1 {
                            assert(self.accounts@[ii] == pre.accounts@[ii]);
                        }
                    }
                    self.lemma_entry_balance(self.accounts@.len() - 1);
                    assert forall|b: AccountId| b != a implies self.spec_has_account(b)
                        == pre.spec_has_account(b) && self.spec_balance(b) == pre.spec_balance(b) by {
                        Self::lemma_frame_push(pre, *self, b);
                    }
                }
            }
        }
    }

    /// After an update at index `i` that keeps the account of that entry, every
    /// other account's presence and balance are unchanged.
    proof fn lemma_frame_update(pre: Ledger, post: Ledger, i: int, b: AccountId)
        requires
            pre.wf(),
            post.wf(),
            0 <= i < pre.accounts@.len(),
            post.accounts@ == pre.accounts@.update(i, post.accounts@[i]),
            post.accounts@[i].0 == pre.accounts@[i].0,
            b != pre.accounts@[i].0,
        ensures
            post.spec_has_account(b) == pre.spec_has_account(b),
            post.spec_balance(b) == pre.spec_balance(b),
    {
        if pre.spec_has_account(b) {
            let j = choose|j: int|
                0 <= j < pre.accounts@.len() && (#[trigger] pre.accounts@[j]).0 == b;
            assert(post.accounts@[j].0 == b);
            assert(post.spec_has_account(b));
            pre.lemma_entry_balance(j);
            post.lemma_entry_balance(j);
        }
        if post.spec_has_account(b) {
            let j = choose|j: int|
                0 <= j < post.accounts@.len() && (#[trigger] post.accounts@[j]).0 == b;
            assert(pre.accounts@[j].0 == b);
            assert(pre.spec_has_account(b));
        }
    }

    /// After a push of a new account's entry, every other account's presence
    /// and balance are unchanged.
    proof fn lemma_frame_push(pre: Ledger, post: Ledger, b: AccountId)
        requires
            pre.wf(),
            post.wf(),
            post.accounts@ == pre.accounts@.push(post.accounts@.last()),
            b != post.accounts@.last().0,
        ensures
            post.spec_has_account(b) == pre.spec_has_account(b),
            post.spec_balance(b) == pre.spec_balance(b),
    {
        if pre.spec_has_account(b) {
            let j = choose|j: int|
                0 <= j < pre.accounts@.len() && (#[trigger] pre.accounts@[j]).0 == b;
            assert(post.accounts@[j].0 == b);
            assert(post.spec_has_account(b));
            pre.lemma_entry_balance(j);
            post.lemma_entry_balance(j);
        }
        if post.spec_has_account(b) {
            let j = choose|j: int|
                0 <= j < post.accounts@.len() && (#[trigger] post.accounts@[j]).0 == b;
            assert(j < pre.accounts@.len());
            assert(pre.accounts@[j].0 == b);
        }
    }

    /// Takes `amount` out of the account's balance; fails with
    /// `InsufficientFunds`, and changes nothing, when the balance cannot cover
    /// it.
    pub fn withdraw(&mut self, a: AccountId, amount: Balance) -> (r: Result<(), Error>)
        requires
            old(self).wf(),
        ensures
            final(self).wf(),
            r is Ok <==> old(self).spec_balance(a) >= amount,
            r is Err ==> r == Err::<(), Error>(Error::InsufficientFunds) && *final(self) == *old(
                self,
            ),
            r is Ok ==> final(self).spec_balance(a) == old(self).spec_balance(a) - amount,
            forall|b: AccountId|
                final(self).spec_has_account(b) == old(self).spec_has_account(b),
            forall|b: AccountId|
                b != a ==> final(self).spec_balance(b) == old(self).spec_balance(b),
    {
        let ghost pre = *self;
        match self.find_index(a) {
            Some(i) => {
                proof {
                    self.lemma_entry_balance(i as int);
                }
                let bal = self.accounts[i].1;
                if bal >= amount {
                    self.accounts.set(i, (a, bal - amount));
                    proof {
                        assert(self.wf());
                        self.lemma_entry_balance(i as int);
                        assert forall|b: AccountId| b != a implies self.spec_has_account(b)
                            == pre.spec_has_account(b) && self.spec_balance(b) == pre.spec_balance(
                            b,
                        ) by {
                            Self::lemma_frame_update(pre, *self, i as int, b);
                        }
                        assert(self.spec_has_account(a) == pre.spec_has_account(a));
                    }
                    Ok(())
                } else {
                    Err(Error::InsufficientFunds)
                }
            }
            None => {
                if amount == 0 {
                    Ok(())
                } else {
                    Err(Error::InsufficientFunds)
                }
            }
        }
    }

    /// Adds `amount` to an existing account's balance; fails with
    /// `AccountMissing` for an unknown account and with `BalanceOverflow` when
    /// the sum does not fit, changing nothing in either case.
    pub fn deposit_into_existing(&mut self, a: AccountId, amount: Balance) -> (r: Result<
        (),
        Error,
    >)
        requires
            old(self).wf(),
        ensures
            final(self).wf(),
            r is Ok <==> old(self).spec_has_account(a) && old(self).spec_balance(a) + amount
                <= u64::MAX,
            !old(self).spec_has_account(a) ==> r == Err::<(), Error>(Error::AccountMissing),
            old(self).spec_has_account(a) && old(self).spec_balance(a) + amount > u64::MAX ==> r
                == Err::<(), Error>(Error::BalanceOverflow),
            r is Err ==> *final(self) == *old(self),
            r is Ok ==> final(self).spec_balance(a) == old(self).spec_balance(a) + amount,
            forall|b: AccountId|
                final(self).spec_has_account(b) == old(self).spec_has_account(b),
            forall|b: AccountId|
                b != a ==> final(self).spec_balance(b) == old(self).spec_balance(b),
    {
        let ghost pre = *self;
        match self.find_index(a) {
            Some(i) => {
                proof {
                    self.lemma_entry_balance(i as int);
                }
                let bal = self.accounts[i].1;
                if amount <= u64::MAX - bal {
                    self.accounts.set(i, (a, bal + amount));
                    proof {
                        assert(self.wf());
                        self.lemma_entry_balance(i as int);
                        assert forall|b: AccountId| b != a implies self.spec_has_account(b)
                            == pre.spec_has_account(b) && self.spec_balance(b) == pre.spec_balance(
                            b,
                        ) by {
                            Self::lemma_frame_update(pre, *self, i as int, b);
                        }
                        assert(self.spec_has_account(a) == pre.spec_has_account(a));
                    }
                    Ok(())
                } else {
                    Err(Error::BalanceOverflow)
                }
            }
            None => Err(Error::AccountMissing),
        }
    }
}

} // verus!
