//! Escrow pools: funds the core holds on behalf of a task, keyed by account
//! and task identifier. A pool's amount is zero when nothing is escrowed; an
//! entry stays in place once created, so "has an entry" and "holds a zero
//! amount" remain distinguishable, as the staking check requires.

use vstd::prelude::*;
use vstd::pervasive::VecAdditionalExecFns;

use crate::types::{AccountId, Balance, TaskHash};

verus! {

/// One escrow holding: the account it is keyed by, the task it belongs to,
/// and the amount currently held.
#[derive(Clone, Copy, PartialEq, Eq, Structural, Debug)]
pub struct PoolEntry {
    pub account: AccountId,
    pub hash: TaskHash,
    pub amount: Balance,
}

/// A family of escrow pools, one per (account, task) pair.
pub struct EscrowPool {
    pub entries: Vec<PoolEntry>,
}

impl EscrowPool {
    /// Each (account, task) pair has at most one entry.
    pub open spec fn wf(self) -> bool {
        forall|i: int, j: int|
            0 <= i < j < self.entries@.len() ==> !((#[trigger] self.entries@[i]).account == (
            #[trigger] self.entries@[j]).account && self.entries@[i].hash == self.entries@[j].hash)
    }

    /// Whether a pool entry exists for the pair.
    pub open spec fn spec_contains(self, a: AccountId, h: TaskHash) -> bool {
        exists|i: int|
            0 <= i < self.entries@.len() && (#[trigger] self.entries@[i]).account == a
                && self.entries@[i].hash == h
    }

    /// The amount held for the pair; zero when unescrowed.
    pub open spec fn spec_amount(self, a: AccountId, h: TaskHash) -> Balance {
        if self.spec_contains(a, h) {
            let i = choose|i: int|
                0 <= i < self.entries@.len() && (#[trigger] self.entries@[i]).account == a
                    && self.entries@[i].hash == h;
            self.entries@[i].amount
        } else {
            0
        }
    }

    /// In a well-formed pool the entry at any index carries exactly the amount
    /// that `spec_amount` reports for its pair.
    pub proof fn lemma_entry_amount(self, i: int)
        requires
            self.wf(),
            0 <= i < self.entries@.len(),
        ensures
            self.spec_contains(self.entries@[i].account, self.entries@[i].hash),
            self.spec_amount(self.entries@[i].account, self.entries@[i].hash)
                == self.entries@[i].amount,
    {
        let a = self.entries@[i].account;
        let h = self.entries@[i].hash;
        assert(self.spec_contains(a, h));
        let j = choose|j: int|
            0 <= j < self.entries@.len() && (#[trigger] self.entries@[j]).account == a
                && self.entries@[j].hash == h;
        if i < j {
            assert(!(self.entries@[i].account == self.entries@[j].account && self.entries@[i].hash
                == self.entries@[j].hash));
        } else if j < i {
            assert(!(self.entries@[j].account == self.entries@[i].account && self.entries@[j].hash
                == self.entries@[i].hash));
        }
    }

    pub fn new() -> (r: EscrowPool)
        ensures
            r.wf(),
            forall|a: AccountId, h: TaskHash| !r.spec_contains(a, h),
            forall|a: AccountId, h: TaskHash| r.spec_amount(a, h) == 0,
    {
        EscrowPool { entries: Vec::new() }
    }

    /// Index of the pair's entry, if any.
    fn find_index(&self, a: AccountId, h: TaskHash) -> (r: Option<usize>)
        ensures
            match r {
                Some(i) => i < self.entries@.len() && self.entries@[i as int].account == a
                    && self.entries@[i as int].hash == h,
                None => !self.spec_contains(a, h),
            },
    {
        let mut i: usize = 0;
        while i < self.entries.len()
            invariant
                i <= self.entries@.len(),
                forall|j: int|
                    0 <= j < i ==> !((#[trigger] self.entries@[j]).account == a
                        && self.entries@[j].hash == h),
            decreases self.entries@.len() - i,
        {
            let e = self.entries[i];
            if e.account == a && e.hash.digest == h.digest && e.hash.nonce == h.nonce {
                return Some(i);
            }
            i = i + 1;
        }
        None
    }

    pub fn amount_of(&self, a: AccountId, h: TaskHash) -> (r: Balance)
        requires
            self.wf(),
        ensures
            r == self.spec_amount(a, h),
    {
        match self.find_index(a, h) {
            Some(i) => {
                proof {
                    self.lemma_entry_amount(i as int);
                }
                self.entries[i].amount
            }
            None => 0,
        }
    }

    pub fn contains(&self, a: AccountId, h: TaskHash) -> (r: bool)
        ensures
            r == self.spec_contains(a, h),
    {
        self.find_index(a, h).is_some()
    }

    /// Sets the amount held for the pair, creating its entry if none exists.
    pub fn set(&mut self, a: AccountId, h: TaskHash, v: Balance)
        requires
            old(self).wf(),
        ensures
            final(self).wf(),
            final(self).spec_contains(a, h),
            final(self).spec_amount(a, h) == v,
            forall|b: AccountId, g: TaskHash|
                !(b == a && g == h) ==> final(self).spec_contains(b, g) == old(self).spec_contains(
                    b,
                    g,
                ),
            forall|b: AccountId, g: TaskHash|
                !(b == a && g == h) ==> final(self).spec_amount(b, g) == old(self).spec_amount(
                    b,
                    g,
                ),
    {
        let ghost pre = *self;
        match self.find_index(a, h) {
            Some(i) => {
                self.entries.set(i, PoolEntry { account: a, hash: h, amount: v });
                proof {
                    assert(self.wf());
                    self.lemma_entry_amount(i as int);
                    assert forall|b: AccountId, g: TaskHash| !(b == a && g == h) implies self
                        .spec_contains(b, g) == pre.spec_contains(b, g) && self.spec_amount(b, g)
                        == pre.spec_amount(b, g) by {
                        Self::lemma_frame_update(pre, *self, i as int, b, g);
                    }
                }
            }
            None => {
                self.entries.push(PoolEntry { account: a, hash: h, amount: v });
                proof {
                    assert forall|ii: int, jj: int| 0 <= ii < jj < self.entries@.len() implies !((
                    #[trigger] self.entries@[ii]).account == (#[trigger] self.entries@[jj]).account
                        && self.entries@[ii].hash == self.entries@[jj].hash) by {
                        if jj == self.entries@.len() - 1 {
                            assert(self.entries@[ii] == pre.entries@[ii]);
                        }
                    }
                    self.lemma_entry_amount(self.entries@.len() - 1);
                    assert forall|b: AccountId, g: TaskHash| !(b == a && g == h) implies self
                        .spec_contains(b, g) == pre.spec_contains(b, g) && self.spec_amount(b, g)
                        == pre.spec_amount(b, g) by {
                        Self::lemma_frame_push(pre, *self, b, g);
                    }
                }
            }
        }
    }

    /// After an update at index `i` that keeps that entry's pair, every other
    /// pair's presence and amount are unchanged.
    proof fn lemma_frame_update(pre: EscrowPool, post: EscrowPool, i: int, b: AccountId, g: TaskHash)
        requires
            pre.wf(),
            post.wf(),
            0 <= i < pre.entries@.len(),
            post.entries@ == pre.entries@.update(i, post.entries@[i]),
            post.entries@[i].account == pre.entries@[i].account,
            post.entries@[i].hash == pre.entries@[i].hash,
            !(b == pre.entries@[i].account && g == pre.entries@[i].hash),
        ensures
            post.spec_contains(b, g) == pre.spec_contains(b, g),
            post.spec_amount(b, g) == pre.spec_amount(b, g),
    {
        if pre.spec_contains(b, g) {
            let j = choose|j: int|
                0 <= j < pre.entries@.len() && (#[trigger] pre.entries@[j]).account == b
                    && pre.entries@[j].hash == g;
            assert(post.entries@[j].account == b && post.entries@[j].hash == g);
            assert(post.spec_contains(b, g));
            pre.lemma_entry_amount(j);
            post.lemma_entry_amount(j);
        }
        if post.spec_contains(b, g) {
            let j = choose|j: int|
                0 <= j < post.entries@.len() && (#[trigger] post.entries@[j]).account == b
                    && post.entries@[j].hash == g;
            assert(pre.entries@[j].account == b && pre.entries@[j].hash == g);
            assert(pre.spec_contains(b, g));
        }
    }

    /// After a push of a new pair's entry, every other pair's presence and
    /// amount are unchanged.
    proof fn lemma_frame_push(pre: EscrowPool, post: EscrowPool, b: AccountId, g: TaskHash)
        requires
            pre.wf(),
            post.wf(),
            post.entries@ == pre.entries@.push(post.entries@.last()),
            !(b == post.entries@.last().account && g == post.entries@.last().hash),
        ensures
            post.spec_contains(b, g) == pre.spec_contains(b, g),
            post.spec_amount(b, g) == pre.spec_amount(b, g),
    {
        if pre.spec_contains(b, g) {
            let j = choose|j: int|
                0 <= j < pre.entries@.len() && (#[trigger] pre.entries@[j]).account == b
                    && pre.entries@[j].hash == g;
            assert(post.entries@[j].account == b && post.entries@[j].hash == g);
            assert(post.spec_contains(b, g));
            pre.lemma_entry_amount(j);
            post.lemma_entry_amount(j);
        }
        if post.spec_contains(b, g) {
            let j = choose|j: int|
                0 <= j < post.entries@.len() && (#[trigger] post.entries@[j]).account == b
                    && post.entries@[j].hash == g;
            assert(j < pre.entries@.len());
            assert(pre.entries@[j].account == b && pre.entries@[j].hash == g);
        }
    }
}

} // verus!
