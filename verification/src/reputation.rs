//! Per-account reputation scores. An account the store has never seen starts
//! at the default score; completion and failure adjust it by a fixed reward.

use vstd::prelude::*;
use vstd::pervasive::VecAdditionalExecFns;

use crate::errors::Error;
use crate::types::{AccountId, Event};

verus! {

/// Reward applied on every reputation adjustment.
pub const FIXED_REP_REWARD: u32 = 5;

/// Score given to an account on first sight.
pub const DEFAULT_REPUTATION: u32 = 50;

/// An account's reputation score.
#[derive(Clone, Copy, PartialEq, Eq, Structural, Debug)]
pub struct ReputationLevel {
    pub score: u32,
}

impl Default for ReputationLevel {
    fn default() -> (r: Self)
        ensures
            r.score == 0,
    {
        ReputationLevel { score: 0 }
    }
}

impl ReputationLevel {
    /// Takes the fixed reward off the score and reports the reward.
    pub fn reduce(&mut self) -> (r: u32)
        requires
            old(self).score >= FIXED_REP_REWARD,
        ensures
            final(self).score == old(self).score - FIXED_REP_REWARD,
            r == FIXED_REP_REWARD,
    {
        self.score = self.score - FIXED_REP_REWARD;
        FIXED_REP_REWARD
    }

    /// Adds the fixed reward to the score and reports the reward.
    pub fn increase(&mut self) -> (r: u32)
        requires
            old(self).score + FIXED_REP_REWARD <= u32::MAX,
        ensures
            final(self).score == old(self).score + FIXED_REP_REWARD,
            r == FIXED_REP_REWARD,
    {
        self.score = self.score + FIXED_REP_REWARD;
        FIXED_REP_REWARD
    }
}

/// The direction of a reputation adjustment.
#[derive(Clone, Copy, PartialEq, Eq, Structural, Debug)]
pub enum ReputationOp {
    FailedReduce,
    CompleteIncrease,
}

/// The reputation store: one level per account seen so far.
pub struct ReputationStore {
    pub levels: Vec<(AccountId, ReputationLevel)>,
}

impl ReputationStore {
    /// Each account has at most one entry.
    pub open spec fn wf(self) -> bool {
        forall|i: int, j: int|
            0 <= i < j < self.levels@.len() ==> (#[trigger] self.levels@[i]).0 != (
            #[trigger] self.levels@[j]).0
    }

    pub open spec fn spec_has_entry(self, a: AccountId) -> bool {
        exists|i: int| 0 <= i < self.levels@.len() && (#[trigger] self.levels@[i]).0 == a
    }

    /// The score the store answers for the account: the stored one, or the
    /// default for an account never seen.
    pub open spec fn spec_rep_of(self, a: AccountId) -> u32 {
        if self.spec_has_entry(a) {
            let i = choose|i: int|
                0 <= i < self.levels@.len() && (#[trigger] self.levels@[i]).0 == a;
            self.levels@[i].1.score
        } else {
            DEFAULT_REPUTATION
        }
    }

    /// In a well-formed store the entry at any index carries exactly the score
    /// that `spec_rep_of` reports for its account.
    pub proof fn lemma_entry_rep(self, i: int)
        requires
            self.wf(),
            0 <= i < self.levels@.len(),
        ensures
            self.spec_has_entry(self.levels@[i].0),
            self.spec_rep_of(self.levels@[i].0) == self.levels@[i].1.score,
    {
        let a = self.levels@[i].0;
        assert(self.spec_has_entry(a));
        let j = choose|j: int| 0 <= j < self.levels@.len() && (#[trigger] self.levels@[j]).0 == a;
        if i < j {
            assert(self.levels@[i].0 != self.levels@[j].0);
        } else if j < i {
            assert(self.levels@[j].0 != self.levels@[i].0);
        }
    }

    pub fn new() -> (r: ReputationStore)
        ensures
            r.wf(),
            forall|a: AccountId| !r.spec_has_entry(a),
            forall|a: AccountId| r.spec_rep_of(a) == DEFAULT_REPUTATION,
    {
        ReputationStore { levels: Vec::new() }
    }

    fn find_index(&self, a: AccountId) -> (r: Option<usize>)
        ensures
            match r {
                Some(i) => i < self.levels@.len() && self.levels@[i as int].0 == a,
                None => !self.spec_has_entry(a),
            },
    {
        let mut i: usize = 0;
        while i < self.levels.len()
            invariant
                i <= self.levels@.len(),
                forall|j: int| 0 <= j < i ==> (#[trigger] self.levels@[j]).0 != a,
            decreases self.levels@.len() - i,
        {
            if self.levels[i].0 == a {
                return Some(i);
            }
            i = i + 1;
        }
        None
    }

    /// Read-only view of the score the store answers for the account.
    pub fn rep_of(&self, a: AccountId) -> (r: u32)
        requires
            self.wf(),
        ensures
            r == self.spec_rep_of(a),
    {
        match self.find_index(a) {
            Some(i) => {
                proof {
                    self.lemma_entry_rep(i as int);
                }
                self.levels[i].1.score
            }
            None => DEFAULT_REPUTATION,
        }
    }

    /// Internal write of an account's level.
    fn set_level(&mut self, a: AccountId, level: ReputationLevel)
        requires
            old(self).wf(),
        ensures
            final(self).wf(),
            final(self).spec_has_entry(a),
            final(self).spec_rep_of(a) == level.score,
            forall|b: AccountId|
                b != a ==> final(self).spec_has_entry(b) == old(self).spec_has_entry(b),
            forall|b: AccountId| b != a ==> final(self).spec_rep_of(b) == old(self).spec_rep_of(b),
    {
        let ghost pre = *self;
        match self.find_index(a) {
            Some(i) => {
                self.levels.set(i, (a, level));
                proof {
                    assert(self.wf());
                    self.lemma_entry_rep(i as int);
                    assert forall|b: AccountId| b != a implies self.spec_has_entry(b)
                        == pre.spec_has_entry(b) && self.spec_rep_of(b) == pre.spec_rep_of(b) by {
                        Self::lemma_frame_update(pre, *self, i as int, b);
                    }
                }
            }
            None => {
                self.levels.push((a, level));
                proof {
                    assert forall|ii: int, jj: int|
                        0 <= ii < jj < self.levels@.len() implies (#[trigger] self.levels@[ii]).0
                        != (#[trigger] self.levels@[jj]).0 by {
                        if jj == self.levels@.len() - 1 {
                            assert(self.levels@[ii] == pre.levels@[ii]);
                        }
                    }
                    self.lemma_entry_rep(self.levels@.len() - 1);
                    assert forall|b: AccountId| b != a implies self.spec_has_entry(b)
                        == pre.spec_has_entry(b) && self.spec_rep_of(b) == pre.spec_rep_of(b) by {
                        Self::lemma_frame_push(pre, *self, b);
                    }
                }
            }
        }
    }

    proof fn lemma_frame_update(pre: ReputationStore, post: ReputationStore, i: int, b: AccountId)
        requires
            pre.wf(),
            post.wf(),
            0 <= i < pre.levels@.len(),
            post.levels@ == pre.levels@.update(i, post.levels@[i]),
            post.levels@[i].0 == pre.levels@[i].0,
            b != pre.levels@[i].0,
        ensures
            post.spec_has_entry(b) == pre.spec_has_entry(b),
            post.spec_rep_of(b) == pre.spec_rep_of(b),
    {
        if pre.spec_has_entry(b) {
            let j = choose|j: int| 0 <= j < pre.levels@.len() && (#[trigger] pre.levels@[j]).0 == b;
            assert(post.levels@[j].0 == b);
            assert(post.spec_has_entry(b));
            pre.lemma_entry_rep(j);
            post.lemma_entry_rep(j);
        }
        if post.spec_has_entry(b) {
            let j = choose|j: int|
                0 <= j < post.levels@.len() && (#[trigger] post.levels@[j]).0 == b;
            assert(pre.levels@[j].0 == b);
            assert(pre.spec_has_entry(b));
        }
    }

    proof fn lemma_frame_push(pre: ReputationStore, post: ReputationStore, b: AccountId)
        requires
            pre.wf(),
            post.wf(),
            post.levels@ == pre.levels@.push(post.levels@.last()),
            b != post.levels@.last().0,
        ensures
            post.spec_has_entry(b) == pre.spec_has_entry(b),
            post.spec_rep_of(b) == pre.spec_rep_of(b),
    {
        if pre.spec_has_entry(b) {
            let j = choose|j: int| 0 <= j < pre.levels@.len() && (#[trigger] pre.levels@[j]).0 == b;
            assert(post.levels@[j].0 == b);
            assert(post.spec_has_entry(b));
            pre.lemma_entry_rep(j);
            post.lemma_entry_rep(j);
        }
        if post.spec_has_entry(b) {
            let j = choose|j: int|
                0 <= j < post.levels@.len() && (#[trigger] post.levels@[j]).0 == b;
            assert(j < pre.levels@.len());
            assert(pre.levels@[j].0 == b);
        }
    }

    /// Genesis setter for an account's score.
    pub fn set_reputation(&mut self, a: AccountId, score: u32)
        requires
            old(self).wf(),
        ensures
            final(self).wf(),
            final(self).spec_rep_of(a) == score,
            forall|b: AccountId| b != a ==> final(self).spec_rep_of(b) == old(self).spec_rep_of(b),
    {
        self.set_level(a, ReputationLevel { score });
    }

    /// The account's current level, materializing the default entry for an
    /// account seen for the first time. No account's answered score changes.
    pub fn get_account_reputation_level(&mut self, a: AccountId) -> (r: ReputationLevel)
        requires
            old(self).wf(),
        ensures
            final(self).wf(),
            r.score == old(self).spec_rep_of(a),
            final(self).spec_has_entry(a),
            forall|b: AccountId| final(self).spec_rep_of(b) == old(self).spec_rep_of(b),
    {
        match self.find_index(a) {
            Some(i) => {
                proof {
                    self.lemma_entry_rep(i as int);
                }
                self.levels[i].1
            }
            None => {
                let rep = ReputationLevel { score: DEFAULT_REPUTATION };
                self.set_level(a, rep);
                rep
            }
        }
    }

    /// Applies one adjustment to the account's score and appends the matching
    /// event: completion raises the score by the fixed reward, failure lowers
    /// it. The bounds that the adjustment must respect are preconditions.
    pub fn reputation_change(&mut self, a: AccountId, op: ReputationOp, events: &mut Vec<Event>)
        -> (r: Result<(), Error>)
        requires
            old(self).wf(),
            op is CompleteIncrease ==> old(self).spec_rep_of(a) + FIXED_REP_REWARD <= u32::MAX,
            op is FailedReduce ==> old(self).spec_rep_of(a) >= FIXED_REP_REWARD,
        ensures
            final(self).wf(),
            r is Ok,
            op is CompleteIncrease ==> final(self).spec_rep_of(a) == old(self).spec_rep_of(a)
                + FIXED_REP_REWARD && final(events)@ == old(events)@.push(
                Event::CompletionIncrease(a, FIXED_REP_REWARD),
            ),
            op is FailedReduce ==> final(self).spec_rep_of(a) == old(self).spec_rep_of(a)
                - FIXED_REP_REWARD && final(events)@ == old(events)@.push(
                Event::FailedReduce(a, FIXED_REP_REWARD),
            ),
            forall|b: AccountId| b != a ==> final(self).spec_rep_of(b) == old(self).spec_rep_of(b),
    {
        let mut rep = self.get_account_reputation_level(a);
        match op {
            ReputationOp::CompleteIncrease => {
                let reward = rep.increase();
                events.push(Event::CompletionIncrease(a, reward));
            }
            ReputationOp::FailedReduce => {
                let reward = rep.reduce();
                events.push(Event::FailedReduce(a, reward));
            }
        }
        self.set_level(a, rep);
        Ok(())
    }
}

} // verus!
