//! Arbitration: one judgement record per disputed task, judge staking, vote
//! tally and majority result. A judgement is created when arbitration is
//! requested, collects one staked vote per eligible judge, becomes Done when
//! the vote count reaches its pool size, and its majority result is computed
//! once and cached for determinism. Ties resolve to ResultFalse.
//!
//! Disposition of the judges' stakes: a pledge stays escrowed in the pledge
//! pool after the judgement completes. This core defines no automatic
//! release or redistribution; disposal of completed pledges is left to the
//! host's governance.

use vstd::prelude::*;
use vstd::pervasive::VecAdditionalExecFns;

use crate::errors::Error;
use crate::escrow::EscrowPool;
use crate::ledger::Ledger;
use crate::reputation::ReputationStore;
use crate::types::{AccountId, Balance, Event, TaskHash};

verus! {

/// Lifecycle of a judgement record.
#[derive(Clone, Copy, PartialEq, Eq, Structural, Debug)]
pub enum JudgeKind {
    UnCreated,
    Processing,
    Done,
}

/// A judge's verdict, and the majority outcome.
#[derive(Clone, Copy, PartialEq, Eq, Structural, Debug)]
pub enum ResultKind {
    ResultTrue,
    ResultFalse,
}

/// Position of a judgement state in its order UnCreated < Processing < Done.
pub open spec fn spec_judge_kind_ordinal(k: JudgeKind) -> u8 {
    match k {
        JudgeKind::UnCreated => 0,
        JudgeKind::Processing => 1,
        JudgeKind::Done => 2,
    }
}

/// Count of ResultTrue votes in a vote sequence.
pub open spec fn num_true(s: Seq<(AccountId, ResultKind)>) -> nat
    decreases s.len(),
{
    if s.len() == 0 {
        0
    } else {
        num_true(s.drop_last()) + (if s.last().1 is ResultTrue {
            1nat
        } else {
            0nat
        })
    }
}

/// Count of ResultFalse votes in a vote sequence.
pub open spec fn num_false(s: Seq<(AccountId, ResultKind)>) -> nat
    decreases s.len(),
{
    if s.len() == 0 {
        0
    } else {
        num_false(s.drop_last()) + (if s.last().1 is ResultFalse {
            1nat
        } else {
            0nat
        })
    }
}

/// Majority of the recorded votes: ResultTrue only when it strictly
/// outnumbers ResultFalse, so ties resolve to ResultFalse.
pub open spec fn spec_result_of(s: Seq<(AccountId, ResultKind)>) -> ResultKind {
    if num_true(s) > num_false(s) {
        ResultKind::ResultTrue
    } else {
        ResultKind::ResultFalse
    }
}

/// Whether the judge already cast a vote in the sequence.
pub open spec fn spec_has_voted(s: Seq<(AccountId, ResultKind)>, judge: AccountId) -> bool {
    exists|i: int| 0 <= i < s.len() && (#[trigger] s[i]).0 == judge
}

/// A dispute's judgement record.
#[derive(Clone, PartialEq, Eq, Debug)]
pub struct Judgement {
    pub sender: AccountId,
    pub judges: Vec<(AccountId, ResultKind)>,
    pub kind: JudgeKind,
    pub threshold: u32,
    pub pool_size: u32,
    pub pledge_limit: Balance,
}

/// Field-by-field equality of two judgement records, with the vote list
/// compared by its contents.
pub open spec fn judgement_matches(a: Judgement, b: Judgement) -> bool {
    &&& a.sender == b.sender
    &&& a.judges@ == b.judges@
    &&& a.kind == b.kind
    &&& a.threshold == b.threshold
    &&& a.pool_size == b.pool_size
    &&& a.pledge_limit == b.pledge_limit
}

impl Default for Judgement {
    fn default() -> (r: Self)
        ensures
            r.sender == 0,
            r.judges@ == Seq::<(AccountId, ResultKind)>::empty(),
            r.kind is Processing,
            r.threshold == 0,
            r.pool_size == 0,
            r.pledge_limit == 0,
    {
        Judgement {
            sender: 0,
            judges: Vec::new(),
            kind: JudgeKind::Processing,
            threshold: 0,
            pool_size: 0,
            pledge_limit: 0,
        }
    }
}

impl Judgement {
    /// True when the judge has not voted yet.
    pub fn verify_repeat(&self, judge: AccountId) -> (r: bool)
        ensures
            r == !spec_has_voted(self.judges@, judge),
    {
        let mut i: usize = 0;
        while i < self.judges.len()
            invariant
                i <= self.judges@.len(),
                forall|j: int| 0 <= j < i ==> (#[trigger] self.judges@[j]).0 != judge,
            decreases self.judges@.len() - i,
        {
            if self.judges[i].0 == judge {
                return false;
            }
            i = i + 1;
        }
        true
    }

    /// Appends the judge's vote; the record becomes Done exactly when the
    /// vote count reaches the pool size. A judge that already voted is
    /// rejected with `JudgeRepeat` and nothing changes.
    pub fn add_judge(&mut self, judge: AccountId, result: ResultKind) -> (r: Result<(), Error>)
        requires
            old(self).judges@.len() < u32::MAX,
        ensures
            spec_has_voted(old(self).judges@, judge) ==> r == Err::<(), Error>(Error::JudgeRepeat)
                && *final(self) == *old(self),
            !spec_has_voted(old(self).judges@, judge) ==> {
                &&& r is Ok
                &&& final(self).judges@ == old(self).judges@.push((judge, result))
                &&& final(self).kind == (if old(self).judges@.len() + 1 == old(self).pool_size {
                    JudgeKind::Done
                } else {
                    old(self).kind
                })
                &&& final(self).sender == old(self).sender
                &&& final(self).threshold == old(self).threshold
                &&& final(self).pool_size == old(self).pool_size
                &&& final(self).pledge_limit == old(self).pledge_limit
            },
    {
        if !self.verify_repeat(judge) {
            return Err(Error::JudgeRepeat);
        }
        self.judges.push((judge, result));
        if self.judges.len() == self.pool_size as usize {
            self.kind = JudgeKind::Done;
        }
        Ok(())
    }

    /// The majority of the recorded votes; ties give ResultFalse.
    pub fn result(&self) -> (r: ResultKind)
        ensures
            r == spec_result_of(self.judges@),
    {
        let mut count_true: usize = 0;
        let mut count_false: usize = 0;
        let mut i: usize = 0;
        while i < self.judges.len()
            invariant
                i <= self.judges@.len(),
                count_true == num_true(self.judges@.take(i as int)),
                count_false == num_false(self.judges@.take(i as int)),
                count_true <= i,
                count_false <= i,
            decreases self.judges@.len() - i,
        {
            proof {
                assert(self.judges@.take(i + 1).drop_last() =~= self.judges@.take(i as int));
                assert(self.judges@.take(i + 1).last() == self.judges@[i as int]);
            }
            match self.judges[i].1 {
                ResultKind::ResultTrue => {
                    count_true = count_true + 1;
                }
                ResultKind::ResultFalse => {
                    count_false = count_false + 1;
                }
            }
            i = i + 1;
        }
        proof {
            assert(self.judges@.take(self.judges@.len() as int) =~= self.judges@);
        }
        if count_true > count_false {
            ResultKind::ResultTrue
        } else {
            ResultKind::ResultFalse
        }
    }
}

/// Rebuilds a judgement record value, field by field.
fn copy_judgement(j: &Judgement) -> (r: Judgement)
    ensures
        judgement_matches(r, *j),
{
    let mut votes: Vec<(AccountId, ResultKind)> = Vec::new();
    let mut i: usize = 0;
    while i < j.judges.len()
        invariant
            i <= j.judges@.len(),
            votes@ == j.judges@.take(i as int),
        decreases j.judges@.len() - i,
    {
        votes.push(j.judges[i]);
        proof {
            assert(votes@ =~= j.judges@.take(i + 1));
        }
        i = i + 1;
    }
    proof {
        assert(j.judges@.take(j.judges@.len() as int) =~= j.judges@);
    }
    Judgement {
        sender: j.sender,
        judges: votes,
        kind: j.kind,
        threshold: j.threshold,
        pool_size: j.pool_size,
        pledge_limit: j.pledge_limit,
    }
}

/// The arbitration pool: judgements keyed by the disputed task's identifier,
/// the governance-set committee size and reputation threshold, the judges'
/// staked pledges, and the cache of final results.
pub struct JudgePool {
    pub judges: Vec<(TaskHash, Judgement)>,
    pub judge_size: u32,
    pub threshold: u32,
    pub pledge_pool: EscrowPool,
    pub judge_result: Vec<(TaskHash, ResultKind)>,
}

impl JudgePool {
    pub open spec fn wf(self) -> bool {
        &&& forall|i: int, j: int|
            0 <= i < j < self.judges@.len() ==> (#[trigger] self.judges@[i]).0 != (
            #[trigger] self.judges@[j]).0
        &&& forall|i: int| 0 <= i < self.judges@.len() ==> !((#[trigger] self.judges@[i]).1.kind is UnCreated)
        &&& forall|i: int|
            0 <= i < self.judges@.len() ==> (#[trigger] self.judges@[i]).1.judges@.len()
                <= u32::MAX
        &&& forall|i: int, j: int|
            0 <= i < j < self.judge_result@.len() ==> (#[trigger] self.judge_result@[i]).0 != (
            #[trigger] self.judge_result@[j]).0
        &&& self.pledge_pool.wf()
    }

    pub open spec fn spec_has_judgement(self, h: TaskHash) -> bool {
        exists|i: int| 0 <= i < self.judges@.len() && (#[trigger] self.judges@[i]).0 == h
    }

    pub open spec fn spec_judgement_index(self, h: TaskHash) -> int {
        choose|i: int| 0 <= i < self.judges@.len() && (#[trigger] self.judges@[i]).0 == h
    }

    /// The judgement's state; UnCreated when no record exists.
    pub open spec fn spec_judgement_kind(self, h: TaskHash) -> JudgeKind {
        if self.spec_has_judgement(h) {
            self.judges@[self.spec_judgement_index(h)].1.kind
        } else {
            JudgeKind::UnCreated
        }
    }

    /// The recorded votes; empty when no record exists.
    pub open spec fn spec_votes(self, h: TaskHash) -> Seq<(AccountId, ResultKind)> {
        if self.spec_has_judgement(h) {
            self.judges@[self.spec_judgement_index(h)].1.judges@
        } else {
            Seq::empty()
        }
    }

    pub open spec fn spec_pledge_limit_of(self, h: TaskHash) -> Balance {
        if self.spec_has_judgement(h) {
            self.judges@[self.spec_judgement_index(h)].1.pledge_limit
        } else {
            0
        }
    }

    pub open spec fn spec_sender_of(self, h: TaskHash) -> AccountId {
        if self.spec_has_judgement(h) {
            self.judges@[self.spec_judgement_index(h)].1.sender
        } else {
            0
        }
    }

    pub open spec fn spec_threshold_of(self, h: TaskHash) -> u32 {
        if self.spec_has_judgement(h) {
            self.judges@[self.spec_judgement_index(h)].1.threshold
        } else {
            0
        }
    }

    pub open spec fn spec_pool_size_of(self, h: TaskHash) -> u32 {
        if self.spec_has_judgement(h) {
            self.judges@[self.spec_judgement_index(h)].1.pool_size
        } else {
            0
        }
    }

    /// All per-judgement views of one identifier, bundled so frame conditions
    /// can say "unchanged" in a single clause.
    pub open spec fn spec_judgement_same_at(pre: JudgePool, post: JudgePool, h: TaskHash) -> bool {
        &&& post.spec_has_judgement(h) == pre.spec_has_judgement(h)
        &&& post.spec_judgement_kind(h) == pre.spec_judgement_kind(h)
        &&& post.spec_votes(h) == pre.spec_votes(h)
        &&& post.spec_pledge_limit_of(h) == pre.spec_pledge_limit_of(h)
        &&& post.spec_sender_of(h) == pre.spec_sender_of(h)
        &&& post.spec_threshold_of(h) == pre.spec_threshold_of(h)
        &&& post.spec_pool_size_of(h) == pre.spec_pool_size_of(h)
    }

    /// In a well-formed pool the entry at any index is exactly what the
    /// per-judgement views report for its identifier.
    pub proof fn lemma_judgement_at(self, i: int)
        requires
            self.wf(),
            0 <= i < self.judges@.len(),
        ensures
            self.spec_has_judgement(self.judges@[i].0),
            self.spec_judgement_index(self.judges@[i].0) == i,
            self.spec_judgement_kind(self.judges@[i].0) == self.judges@[i].1.kind,
            self.spec_votes(self.judges@[i].0) == self.judges@[i].1.judges@,
            self.spec_pledge_limit_of(self.judges@[i].0) == self.judges@[i].1.pledge_limit,
            self.spec_sender_of(self.judges@[i].0) == self.judges@[i].1.sender,
            self.spec_threshold_of(self.judges@[i].0) == self.judges@[i].1.threshold,
            self.spec_pool_size_of(self.judges@[i].0) == self.judges@[i].1.pool_size,
    {
        let h = self.judges@[i].0;
        assert(self.spec_has_judgement(h));
        let j = self.spec_judgement_index(h);
        if i < j {
            assert(self.judges@[i].0 != self.judges@[j].0);
        } else if j < i {
            assert(self.judges@[j].0 != self.judges@[i].0);
        }
    }

    /// Two pools with the same judgement entries answer the same per-judgement
    /// views, whatever their other fields hold.
    pub proof fn lemma_views_from_judges(a: JudgePool, b: JudgePool, g: TaskHash)
        requires
            a.wf(),
            b.wf(),
            a.judges@ == b.judges@,
        ensures
            Self::spec_judgement_same_at(a, b, g),
    {
        if a.spec_has_judgement(g) {
            let j = choose|j: int| 0 <= j < a.judges@.len() && (#[trigger] a.judges@[j]).0 == g;
            assert(b.judges@[j].0 == g);
            assert(b.spec_has_judgement(g));
            a.lemma_judgement_at(j);
            b.lemma_judgement_at(j);
        }
        if b.spec_has_judgement(g) {
            let j = choose|j: int| 0 <= j < b.judges@.len() && (#[trigger] b.judges@[j]).0 == g;
            assert(a.judges@[j].0 == g);
            assert(a.spec_has_judgement(g));
        }
    }

    proof fn lemma_frame_update(pre: JudgePool, post: JudgePool, i: int, g: TaskHash)
        requires
            pre.wf(),
            post.wf(),
            0 <= i < pre.judges@.len(),
            post.judges@ == pre.judges@.update(i, post.judges@[i]),
            post.judges@[i].0 == pre.judges@[i].0,
            g != pre.judges@[i].0,
        ensures
            Self::spec_judgement_same_at(pre, post, g),
    {
        if pre.spec_has_judgement(g) {
            let j = choose|j: int| 0 <= j < pre.judges@.len() && (#[trigger] pre.judges@[j]).0 == g;
            assert(post.judges@[j].0 == g);
            assert(post.spec_has_judgement(g));
            pre.lemma_judgement_at(j);
            post.lemma_judgement_at(j);
        }
        if post.spec_has_judgement(g) {
            let j = choose|j: int| 0 <= j < post.judges@.len() && (#[trigger] post.judges@[j]).0 == g;
            assert(pre.judges@[j].0 == g);
            assert(pre.spec_has_judgement(g));
        }
    }

    proof fn lemma_frame_push(pre: JudgePool, post: JudgePool, g: TaskHash)
        requires
            pre.wf(),
            post.wf(),
            post.judges@ == pre.judges@.push(post.judges@.last()),
            g != post.judges@.last().0,
        ensures
            Self::spec_judgement_same_at(pre, post, g),
    {
        if pre.spec_has_judgement(g) {
            let j = choose|j: int| 0 <= j < pre.judges@.len() && (#[trigger] pre.judges@[j]).0 == g;
            assert(post.judges@[j].0 == g);
            assert(post.spec_has_judgement(g));
            pre.lemma_judgement_at(j);
            post.lemma_judgement_at(j);
        }
        if post.spec_has_judgement(g) {
            let j = choose|j: int| 0 <= j < post.judges@.len() && (#[trigger] post.judges@[j]).0 == g;
            assert(j < pre.judges@.len());
            assert(pre.judges@[j].0 == g);
        }
    }

    /// A pool configured by governance, with no judgements yet.
    pub fn new(judge_size: u32, threshold: u32) -> (r: JudgePool)
        ensures
            r.wf(),
            r.judge_size == judge_size,
            r.threshold == threshold,
            forall|h: TaskHash| !r.spec_has_judgement(h),
            forall|h: TaskHash| r.spec_judgement_kind(h) is UnCreated,
            forall|a: AccountId, h: TaskHash| r.pledge_pool.spec_amount(a, h) == 0,
            forall|h: TaskHash| !r.spec_has_cached(h),
    {
        JudgePool {
            judges: Vec::new(),
            judge_size,
            threshold,
            pledge_pool: EscrowPool::new(),
            judge_result: Vec::new(),
        }
    }

    fn find_judgement(&self, h: TaskHash) -> (r: Option<usize>)
        ensures
            match r {
                Some(i) => i < self.judges@.len() && self.judges@[i as int].0 == h,
                None => !self.spec_has_judgement(h),
            },
    {
        let mut i: usize = 0;
        while i < self.judges.len()
            invariant
                i <= self.judges@.len(),
                forall|j: int| 0 <= j < i ==> (#[trigger] self.judges@[j]).0 != h,
            decreases self.judges@.len() - i,
        {
            let e = &self.judges[i];
            if e.0.digest == h.digest && e.0.nonce == h.nonce {
                return Some(i);
            }
            i = i + 1;
        }
        None
    }

    /// Governance: set the committee size.
    pub fn change_judge_size(&mut self, size: u32)
        ensures
            final(self).judge_size == size,
            final(self).threshold == old(self).threshold,
            final(self).judges@ == old(self).judges@,
            final(self).pledge_pool == old(self).pledge_pool,
            final(self).judge_result@ == old(self).judge_result@,
    {
        self.judge_size = size;
    }

    /// Governance: set the reputation threshold for judges.
    pub fn change_judge_threshold(&mut self, threshold: u32)
        ensures
            final(self).threshold == threshold,
            final(self).judge_size == old(self).judge_size,
            final(self).judges@ == old(self).judges@,
            final(self).pledge_pool == old(self).pledge_pool,
            final(self).judge_result@ == old(self).judge_result@,
    {
        self.threshold = threshold;
    }

    /// Stores a judgement record under the identifier. A fresh identifier
    /// only accepts a Processing record; an existing record only moves
    /// forward in UnCreated < Processing < Done and is frozen once Done.
    pub fn save_judgement(&mut self, hash: TaskHash, judgement: &Judgement) -> (r: Result<
        (),
        Error,
    >)
        requires
            old(self).wf(),
            judgement.judges@.len() <= u32::MAX,
        ensures
            final(self).wf(),
            !old(self).spec_has_judgement(hash) ==> (r is Ok <==> judgement.kind is Processing),
            !old(self).spec_has_judgement(hash) && !(judgement.kind is Processing) ==> r
                == Err::<(), Error>(Error::JudgeKindInvalid),
            old(self).spec_has_judgement(hash) ==> {
                &&& (r is Ok <==> !(old(self).spec_judgement_kind(hash) is Done) && !(
                judgement.kind is UnCreated))
                &&& spec_judge_kind_ordinal(old(self).spec_judgement_kind(hash))
                    > spec_judge_kind_ordinal(judgement.kind) ==> r == Err::<(), Error>(
                    Error::JudgeKindInvalid,
                )
                &&& spec_judge_kind_ordinal(old(self).spec_judgement_kind(hash))
                    <= spec_judge_kind_ordinal(judgement.kind) && old(self).spec_judgement_kind(
                    hash,
                ) is Done ==> r == Err::<(), Error>(Error::JudgeAlreadyDone)
            },
            r is Err ==> *final(self) == *old(self),
            r is Ok ==> {
                &&& final(self).spec_has_judgement(hash)
                &&& final(self).spec_judgement_kind(hash) == judgement.kind
                &&& final(self).spec_votes(hash) == judgement.judges@
                &&& final(self).spec_pledge_limit_of(hash) == judgement.pledge_limit
                &&& final(self).spec_sender_of(hash) == judgement.sender
                &&& final(self).spec_threshold_of(hash) == judgement.threshold
                &&& final(self).spec_pool_size_of(hash) == judgement.pool_size
                &&& forall|g: TaskHash|
                    g != hash ==> Self::spec_judgement_same_at(*old(self), *final(self), g)
            },
            final(self).judge_size == old(self).judge_size,
            final(self).threshold == old(self).threshold,
            final(self).pledge_pool == old(self).pledge_pool,
            final(self).judge_result@ == old(self).judge_result@,
    {
        let ghost pre = *self;
        match self.find_judgement(hash) {
            Some(i) => {
                proof {
                    self.lemma_judgement_at(i as int);
                }
                let stored_kind = self.judges[i].1.kind;
                let stored_ord = judge_kind_ordinal(stored_kind);
                let new_ord = judge_kind_ordinal(judgement.kind);
                if stored_ord > new_ord {
                    return Err(Error::JudgeKindInvalid);
                }
                if matches!(stored_kind, JudgeKind::Done) {
                    return Err(Error::JudgeAlreadyDone);
                }
                let record = copy_judgement(judgement);
                self.judges.set(i, (hash, record));
                proof {
                    assert(self.wf());
                    self.lemma_judgement_at(i as int);
                    assert forall|g: TaskHash| g != hash implies Self::spec_judgement_same_at(
                        pre,
                        *self,
                        g,
                    ) by {
                        Self::lemma_frame_update(pre, *self, i as int, g);
                    }
                }
                Ok(())
            }
            None => {
                if !matches!(judgement.kind, JudgeKind::Processing) {
                    return Err(Error::JudgeKindInvalid);
                }
                let record = copy_judgement(judgement);
                self.judges.push((hash, record));
                proof {
                    assert forall|ii: int, jj: int| 0 <= ii < jj < self.judges@.len() implies (
                    #[trigger] self.judges@[ii]).0 != (#[trigger] self.judges@[jj]).0 by {
                        if jj == self.judges@.len() - 1 {
                            assert(self.judges@[ii] == pre.judges@[ii]);
                        }
                    }
                    assert(self.wf());
                    self.lemma_judgement_at(self.judges@.len() - 1);
                    assert forall|g: TaskHash| g != hash implies Self::spec_judgement_same_at(
                        pre,
                        *self,
                        g,
                    ) by {
                        Self::lemma_frame_push(pre, *self, g);
                    }
                }
                Ok(())
            }
        }
    }

    /// Opens arbitration for the identifier: a fresh Processing judgement
    /// with the configured committee size and threshold and the given pledge.
    /// Fails with `JudgeKindInvalid` when a judgement already exists.
    pub fn begin_judgement(
        &mut self,
        hash: TaskHash,
        sender: AccountId,
        pledge_limit: Balance,
        events: &mut Vec<Event>,
    ) -> (r: Result<(), Error>)
        requires
            old(self).wf(),
        ensures
            final(self).wf(),
            r is Ok <==> !old(self).spec_has_judgement(hash),
            r is Err ==> r == Err::<(), Error>(Error::JudgeKindInvalid) && *final(self) == *old(
                self,
            ) && *final(events) == *old(events),
            r is Ok ==> {
                &&& final(self).spec_has_judgement(hash)
                &&& final(self).spec_judgement_kind(hash) is Processing
                &&& final(self).spec_votes(hash) == Seq::<(AccountId, ResultKind)>::empty()
                &&& final(self).spec_pledge_limit_of(hash) == pledge_limit
                &&& final(self).spec_sender_of(hash) == sender
                &&& final(self).spec_threshold_of(hash) == old(self).threshold
                &&& final(self).spec_pool_size_of(hash) == old(self).judge_size
                &&& forall|g: TaskHash|
                    g != hash ==> Self::spec_judgement_same_at(*old(self), *final(self), g)
                &&& final(events)@ == old(events)@.push(Event::BeginJudge(sender, hash))
            },
            final(self).judge_size == old(self).judge_size,
            final(self).threshold == old(self).threshold,
            final(self).pledge_pool == old(self).pledge_pool,
            final(self).judge_result@ == old(self).judge_result@,
    {
        if self.find_judgement(hash).is_some() {
            return Err(Error::JudgeKindInvalid);
        }
        let mut judge = Judgement::default();
        judge.threshold = self.threshold;
        judge.pool_size = self.judge_size;
        judge.pledge_limit = pledge_limit;
        judge.sender = sender;
        let r = self.save_judgement(hash, &judge);
        proof {
            assert(r is Ok);
        }
        events.push(Event::BeginJudge(sender, hash));
        Ok(())
    }

    /// The judgement's progress; UnCreated when none exists.
    pub fn view_progress(&self, hash: TaskHash) -> (r: JudgeKind)
        requires
            self.wf(),
        ensures
            r == self.spec_judgement_kind(hash),
    {
        match self.find_judgement(hash) {
            Some(i) => {
                proof {
                    self.lemma_judgement_at(i as int);
                }
                self.judges[i].1.kind
            }
            None => JudgeKind::UnCreated,
        }
    }

    /// The majority of the votes recorded so far; `JudgementNotFound` when no
    /// judgement exists.
    pub fn view_result(&self, hash: TaskHash) -> (r: Result<ResultKind, Error>)
        requires
            self.wf(),
        ensures
            r is Ok <==> self.spec_has_judgement(hash),
            r is Ok ==> r == Ok::<ResultKind, Error>(spec_result_of(self.spec_votes(hash))),
            r is Err ==> r == Err::<ResultKind, Error>(Error::JudgementNotFound),
    {
        match self.find_judgement(hash) {
            Some(i) => {
                proof {
                    self.lemma_judgement_at(i as int);
                }
                Ok(self.judges[i].1.result())
            }
            None => Err(Error::JudgementNotFound),
        }
    }

    /// Eligibility of a judge for the dispute: reputation at or above the
    /// configured threshold, an existing judgement that is not Done yet and
    /// still has room in its own committee, and no earlier vote by the same
    /// judge. The bound is the judgement's own pool size, so a governance
    /// resize mid-dispute neither reopens a Done judgement nor strands one
    /// short of completion.
    pub open spec fn spec_verify_judge(
        self,
        reputation: ReputationStore,
        judge: AccountId,
        hash: TaskHash,
    ) -> bool {
        &&& reputation.spec_rep_of(judge) >= self.threshold
        &&& self.spec_has_judgement(hash)
        &&& !(self.spec_judgement_kind(hash) is Done)
        &&& self.spec_votes(hash).len() < self.spec_pool_size_of(hash)
        &&& !spec_has_voted(self.spec_votes(hash), judge)
    }

    pub fn verify_judge_for_hash(
        &self,
        reputation: &ReputationStore,
        judge: AccountId,
        hash: TaskHash,
    ) -> (r: bool)
        requires
            self.wf(),
            reputation.wf(),
        ensures
            r == self.spec_verify_judge(*reputation, judge, hash),
    {
        let rep = reputation.rep_of(judge);
        match self.find_judgement(hash) {
            Some(i) => {
                proof {
                    self.lemma_judgement_at(i as int);
                }
                let e = &self.judges[i];
                rep >= self.threshold && !matches!(e.1.kind, JudgeKind::Done) && e.1.judges.len()
                    < e.1.pool_size as usize && e.1.verify_repeat(judge)
            }
            None => false,
        }
    }

    /// Turns the raw numeric verdict into a vote: zero means ResultFalse,
    /// anything else ResultTrue.
    pub fn handler_result(result: u32) -> (r: ResultKind)
        ensures
            r == spec_handler_result(result),
    {
        if result == 0 {
            ResultKind::ResultFalse
        } else {
            ResultKind::ResultTrue
        }
    }

    /// Records the sender's vote on an existing judgement that is not Done
    /// and whose own committee still has room; a closed committee gives
    /// `JudgeSizeFull`, a repeat voter `JudgeRepeat`. A Done judgement is
    /// terminal: it never takes another vote.
    pub fn add_judge(&mut self, sender: AccountId, hash: TaskHash, result: u32) -> (r: Result<
        (),
        Error,
    >)
        requires
            old(self).wf(),
        ensures
            final(self).wf(),
            r is Ok <==> old(self).spec_has_judgement(hash) && !(old(self).spec_judgement_kind(
                hash,
            ) is Done) && old(self).spec_votes(hash).len() < old(self).spec_pool_size_of(hash)
                && !spec_has_voted(old(self).spec_votes(hash), sender),
            !old(self).spec_has_judgement(hash) ==> r == Err::<(), Error>(Error::JudgementNotFound),
            old(self).spec_has_judgement(hash) && (old(self).spec_judgement_kind(hash) is Done
                || old(self).spec_votes(hash).len() >= old(self).spec_pool_size_of(hash)) ==> r
                == Err::<(), Error>(Error::JudgeSizeFull),
            old(self).spec_has_judgement(hash) && !(old(self).spec_judgement_kind(hash) is Done)
                && old(self).spec_votes(hash).len() < old(self).spec_pool_size_of(hash)
                && spec_has_voted(old(self).spec_votes(hash), sender) ==> r == Err::<
                (),
                Error,
            >(Error::JudgeRepeat),
            r is Err ==> *final(self) == *old(self),
            r is Ok ==> {
                &&& final(self).spec_has_judgement(hash)
                &&& final(self).spec_votes(hash) == old(self).spec_votes(hash).push(
                    (sender, spec_handler_result(result)),
                )
                &&& final(self).spec_judgement_kind(hash) == (if old(self).spec_votes(hash).len()
                    + 1 == old(self).spec_pool_size_of(hash) {
                    JudgeKind::Done
                } else {
                    old(self).spec_judgement_kind(hash)
                })
                &&& final(self).spec_pledge_limit_of(hash) == old(self).spec_pledge_limit_of(hash)
                &&& final(self).spec_sender_of(hash) == old(self).spec_sender_of(hash)
                &&& final(self).spec_threshold_of(hash) == old(self).spec_threshold_of(hash)
                &&& final(self).spec_pool_size_of(hash) == old(self).spec_pool_size_of(hash)
                &&& forall|g: TaskHash|
                    g != hash ==> Self::spec_judgement_same_at(*old(self), *final(self), g)
            },
            final(self).judge_size == old(self).judge_size,
            final(self).threshold == old(self).threshold,
            final(self).pledge_pool == old(self).pledge_pool,
            final(self).judge_result@ == old(self).judge_result@,
    {
        let ghost pre = *self;
        match self.find_judgement(hash) {
            Some(i) => {
                proof {
                    self.lemma_judgement_at(i as int);
                }
                let vote_count = self.judges[i].1.judges.len();
                if matches!(self.judges[i].1.kind, JudgeKind::Done) || vote_count
                    >= self.judges[i].1.pool_size as usize {
                    return Err(Error::JudgeSizeFull);
                }
                let mut judgement = copy_judgement(&self.judges[i].1);
                let vote = Self::handler_result(result);
                match judgement.add_judge(sender, vote) {
                    Ok(()) => {
                        self.judges.set(i, (hash, judgement));
                        proof {
                            assert(self.wf());
                            self.lemma_judgement_at(i as int);
                            assert forall|g: TaskHash|
                                g != hash implies Self::spec_judgement_same_at(pre, *self, g) by {
                                Self::lemma_frame_update(pre, *self, i as int, g);
                            }
                        }
                        Ok(())
                    }
                    Err(e) => Err(e),
                }
            }
            None => Err(Error::JudgementNotFound),
        }
    }

    pub open spec fn spec_has_cached(self, h: TaskHash) -> bool {
        exists|i: int| 0 <= i < self.judge_result@.len() && (#[trigger] self.judge_result@[i]).0 == h
    }

    /// The cached final result; ResultFalse when nothing is cached yet.
    pub open spec fn spec_cached_of(self, h: TaskHash) -> ResultKind {
        if self.spec_has_cached(h) {
            let i = choose|i: int|
                0 <= i < self.judge_result@.len() && (#[trigger] self.judge_result@[i]).0 == h;
            self.judge_result@[i].1
        } else {
            ResultKind::ResultFalse
        }
    }

    pub proof fn lemma_cached_at(self, i: int)
        requires
            self.wf(),
            0 <= i < self.judge_result@.len(),
        ensures
            self.spec_has_cached(self.judge_result@[i].0),
            self.spec_cached_of(self.judge_result@[i].0) == self.judge_result@[i].1,
    {
        let h = self.judge_result@[i].0;
        assert(self.spec_has_cached(h));
        let j = choose|j: int|
            0 <= j < self.judge_result@.len() && (#[trigger] self.judge_result@[j]).0 == h;
        if i < j {
            assert(self.judge_result@[i].0 != self.judge_result@[j].0);
        } else if j < i {
            assert(self.judge_result@[j].0 != self.judge_result@[i].0);
        }
    }

    fn find_cached(&self, h: TaskHash) -> (r: Option<usize>)
        ensures
            match r {
                Some(i) => i < self.judge_result@.len() && self.judge_result@[i as int].0 == h,
                None => !self.spec_has_cached(h),
            },
    {
        let mut i: usize = 0;
        while i < self.judge_result.len()
            invariant
                i <= self.judge_result@.len(),
                forall|j: int| 0 <= j < i ==> (#[trigger] self.judge_result@[j]).0 != h,
            decreases self.judge_result@.len() - i,
        {
            let e = self.judge_result[i];
            if e.0.digest == h.digest && e.0.nonce == h.nonce {
                return Some(i);
            }
            i = i + 1;
        }
        None
    }

    /// The final, cached majority result of a Done judgement. The first call
    /// computes and caches the majority; every later call answers the cached
    /// value, so the answer never changes. A judgement that is not Done
    /// (or does not exist) gives `JudgeProcessing`.
    pub fn do_view_judgement_result(&mut self, hash: TaskHash) -> (r: Result<ResultKind, Error>)
        requires
            old(self).wf(),
        ensures
            final(self).wf(),
            r is Ok <==> old(self).spec_judgement_kind(hash) is Done,
            r is Err ==> r == Err::<ResultKind, Error>(Error::JudgeProcessing) && *final(self)
                == *old(self),
            r is Ok ==> {
                &&& r == Ok::<ResultKind, Error>(final(self).spec_cached_of(hash))
                &&& final(self).spec_has_cached(hash)
                &&& (old(self).spec_has_cached(hash) ==> final(self).spec_cached_of(hash) == old(
                    self,
                ).spec_cached_of(hash) && final(self).judge_result@ == old(self).judge_result@)
                &&& (!old(self).spec_has_cached(hash) ==> final(self).spec_cached_of(hash)
                    == spec_result_of(old(self).spec_votes(hash)))
                &&& forall|g: TaskHash|
                    g != hash ==> final(self).spec_has_cached(g) == old(self).spec_has_cached(g)
                        && final(self).spec_cached_of(g) == old(self).spec_cached_of(g)
            },
            final(self).judges@ == old(self).judges@,
            final(self).judge_size == old(self).judge_size,
            final(self).threshold == old(self).threshold,
            final(self).pledge_pool == old(self).pledge_pool,
    {
        let ghost pre = *self;
        let progress = self.view_progress(hash);
        if !matches!(progress, JudgeKind::Done) {
            return Err(Error::JudgeProcessing);
        }
        match self.find_cached(hash) {
            Some(i) => {
                proof {
                    self.lemma_cached_at(i as int);
                }
                Ok(self.judge_result[i].1)
            }
            None => {
                let result = match self.view_result(hash) {
                    Ok(v) => v,
                    Err(e) => {
                        return Err(e);
                    }
                };
                self.judge_result.push((hash, result));
                proof {
                    assert forall|ii: int, jj: int| 0 <= ii < jj < self.judge_result@.len() implies (
                    #[trigger] self.judge_result@[ii]).0 != (#[trigger] self.judge_result@[jj]).0 by {
                        if jj == self.judge_result@.len() - 1 {
                            assert(self.judge_result@[ii] == pre.judge_result@[ii]);
                        }
                    }
                    assert(self.wf());
                    self.lemma_cached_at(self.judge_result@.len() - 1);
                    assert forall|g: TaskHash| g != hash implies self.spec_has_cached(g)
                        == pre.spec_has_cached(g) && self.spec_cached_of(g) == pre.spec_cached_of(
                        g,
                    ) by {
                        if pre.spec_has_cached(g) {
                            let j = choose|j: int|
                                0 <= j < pre.judge_result@.len() && (
                                #[trigger] pre.judge_result@[j]).0 == g;
                            assert(self.judge_result@[j].0 == g);
                            assert(self.spec_has_cached(g));
                            pre.lemma_cached_at(j);
                            self.lemma_cached_at(j);
                        }
                        if self.spec_has_cached(g) {
                            let j = choose|j: int|
                                0 <= j < self.judge_result@.len() && (
                                #[trigger] self.judge_result@[j]).0 == g;
                            assert(j < pre.judge_result@.len());
                            assert(pre.judge_result@[j].0 == g);
                        }
                    }
                }
                Ok(result)
            }
        }
    }

    /// Records an eligible judge's staked vote: the judge's pledge is
    /// withdrawn into the pledge pool and the vote appended. Eligibility
    /// failures give `JudgeVerifyFaild`, except a closed committee — the
    /// judgement Done, or its own pool size reached — which gives
    /// `JudgeSizeFull`; a judge that cannot cover the pledge gives
    /// `InsufficientFunds`. Nothing changes on any failure.
    pub fn do_exec_judgement(
        &mut self,
        ledger: &mut Ledger,
        reputation: &ReputationStore,
        sender: AccountId,
        hash: TaskHash,
        result: u32,
    ) -> (r: Result<(), Error>)
        requires
            old(self).wf(),
            old(ledger).wf(),
            reputation.wf(),
        ensures
            final(self).wf(),
            final(ledger).wf(),
            r is Ok <==> {
                &&& old(self).spec_has_judgement(hash)
                &&& reputation.spec_rep_of(sender) >= old(self).threshold
                &&& !(old(self).spec_judgement_kind(hash) is Done)
                &&& old(self).spec_votes(hash).len() < old(self).spec_pool_size_of(hash)
                &&& !spec_has_voted(old(self).spec_votes(hash), sender)
                &&& old(ledger).spec_balance(sender) >= old(self).spec_pledge_limit_of(hash)
            },
            !(old(self).spec_has_judgement(hash) && reputation.spec_rep_of(sender) >= old(
                self,
            ).threshold) ==> r == Err::<(), Error>(Error::JudgeVerifyFaild),
            old(self).spec_has_judgement(hash) && reputation.spec_rep_of(sender) >= old(
                self,
            ).threshold && (old(self).spec_judgement_kind(hash) is Done || old(self).spec_votes(
                hash,
            ).len() >= old(self).spec_pool_size_of(hash)) ==> r == Err::<(), Error>(
                Error::JudgeSizeFull,
            ),
            old(self).spec_has_judgement(hash) && reputation.spec_rep_of(sender) >= old(
                self,
            ).threshold && !(old(self).spec_judgement_kind(hash) is Done) && old(self).spec_votes(
                hash,
            ).len() < old(self).spec_pool_size_of(hash) && spec_has_voted(
                old(self).spec_votes(hash),
                sender,
            ) ==> r == Err::<(), Error>(Error::JudgeVerifyFaild),
            old(self).spec_verify_judge(*reputation, sender, hash) && old(ledger).spec_balance(
                sender,
            ) < old(self).spec_pledge_limit_of(hash) ==> r == Err::<(), Error>(
                Error::InsufficientFunds,
            ),
            r is Err ==> *final(self) == *old(self) && *final(ledger) == *old(ledger),
            r is Ok ==> {
                &&& final(ledger).spec_balance(sender) == old(ledger).spec_balance(sender) - old(
                    self,
                ).spec_pledge_limit_of(hash)
                &&& forall|b: AccountId|
                    b != sender ==> final(ledger).spec_balance(b) == old(ledger).spec_balance(b)
                &&& forall|b: AccountId|
                    final(ledger).spec_has_account(b) == old(ledger).spec_has_account(b)
                &&& final(self).pledge_pool.spec_amount(sender, hash) == old(
                    self,
                ).spec_pledge_limit_of(hash)
                &&& forall|b: AccountId, g: TaskHash|
                    !(b == sender && g == hash) ==> final(self).pledge_pool.spec_amount(b, g)
                        == old(self).pledge_pool.spec_amount(b, g)
                &&& final(self).spec_votes(hash) == old(self).spec_votes(hash).push(
                    (sender, spec_handler_result(result)),
                )
                &&& final(self).spec_judgement_kind(hash) == (if old(self).spec_votes(hash).len()
                    + 1 == old(self).spec_pool_size_of(hash) {
                    JudgeKind::Done
                } else {
                    old(self).spec_judgement_kind(hash)
                })
                &&& final(self).spec_pledge_limit_of(hash) == old(self).spec_pledge_limit_of(hash)
                &&& final(self).spec_pool_size_of(hash) == old(self).spec_pool_size_of(hash)
                &&& forall|g: TaskHash|
                    g != hash ==> Self::spec_judgement_same_at(*old(self), *final(self), g)
            },
            final(self).judge_size == old(self).judge_size,
            final(self).threshold == old(self).threshold,
            final(self).judge_result@ == old(self).judge_result@,
    {
        let ghost entry_state = *self;
        let rep = reputation.rep_of(sender);
        let i = match self.find_judgement(hash) {
            Some(i) => i,
            None => {
                return Err(Error::JudgeVerifyFaild);
            }
        };
        proof {
            self.lemma_judgement_at(i as int);
        }
        if rep < self.threshold {
            return Err(Error::JudgeVerifyFaild);
        }
        if matches!(self.judges[i].1.kind, JudgeKind::Done) || self.judges[i].1.judges.len()
            >= self.judges[i].1.pool_size as usize {
            return Err(Error::JudgeSizeFull);
        }
        if !self.judges[i].1.verify_repeat(sender) {
            return Err(Error::JudgeVerifyFaild);
        }
        let pledge_limit = self.judges[i].1.pledge_limit;
        match ledger.withdraw(sender, pledge_limit) {
            Ok(()) => {}
            Err(e) => {
                return Err(e);
            }
        }
        self.pledge_pool.set(sender, hash, pledge_limit);
        let ghost staked_state = *self;
        proof {
            Self::lemma_views_from_judges(entry_state, staked_state, hash);
        }
        let r = self.add_judge(sender, hash, result);
        proof {
            assert(r is Ok);
            assert forall|g: TaskHash| g != hash implies Self::spec_judgement_same_at(
                entry_state,
                *self,
                g,
            ) by {
                Self::lemma_views_from_judges(entry_state, staked_state, g);
                assert(Self::spec_judgement_same_at(staked_state, *self, g));
            }
        }
        Ok(())
    }
}

/// Spec form of the raw-verdict conversion: zero is ResultFalse, anything
/// else ResultTrue.
pub open spec fn spec_handler_result(result: u32) -> ResultKind {
    if result == 0 {
        ResultKind::ResultFalse
    } else {
        ResultKind::ResultTrue
    }
}

/// Position of a judgement state, as executable code reads it.
pub fn judge_kind_ordinal(k: JudgeKind) -> (r: u8)
    ensures
        r == spec_judge_kind_ordinal(k),
{
    match k {
        JudgeKind::UnCreated => 0,
        JudgeKind::Processing => 1,
        JudgeKind::Done => 2,
    }
}

} // verus!
