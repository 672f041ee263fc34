//! The task board: the task store keyed by a monotonic index with a hash
//! lookup, one board per lifecycle state, the global nonce, and the two
//! escrow pools. Its well-formedness invariant carries the central claims:
//! task identifiers are unique, every stored history is a valid walk of the
//! state machine, and every task's identifier sits in exactly the board of
//! its current state.

use vstd::prelude::*;
use vstd::pervasive::VecAdditionalExecFns;
use vstd::seq_lib::*;

use crate::errors::Error;
use crate::escrow::EscrowPool;
use crate::hashing::{content_digest, spec_content_digest};
use crate::identity::IdentityRegistry;
use crate::judge_pool::{JudgePool, ResultKind};
use crate::ledger::Ledger;
use crate::reputation::ReputationStore;
use crate::types::{
    board_has, board_nodup, kind_ordinal, spec_kind_ordinal,
    spec_valid_transition, task_wf, valid_transition, AccountId, Balance, Board, Event,
    FundsExchange, Task, TaskHash, TaskKind,
};

verus! {

/// Rebuilds a vector of copyable elements, element by element.
fn copy_vec<T: Copy>(v: &Vec<T>) -> (r: Vec<T>)
    ensures
        r@ == v@,
{
    let mut out: Vec<T> = Vec::new();
    let mut i: usize = 0;
    while i < v.len()
        invariant
            i <= v@.len(),
            out@ == v@.take(i as int),
        decreases v@.len() - i,
    {
        out.push(v[i]);
        proof {
            assert(out@ =~= v@.take(i + 1));
        }
        i = i + 1;
    }
    proof {
        assert(v@.take(v@.len() as int) =~= v@);
    }
    out
}

/// Rebuilds a task record value, field by field.
pub fn clone_task(t: &Task) -> (r: Task)
    ensures
        crate::types::task_matches(r, *t),
{
    Task {
        hash: t.hash,
        issuer: t.issuer,
        receivers: copy_vec(&t.receivers),
        description: copy_vec(&t.description),
        judge_pay: t.judge_pay,
        pay: t.pay,
        min_rep: t.min_rep,
        kind: t.kind,
        history: copy_vec(&t.history),
        req_subjects: copy_vec(&t.req_subjects),
        delivery_certificate: t.delivery_certificate,
    }
}

/// Whether the account occurs in the list.
pub open spec fn spec_contains_account(s: Seq<AccountId>, a: AccountId) -> bool {
    exists|i: int| 0 <= i < s.len() && s[i] == a
}

/// Membership in a list extended by one element.
pub proof fn lemma_contains_push(s: Seq<AccountId>, e: AccountId, a: AccountId)
    ensures
        spec_contains_account(s.push(e), a) == (spec_contains_account(s, a) || e == a),
{
    if spec_contains_account(s, a) {
        let i = choose|i: int| 0 <= i < s.len() && s[i] == a;
        assert(s.push(e)[i] == a);
    }
    if e == a {
        assert(s.push(e)[s.len() as int] == a);
    }
    if spec_contains_account(s.push(e), a) {
        let i = choose|i: int| 0 <= i < s.push(e).len() && s.push(e)[i] == a;
        if i < s.len() {
            assert(s[i] == a);
        }
    }
}

fn contains_account(v: &Vec<AccountId>, a: AccountId) -> (r: bool)
    ensures
        r == spec_contains_account(v@, a),
{
    let mut i: usize = 0;
    while i < v.len()
        invariant
            i <= v@.len(),
            forall|j: int| 0 <= j < i ==> v@[j] != a,
        decreases v@.len() - i,
    {
        if v[i] == a {
            return true;
        }
        i = i + 1;
    }
    false
}

/// Whether the history records an Arbitration entry.
pub open spec fn spec_history_has_arbitration(h: Seq<(TaskKind, u64)>) -> bool {
    exists|i: int| 0 <= i < h.len() && (#[trigger] h[i]).0 is Arbitration
}

fn history_has_arbitration(v: &Vec<(TaskKind, u64)>) -> (r: bool)
    ensures
        r == spec_history_has_arbitration(v@),
{
    let mut i: usize = 0;
    while i < v.len()
        invariant
            i <= v@.len(),
            forall|j: int| 0 <= j < i ==> !((#[trigger] v@[j]).0 is Arbitration),
        decreases v@.len() - i,
    {
        if matches!(v[i].0, TaskKind::Arbitration) {
            return true;
        }
        i = i + 1;
    }
    false
}

/// The task board store.
pub struct TaskBoard {
    pub tasks: Vec<Task>,
    pub boards: Vec<Board>,
    pub nonce: u64,
    pub issuer_pay_pool: EscrowPool,
    pub staking_pay_pool: EscrowPool,
}

impl TaskBoard {
    /// The store's invariant apart from board synchronisation: unique,
    /// nonce-bounded identifiers, well-formed histories, teams present once a
    /// task left Published, well-shaped boards and well-formed pools.
    pub open spec fn store_wf(self) -> bool {
        &&& self.boards@.len() == 6
        &&& forall|b: int|
            0 <= b < 6 ==> spec_kind_ordinal((#[trigger] self.boards@[b]).task_kind) == b
        &&& forall|b: int| 0 <= b < 6 ==> board_nodup((#[trigger] self.boards@[b]).inner_board@)
        &&& forall|i: int| 0 <= i < self.tasks@.len() ==> task_wf(#[trigger] self.tasks@[i])
        &&& forall|i: int, j: int|
            0 <= i < j < self.tasks@.len() ==> (#[trigger] self.tasks@[i]).hash != (
            #[trigger] self.tasks@[j]).hash
        &&& forall|i: int|
            0 <= i < self.tasks@.len() ==> (#[trigger] self.tasks@[i]).hash.nonce < self.nonce
        &&& forall|i: int|
            0 <= i < self.tasks@.len() && !((#[trigger] self.tasks@[i]).kind is Published)
                ==> self.tasks@[i].receivers@.len() > 0
        &&& self.issuer_pay_pool.wf()
        &&& self.staking_pay_pool.wf()
    }

    /// Board synchronisation: every stored task's identifier is in the board
    /// of its current state and in no other, and every board entry belongs to
    /// a stored task.
    pub open spec fn boards_synced(self) -> bool {
        &&& forall|i: int|
            0 <= i < self.tasks@.len() ==> board_has(
                self.boards@[spec_kind_ordinal((#[trigger] self.tasks@[i]).kind) as int].inner_board@,
                self.tasks@[i].hash,
            )
        &&& forall|i: int, b: int|
            0 <= i < self.tasks@.len() && 0 <= b < 6 && b != spec_kind_ordinal(
                (#[trigger] self.tasks@[i]).kind,
            ) ==> !board_has((#[trigger] self.boards@[b]).inner_board@, self.tasks@[i].hash)
        &&& forall|b: int, k: int|
            0 <= b < 6 && 0 <= k < (#[trigger] self.boards@[b]).inner_board@.len()
                ==> self.spec_has_hash(#[trigger] self.boards@[b].inner_board@[k])
    }

    /// The full invariant every public lifecycle operation preserves.
    pub open spec fn wf(self) -> bool {
        self.store_wf() && self.boards_synced()
    }

    pub open spec fn spec_task_count(self) -> nat {
        self.tasks@.len()
    }

    pub open spec fn spec_has_hash(self, h: TaskHash) -> bool {
        exists|i: int| 0 <= i < self.tasks@.len() && (#[trigger] self.tasks@[i]).hash == h
    }

    pub open spec fn spec_index_of(self, h: TaskHash) -> int {
        choose|i: int| 0 <= i < self.tasks@.len() && (#[trigger] self.tasks@[i]).hash == h
    }

    pub open spec fn spec_kind_of(self, h: TaskHash) -> TaskKind {
        if self.spec_has_hash(h) {
            self.tasks@[self.spec_index_of(h)].kind
        } else {
            TaskKind::Published
        }
    }

    pub open spec fn spec_issuer_of(self, h: TaskHash) -> AccountId {
        if self.spec_has_hash(h) {
            self.tasks@[self.spec_index_of(h)].issuer
        } else {
            0
        }
    }

    pub open spec fn spec_receivers_of(self, h: TaskHash) -> Seq<AccountId> {
        if self.spec_has_hash(h) {
            self.tasks@[self.spec_index_of(h)].receivers@
        } else {
            Seq::empty()
        }
    }

    pub open spec fn spec_description_of(self, h: TaskHash) -> Seq<u8> {
        if self.spec_has_hash(h) {
            self.tasks@[self.spec_index_of(h)].description@
        } else {
            Seq::empty()
        }
    }

    pub open spec fn spec_pay_of(self, h: TaskHash) -> Balance {
        if self.spec_has_hash(h) {
            self.tasks@[self.spec_index_of(h)].pay
        } else {
            0
        }
    }

    pub open spec fn spec_judge_pay_of(self, h: TaskHash) -> Balance {
        if self.spec_has_hash(h) {
            self.tasks@[self.spec_index_of(h)].judge_pay
        } else {
            0
        }
    }

    pub open spec fn spec_min_rep_of(self, h: TaskHash) -> u32 {
        if self.spec_has_hash(h) {
            self.tasks@[self.spec_index_of(h)].min_rep
        } else {
            0
        }
    }

    pub open spec fn spec_history_of(self, h: TaskHash) -> Seq<(TaskKind, u64)> {
        if self.spec_has_hash(h) {
            self.tasks@[self.spec_index_of(h)].history@
        } else {
            Seq::empty()
        }
    }

    pub open spec fn spec_req_subjects_of(self, h: TaskHash) -> Seq<u32> {
        if self.spec_has_hash(h) {
            self.tasks@[self.spec_index_of(h)].req_subjects@
        } else {
            Seq::empty()
        }
    }

    pub open spec fn spec_cert_of(self, h: TaskHash) -> u64 {
        if self.spec_has_hash(h) {
            self.tasks@[self.spec_index_of(h)].delivery_certificate
        } else {
            0
        }
    }

    /// All per-task views of one identifier, bundled so frame conditions can
    /// say "unchanged" in a single clause.
    pub open spec fn spec_task_same_at(pre: TaskBoard, post: TaskBoard, h: TaskHash) -> bool {
        &&& post.spec_has_hash(h) == pre.spec_has_hash(h)
        &&& post.spec_kind_of(h) == pre.spec_kind_of(h)
        &&& post.spec_issuer_of(h) == pre.spec_issuer_of(h)
        &&& post.spec_receivers_of(h) == pre.spec_receivers_of(h)
        &&& post.spec_description_of(h) == pre.spec_description_of(h)
        &&& post.spec_pay_of(h) == pre.spec_pay_of(h)
        &&& post.spec_judge_pay_of(h) == pre.spec_judge_pay_of(h)
        &&& post.spec_min_rep_of(h) == pre.spec_min_rep_of(h)
        &&& post.spec_history_of(h) == pre.spec_history_of(h)
        &&& post.spec_req_subjects_of(h) == pre.spec_req_subjects_of(h)
        &&& post.spec_cert_of(h) == pre.spec_cert_of(h)
    }

    /// In a store with unique identifiers, the entry at any index is exactly
    /// what the per-task views report for its identifier.
    pub proof fn lemma_task_at(self, i: int)
        requires
            self.store_wf(),
            0 <= i < self.tasks@.len(),
        ensures
            self.spec_has_hash(self.tasks@[i].hash),
            self.spec_index_of(self.tasks@[i].hash) == i,
            self.spec_kind_of(self.tasks@[i].hash) == self.tasks@[i].kind,
            self.spec_issuer_of(self.tasks@[i].hash) == self.tasks@[i].issuer,
            self.spec_receivers_of(self.tasks@[i].hash) == self.tasks@[i].receivers@,
            self.spec_description_of(self.tasks@[i].hash) == self.tasks@[i].description@,
            self.spec_pay_of(self.tasks@[i].hash) == self.tasks@[i].pay,
            self.spec_judge_pay_of(self.tasks@[i].hash) == self.tasks@[i].judge_pay,
            self.spec_min_rep_of(self.tasks@[i].hash) == self.tasks@[i].min_rep,
            self.spec_history_of(self.tasks@[i].hash) == self.tasks@[i].history@,
            self.spec_req_subjects_of(self.tasks@[i].hash) == self.tasks@[i].req_subjects@,
            self.spec_cert_of(self.tasks@[i].hash) == self.tasks@[i].delivery_certificate,
    {
        let h = self.tasks@[i].hash;
        assert(self.spec_has_hash(h));
        let j = self.spec_index_of(h);
        if i < j {
            assert(self.tasks@[i].hash != self.tasks@[j].hash);
        } else if j < i {
            assert(self.tasks@[j].hash != self.tasks@[i].hash);
        }
    }

    /// Two stores with the same task entries answer the same per-task views,
    /// whatever their other fields hold.
    pub proof fn lemma_views_from_tasks(a: TaskBoard, b: TaskBoard, h: TaskHash)
        requires
            a.store_wf(),
            b.store_wf(),
            a.tasks@ == b.tasks@,
        ensures
            Self::spec_task_same_at(a, b, h),
    {
        if a.spec_has_hash(h) {
            let j = choose|j: int| 0 <= j < a.tasks@.len() && (#[trigger] a.tasks@[j]).hash == h;
            assert(b.tasks@[j].hash == h);
            assert(b.spec_has_hash(h));
            a.lemma_task_at(j);
            b.lemma_task_at(j);
        }
        if b.spec_has_hash(h) {
            let j = choose|j: int| 0 <= j < b.tasks@.len() && (#[trigger] b.tasks@[j]).hash == h;
            assert(a.tasks@[j].hash == h);
            assert(a.spec_has_hash(h));
        }
    }

    /// An empty store: no tasks, six empty boards, nonce zero, empty pools.
    pub fn new() -> (r: TaskBoard)
        ensures
            r.wf(),
            r.spec_task_count() == 0,
            r.nonce == 0,
            forall|h: TaskHash| !r.spec_has_hash(h),
            forall|a: AccountId, h: TaskHash| !r.issuer_pay_pool.spec_contains(a, h),
            forall|a: AccountId, h: TaskHash| !r.staking_pay_pool.spec_contains(a, h),
            forall|a: AccountId, h: TaskHash| r.issuer_pay_pool.spec_amount(a, h) == 0,
            forall|a: AccountId, h: TaskHash| r.staking_pay_pool.spec_amount(a, h) == 0,
    {
        let mut boards: Vec<Board> = Vec::new();
        boards.push(Board { inner_board: Vec::new(), task_kind: TaskKind::Published });
        boards.push(Board { inner_board: Vec::new(), task_kind: TaskKind::InDelivery });
        boards.push(Board { inner_board: Vec::new(), task_kind: TaskKind::Deliveryed });
        boards.push(Board { inner_board: Vec::new(), task_kind: TaskKind::Arbitration });
        boards.push(Board { inner_board: Vec::new(), task_kind: TaskKind::Failure });
        boards.push(Board { inner_board: Vec::new(), task_kind: TaskKind::Done });
        TaskBoard {
            tasks: Vec::new(),
            boards,
            nonce: 0,
            issuer_pay_pool: EscrowPool::new(),
            staking_pay_pool: EscrowPool::new(),
        }
    }

    fn find_task(&self, h: TaskHash) -> (r: Option<usize>)
        ensures
            match r {
                Some(i) => i < self.tasks@.len() && self.tasks@[i as int].hash == h,
                None => !self.spec_has_hash(h),
            },
    {
        let mut i: usize = 0;
        while i < self.tasks.len()
            invariant
                i <= self.tasks@.len(),
                forall|j: int| 0 <= j < i ==> (#[trigger] self.tasks@[j]).hash != h,
            decreases self.tasks@.len() - i,
        {
            let e = &self.tasks[i];
            if e.hash.digest == h.digest && e.hash.nonce == h.nonce {
                return Some(i);
            }
            i = i + 1;
        }
        None
    }

    /// The board registry holding the tasks of one state.
    pub fn load_board(&self, kind: TaskKind) -> (r: &Board)
        requires
            self.wf(),
        ensures
            r.task_kind == kind,
            r.inner_board@ == self.boards@[spec_kind_ordinal(kind) as int].inner_board@,
    {
        let b = kind_ordinal(kind) as usize;
        proof {
            assert(spec_kind_ordinal(self.boards@[b as int].task_kind) == b as int);
            assert(self.boards@[b as int].task_kind == kind);
        }
        &self.boards[b]
    }

    fn board_find(&self, b: usize, h: TaskHash) -> (r: Option<usize>)
        requires
            b < self.boards@.len(),
        ensures
            match r {
                Some(k) => k < self.boards@[b as int].inner_board@.len()
                    && self.boards@[b as int].inner_board@[k as int] == h,
                None => !board_has(self.boards@[b as int].inner_board@, h),
            },
    {
        let board = &self.boards[b];
        let mut i: usize = 0;
        while i < board.inner_board.len()
            invariant
                i <= board.inner_board@.len(),
                board.inner_board@ == self.boards@[b as int].inner_board@,
                forall|j: int| 0 <= j < i ==> board.inner_board@[j] != h,
            decreases board.inner_board@.len() - i,
        {
            let e = board.inner_board[i];
            if e.digest == h.digest && e.nonce == h.nonce {
                return Some(i);
            }
            i = i + 1;
        }
        None
    }

    /// Appends the identifier to board `b`; everything else is untouched.
    fn board_insert(&mut self, b: usize, h: TaskHash)
        requires
            b < old(self).boards@.len(),
        ensures
            final(self).boards@.len() == old(self).boards@.len(),
            final(self).boards@[b as int].task_kind == old(self).boards@[b as int].task_kind,
            final(self).boards@[b as int].inner_board@ == old(self).boards@[
                b as int
            ].inner_board@.push(h),
            forall|c: int|
                0 <= c < old(self).boards@.len() && c != b ==> final(self).boards@[c] == old(self).boards@[c],
            final(self).tasks@ == old(self).tasks@,
            final(self).nonce == old(self).nonce,
            final(self).issuer_pay_pool == old(self).issuer_pay_pool,
            final(self).staking_pay_pool == old(self).staking_pay_pool,
    {
        let board = &self.boards[b];
        let mut inner = copy_vec(&board.inner_board);
        inner.push(h);
        let kind = board.task_kind;
        self.boards.set(b, Board { inner_board: inner, task_kind: kind });
    }

    /// Removes the identifier from board `b`, which must hold it exactly
    /// once; everything else is untouched.
    fn board_remove(&mut self, b: usize, h: TaskHash)
        requires
            b < old(self).boards@.len(),
            board_nodup(old(self).boards@[b as int].inner_board@),
            board_has(old(self).boards@[b as int].inner_board@, h),
        ensures
            final(self).boards@.len() == old(self).boards@.len(),
            final(self).boards@[b as int].task_kind == old(self).boards@[b as int].task_kind,
            !board_has(final(self).boards@[b as int].inner_board@, h),
            board_nodup(final(self).boards@[b as int].inner_board@),
            forall|x: TaskHash|
                x != h ==> board_has(final(self).boards@[b as int].inner_board@, x) == board_has(
                    old(self).boards@[b as int].inner_board@,
                    x,
                ),
            final(self).boards@[b as int].inner_board@.len() == old(self).boards@[
                b as int
            ].inner_board@.len() - 1,
            forall|c: int|
                0 <= c < old(self).boards@.len() && c != b ==> final(self).boards@[c] == old(self).boards@[c],
            final(self).tasks@ == old(self).tasks@,
            final(self).nonce == old(self).nonce,
            final(self).issuer_pay_pool == old(self).issuer_pay_pool,
            final(self).staking_pay_pool == old(self).staking_pay_pool,
    {
        let k = match self.board_find(b, h) {
            Some(k) => k,
            None => {
                proof {
                    assert(false);
                }
                0
            }
        };
        let board = &self.boards[b];
        let ghost pre_inner = board.inner_board@;
        let mut inner = copy_vec(&board.inner_board);
        inner.remove(k);
        let kind = board.task_kind;
        self.boards.set(b, Board { inner_board: inner, task_kind: kind });
        proof {
            pre_inner.remove_ensures(k as int);
            let post_inner = self.boards@[b as int].inner_board@;
            assert forall|ii: int, jj: int| 0 <= ii < jj < post_inner.len() implies post_inner[ii]
                != post_inner[jj] by {
                let pi = if ii < k as int { ii } else { ii + 1 };
                let pj = if jj < k as int { jj } else { jj + 1 };
                assert(post_inner[ii] == pre_inner[pi]);
                assert(post_inner[jj] == pre_inner[pj]);
            }
            assert forall|j: int| 0 <= j < post_inner.len() implies post_inner[j] != h by {
                let pj = if j < k as int { j } else { j + 1 };
                assert(post_inner[j] == pre_inner[pj]);
                if pj != k as int {
                    if pj < k as int {
                        assert(pre_inner[pj] != pre_inner[k as int]);
                    } else {
                        assert(pre_inner[k as int] != pre_inner[pj]);
                    }
                }
            }
            assert forall|x: TaskHash| x != h implies board_has(post_inner, x) == board_has(
                pre_inner,
                x,
            ) by {
                if board_has(pre_inner, x) {
                    let j = choose|j: int| 0 <= j < pre_inner.len() && pre_inner[j] == x;
                    let j2 = if j < k as int { j } else { j - 1 };
                    assert(post_inner[j2] == pre_inner[j]);
                    assert(board_has(post_inner, x));
                }
                if board_has(post_inner, x) {
                    let j = choose|j: int| 0 <= j < post_inner.len() && post_inner[j] == x;
                    let pj = if j < k as int { j } else { j + 1 };
                    assert(pre_inner[pj] == post_inner[j]);
                    assert(board_has(pre_inner, x));
                }
            }
        }
    }

    /// Loads a copy of the task stored under the identifier; an identifier
    /// the store does not know fails with `TaskNotFoundAtIndex`.
    pub fn query_task_by_hash(&self, hash: TaskHash) -> (r: Result<Task, Error>)
        requires
            self.store_wf(),
        ensures
            r is Ok <==> self.spec_has_hash(hash),
            r is Err ==> r == Err::<Task, Error>(Error::TaskNotFoundAtIndex),
            r is Ok ==> {
                &&& r->Ok_0.hash == hash
                &&& r->Ok_0.kind == self.spec_kind_of(hash)
                &&& r->Ok_0.issuer == self.spec_issuer_of(hash)
                &&& r->Ok_0.receivers@ == self.spec_receivers_of(hash)
                &&& r->Ok_0.description@ == self.spec_description_of(hash)
                &&& r->Ok_0.pay == self.spec_pay_of(hash)
                &&& r->Ok_0.judge_pay == self.spec_judge_pay_of(hash)
                &&& r->Ok_0.min_rep == self.spec_min_rep_of(hash)
                &&& r->Ok_0.history@ == self.spec_history_of(hash)
                &&& r->Ok_0.req_subjects@ == self.spec_req_subjects_of(hash)
                &&& r->Ok_0.delivery_certificate == self.spec_cert_of(hash)
                &&& task_wf(r->Ok_0)
            },
    {
        match self.find_task(hash) {
            Some(i) => {
                proof {
                    self.lemma_task_at(i as int);
                }
                Ok(clone_task(&self.tasks[i]))
            }
            None => Err(Error::TaskNotFoundAtIndex),
        }
    }

    /// Derives the content-addressed, nonce-salted identifier for a task and
    /// advances the global nonce, so that no two calls ever answer the same
    /// identifier.
    pub fn task_hash(&mut self, task: &Task) -> (r: TaskHash)
        requires
            old(self).nonce < u64::MAX,
            task.description@.len() <= u32::MAX,
            task.req_subjects@.len() <= u32::MAX,
        ensures
            r.digest == spec_content_digest(
                task.description@,
                task.min_rep,
                task.pay,
                task.judge_pay,
                task.req_subjects@,
                old(self).nonce,
            ),
            r.nonce == old(self).nonce,
            final(self).nonce == old(self).nonce + 1,
            final(self).tasks@ == old(self).tasks@,
            final(self).boards@ == old(self).boards@,
            final(self).issuer_pay_pool == old(self).issuer_pay_pool,
            final(self).staking_pay_pool == old(self).staking_pay_pool,
    {
        let nonce = self.nonce;
        let digest = content_digest(
            &task.description,
            task.min_rep,
            task.pay,
            task.judge_pay,
            &task.req_subjects,
            nonce,
        );
        self.nonce = self.nonce + 1;
        TaskHash { digest, nonce }
    }

    /// Whether the account is the task's issuer or one of its receivers.
    pub fn is_task_participant(task: &Task, player: AccountId) -> (r: bool)
        ensures
            r == (task.issuer == player || spec_contains_account(task.receivers@, player)),
    {
        task.issuer == player || contains_account(&task.receivers, player)
    }

    /// Eligibility of a candidate for a task: a credential for every required
    /// subject, reputation at or above the task's floor, and not being the
    /// issuer.
    pub open spec fn spec_verify_claim(
        identity: IdentityRegistry,
        reputation: ReputationStore,
        task: Task,
        player: AccountId,
    ) -> bool {
        &&& forall|s: int|
            0 <= s < task.req_subjects@.len() ==> identity.spec_has_credential(
                player,
                #[trigger] task.req_subjects@[s],
            )
        &&& reputation.spec_rep_of(player) >= task.min_rep
        &&& task.issuer != player
    }

    pub fn verify_claim(
        identity: &IdentityRegistry,
        reputation: &ReputationStore,
        task: &Task,
        player: AccountId,
    ) -> (r: bool)
        requires
            reputation.wf(),
        ensures
            r == Self::spec_verify_claim(*identity, *reputation, *task, player),
    {
        let mut i: usize = 0;
        while i < task.req_subjects.len()
            invariant
                i <= task.req_subjects@.len(),
                forall|s: int|
                    0 <= s < i ==> identity.spec_has_credential(
                        player,
                        #[trigger] task.req_subjects@[s],
                    ),
            decreases task.req_subjects@.len() - i,
        {
            if !identity.check_credential(player, task.req_subjects[i]) {
                return false;
            }
            i = i + 1;
        }
        reputation.rep_of(player) >= task.min_rep && task.issuer != player
    }
}

/// The per-receiver quotient of an even split of the pool.
pub open spec fn spec_even_share(pool: u64, n: nat) -> int {
    pool as int / n as int
}

/// The amount the receiver at position `j` is paid when the pool is split
/// over `n` receivers: the even quotient, except that the last receiver
/// absorbs the remainder.
pub open spec fn spec_share(pool: u64, n: nat, j: int) -> int {
    if j == n - 1 {
        pool - spec_even_share(pool, n) * (n - 1)
    } else {
        spec_even_share(pool, n)
    }
}

/// The reward split distributes the whole pool with zero remainder: the even
/// shares of the first `n - 1` receivers and the last receiver's share add up
/// to exactly the pool.
pub proof fn lemma_reward_distributes_fully(pool: u64, n: nat)
    requires
        n >= 1,
    ensures
        spec_even_share(pool, n) * (n - 1) + spec_share(pool, n, n - 1 as int) == pool,
        0 <= spec_even_share(pool, n),
        spec_even_share(pool, n) * (n - 1) <= pool,
        spec_even_share(pool, n) * (n as int) <= pool,
{
    let q = spec_even_share(pool, n);
    let d = n as int;
    vstd::arithmetic::div_mod::lemma_fundamental_div_mod(pool as int, d);
    vstd::arithmetic::div_mod::lemma_mod_bound(pool as int, d);
    let r = pool as int % d;
    assert(pool == d * q + r);
    assert(q >= 0) by (nonlinear_arith)
        requires
            d * q == pool - r,
            pool >= 0,
            0 <= r < d,
            d >= 1,
    ;
    assert(q * d == d * q) by (nonlinear_arith);
    assert(q * (d - 1) == q * d - q) by (nonlinear_arith);
}

impl TaskBoard {
    /// The escrow effect of publication: the issuer's balance drops by both
    /// amounts, the payment pool holds the payment and the staking pool the
    /// arbitration deposit, both keyed by issuer and task; everything else is
    /// untouched.
    pub open spec fn issuer_pay_effect(
        pre_ip: EscrowPool,
        pre_sp: EscrowPool,
        pre_led: Ledger,
        post_ip: EscrowPool,
        post_sp: EscrowPool,
        post_led: Ledger,
        issuer: AccountId,
        h: TaskHash,
        pay: Balance,
        judge_pay: Balance,
    ) -> bool {
        &&& post_led.spec_balance(issuer) == pre_led.spec_balance(issuer) - pay - judge_pay
        &&& forall|b: AccountId|
            #![trigger pre_led.spec_balance(b)]
            #![trigger post_led.spec_balance(b)]
            b != issuer ==> post_led.spec_balance(b) == pre_led.spec_balance(b)
        &&& forall|b: AccountId|
            #![trigger pre_led.spec_has_account(b)]
            #![trigger post_led.spec_has_account(b)]
            post_led.spec_has_account(b) == pre_led.spec_has_account(b)
        &&& post_ip.spec_amount(issuer, h) == pay
        &&& post_ip.spec_contains(issuer, h)
        &&& forall|b: AccountId, g: TaskHash|
            #![trigger pre_ip.spec_amount(b, g)]
            #![trigger post_ip.spec_amount(b, g)]
            !(b == issuer && g == h) ==> post_ip.spec_amount(b, g) == pre_ip.spec_amount(b, g)
                && post_ip.spec_contains(b, g) == pre_ip.spec_contains(b, g)
        &&& post_sp.spec_amount(issuer, h) == judge_pay
        &&& post_sp.spec_contains(issuer, h)
        &&& forall|b: AccountId, g: TaskHash|
            #![trigger pre_sp.spec_amount(b, g)]
            #![trigger post_sp.spec_amount(b, g)]
            !(b == issuer && g == h) ==> post_sp.spec_amount(b, g) == pre_sp.spec_amount(b, g)
                && post_sp.spec_contains(b, g) == pre_sp.spec_contains(b, g)
    }

    /// Escrows the issuer's payment and arbitration deposit at publication:
    /// both are withdrawn from the issuer and held in the two pools, keyed by
    /// issuer and task. All or nothing: an issuer that cannot cover both
    /// amounts fails with `InsufficientFunds` and nothing moves.
    pub fn issuer_pay(&mut self, ledger: &mut Ledger, task: &Task) -> (r: Result<(), Error>)
        requires
            old(self).issuer_pay_pool.wf(),
            old(self).staking_pay_pool.wf(),
            old(ledger).wf(),
        ensures
            final(self).issuer_pay_pool.wf(),
            final(self).staking_pay_pool.wf(),
            final(ledger).wf(),
            r is Ok <==> old(ledger).spec_balance(task.issuer) >= task.pay + task.judge_pay,
            r is Err ==> r == Err::<(), Error>(Error::InsufficientFunds) && *final(self) == *old(self) && *final(ledger) == *old(ledger),
            r is Ok ==> Self::issuer_pay_effect(
                old(self).issuer_pay_pool,
                old(self).staking_pay_pool,
                *old(ledger),
                final(self).issuer_pay_pool,
                final(self).staking_pay_pool,
                *final(ledger),
                task.issuer,
                task.hash,
                task.pay,
                task.judge_pay,
            ),
            final(self).tasks@ == old(self).tasks@,
            final(self).boards@ == old(self).boards@,
            final(self).nonce == old(self).nonce,
    {
        let bal = ledger.balance_of(task.issuer);
        if bal < task.pay || bal - task.pay < task.judge_pay {
            return Err(Error::InsufficientFunds);
        }
        let r1 = ledger.withdraw(task.issuer, task.pay);
        proof {
            assert(r1 is Ok);
        }
        self.issuer_pay_pool.set(task.issuer, task.hash, task.pay);
        let r2 = ledger.withdraw(task.issuer, task.judge_pay);
        proof {
            assert(r2 is Ok);
        }
        self.staking_pay_pool.set(task.issuer, task.hash, task.judge_pay);
        Ok(())
    }

    /// The staking effect of one claim over a set of receivers: every
    /// receiver without a pool entry for the task stakes the deposit (its
    /// balance drops by the deposit and its pool entry holds the deposit);
    /// every other account and every other task's pool entries are untouched,
    /// and no ledger account appears or disappears.
    pub open spec fn staking_effect(
        pre_pool: EscrowPool,
        pre_led: Ledger,
        post_pool: EscrowPool,
        post_led: Ledger,
        recvs: Seq<AccountId>,
        h: TaskHash,
        judge_pay: Balance,
    ) -> bool {
        &&& forall|a: AccountId|
            #![trigger pre_led.spec_balance(a)]
            #![trigger pre_pool.spec_amount(a, h)]
            #![trigger post_led.spec_balance(a)]
            #![trigger post_pool.spec_amount(a, h)]
            spec_contains_account(recvs, a) && !pre_pool.spec_contains(a, h)
                ==> post_pool.spec_amount(a, h) == judge_pay && post_led.spec_balance(a)
                == pre_led.spec_balance(a) - judge_pay
        &&& forall|a: AccountId|
            #![trigger pre_led.spec_balance(a)]
            #![trigger pre_pool.spec_amount(a, h)]
            #![trigger post_led.spec_balance(a)]
            #![trigger post_pool.spec_amount(a, h)]
            !(spec_contains_account(recvs, a) && !pre_pool.spec_contains(a, h))
                ==> post_pool.spec_amount(a, h) == pre_pool.spec_amount(a, h)
                && post_led.spec_balance(a) == pre_led.spec_balance(a)
        &&& forall|a: AccountId|
            #![trigger pre_pool.spec_contains(a, h)]
            #![trigger post_pool.spec_contains(a, h)]
            post_pool.spec_contains(a, h) == (pre_pool.spec_contains(a, h)
                || spec_contains_account(recvs, a))
        &&& forall|a: AccountId, g: TaskHash|
            #![trigger pre_pool.spec_amount(a, g)]
            #![trigger post_pool.spec_amount(a, g)]
            g != h ==> post_pool.spec_amount(a, g) == pre_pool.spec_amount(a, g)
                && post_pool.spec_contains(a, g) == pre_pool.spec_contains(a, g)
        &&& forall|b: AccountId|
            #![trigger pre_led.spec_has_account(b)]
            #![trigger post_led.spec_has_account(b)]
            post_led.spec_has_account(b) == pre_led.spec_has_account(b)
    }

    /// Each receiver stakes the task's arbitration deposit into its own
    /// pool, at most once: a receiver that holds a pool entry for the task
    /// keeps it unchanged, so repeating the operation takes nothing more.
    /// All or nothing: if any receiver still to stake cannot cover the
    /// deposit, the whole operation fails with `InsufficientFunds` and
    /// nothing moves.
    pub fn recv_staking(&mut self, ledger: &mut Ledger, task: &Task) -> (r: Result<(), Error>)
        requires
            old(self).issuer_pay_pool.wf(),
            old(self).staking_pay_pool.wf(),
            old(ledger).wf(),
        ensures
            final(self).issuer_pay_pool.wf(),
            final(self).staking_pay_pool.wf(),
            final(ledger).wf(),
            r is Ok <==> forall|j: int|
                0 <= j < task.receivers@.len() ==> old(self).staking_pay_pool.spec_contains(
                    #[trigger] task.receivers@[j],
                    task.hash,
                ) || old(ledger).spec_balance(task.receivers@[j]) >= task.judge_pay,
            r is Err ==> r == Err::<(), Error>(Error::InsufficientFunds) && *final(self) == *old(self) && *final(ledger) == *old(ledger),
            r is Ok ==> Self::staking_effect(
                old(self).staking_pay_pool,
                *old(ledger),
                final(self).staking_pay_pool,
                *final(ledger),
                task.receivers@,
                task.hash,
                task.judge_pay,
            ),
            final(self).issuer_pay_pool == old(self).issuer_pay_pool,
            final(self).tasks@ == old(self).tasks@,
            final(self).boards@ == old(self).boards@,
            final(self).nonce == old(self).nonce,
    {
        let ghost pre_self = *old(self);
        let ghost pre_ledger = *old(ledger);
        // All or nothing: confirm every receiver still to stake can cover the
        // deposit before anything moves.
        let mut i: usize = 0;
        while i < task.receivers.len()
            invariant
                i <= task.receivers@.len(),
                *self == pre_self,
                *ledger == pre_ledger,
                pre_self == *old(self),
                pre_ledger == *old(ledger),
                pre_self.issuer_pay_pool.wf(),
                pre_self.staking_pay_pool.wf(),
                pre_ledger.wf(),
                forall|j: int|
                    0 <= j < i ==> pre_self.staking_pay_pool.spec_contains(
                        #[trigger] task.receivers@[j],
                        task.hash,
                    ) || pre_ledger.spec_balance(task.receivers@[j]) >= task.judge_pay,
            decreases task.receivers@.len() - i,
        {
            let a = task.receivers[i];
            if !self.staking_pay_pool.contains(a, task.hash) && ledger.balance_of(a)
                < task.judge_pay {
                return Err(Error::InsufficientFunds);
            }
            i = i + 1;
        }
        // Commit: stake each receiver that has no entry yet.
        let mut i: usize = 0;
        while i < task.receivers.len()
            invariant
                i <= task.receivers@.len(),
                pre_self == *old(self),
                pre_ledger == *old(ledger),
                self.issuer_pay_pool == pre_self.issuer_pay_pool,
                self.issuer_pay_pool.wf(),
                self.staking_pay_pool.wf(),
                ledger.wf(),
                self.tasks@ == pre_self.tasks@,
                self.boards@ == pre_self.boards@,
                self.nonce == pre_self.nonce,
                pre_self.staking_pay_pool.wf(),
                pre_ledger.wf(),
                forall|j: int|
                    0 <= j < task.receivers@.len() ==> pre_self.staking_pay_pool.spec_contains(
                        #[trigger] task.receivers@[j],
                        task.hash,
                    ) || pre_ledger.spec_balance(task.receivers@[j]) >= task.judge_pay,
                Self::staking_effect(
                    pre_self.staking_pay_pool,
                    pre_ledger,
                    self.staking_pay_pool,
                    *ledger,
                    task.receivers@.take(i as int),
                    task.hash,
                    task.judge_pay,
                ),
            decreases task.receivers@.len() - i,
        {
            let a = task.receivers[i];
            let ghost iter_self = *self;
            let ghost iter_ledger = *ledger;
            proof {
                assert(task.receivers@.take(i + 1) =~= task.receivers@.take(i as int).push(
                    task.receivers@[i as int],
                ));
            }
            if !self.staking_pay_pool.contains(a, task.hash) {
                let rw = ledger.withdraw(a, task.judge_pay);
                proof {
                    assert(rw is Ok);
                }
                self.staking_pay_pool.set(a, task.hash, task.judge_pay);
            }
            proof {
                let taken = task.receivers@.take(i as int);
                assert(Self::staking_effect(
                    pre_self.staking_pay_pool,
                    pre_ledger,
                    self.staking_pay_pool,
                    *ledger,
                    task.receivers@.take(i + 1),
                    task.hash,
                    task.judge_pay,
                )) by {
                    assert forall|x: AccountId|
                        #![trigger pre_ledger.spec_balance(x)]
                        #![trigger pre_self.staking_pay_pool.spec_amount(x, task.hash)]
                        spec_contains_account(task.receivers@.take(i + 1), x)
                            && !pre_self.staking_pay_pool.spec_contains(x, task.hash) implies self
                        .staking_pay_pool.spec_amount(x, task.hash) == task.judge_pay && ledger
                        .spec_balance(x) == pre_ledger.spec_balance(x) - task.judge_pay by {
                        lemma_contains_push(taken, a, x);
                        if spec_contains_account(taken, x) {
                            assert(iter_self.staking_pay_pool.spec_amount(x, task.hash)
                                == task.judge_pay && iter_ledger.spec_balance(x)
                                == pre_ledger.spec_balance(x) - task.judge_pay);
                        } else {
                            assert(iter_ledger.spec_balance(x) == pre_ledger.spec_balance(x));
                            assert(iter_self.staking_pay_pool.spec_amount(x, task.hash)
                                == pre_self.staking_pay_pool.spec_amount(x, task.hash));
                        }
                    }
                    assert forall|x: AccountId|
                        #![trigger pre_ledger.spec_balance(x)]
                        #![trigger pre_self.staking_pay_pool.spec_amount(x, task.hash)]
                        !(spec_contains_account(task.receivers@.take(i + 1), x)
                            && !pre_self.staking_pay_pool.spec_contains(x, task.hash)) implies self
                        .staking_pay_pool.spec_amount(x, task.hash)
                        == pre_self.staking_pay_pool.spec_amount(x, task.hash) && ledger
                        .spec_balance(x) == pre_ledger.spec_balance(x) by {
                        lemma_contains_push(taken, a, x);
                        assert(iter_ledger.spec_balance(x) == pre_ledger.spec_balance(x));
                        assert(iter_self.staking_pay_pool.spec_amount(x, task.hash)
                            == pre_self.staking_pay_pool.spec_amount(x, task.hash));
                    }
                    assert forall|x: AccountId|
                        #![trigger pre_self.staking_pay_pool.spec_contains(x, task.hash)]
                        self.staking_pay_pool.spec_contains(x, task.hash) == (
                        pre_self.staking_pay_pool.spec_contains(x, task.hash)
                            || spec_contains_account(task.receivers@.take(i + 1), x)) by {
                        lemma_contains_push(taken, a, x);
                        assert(iter_self.staking_pay_pool.spec_contains(x, task.hash) == (
                        pre_self.staking_pay_pool.spec_contains(x, task.hash)
                            || spec_contains_account(taken, x)));
                    }
                    assert forall|x: AccountId, g: TaskHash| g != task.hash implies self
                        .staking_pay_pool.spec_amount(x, g)
                        == pre_self.staking_pay_pool.spec_amount(x, g) && self
                        .staking_pay_pool.spec_contains(x, g)
                        == pre_self.staking_pay_pool.spec_contains(x, g) by {
                        assert(iter_self.staking_pay_pool.spec_amount(x, g)
                            == pre_self.staking_pay_pool.spec_amount(x, g));
                        assert(iter_self.staking_pay_pool.spec_contains(x, g)
                            == pre_self.staking_pay_pool.spec_contains(x, g));
                    }
                    assert forall|b: AccountId| ledger.spec_has_account(b)
                        == pre_ledger.spec_has_account(b) by {
                        assert(iter_ledger.spec_has_account(b) == pre_ledger.spec_has_account(b));
                    }
                }
            }
            i = i + 1;
        }
        proof {
            assert(task.receivers@.take(task.receivers@.len() as int) =~= task.receivers@);
        }
        Ok(())
    }

    /// Refunds the issuer's escrowed payment in full and zeroes that pool.
    pub fn issuer_back_pay(&mut self, ledger: &mut Ledger, task: &Task) -> (r: Result<(), Error>)
        requires
            old(self).issuer_pay_pool.wf(),
            old(ledger).wf(),
        ensures
            final(self).issuer_pay_pool.wf(),
            final(ledger).wf(),
            r is Ok <==> old(ledger).spec_has_account(task.issuer) && old(ledger).spec_balance(
                task.issuer,
            ) + old(self).issuer_pay_pool.spec_amount(task.issuer, task.hash) <= u64::MAX,
            !old(ledger).spec_has_account(task.issuer) ==> r == Err::<(), Error>(
                Error::AccountMissing,
            ),
            old(ledger).spec_has_account(task.issuer) && old(ledger).spec_balance(task.issuer)
                + old(self).issuer_pay_pool.spec_amount(task.issuer, task.hash) > u64::MAX ==> r
                == Err::<(), Error>(Error::BalanceOverflow),
            r is Err ==> *final(self) == *old(self) && *final(ledger) == *old(ledger),
            r is Ok ==> {
                &&& final(ledger).spec_balance(task.issuer) == old(ledger).spec_balance(task.issuer)
                    + old(self).issuer_pay_pool.spec_amount(task.issuer, task.hash)
                &&& forall|b: AccountId|
                    b != task.issuer ==> final(ledger).spec_balance(b) == old(ledger).spec_balance(
                        b,
                    )
                &&& forall|b: AccountId|
                    final(ledger).spec_has_account(b) == old(ledger).spec_has_account(b)
                &&& final(self).issuer_pay_pool.spec_amount(task.issuer, task.hash) == 0
                &&& forall|b: AccountId, g: TaskHash|
                    !(b == task.issuer && g == task.hash) ==> final(self).issuer_pay_pool.spec_amount(b, g) == old(self).issuer_pay_pool.spec_amount(
                        b,
                        g,
                    ) && final(self).issuer_pay_pool.spec_contains(b, g) == old(self).issuer_pay_pool.spec_contains(b, g)
                &&& final(self).staking_pay_pool == old(self).staking_pay_pool
            },
            final(self).tasks@ == old(self).tasks@,
            final(self).boards@ == old(self).boards@,
            final(self).nonce == old(self).nonce,
    {
        let pay = self.issuer_pay_pool.amount_of(task.issuer, task.hash);
        match ledger.deposit_into_existing(task.issuer, pay) {
            Ok(()) => {
                self.issuer_pay_pool.set(task.issuer, task.hash, 0);
                Ok(())
            }
            Err(e) => Err(e),
        }
    }

    /// Refunds the issuer's escrowed arbitration deposit in full and zeroes
    /// that pool.
    pub fn issuer_back_judge(&mut self, ledger: &mut Ledger, task: &Task) -> (r: Result<(), Error>)
        requires
            old(self).staking_pay_pool.wf(),
            old(ledger).wf(),
        ensures
            final(self).staking_pay_pool.wf(),
            final(ledger).wf(),
            r is Ok <==> old(ledger).spec_has_account(task.issuer) && old(ledger).spec_balance(
                task.issuer,
            ) + old(self).staking_pay_pool.spec_amount(task.issuer, task.hash) <= u64::MAX,
            !old(ledger).spec_has_account(task.issuer) ==> r == Err::<(), Error>(
                Error::AccountMissing,
            ),
            old(ledger).spec_has_account(task.issuer) && old(ledger).spec_balance(task.issuer)
                + old(self).staking_pay_pool.spec_amount(task.issuer, task.hash) > u64::MAX ==> r
                == Err::<(), Error>(Error::BalanceOverflow),
            r is Err ==> *final(self) == *old(self) && *final(ledger) == *old(ledger),
            r is Ok ==> {
                &&& final(ledger).spec_balance(task.issuer) == old(ledger).spec_balance(task.issuer)
                    + old(self).staking_pay_pool.spec_amount(task.issuer, task.hash)
                &&& forall|b: AccountId|
                    b != task.issuer ==> final(ledger).spec_balance(b) == old(ledger).spec_balance(
                        b,
                    )
                &&& forall|b: AccountId|
                    final(ledger).spec_has_account(b) == old(ledger).spec_has_account(b)
                &&& final(self).staking_pay_pool.spec_amount(task.issuer, task.hash) == 0
                &&& forall|b: AccountId, g: TaskHash|
                    !(b == task.issuer && g == task.hash) ==> final(self).staking_pay_pool.spec_amount(b, g) == old(self).staking_pay_pool.spec_amount(
                        b,
                        g,
                    ) && final(self).staking_pay_pool.spec_contains(b, g) == old(self).staking_pay_pool.spec_contains(b, g)
                &&& final(self).issuer_pay_pool == old(self).issuer_pay_pool
            },
            final(self).tasks@ == old(self).tasks@,
            final(self).boards@ == old(self).boards@,
            final(self).nonce == old(self).nonce,
    {
        let judge_pay = self.staking_pay_pool.amount_of(task.issuer, task.hash);
        match ledger.deposit_into_existing(task.issuer, judge_pay) {
            Ok(()) => {
                self.staking_pay_pool.set(task.issuer, task.hash, 0);
                Ok(())
            }
            Err(e) => Err(e),
        }
    }
}


/// A list of accounts without repetition.
pub open spec fn distinct_accounts(s: Seq<AccountId>) -> bool {
    forall|i: int, j: int| 0 <= i < j < s.len() ==> s[i] != s[j]
}

impl TaskBoard {
    /// The ledger effect of the reward split: with a duplicate-free team,
    /// every receiver gains exactly its share; accounts outside the team are
    /// untouched, and no account appears or disappears. For a team that
    /// lists the same account more than once — claiming admits duplicate
    /// candidates, only a duplicated leader is rejected — that account is
    /// deposited the share of each of its positions in turn, but this
    /// predicate leaves its total unstated: the per-receiver clause binds
    /// only duplicate-free teams.
    pub open spec fn reward_effect(
        pre_led: Ledger,
        post_led: Ledger,
        recvs: Seq<AccountId>,
        pool: Balance,
    ) -> bool {
        &&& distinct_accounts(recvs) ==> forall|j: int|
            #![trigger recvs[j]]
            0 <= j < recvs.len() ==> post_led.spec_balance(recvs[j]) == pre_led.spec_balance(
                recvs[j],
            ) + spec_share(pool, recvs.len(), j)
        &&& forall|a: AccountId|
            #![trigger pre_led.spec_balance(a)]
            #![trigger post_led.spec_balance(a)]
            !spec_contains_account(recvs, a) ==> post_led.spec_balance(a) == pre_led.spec_balance(
                a,
            )
        &&& forall|b: AccountId|
            #![trigger pre_led.spec_has_account(b)]
            #![trigger post_led.spec_has_account(b)]
            post_led.spec_has_account(b) == pre_led.spec_has_account(b)
    }

    /// The effect of the issuer's refund: the escrowed payment comes back in
    /// full, and the arbitration deposit too when `refund_judge` holds; the
    /// refunded pools are zeroed and everything else is untouched.
    pub open spec fn issuer_back_effect(
        pre_ip: EscrowPool,
        pre_sp: EscrowPool,
        pre_led: Ledger,
        post_ip: EscrowPool,
        post_sp: EscrowPool,
        post_led: Ledger,
        issuer: AccountId,
        h: TaskHash,
        refund_judge: bool,
    ) -> bool {
        &&& post_led.spec_balance(issuer) == pre_led.spec_balance(issuer) + pre_ip.spec_amount(
            issuer,
            h,
        ) + (if refund_judge {
            pre_sp.spec_amount(issuer, h) as int
        } else {
            0
        })
        &&& forall|b: AccountId|
            #![trigger pre_led.spec_balance(b)]
            #![trigger post_led.spec_balance(b)]
            b != issuer ==> post_led.spec_balance(b) == pre_led.spec_balance(b)
        &&& forall|b: AccountId|
            #![trigger pre_led.spec_has_account(b)]
            #![trigger post_led.spec_has_account(b)]
            post_led.spec_has_account(b) == pre_led.spec_has_account(b)
        &&& post_ip.spec_amount(issuer, h) == 0
        &&& forall|b: AccountId, g: TaskHash|
            #![trigger pre_ip.spec_amount(b, g)]
            #![trigger post_ip.spec_amount(b, g)]
            !(b == issuer && g == h) ==> post_ip.spec_amount(b, g) == pre_ip.spec_amount(b, g)
                && post_ip.spec_contains(b, g) == pre_ip.spec_contains(b, g)
        &&& refund_judge ==> post_sp.spec_amount(issuer, h) == 0
        &&& refund_judge ==> forall|b: AccountId, g: TaskHash|
            #![trigger pre_sp.spec_amount(b, g)]
            #![trigger post_sp.spec_amount(b, g)]
            !(b == issuer && g == h) ==> post_sp.spec_amount(b, g) == pre_sp.spec_amount(b, g)
                && post_sp.spec_contains(b, g) == pre_sp.spec_contains(b, g)
        &&& !refund_judge ==> post_sp == pre_sp
    }

    /// Asset circulation: dispatches the four escrow operations. Every case
    /// commits wholly or fails with a typed error and no mutation:
    /// - IssuerPay escrows the issuer's payment and deposit (at publication);
    /// - RecvStaking stakes each receiver's deposit once (entering delivery);
    /// - RecvReward, only on a Done task with a team, splits the escrowed
    ///   payment evenly over the team, the last receiver absorbing the
    ///   remainder, and zeroes the pool;
    /// - IssuerBack, only on a Failure task, refunds the issuer's payment,
    ///   and the deposit too when the history never reached Arbitration.
    pub fn exchange_of_funds(&mut self, ledger: &mut Ledger, task: &Task, kind: FundsExchange)
        -> (r: Result<(), Error>)
        requires
            old(self).issuer_pay_pool.wf(),
            old(self).staking_pay_pool.wf(),
            old(ledger).wf(),
        ensures
            final(self).issuer_pay_pool.wf(),
            final(self).staking_pay_pool.wf(),
            final(ledger).wf(),
            r is Err ==> *final(self) == *old(self) && *final(ledger) == *old(ledger),
            final(self).tasks@ == old(self).tasks@,
            final(self).boards@ == old(self).boards@,
            final(self).nonce == old(self).nonce,
            kind is IssuerPay ==> {
                &&& (r is Ok <==> old(ledger).spec_balance(task.issuer) >= task.pay
                    + task.judge_pay)
                &&& (r is Err ==> r == Err::<(), Error>(Error::InsufficientFunds))
                &&& (r is Ok ==> Self::issuer_pay_effect(
                    old(self).issuer_pay_pool,
                    old(self).staking_pay_pool,
                    *old(ledger),
                    final(self).issuer_pay_pool,
                    final(self).staking_pay_pool,
                    *final(ledger),
                    task.issuer,
                    task.hash,
                    task.pay,
                    task.judge_pay,
                ))
            },
            kind is RecvStaking ==> {
                &&& (r is Ok <==> forall|j: int|
                    0 <= j < task.receivers@.len() ==> old(self).staking_pay_pool.spec_contains(
                        #[trigger] task.receivers@[j],
                        task.hash,
                    ) || old(ledger).spec_balance(task.receivers@[j]) >= task.judge_pay)
                &&& (r is Err ==> r == Err::<(), Error>(Error::InsufficientFunds))
                &&& (r is Ok ==> Self::staking_effect(
                    old(self).staking_pay_pool,
                    *old(ledger),
                    final(self).staking_pay_pool,
                    *final(ledger),
                    task.receivers@,
                    task.hash,
                    task.judge_pay,
                ) && final(self).issuer_pay_pool == old(self).issuer_pay_pool)
            },
            kind is RecvReward ==> {
                &&& (r is Ok <==> task.kind is Done && task.receivers@.len() > 0 && (forall|j: int|
                    0 <= j < task.receivers@.len() ==> old(ledger).spec_has_account(
                        #[trigger] task.receivers@[j],
                    ) && old(ledger).spec_balance(task.receivers@[j]) + old(self).issuer_pay_pool.spec_amount(task.issuer, task.hash) <= u64::MAX))
                &&& (!(task.kind is Done) ==> r == Err::<(), Error>(Error::FundsRecvRewardWrongTime))
                &&& (task.kind is Done && task.receivers@.len() == 0 ==> r == Err::<(), Error>(
                    Error::TaskRecvEmpty,
                ))
                &&& (task.kind is Done && task.receivers@.len() > 0 && r is Err ==> r == Err::<
                    (),
                    Error,
                >(Error::AccountMissing) || r == Err::<(), Error>(Error::BalanceOverflow))
                &&& (r is Ok ==> Self::reward_effect(
                    *old(ledger),
                    *final(ledger),
                    task.receivers@,
                    old(self).issuer_pay_pool.spec_amount(task.issuer, task.hash),
                ) && final(self).issuer_pay_pool.spec_amount(task.issuer, task.hash) == 0 && (
                forall|b: AccountId, g: TaskHash|
                    #![trigger final(self).issuer_pay_pool.spec_amount(b, g)]
                    !(b == task.issuer && g == task.hash) ==> final(self).issuer_pay_pool.spec_amount(b, g) == old(self).issuer_pay_pool.spec_amount(
                        b,
                        g,
                    ) && final(self).issuer_pay_pool.spec_contains(b, g) == old(self).issuer_pay_pool.spec_contains(b, g)) && final(self).staking_pay_pool == old(self).staking_pay_pool)
            },
            kind is IssuerBack ==> {
                &&& (r is Ok <==> task.kind is Failure && old(ledger).spec_has_account(task.issuer)
                    && old(ledger).spec_balance(task.issuer) + old(self).issuer_pay_pool.spec_amount(task.issuer, task.hash) + (
                if !spec_history_has_arbitration(task.history@) {
                    old(self).staking_pay_pool.spec_amount(task.issuer, task.hash) as int
                } else {
                    0
                }) <= u64::MAX)
                &&& (!(task.kind is Failure) ==> r == Err::<(), Error>(
                    Error::FundsIssuserBackWrongTime,
                ))
                &&& (task.kind is Failure && !old(ledger).spec_has_account(task.issuer) ==> r
                    == Err::<(), Error>(Error::AccountMissing))
                &&& (task.kind is Failure && r is Err ==> r == Err::<(), Error>(
                    Error::AccountMissing,
                ) || r == Err::<(), Error>(Error::BalanceOverflow))
                &&& (r is Ok ==> Self::issuer_back_effect(
                    old(self).issuer_pay_pool,
                    old(self).staking_pay_pool,
                    *old(ledger),
                    final(self).issuer_pay_pool,
                    final(self).staking_pay_pool,
                    *final(ledger),
                    task.issuer,
                    task.hash,
                    !spec_history_has_arbitration(task.history@),
                ))
            },
    {
        match kind {
            FundsExchange::IssuerPay => self.issuer_pay(ledger, task),
            FundsExchange::RecvStaking => self.recv_staking(ledger, task),
            FundsExchange::RecvReward => {
                if !matches!(task.kind, TaskKind::Done) {
                    return Err(Error::FundsRecvRewardWrongTime);
                }
                let n = task.receivers.len();
                if n == 0 {
                    return Err(Error::TaskRecvEmpty);
                }
                let pool_pay = self.issuer_pay_pool.amount_of(task.issuer, task.hash);
                let ghost pre_self = *old(self);
                let ghost pre_ledger = *old(ledger);
                // All or nothing: every receiver must be able to take its
                // deposit before anything moves.
                let mut i: usize = 0;
                while i < n
                    invariant
                        kind is RecvReward,
                        task.kind is Done,
                        i <= n,
                        n == task.receivers@.len(),
                        n >= 1,
                        *self == pre_self,
                        *ledger == pre_ledger,
                        pre_self == *old(self),
                        pre_ledger == *old(ledger),
                        pre_self.issuer_pay_pool.wf(),
                        pre_self.staking_pay_pool.wf(),
                        pre_ledger.wf(),
                        pool_pay == pre_self.issuer_pay_pool.spec_amount(task.issuer, task.hash),
                        forall|j: int|
                            0 <= j < i ==> pre_ledger.spec_has_account(
                                #[trigger] task.receivers@[j],
                            ) && pre_ledger.spec_balance(task.receivers@[j]) + pool_pay
                                <= u64::MAX,
                    decreases n - i,
                {
                    let a = task.receivers[i];
                    if !ledger.has_account(a) {
                        return Err(Error::AccountMissing);
                    }
                    if ledger.balance_of(a) > u64::MAX - pool_pay {
                        return Err(Error::BalanceOverflow);
                    }
                    i = i + 1;
                }
                let each: u64 = pool_pay / (n as u64);
                proof {
                    lemma_reward_distributes_fully(pool_pay, n as nat);
                }
                let mut remaining: u64 = pool_pay;
                let mut i: usize = 0;
                while i < n
                    invariant
                        kind is RecvReward,
                        task.kind is Done,
                        i <= n,
                        n == task.receivers@.len(),
                        n >= 1,
                        *self == pre_self,
                        pre_self == *old(self),
                        pre_ledger == *old(ledger),
                        pre_self.issuer_pay_pool.wf(),
                        pre_self.staking_pay_pool.wf(),
                        pre_ledger.wf(),
                        ledger.wf(),
                        each == spec_even_share(pool_pay, n as nat),
                        each * (n - 1) <= pool_pay,
                        i < n ==> remaining == pool_pay - each * i,
                        i == n ==> remaining == 0,
                        pool_pay == pre_self.issuer_pay_pool.spec_amount(task.issuer, task.hash),
                        forall|j: int|
                            0 <= j < n ==> pre_ledger.spec_has_account(
                                #[trigger] task.receivers@[j],
                            ) && pre_ledger.spec_balance(task.receivers@[j]) + pool_pay
                                <= u64::MAX,
                        forall|j: int|
                            #![trigger task.receivers@[j]]
                            0 <= j < n ==> ledger.spec_balance(task.receivers@[j]) + remaining
                                <= u64::MAX,
                        distinct_accounts(task.receivers@) ==> forall|j: int|
                            #![trigger task.receivers@[j]]
                            0 <= j < i ==> ledger.spec_balance(task.receivers@[j])
                                == pre_ledger.spec_balance(task.receivers@[j]) + spec_share(
                                pool_pay,
                                n as nat,
                                j,
                            ),
                        distinct_accounts(task.receivers@) ==> forall|j: int|
                            #![trigger task.receivers@[j]]
                            i <= j < n ==> ledger.spec_balance(task.receivers@[j])
                                == pre_ledger.spec_balance(task.receivers@[j]),
                        forall|a: AccountId|
                            #![trigger pre_ledger.spec_balance(a)]
                            #![trigger ledger.spec_balance(a)]
                            !spec_contains_account(task.receivers@, a) ==> ledger.spec_balance(a)
                                == pre_ledger.spec_balance(a),
                        forall|b: AccountId|
                            #![trigger pre_ledger.spec_has_account(b)]
                            #![trigger ledger.spec_has_account(b)]
                            ledger.spec_has_account(b) == pre_ledger.spec_has_account(b),
                    decreases n - i,
                {
                    let ghost iter_ledger = *ledger;
                    let a = task.receivers[i];
                    let d: u64 = if i == n - 1 {
                        remaining
                    } else {
                        proof {
                            vstd::arithmetic::mul::lemma_mul_inequality(
                                i + 1,
                                n - 1 as int,
                                each as int,
                            );
                            assert((i + 1) * (each as int) == i * (each as int) + each) by (nonlinear_arith);
                            assert((n - 1) * (each as int) == (each as int) * (n - 1)) by (nonlinear_arith);
                            assert(i * (each as int) == (each as int) * i) by (nonlinear_arith);
                        }
                        each
                    };
                    proof {
                        assert(spec_contains_account(task.receivers@, task.receivers@[i as int]));
                    }
                    let rd = ledger.deposit_into_existing(a, d);
                    proof {
                        assert(rd is Ok);
                    }
                    remaining = remaining - d;
                    proof {
                        if i < n - 1 {
                            assert((i + 1) * (each as int) == i * (each as int) + each) by (nonlinear_arith);
                            assert(remaining == pool_pay - each * (i + 1));
                        }
                        assert forall|j: int|
                            #![trigger task.receivers@[j]]
                            0 <= j < n implies ledger.spec_balance(task.receivers@[j]) + remaining
                            <= u64::MAX by {
                            if task.receivers@[j] == a {
                            } else {
                                assert(iter_ledger.spec_balance(task.receivers@[j]) + (remaining
                                    + d) <= u64::MAX);
                            }
                        }
                        if distinct_accounts(task.receivers@) {
                            assert forall|j: int|
                                #![trigger task.receivers@[j]]
                                0 <= j < i + 1 implies ledger.spec_balance(task.receivers@[j])
                                == pre_ledger.spec_balance(task.receivers@[j]) + spec_share(
                                pool_pay,
                                n as nat,
                                j,
                            ) by {
                                if j == i as int {
                                    assert(iter_ledger.spec_balance(a)
                                        == pre_ledger.spec_balance(a));
                                } else {
                                    assert(task.receivers@[j] != task.receivers@[i as int]);
                                    assert(iter_ledger.spec_balance(task.receivers@[j])
                                        == pre_ledger.spec_balance(task.receivers@[j])
                                        + spec_share(pool_pay, n as nat, j));
                                }
                            }
                            assert forall|j: int|
                                #![trigger task.receivers@[j]]
                                i + 1 <= j < n implies ledger.spec_balance(task.receivers@[j])
                                == pre_ledger.spec_balance(task.receivers@[j]) by {
                                assert(task.receivers@[i as int] != task.receivers@[j]);
                                assert(iter_ledger.spec_balance(task.receivers@[j])
                                    == pre_ledger.spec_balance(task.receivers@[j]));
                            }
                        }
                    }
                    i = i + 1;
                }
                self.issuer_pay_pool.set(task.issuer, task.hash, 0);
                Ok(())
            }
            FundsExchange::IssuerBack => {
                if !matches!(task.kind, TaskKind::Failure) {
                    return Err(Error::FundsIssuserBackWrongTime);
                }
                let refund_judge = !history_has_arbitration(&task.history);
                let pool_pay = self.issuer_pay_pool.amount_of(task.issuer, task.hash);
                let judge_amt = self.staking_pay_pool.amount_of(task.issuer, task.hash);
                if !ledger.has_account(task.issuer) {
                    return Err(Error::AccountMissing);
                }
                let bal = ledger.balance_of(task.issuer);
                if bal > u64::MAX - pool_pay {
                    return Err(Error::BalanceOverflow);
                }
                if refund_judge && judge_amt > (u64::MAX - bal) - pool_pay {
                    return Err(Error::BalanceOverflow);
                }
                let r1 = self.issuer_back_pay(ledger, task);
                proof {
                    assert(r1 is Ok);
                }
                if refund_judge {
                    let r2 = self.issuer_back_judge(ledger, task);
                    proof {
                        assert(r2 is Ok);
                    }
                }
                Ok(())
            }
        }
    }
}


impl TaskBoard {
    /// After replacing the entry at index `i` by one with the same
    /// identifier, every other identifier's views are unchanged.
    proof fn lemma_task_frame_update(pre: TaskBoard, post: TaskBoard, i: int, g: TaskHash)
        requires
            pre.store_wf(),
            post.store_wf(),
            0 <= i < pre.tasks@.len(),
            post.tasks@ == pre.tasks@.update(i, post.tasks@[i]),
            post.tasks@[i].hash == pre.tasks@[i].hash,
            g != pre.tasks@[i].hash,
        ensures
            Self::spec_task_same_at(pre, post, g),
    {
        if pre.spec_has_hash(g) {
            let j = choose|j: int| 0 <= j < pre.tasks@.len() && (#[trigger] pre.tasks@[j]).hash == g;
            assert(post.tasks@[j].hash == g);
            assert(post.spec_has_hash(g));
            pre.lemma_task_at(j);
            post.lemma_task_at(j);
        }
        if post.spec_has_hash(g) {
            let j = choose|j: int|
                0 <= j < post.tasks@.len() && (#[trigger] post.tasks@[j]).hash == g;
            assert(pre.tasks@[j].hash == g);
            assert(pre.spec_has_hash(g));
        }
    }

    /// After appending an entry with a fresh identifier, every other
    /// identifier's views are unchanged.
    proof fn lemma_task_frame_push(pre: TaskBoard, post: TaskBoard, g: TaskHash)
        requires
            pre.store_wf(),
            post.store_wf(),
            post.tasks@ == pre.tasks@.push(post.tasks@.last()),
            g != post.tasks@.last().hash,
        ensures
            Self::spec_task_same_at(pre, post, g),
    {
        if pre.spec_has_hash(g) {
            let j = choose|j: int| 0 <= j < pre.tasks@.len() && (#[trigger] pre.tasks@[j]).hash == g;
            assert(post.tasks@[j].hash == g);
            assert(post.spec_has_hash(g));
            pre.lemma_task_at(j);
            post.lemma_task_at(j);
        }
        if post.spec_has_hash(g) {
            let j = choose|j: int|
                0 <= j < post.tasks@.len() && (#[trigger] post.tasks@[j]).hash == g;
            assert(j < pre.tasks@.len());
            assert(pre.tasks@[j].hash == g);
        }
    }

    /// All the stored views of one identifier equal the given record's
    /// fields.
    pub open spec fn spec_stores_task(self, t: Task) -> bool {
        &&& self.spec_has_hash(t.hash)
        &&& self.spec_kind_of(t.hash) == t.kind
        &&& self.spec_issuer_of(t.hash) == t.issuer
        &&& self.spec_receivers_of(t.hash) == t.receivers@
        &&& self.spec_description_of(t.hash) == t.description@
        &&& self.spec_pay_of(t.hash) == t.pay
        &&& self.spec_judge_pay_of(t.hash) == t.judge_pay
        &&& self.spec_min_rep_of(t.hash) == t.min_rep
        &&& self.spec_history_of(t.hash) == t.history@
        &&& self.spec_req_subjects_of(t.hash) == t.req_subjects@
        &&& self.spec_cert_of(t.hash) == t.delivery_certificate
    }

    /// Creates the record if its identifier is fresh, or overwrites the one
    /// stored under it, running the escrow operation that belongs to the
    /// record's state: IssuerPay on creation, RecvStaking entering
    /// InDelivery, IssuerBack entering Failure, RecvReward entering Done.
    /// The escrow operation's failures propagate and nothing changes then.
    pub fn save_task(&mut self, ledger: &mut Ledger, task: &Task) -> (r: Result<(), Error>)
        requires
            old(self).store_wf(),
            old(ledger).wf(),
            task_wf(*task),
            task.hash.nonce < old(self).nonce,
            !(task.kind is Published) ==> task.receivers@.len() > 0,
        ensures
            final(self).store_wf(),
            final(ledger).wf(),
            final(self).boards@ == old(self).boards@,
            final(self).nonce == old(self).nonce,
            r is Err ==> *final(self) == *old(self) && *final(ledger) == *old(ledger),
            !old(self).spec_has_hash(task.hash) ==> {
                &&& (!(task.kind is Published) ==> r == Err::<(), Error>(Error::TaskKindInvalid))
                &&& (task.kind is Published && old(self).tasks@.len() == usize::MAX ==> r == Err::<
                    (),
                    Error,
                >(Error::TaskCheckAddFail))
                &&& (task.kind is Published && old(self).tasks@.len() < usize::MAX ==> (r is Ok
                    <==> old(ledger).spec_balance(task.issuer) >= task.pay + task.judge_pay) && (r
                    is Err ==> r == Err::<(), Error>(Error::InsufficientFunds)))
                &&& (r is Ok ==> {
                    &&& final(self).tasks@.len() == old(self).tasks@.len() + 1
                    &&& final(self).spec_stores_task(*task)
                    &&& forall|g: TaskHash|
                        g != task.hash ==> Self::spec_task_same_at(*old(self), *final(self), g)
                    &&& Self::issuer_pay_effect(
                        old(self).issuer_pay_pool,
                        old(self).staking_pay_pool,
                        *old(ledger),
                        final(self).issuer_pay_pool,
                        final(self).staking_pay_pool,
                        *final(ledger),
                        task.issuer,
                        task.hash,
                        task.pay,
                        task.judge_pay,
                    )
                })
            },
            old(self).spec_has_hash(task.hash) ==> {
                &&& (task.kind is InDelivery ==> {
                    &&& (r is Ok <==> forall|j: int|
                        0 <= j < task.receivers@.len() ==> old(self).staking_pay_pool.spec_contains(#[trigger] task.receivers@[j], task.hash)
                            || old(ledger).spec_balance(task.receivers@[j]) >= task.judge_pay)
                    &&& (r is Err ==> r == Err::<(), Error>(Error::InsufficientFunds))
                    &&& (r is Ok ==> Self::staking_effect(
                        old(self).staking_pay_pool,
                        *old(ledger),
                        final(self).staking_pay_pool,
                        *final(ledger),
                        task.receivers@,
                        task.hash,
                        task.judge_pay,
                    ) && final(self).issuer_pay_pool == old(self).issuer_pay_pool)
                })
                &&& (task.kind is Failure ==> {
                    &&& (r is Err ==> r == Err::<(), Error>(Error::AccountMissing) || r == Err::<
                        (),
                        Error,
                    >(Error::BalanceOverflow))
                    &&& (r is Ok <==> old(ledger).spec_has_account(task.issuer) && old(ledger).spec_balance(task.issuer) + old(self).issuer_pay_pool.spec_amount(
                        task.issuer,
                        task.hash,
                    ) + (if !spec_history_has_arbitration(task.history@) {
                        old(self).staking_pay_pool.spec_amount(task.issuer, task.hash) as int
                    } else {
                        0
                    }) <= u64::MAX)
                    &&& (r is Ok ==> Self::issuer_back_effect(
                        old(self).issuer_pay_pool,
                        old(self).staking_pay_pool,
                        *old(ledger),
                        final(self).issuer_pay_pool,
                        final(self).staking_pay_pool,
                        *final(ledger),
                        task.issuer,
                        task.hash,
                        !spec_history_has_arbitration(task.history@),
                    ))
                })
                &&& (task.kind is Done ==> {
                    &&& (r is Err ==> r == Err::<(), Error>(Error::AccountMissing) || r == Err::<
                        (),
                        Error,
                    >(Error::BalanceOverflow))
                                        &&& (r is Ok <==> task.receivers@.len() > 0 && (forall|j: int|
                        0 <= j < task.receivers@.len() ==> old(ledger).spec_has_account(
                            #[trigger] task.receivers@[j],
                        ) && old(ledger).spec_balance(task.receivers@[j]) + old(self).issuer_pay_pool.spec_amount(task.issuer, task.hash) <= u64::MAX))
                    &&& (r is Ok ==> Self::reward_effect(
                        *old(ledger),
                        *final(ledger),
                        task.receivers@,
                        old(self).issuer_pay_pool.spec_amount(task.issuer, task.hash),
                    ) && final(self).issuer_pay_pool.spec_amount(task.issuer, task.hash) == 0 && (
                    forall|b: AccountId, g: TaskHash|
                        #![trigger final(self).issuer_pay_pool.spec_amount(b, g)]
                        !(b == task.issuer && g == task.hash) ==> final(self).issuer_pay_pool.spec_amount(b, g) == old(self).issuer_pay_pool.spec_amount(b, g) && final(self).issuer_pay_pool.spec_contains(b, g) == old(self).issuer_pay_pool.spec_contains(b, g)) && final(self).staking_pay_pool
                        == old(self).staking_pay_pool)
                })
                &&& ((task.kind is Published || task.kind is Deliveryed || task.kind
                    is Arbitration) ==> r is Ok && final(self).issuer_pay_pool == old(self).issuer_pay_pool && final(self).staking_pay_pool == old(self).staking_pay_pool
                    && *final(ledger) == *old(ledger))
                &&& (r is Ok ==> {
                    &&& final(self).tasks@.len() == old(self).tasks@.len()
                    &&& final(self).spec_stores_task(*task)
                    &&& forall|g: TaskHash|
                        g != task.hash ==> Self::spec_task_same_at(*old(self), *final(self), g)
                })
            },
    {
        let ghost pre_self = *old(self);
        match self.find_task(task.hash) {
            None => {
                if !matches!(task.kind, TaskKind::Published) {
                    return Err(Error::TaskKindInvalid);
                }
                if self.tasks.len() == usize::MAX {
                    return Err(Error::TaskCheckAddFail);
                }
                match self.exchange_of_funds(ledger, task, FundsExchange::IssuerPay) {
                    Ok(()) => {}
                    Err(e) => {
                        return Err(e);
                    }
                }
                let ghost mid_self = *self;
                self.tasks.push(clone_task(task));
                proof {
                    assert forall|ii: int, jj: int| 0 <= ii < jj < self.tasks@.len() implies (
                    #[trigger] self.tasks@[ii]).hash != (#[trigger] self.tasks@[jj]).hash by {
                        if jj == self.tasks@.len() - 1 {
                            assert(self.tasks@[ii] == mid_self.tasks@[ii]);
                            if self.tasks@[ii].hash == task.hash {
                                assert(pre_self.tasks@[ii].hash == task.hash);
                                assert(pre_self.spec_has_hash(task.hash));
                            }
                        }
                    }
                    assert(self.store_wf());
                    self.lemma_task_at(self.tasks@.len() - 1);
                    assert forall|g: TaskHash| g != task.hash implies Self::spec_task_same_at(
                        pre_self,
                        *self,
                        g,
                    ) by {
                        Self::lemma_views_from_tasks(pre_self, mid_self, g);
                        Self::lemma_task_frame_push(mid_self, *self, g);
                    }
                    assert(self.spec_stores_task(*task));
                }
                Ok(())
            }
            Some(i) => {
                proof {
                    self.lemma_task_at(i as int);
                }
                let funds = match task.kind {
                    TaskKind::InDelivery => self.exchange_of_funds(
                        ledger,
                        task,
                        FundsExchange::RecvStaking,
                    ),
                    TaskKind::Failure => self.exchange_of_funds(
                        ledger,
                        task,
                        FundsExchange::IssuerBack,
                    ),
                    TaskKind::Done => self.exchange_of_funds(
                        ledger,
                        task,
                        FundsExchange::RecvReward,
                    ),
                    _ => Ok(()),
                };
                match funds {
                    Ok(()) => {}
                    Err(e) => {
                        return Err(e);
                    }
                }
                let ghost mid_self = *self;
                self.tasks.set(i, clone_task(task));
                proof {
                    assert forall|ii: int, jj: int| 0 <= ii < jj < self.tasks@.len() implies (
                    #[trigger] self.tasks@[ii]).hash != (#[trigger] self.tasks@[jj]).hash by {
                        assert(mid_self.tasks@[ii].hash != mid_self.tasks@[jj].hash);
                    }
                    assert(self.store_wf());
                    self.lemma_task_at(i as int);
                    assert forall|g: TaskHash| g != task.hash implies Self::spec_task_same_at(
                        pre_self,
                        *self,
                        g,
                    ) by {
                        Self::lemma_views_from_tasks(pre_self, mid_self, g);
                        Self::lemma_task_frame_update(mid_self, *self, i as int, g);
                    }
                    assert(self.spec_stores_task(*task));
                }
                Ok(())
            }
        }
    }
}


/// Membership in a board registry extended by one identifier.
pub proof fn lemma_board_has_push(s: Seq<TaskHash>, e: TaskHash, x: TaskHash)
    ensures
        board_has(s.push(e), x) == (board_has(s, x) || e == x),
{
    if board_has(s, x) {
        let i = choose|i: int| 0 <= i < s.len() && s[i] == x;
        assert(s.push(e)[i] == x);
    }
    if e == x {
        assert(s.push(e)[s.len() as int] == x);
    }
    if board_has(s.push(e), x) {
        let i = choose|i: int| 0 <= i < s.push(e).len() && s.push(e)[i] == x;
        if i < s.len() {
            assert(s[i] == x);
        }
    }
}

impl TaskBoard {
    /// Creation step of the state flow: stores a fresh Published record,
    /// escrows the issuer's payment and deposit, enters the identifier into
    /// the Published board and emits the publication event. All or nothing.
    fn change_to_published(
        &mut self,
        ledger: &mut Ledger,
        events: &mut Vec<Event>,
        task: &mut Task,
        now: u64,
    ) -> (r: Result<(), Error>)
        requires
            old(self).wf(),
            old(ledger).wf(),
            old(task).kind is Published,
            old(task).history@.len() == 0,
            old(task).hash.nonce < old(self).nonce,
        ensures
            final(self).wf(),
            final(ledger).wf(),
            final(self).nonce == old(self).nonce,
            r is Err ==> *final(self) == *old(self) && *final(ledger) == *old(ledger) && *final(events) == *old(events) && *final(task) == *old(task),
            r is Ok ==> {
                &&& final(task).kind is Published
                &&& final(task).history@ == old(task).history@.push((TaskKind::Published, now))
                &&& final(task).hash == old(task).hash
                &&& final(task).issuer == old(task).issuer
                &&& final(task).receivers@ == old(task).receivers@
                &&& final(task).description@ == old(task).description@
                &&& final(task).pay == old(task).pay
                &&& final(task).judge_pay == old(task).judge_pay
                &&& final(task).min_rep == old(task).min_rep
                &&& final(task).req_subjects@ == old(task).req_subjects@
                &&& final(task).delivery_certificate == old(task).delivery_certificate
                &&& final(self).spec_stores_task(*final(task))
                &&& forall|g: TaskHash|
                    g != old(task).hash ==> Self::spec_task_same_at(*old(self), *final(self), g)
            },
            old(self).spec_has_hash(old(task).hash) ==> r == Err::<(), Error>(
                Error::TaskDuplicated,
            ),
            !old(self).spec_has_hash(old(task).hash) && old(self).tasks@.len() == usize::MAX ==> r
                == Err::<(), Error>(Error::TaskCheckAddFail),
            !old(self).spec_has_hash(old(task).hash) && old(self).tasks@.len() < usize::MAX ==> (r
                is Ok <==> old(ledger).spec_balance(old(task).issuer) >= old(task).pay + old(task).judge_pay) && (r is Err ==> r == Err::<(), Error>(Error::InsufficientFunds)),
            r is Ok ==> {
                &&& final(self).tasks@.len() == old(self).tasks@.len() + 1
                &&& Self::issuer_pay_effect(
                    old(self).issuer_pay_pool,
                    old(self).staking_pay_pool,
                    *old(ledger),
                    final(self).issuer_pay_pool,
                    final(self).staking_pay_pool,
                    *final(ledger),
                    old(task).issuer,
                    old(task).hash,
                    old(task).pay,
                    old(task).judge_pay,
                )
                &&& final(self).boards@[0].inner_board@ == old(self).boards@[0].inner_board@.push(
                    old(task).hash,
                )
                &&& forall|c: int| 1 <= c < 6 ==> final(self).boards@[c] == old(self).boards@[c]
                &&& final(events)@ == old(events)@.push(
                    Event::TaskPublish(old(task).issuer, old(task).hash, now),
                )
            },
    {
        let ghost pre_self = *old(self);
        if self.find_task(task.hash).is_some() {
            return Err(Error::TaskDuplicated);
        }
        if self.tasks.len() == usize::MAX {
            return Err(Error::TaskCheckAddFail);
        }
        let mut new_task = clone_task(task);
        new_task.history.push((TaskKind::Published, now));
        proof {
            assert(new_task.history@ =~= task.history@.push((TaskKind::Published, now)));
            assert(task_wf(new_task));
        }
        match self.save_task(ledger, &new_task) {
            Ok(()) => {}
            Err(e) => {
                return Err(e);
            }
        }
        let ghost s1 = *self;
        let h = new_task.hash;
        self.board_insert(0, h);
        events.push(Event::TaskPublish(new_task.issuer, h, now));
        *task = new_task;
        proof {
            assert(self.store_wf());
            assert forall|i: int| 0 <= i < self.tasks@.len() implies board_has(
                self.boards@[spec_kind_ordinal((#[trigger] self.tasks@[i]).kind) as int].inner_board@,
                self.tasks@[i].hash,
            ) by {
                let t = self.tasks@[i];
                s1.lemma_task_at(i);
                if t.hash == h {
                    assert(t.kind is Published);
                    lemma_board_has_push(pre_self.boards@[0].inner_board@, h, t.hash);
                } else {
                    assert(Self::spec_task_same_at(pre_self, s1, t.hash));
                    assert(pre_self.spec_has_hash(t.hash));
                    let pj = choose|pj: int|
                        0 <= pj < pre_self.tasks@.len() && (
                        #[trigger] pre_self.tasks@[pj]).hash == t.hash;
                    pre_self.lemma_task_at(pj);
                    assert(pre_self.tasks@[pj].kind == t.kind);
                    assert(board_has(
                        pre_self.boards@[spec_kind_ordinal(t.kind) as int].inner_board@,
                        t.hash,
                    ));
                    if spec_kind_ordinal(t.kind) == 0 {
                        lemma_board_has_push(pre_self.boards@[0].inner_board@, h, t.hash);
                    }
                }
            }
            assert forall|i: int, b: int|
                0 <= i < self.tasks@.len() && 0 <= b < 6 && b != spec_kind_ordinal(
                    (#[trigger] self.tasks@[i]).kind,
                ) implies !board_has(
                (#[trigger] self.boards@[b]).inner_board@,
                self.tasks@[i].hash,
            ) by {
                let t = self.tasks@[i];
                s1.lemma_task_at(i);
                if t.hash == h {
                    assert(spec_kind_ordinal(t.kind) == 0);
                    if board_has(pre_self.boards@[b].inner_board@, t.hash) {
                        let k = choose|k: int|
                            0 <= k < pre_self.boards@[b].inner_board@.len()
                                && pre_self.boards@[b].inner_board@[k] == t.hash;
                        assert(pre_self.spec_has_hash(t.hash));
                    }
                } else {
                    assert(Self::spec_task_same_at(pre_self, s1, t.hash));
                    let pj = choose|pj: int|
                        0 <= pj < pre_self.tasks@.len() && (
                        #[trigger] pre_self.tasks@[pj]).hash == t.hash;
                    pre_self.lemma_task_at(pj);
                    assert(!board_has(pre_self.boards@[b].inner_board@, t.hash));
                    if b == 0 {
                        lemma_board_has_push(pre_self.boards@[0].inner_board@, h, t.hash);
                    }
                }
            }
            assert forall|b: int, k: int|
                0 <= b < 6 && 0 <= k < (#[trigger] self.boards@[b]).inner_board@.len() implies
                self.spec_has_hash(#[trigger] self.boards@[b].inner_board@[k]) by {
                let x = self.boards@[b].inner_board@[k];
                if b == 0 && k == self.boards@[0].inner_board@.len() - 1 {
                    assert(x == h);
                    assert(s1.spec_has_hash(h));
                    let j = choose|j: int|
                        0 <= j < s1.tasks@.len() && (#[trigger] s1.tasks@[j]).hash == h;
                    assert(self.tasks@[j].hash == h);
                } else {
                    assert(x == pre_self.boards@[b].inner_board@[k]);
                    assert(pre_self.spec_has_hash(x));
                    if x == h {
                        let j = choose|j: int|
                            0 <= j < s1.tasks@.len() && (#[trigger] s1.tasks@[j]).hash == h;
                        assert(self.tasks@[j].hash == x);
                    } else {
                        assert(Self::spec_task_same_at(pre_self, s1, x));
                        assert(s1.spec_has_hash(x));
                        let sj = choose|sj: int|
                            0 <= sj < s1.tasks@.len() && (#[trigger] s1.tasks@[sj]).hash == x;
                        assert(self.tasks@[sj].hash == x);
                    }
                }
            }
            assert(self.wf());
            Self::lemma_views_from_tasks(s1, *self, h);
            assert(self.spec_stores_task(new_task));
            assert forall|g: TaskHash| g != h implies Self::spec_task_same_at(
                pre_self,
                *self,
                g,
            ) by {
                assert(Self::spec_task_same_at(pre_self, s1, g));
                Self::lemma_views_from_tasks(s1, *self, g);
            }
        }
        Ok(())
    }

    /// Forward step of the state flow: an edge of the transition table, with
    /// the identifier moving from the source board to the target board, the
    /// record overwritten with the step appended to its history, and the
    /// escrow operation of the target state run. All or nothing.
    #[verifier::rlimit(100)]
    fn change_forward(
        &mut self,
        ledger: &mut Ledger,
        events: &mut Vec<Event>,
        task: &mut Task,
        to_kind: TaskKind,
        now: u64,
    ) -> (r: Result<(), Error>)
        requires
            old(self).wf(),
            old(ledger).wf(),
            !(to_kind is Published),
            task_wf(*old(task)),
            old(task).receivers@.len() > 0,
        ensures
            final(self).wf(),
            final(ledger).wf(),
            final(self).nonce == old(self).nonce,
            r is Err ==> *final(self) == *old(self) && *final(ledger) == *old(ledger) && *final(events) == *old(events) && *final(task) == *old(task),
            r is Ok ==> {
                &&& final(task).kind == to_kind
                &&& final(task).history@ == old(task).history@.push((to_kind, now))
                &&& final(task).hash == old(task).hash
                &&& final(task).issuer == old(task).issuer
                &&& final(task).receivers@ == old(task).receivers@
                &&& final(task).description@ == old(task).description@
                &&& final(task).pay == old(task).pay
                &&& final(task).judge_pay == old(task).judge_pay
                &&& final(task).min_rep == old(task).min_rep
                &&& final(task).req_subjects@ == old(task).req_subjects@
                &&& final(task).delivery_certificate == old(task).delivery_certificate
                &&& final(self).spec_stores_task(*final(task))
                &&& forall|g: TaskHash|
                    g != old(task).hash ==> Self::spec_task_same_at(*old(self), *final(self), g)
            },
            !spec_valid_transition(old(task).kind, to_kind) ==> r == Err::<(), Error>(
                Error::TaskChangeStatusFail,
            ),
            spec_valid_transition(old(task).kind, to_kind) && !board_has(
                old(self).boards@[spec_kind_ordinal(old(task).kind) as int].inner_board@,
                old(task).hash,
            ) ==> r == Err::<(), Error>(Error::TaskNotInBoard),
            spec_valid_transition(old(task).kind, to_kind) && board_has(
                old(self).boards@[spec_kind_ordinal(old(task).kind) as int].inner_board@,
                old(task).hash,
            ) && board_has(
                old(self).boards@[spec_kind_ordinal(to_kind) as int].inner_board@,
                old(task).hash,
            ) ==> r == Err::<(), Error>(Error::TaskInWrongBoard),
            Self::spec_step_allowed(*old(self), *old(task), to_kind) ==> {
                &&& (to_kind is InDelivery ==> (r is Ok <==> forall|j: int|
                    0 <= j < old(task).receivers@.len() ==> old(self).staking_pay_pool.spec_contains(
                        #[trigger] old(task).receivers@[j],
                        old(task).hash,
                    ) || old(ledger).spec_balance(old(task).receivers@[j]) >= old(task).judge_pay) && (r is Err ==> r == Err::<(), Error>(Error::InsufficientFunds)))
                &&& (to_kind is Failure ==> (r is Ok <==> old(ledger).spec_has_account(
                    old(task).issuer,
                ) && old(ledger).spec_balance(old(task).issuer) + old(self).issuer_pay_pool.spec_amount(old(task).issuer, old(task).hash) + (
                if !spec_history_has_arbitration(old(task).history@.push((to_kind, now))) {
                    old(self).staking_pay_pool.spec_amount(old(task).issuer, old(task).hash) as int
                } else {
                    0
                }) <= u64::MAX) && (r is Err ==> r == Err::<(), Error>(Error::AccountMissing) || r
                    == Err::<(), Error>(Error::BalanceOverflow)))
                &&& (to_kind is Done ==> (r is Ok <==> forall|j: int|
                    0 <= j < old(task).receivers@.len() ==> old(ledger).spec_has_account(
                        #[trigger] old(task).receivers@[j],
                    ) && old(ledger).spec_balance(old(task).receivers@[j]) + old(self).issuer_pay_pool.spec_amount(old(task).issuer, old(task).hash) <= u64::MAX)
                    && (r is Err ==> r == Err::<(), Error>(Error::AccountMissing) || r == Err::<
                    (),
                    Error,
                >(Error::BalanceOverflow)))
                &&& ((to_kind is Deliveryed || to_kind is Arbitration) ==> r is Ok)
            },
            r is Ok ==> {
                &&& spec_valid_transition(old(task).kind, to_kind)
                &&& final(self).tasks@.len() == old(self).tasks@.len()
                &&& !board_has(
                    final(self).boards@[spec_kind_ordinal(old(task).kind) as int].inner_board@,
                    old(task).hash,
                )
                &&& final(self).boards@[spec_kind_ordinal(to_kind) as int].inner_board@ == old(self).boards@[spec_kind_ordinal(to_kind) as int].inner_board@.push(old(task).hash)
                &&& forall|c: int|
                    0 <= c < 6 && c != spec_kind_ordinal(old(task).kind) && c != spec_kind_ordinal(
                        to_kind,
                    ) ==> final(self).boards@[c] == old(self).boards@[c]
                &&& final(events)@ == old(events)@.push(
                    Event::TaskChangeState(
                        old(task).hash,
                        spec_kind_ordinal(old(task).kind),
                        spec_kind_ordinal(to_kind),
                        now,
                    ),
                )
                &&& (to_kind is InDelivery ==> Self::staking_effect(
                    old(self).staking_pay_pool,
                    *old(ledger),
                    final(self).staking_pay_pool,
                    *final(ledger),
                    old(task).receivers@,
                    old(task).hash,
                    old(task).judge_pay,
                ) && final(self).issuer_pay_pool == old(self).issuer_pay_pool)
                &&& (to_kind is Failure ==> Self::issuer_back_effect(
                    old(self).issuer_pay_pool,
                    old(self).staking_pay_pool,
                    *old(ledger),
                    final(self).issuer_pay_pool,
                    final(self).staking_pay_pool,
                    *final(ledger),
                    old(task).issuer,
                    old(task).hash,
                    !spec_history_has_arbitration(old(task).history@.push((to_kind, now))),
                ))
                &&& (to_kind is Done ==> Self::reward_effect(
                    *old(ledger),
                    *final(ledger),
                    old(task).receivers@,
                    old(self).issuer_pay_pool.spec_amount(old(task).issuer, old(task).hash),
                ) && final(self).issuer_pay_pool.spec_amount(old(task).issuer, old(task).hash)
                    == 0 && final(self).staking_pay_pool == old(self).staking_pay_pool)
                &&& ((to_kind is Deliveryed || to_kind is Arbitration) ==> final(self).issuer_pay_pool == old(self).issuer_pay_pool && final(self).staking_pay_pool
                    == old(self).staking_pay_pool && *final(ledger) == *old(ledger))
            },
    {
        let ghost pre_self = *old(self);
        let from_kind = task.kind;
        if !valid_transition(from_kind, to_kind) {
            return Err(Error::TaskChangeStatusFail);
        }
        let b_from = kind_ordinal(from_kind) as usize;
        let b_to = kind_ordinal(to_kind) as usize;
        proof {
            crate::types::lemma_transition_strictly_forward(from_kind, to_kind);
        }
        if self.board_find(b_from, task.hash).is_none() {
            return Err(Error::TaskNotInBoard);
        }
        if self.board_find(b_to, task.hash).is_some() {
            return Err(Error::TaskInWrongBoard);
        }
        let ghost h = task.hash;
        proof {
            let k = choose|k: int|
                0 <= k < pre_self.boards@[b_from as int].inner_board@.len()
                    && pre_self.boards@[b_from as int].inner_board@[k] == h;
            assert(pre_self.spec_has_hash(h));
        }
        let mut new_task = clone_task(task);
        new_task.kind = to_kind;
        new_task.history.push((to_kind, now));
        proof {
            assert(new_task.history@ =~= task.history@.push((to_kind, now)));
            assert(task_wf(new_task));
            let pj = pre_self.spec_index_of(h);
            pre_self.lemma_task_at(pj);
        }
        match self.save_task(ledger, &new_task) {
            Ok(()) => {}
            Err(e) => {
                return Err(e);
            }
        }
        let ghost s1 = *self;
        self.board_remove(b_from, task.hash);
        let ghost s2 = *self;
        self.board_insert(b_to, task.hash);
        events.push(
            Event::TaskChangeState(task.hash, kind_ordinal(from_kind), kind_ordinal(to_kind), now),
        );
        *task = new_task;
        proof {
            assert(self.store_wf()) by {
                assert forall|b: int|
                    0 <= b < 6 implies board_nodup(
                    (#[trigger] self.boards@[b]).inner_board@,
                ) by {
                    if b == b_to as int {
                        assert forall|ii: int, jj: int|
                            0 <= ii < jj < self.boards@[b].inner_board@.len() implies self
                            .boards@[b].inner_board@[ii] != self.boards@[b].inner_board@[jj] by {
                            if jj == self.boards@[b].inner_board@.len() - 1 {
                                assert(self.boards@[b].inner_board@[jj] == h);
                                assert(self.boards@[b].inner_board@[ii] == pre_self.boards@[
                                    b
                                ].inner_board@[ii]);
                                assert(!board_has(pre_self.boards@[b].inner_board@, h));
                            } else {
                                assert(self.boards@[b].inner_board@[ii] == pre_self.boards@[
                                    b
                                ].inner_board@[ii]);
                                assert(self.boards@[b].inner_board@[jj] == pre_self.boards@[
                                    b
                                ].inner_board@[jj]);
                            }
                        }
                    }
                }
            }
            assert forall|i: int| 0 <= i < self.tasks@.len() implies board_has(
                self.boards@[spec_kind_ordinal((#[trigger] self.tasks@[i]).kind) as int].inner_board@,
                self.tasks@[i].hash,
            ) by {
                let t = self.tasks@[i];
                s1.lemma_task_at(i);
                if t.hash == h {
                    assert(t.kind == to_kind);
                    lemma_board_has_push(s2.boards@[b_to as int].inner_board@, h, t.hash);
                } else {
                    assert(Self::spec_task_same_at(pre_self, s1, t.hash));
                    let pj = choose|pj: int|
                        0 <= pj < pre_self.tasks@.len() && (
                        #[trigger] pre_self.tasks@[pj]).hash == t.hash;
                    pre_self.lemma_task_at(pj);
                    assert(board_has(
                        pre_self.boards@[spec_kind_ordinal(t.kind) as int].inner_board@,
                        t.hash,
                    ));
                    if spec_kind_ordinal(t.kind) == b_from {
                        assert(board_has(s2.boards@[b_from as int].inner_board@, t.hash));
                    }
                    if spec_kind_ordinal(t.kind) == b_to {
                        lemma_board_has_push(s2.boards@[b_to as int].inner_board@, h, t.hash);
                    }
                }
            }
            assert forall|i: int, b: int|
                0 <= i < self.tasks@.len() && 0 <= b < 6 && b != spec_kind_ordinal(
                    (#[trigger] self.tasks@[i]).kind,
                ) implies !board_has(
                (#[trigger] self.boards@[b]).inner_board@,
                self.tasks@[i].hash,
            ) by {
                let t = self.tasks@[i];
                s1.lemma_task_at(i);
                if t.hash == h {
                    assert(t.kind == to_kind);
                    let pj = choose|pj: int|
                        0 <= pj < pre_self.tasks@.len() && (
                        #[trigger] pre_self.tasks@[pj]).hash == h;
                    pre_self.lemma_task_at(pj);
                    assert(spec_kind_ordinal(pre_self.tasks@[pj].kind) == b_from as int) by {
                        if spec_kind_ordinal(pre_self.tasks@[pj].kind) != b_from as int {
                            assert(!board_has(
                                pre_self.boards@[b_from as int].inner_board@,
                                h,
                            ));
                        }
                    }
                    if b == b_from as int {
                        assert(!board_has(self.boards@[b].inner_board@, h));
                    } else {
                        assert(!board_has(pre_self.boards@[b].inner_board@, h));
                        if b == b_to as int {
                        } else {
                            assert(self.boards@[b] == pre_self.boards@[b]);
                        }
                    }
                } else {
                    assert(Self::spec_task_same_at(pre_self, s1, t.hash));
                    let pj = choose|pj: int|
                        0 <= pj < pre_self.tasks@.len() && (
                        #[trigger] pre_self.tasks@[pj]).hash == t.hash;
                    pre_self.lemma_task_at(pj);
                    assert(!board_has(pre_self.boards@[b].inner_board@, t.hash));
                    if b == b_from as int {
                        assert(board_has(self.boards@[b].inner_board@, t.hash) == board_has(
                            pre_self.boards@[b].inner_board@,
                            t.hash,
                        ));
                    } else if b == b_to as int {
                        lemma_board_has_push(s2.boards@[b_to as int].inner_board@, h, t.hash);
                    } else {
                        assert(self.boards@[b] == pre_self.boards@[b]);
                    }
                }
            }
            assert forall|b: int, k: int|
                0 <= b < 6 && 0 <= k < (#[trigger] self.boards@[b]).inner_board@.len() implies
                self.spec_has_hash(#[trigger] self.boards@[b].inner_board@[k]) by {
                let x = self.boards@[b].inner_board@[k];
                assert(board_has(self.boards@[b].inner_board@, x));
                if x == h {
                    assert(s1.spec_has_hash(h));
                    let j = choose|j: int|
                        0 <= j < s1.tasks@.len() && (#[trigger] s1.tasks@[j]).hash == h;
                    assert(self.tasks@[j].hash == h);
                    assert(self.spec_has_hash(x));
                } else {
                    assert(board_has(pre_self.boards@[b].inner_board@, x)) by {
                        if b == b_from as int {
                        } else if b == b_to as int {
                            lemma_board_has_push(s2.boards@[b_to as int].inner_board@, h, x);
                        } else {
                            assert(self.boards@[b] == pre_self.boards@[b]);
                        }
                    }
                    let kk = choose|kk: int|
                        0 <= kk < pre_self.boards@[b].inner_board@.len() && pre_self.boards@[
                            b
                        ].inner_board@[kk] == x;
                    assert(pre_self.spec_has_hash(x));
                    assert(Self::spec_task_same_at(pre_self, s1, x));
                    assert(s1.spec_has_hash(x));
                    let sj = choose|sj: int|
                        0 <= sj < s1.tasks@.len() && (#[trigger] s1.tasks@[sj]).hash == x;
                    assert(self.tasks@[sj].hash == x);
                }
            }
            assert(self.wf());
            Self::lemma_views_from_tasks(s1, *self, h);
            assert(self.spec_stores_task(new_task));
            assert forall|g: TaskHash| g != h implies Self::spec_task_same_at(
                pre_self,
                *self,
                g,
            ) by {
                assert(Self::spec_task_same_at(pre_self, s1, g));
                Self::lemma_views_from_tasks(s1, *self, g);
            }
        }
        Ok(())
    }

    /// The step's structural preconditions hold: the edge is in the
    /// transition table and the identifier sits in the source board and not
    /// in the target board.
    pub open spec fn spec_step_allowed(pre: TaskBoard, t: Task, to_kind: TaskKind) -> bool {
        &&& spec_valid_transition(t.kind, to_kind)
        &&& board_has(
            pre.boards@[spec_kind_ordinal(t.kind) as int].inner_board@,
            t.hash,
        )
        &&& !board_has(pre.boards@[spec_kind_ordinal(to_kind) as int].inner_board@, t.hash)
    }

    /// Task state flow: moves the record to `to_kind`. Creation (to
    /// Published) demands a fresh identifier; any other step demands an edge
    /// of the transition table with the identifier sitting in the source
    /// board and not in the target board. The record's history gains the
    /// step, the boards move the identifier, and the escrow operation bound
    /// to the step runs. All or nothing: on any failure the store, the
    /// ledger, the record and the event log are unchanged.
    pub fn change_task_status(
        &mut self,
        ledger: &mut Ledger,
        events: &mut Vec<Event>,
        task: &mut Task,
        to_kind: TaskKind,
        now: u64,
    ) -> (r: Result<(), Error>)
        requires
            old(self).wf(),
            old(ledger).wf(),
            to_kind is Published ==> old(task).kind is Published && old(task).history@.len() == 0
                && old(task).hash.nonce < old(self).nonce,
            !(to_kind is Published) ==> task_wf(*old(task)) && old(task).receivers@.len() > 0,
        ensures
            final(self).wf(),
            final(ledger).wf(),
            final(self).nonce == old(self).nonce,
            r is Err ==> *final(self) == *old(self) && *final(ledger) == *old(ledger) && *final(events) == *old(events) && *final(task) == *old(task),
            r is Ok ==> {
                &&& final(task).kind == to_kind
                &&& final(task).history@ == old(task).history@.push((to_kind, now))
                &&& final(task).hash == old(task).hash
                &&& final(task).issuer == old(task).issuer
                &&& final(task).receivers@ == old(task).receivers@
                &&& final(task).description@ == old(task).description@
                &&& final(task).pay == old(task).pay
                &&& final(task).judge_pay == old(task).judge_pay
                &&& final(task).min_rep == old(task).min_rep
                &&& final(task).req_subjects@ == old(task).req_subjects@
                &&& final(task).delivery_certificate == old(task).delivery_certificate
                &&& final(self).spec_stores_task(*final(task))
                &&& forall|g: TaskHash|
                    g != old(task).hash ==> Self::spec_task_same_at(*old(self), *final(self), g)
            },
            to_kind is Published ==> {
                &&& (old(self).spec_has_hash(old(task).hash) ==> r == Err::<(), Error>(
                    Error::TaskDuplicated,
                ))
                &&& (!old(self).spec_has_hash(old(task).hash) && old(self).tasks@.len()
                    == usize::MAX ==> r == Err::<(), Error>(Error::TaskCheckAddFail))
                &&& (!old(self).spec_has_hash(old(task).hash) && old(self).tasks@.len()
                    < usize::MAX ==> (r is Ok <==> old(ledger).spec_balance(old(task).issuer)
                    >= old(task).pay + old(task).judge_pay) && (r is Err ==> r == Err::<(), Error>(
                    Error::InsufficientFunds,
                )))
                &&& (r is Ok ==> {
                    &&& final(self).tasks@.len() == old(self).tasks@.len() + 1
                    &&& Self::issuer_pay_effect(
                        old(self).issuer_pay_pool,
                        old(self).staking_pay_pool,
                        *old(ledger),
                        final(self).issuer_pay_pool,
                        final(self).staking_pay_pool,
                        *final(ledger),
                        old(task).issuer,
                        old(task).hash,
                        old(task).pay,
                        old(task).judge_pay,
                    )
                    &&& final(self).boards@[0].inner_board@ == old(self).boards@[
                        0
                    ].inner_board@.push(old(task).hash)
                    &&& forall|c: int|
                        1 <= c < 6 ==> final(self).boards@[c] == old(self).boards@[c]
                    &&& final(events)@ == old(events)@.push(
                        Event::TaskPublish(old(task).issuer, old(task).hash, now),
                    )
                })
            },
            !(to_kind is Published) ==> {
                &&& (!spec_valid_transition(old(task).kind, to_kind) ==> r == Err::<(), Error>(
                    Error::TaskChangeStatusFail,
                ))
                &&& (spec_valid_transition(old(task).kind, to_kind) && !board_has(
                    old(self).boards@[spec_kind_ordinal(old(task).kind) as int].inner_board@,
                    old(task).hash,
                ) ==> r == Err::<(), Error>(Error::TaskNotInBoard))
                &&& (spec_valid_transition(old(task).kind, to_kind) && board_has(
                    old(self).boards@[spec_kind_ordinal(old(task).kind) as int].inner_board@,
                    old(task).hash,
                ) && board_has(
                    old(self).boards@[spec_kind_ordinal(to_kind) as int].inner_board@,
                    old(task).hash,
                ) ==> r == Err::<(), Error>(Error::TaskInWrongBoard))
                &&& (Self::spec_step_allowed(*old(self), *old(task), to_kind) ==> {
                    &&& (to_kind is InDelivery ==> (r is Ok <==> forall|j: int|
                        0 <= j < old(task).receivers@.len() ==> old(self).staking_pay_pool.spec_contains(
                            #[trigger] old(task).receivers@[j],
                            old(task).hash,
                        ) || old(ledger).spec_balance(old(task).receivers@[j]) >= old(task).judge_pay) && (r is Err ==> r == Err::<(), Error>(
                        Error::InsufficientFunds,
                    )))
                    &&& (to_kind is Failure ==> (r is Ok <==> old(ledger).spec_has_account(
                        old(task).issuer,
                    ) && old(ledger).spec_balance(old(task).issuer) + old(self).issuer_pay_pool.spec_amount(old(task).issuer, old(task).hash) + (
                    if !spec_history_has_arbitration(old(task).history@.push((to_kind, now))) {
                        old(self).staking_pay_pool.spec_amount(
                            old(task).issuer,
                            old(task).hash,
                        ) as int
                    } else {
                        0
                    }) <= u64::MAX) && (r is Err ==> r == Err::<(), Error>(Error::AccountMissing)
                        || r == Err::<(), Error>(Error::BalanceOverflow)))
                    &&& (to_kind is Done ==> (r is Ok <==> forall|j: int|
                        0 <= j < old(task).receivers@.len() ==> old(ledger).spec_has_account(
                            #[trigger] old(task).receivers@[j],
                        ) && old(ledger).spec_balance(old(task).receivers@[j]) + old(self).issuer_pay_pool.spec_amount(old(task).issuer, old(task).hash)
                            <= u64::MAX) && (r is Err ==> r == Err::<(), Error>(
                        Error::AccountMissing,
                    ) || r == Err::<(), Error>(Error::BalanceOverflow)))
                    &&& ((to_kind is Deliveryed || to_kind is Arbitration) ==> r is Ok)
                })
                &&& (r is Ok ==> {
                    &&& spec_valid_transition(old(task).kind, to_kind)
                    &&& final(self).tasks@.len() == old(self).tasks@.len()
                    &&& !board_has(
                        final(self).boards@[spec_kind_ordinal(old(task).kind) as int].inner_board@,
                        old(task).hash,
                    )
                    &&& final(self).boards@[spec_kind_ordinal(to_kind) as int].inner_board@ == old(self).boards@[spec_kind_ordinal(to_kind) as int].inner_board@.push(old(task).hash)
                    &&& forall|c: int|
                        0 <= c < 6 && c != spec_kind_ordinal(old(task).kind) && c
                            != spec_kind_ordinal(to_kind) ==> final(self).boards@[c] == old(self).boards@[c]
                    &&& final(events)@ == old(events)@.push(
                        Event::TaskChangeState(
                            old(task).hash,
                            spec_kind_ordinal(old(task).kind),
                            spec_kind_ordinal(to_kind),
                            now,
                        ),
                    )
                    &&& (to_kind is InDelivery ==> Self::staking_effect(
                        old(self).staking_pay_pool,
                        *old(ledger),
                        final(self).staking_pay_pool,
                        *final(ledger),
                        old(task).receivers@,
                        old(task).hash,
                        old(task).judge_pay,
                    ) && final(self).issuer_pay_pool == old(self).issuer_pay_pool)
                    &&& (to_kind is Failure ==> Self::issuer_back_effect(
                        old(self).issuer_pay_pool,
                        old(self).staking_pay_pool,
                        *old(ledger),
                        final(self).issuer_pay_pool,
                        final(self).staking_pay_pool,
                        *final(ledger),
                        old(task).issuer,
                        old(task).hash,
                        !spec_history_has_arbitration(old(task).history@.push((to_kind, now))),
                    ))
                    &&& (to_kind is Done ==> Self::reward_effect(
                        *old(ledger),
                        *final(ledger),
                        old(task).receivers@,
                        old(self).issuer_pay_pool.spec_amount(old(task).issuer, old(task).hash),
                    ) && final(self).issuer_pay_pool.spec_amount(
                        old(task).issuer,
                        old(task).hash,
                    ) == 0 && final(self).staking_pay_pool == old(self).staking_pay_pool)
                    &&& ((to_kind is Deliveryed || to_kind is Arbitration) ==> final(self).issuer_pay_pool == old(self).issuer_pay_pool && final(self).staking_pay_pool
                        == old(self).staking_pay_pool && *final(ledger) == *old(ledger))
                })
            },
    {
        if matches!(to_kind, TaskKind::Published) {
            self.change_to_published(ledger, events, task, now)
        } else {
            self.change_forward(ledger, events, task, to_kind, now)
        }
    }
}



impl TaskBoard {
    /// A stored task whose state has an accepted outgoing edge can take that
    /// step: its identifier sits in its state's board and not in the target
    /// board.
    pub proof fn lemma_stored_step_allowed(self, t: Task, to_kind: TaskKind)
        requires
            self.wf(),
            self.spec_has_hash(t.hash),
            t.kind == self.spec_kind_of(t.hash),
            spec_valid_transition(t.kind, to_kind),
        ensures
            Self::spec_step_allowed(self, t, to_kind),
    {
        let i = self.spec_index_of(t.hash);
        self.lemma_task_at(i);
        crate::types::lemma_transition_strictly_forward(t.kind, to_kind);
        assert(board_has(
            self.boards@[spec_kind_ordinal(self.tasks@[i].kind) as int].inner_board@,
            self.tasks@[i].hash,
        ));
        assert(!board_has(
            self.boards@[spec_kind_ordinal(to_kind) as int].inner_board@,
            self.tasks@[i].hash,
        ));
    }

    /// Eligibility of a candidate, phrased over the stored task's fields: a
    /// credential for every required subject, reputation at or above the
    /// floor, and not being the issuer.
    pub open spec fn spec_eligible(
        identity: IdentityRegistry,
        reputation: ReputationStore,
        subjects: Seq<u32>,
        min_rep: u32,
        issuer: AccountId,
        player: AccountId,
    ) -> bool {
        &&& forall|s: int|
            0 <= s < subjects.len() ==> identity.spec_has_credential(
                player,
                #[trigger] subjects[s],
            )
        &&& reputation.spec_rep_of(player) >= min_rep
        &&& issuer != player
    }

    /// Publishes a task: derives its content-addressed, nonce-salted
    /// identifier, escrows the issuer's payment and arbitration deposit,
    /// stores the record as Published and enters it into the Published
    /// board. Because the nonce half of the identifier is fresh, publication
    /// never collides with a stored task, and identical content published
    /// twice receives two distinct identifiers.
    pub fn do_publish_task(
        &mut self,
        ledger: &mut Ledger,
        events: &mut Vec<Event>,
        sender: AccountId,
        desc: Vec<u8>,
        min_rep: u32,
        pay: Balance,
        judge_pay: Balance,
        req_subjects: Vec<u32>,
        now: u64,
    ) -> (r: Result<TaskHash, Error>)
        requires
            old(self).wf(),
            old(ledger).wf(),
            desc@.len() <= u32::MAX,
            req_subjects@.len() <= u32::MAX,
        ensures
            final(self).wf(),
            final(ledger).wf(),
            r is Ok <==> old(self).nonce < u64::MAX && old(self).tasks@.len() < usize::MAX && old(ledger).spec_balance(sender) >= pay + judge_pay,
            old(self).nonce == u64::MAX || old(self).tasks@.len() == usize::MAX ==> r == Err::<
                TaskHash,
                Error,
            >(Error::TaskCheckAddFail),
            old(self).nonce < u64::MAX && old(self).tasks@.len() < usize::MAX && old(ledger).spec_balance(sender) < pay + judge_pay ==> r == Err::<TaskHash, Error>(
                Error::InsufficientFunds,
            ),
            r is Err ==> *final(self) == *old(self) && *final(ledger) == *old(ledger) && *final(events) == *old(events),
            r is Ok ==> {
                &&& r->Ok_0 == (TaskHash {
                    digest: spec_content_digest(
                        desc@,
                        min_rep,
                        pay,
                        judge_pay,
                        req_subjects@,
                        old(self).nonce,
                    ),
                    nonce: old(self).nonce,
                })
                &&& !old(self).spec_has_hash(r->Ok_0)
                &&& final(self).nonce == old(self).nonce + 1
                &&& final(self).tasks@.len() == old(self).tasks@.len() + 1
                &&& final(self).spec_has_hash(r->Ok_0)
                &&& final(self).spec_kind_of(r->Ok_0) is Published
                &&& final(self).spec_issuer_of(r->Ok_0) == sender
                &&& final(self).spec_receivers_of(r->Ok_0) == Seq::<AccountId>::empty()
                &&& final(self).spec_description_of(r->Ok_0) == desc@
                &&& final(self).spec_pay_of(r->Ok_0) == pay
                &&& final(self).spec_judge_pay_of(r->Ok_0) == judge_pay
                &&& final(self).spec_min_rep_of(r->Ok_0) == min_rep
                &&& final(self).spec_req_subjects_of(r->Ok_0) == req_subjects@
                &&& final(self).spec_history_of(r->Ok_0) == Seq::<(TaskKind, u64)>::empty().push(
                    (TaskKind::Published, now),
                )
                &&& final(self).spec_cert_of(r->Ok_0) == 0
                &&& forall|g: TaskHash|
                    g != r->Ok_0 ==> Self::spec_task_same_at(*old(self), *final(self), g)
                &&& Self::issuer_pay_effect(
                    old(self).issuer_pay_pool,
                    old(self).staking_pay_pool,
                    *old(ledger),
                    final(self).issuer_pay_pool,
                    final(self).staking_pay_pool,
                    *final(ledger),
                    sender,
                    r->Ok_0,
                    pay,
                    judge_pay,
                )
                &&& final(self).boards@[0].inner_board@ == old(self).boards@[0].inner_board@.push(
                    r->Ok_0,
                )
                &&& forall|c: int| 1 <= c < 6 ==> final(self).boards@[c] == old(self).boards@[c]
                &&& final(events)@ == old(events)@.push(Event::TaskPublish(sender, r->Ok_0, now))
            },
    {
        let ghost pre_self = *old(self);
        if self.nonce == u64::MAX {
            return Err(Error::TaskCheckAddFail);
        }
        if self.tasks.len() == usize::MAX {
            return Err(Error::TaskCheckAddFail);
        }
        let bal = ledger.balance_of(sender);
        if bal < pay || bal - pay < judge_pay {
            return Err(Error::InsufficientFunds);
        }
        let mut task = Task::default();
        task.description = desc;
        task.min_rep = min_rep;
        task.pay = pay;
        task.judge_pay = judge_pay;
        task.issuer = sender;
        task.req_subjects = req_subjects;
        let hash = self.task_hash(&task);
        task.hash = hash;
        let ghost mid_self = *self;
        proof {
            if self.spec_has_hash(hash) {
                let i = choose|i: int|
                    0 <= i < self.tasks@.len() && (#[trigger] self.tasks@[i]).hash == hash;
                assert(pre_self.tasks@[i].hash.nonce < pre_self.nonce);
            }
            assert(!self.spec_has_hash(hash));
            if pre_self.spec_has_hash(hash) {
                let i = choose|i: int|
                    0 <= i < pre_self.tasks@.len() && (#[trigger] pre_self.tasks@[i]).hash == hash;
                assert(self.tasks@[i].hash == hash);
            }
            assert(!pre_self.spec_has_hash(hash));
            assert(mid_self.wf());
        }
        let r = self.change_task_status(ledger, events, &mut task, TaskKind::Published, now);
        proof {
            assert(r is Ok);
            assert(task.history@ =~= Seq::<(TaskKind, u64)>::empty().push(
                (TaskKind::Published, now),
            ));
            assert forall|g: TaskHash| g != hash implies Self::spec_task_same_at(
                pre_self,
                *self,
                g,
            ) by {
                Self::lemma_views_from_tasks(pre_self, mid_self, g);
                assert(Self::spec_task_same_at(mid_self, *self, g));
            }
        }
        match r {
            Ok(()) => Ok(hash),
            Err(e) => Err(e),
        }
    }

    /// Claims a task for a team: the caller leads the candidates, every
    /// member must hold all required credentials, meet the reputation floor
    /// and not be the issuer; each member stakes the arbitration deposit
    /// once, and the task moves Published -> InDelivery.
    pub fn do_claim_task(
        &mut self,
        ledger: &mut Ledger,
        identity: &IdentityRegistry,
        reputation: &ReputationStore,
        events: &mut Vec<Event>,
        sender: AccountId,
        hash: TaskHash,
        players: Vec<AccountId>,
        now: u64,
    ) -> (r: Result<(), Error>)
        requires
            old(self).wf(),
            old(ledger).wf(),
            reputation.wf(),
        ensures
            final(self).wf(),
            final(ledger).wf(),
            r is Err ==> *final(self) == *old(self) && *final(ledger) == *old(ledger) && *final(events) == *old(events),
            !old(self).spec_has_hash(hash) ==> r == Err::<(), Error>(Error::TaskNotFoundAtIndex),
            old(self).spec_has_hash(hash) && !(old(self).spec_kind_of(hash) is Published) ==> r
                == Err::<(), Error>(Error::TaskNotWaitForRecv),
            old(self).spec_has_hash(hash) && old(self).spec_kind_of(hash) is Published
                && spec_contains_account(players@, sender) ==> r == Err::<(), Error>(
                Error::TaskTeamLeaderRepeatSetting,
            ),
            old(self).spec_has_hash(hash) && old(self).spec_kind_of(hash) is Published
                && !spec_contains_account(players@, sender) && !(forall|j: int|
                0 <= j < players@.push(sender).len() ==> Self::spec_eligible(
                    *identity,
                    *reputation,
                    old(self).spec_req_subjects_of(hash),
                    old(self).spec_min_rep_of(hash),
                    old(self).spec_issuer_of(hash),
                    #[trigger] players@.push(sender)[j],
                )) ==> r == Err::<(), Error>(Error::TaskPlayerIsInvalid),
            old(self).spec_has_hash(hash) && old(self).spec_kind_of(hash) is Published
                && !spec_contains_account(players@, sender) && (forall|j: int|
                0 <= j < players@.push(sender).len() ==> Self::spec_eligible(
                    *identity,
                    *reputation,
                    old(self).spec_req_subjects_of(hash),
                    old(self).spec_min_rep_of(hash),
                    old(self).spec_issuer_of(hash),
                    #[trigger] players@.push(sender)[j],
                )) ==> {
                &&& (r is Ok <==> forall|j: int|
                    0 <= j < players@.push(sender).len() ==> old(self).staking_pay_pool.spec_contains(#[trigger] players@.push(sender)[j], hash)
                        || old(ledger).spec_balance(players@.push(sender)[j]) >= old(self).spec_judge_pay_of(hash))
                &&& (r is Err ==> r == Err::<(), Error>(Error::InsufficientFunds))
            },
            r is Ok ==> {
                &&& final(self).spec_has_hash(hash)
                &&& final(self).spec_kind_of(hash) is InDelivery
                &&& final(self).spec_receivers_of(hash) == players@.push(sender)
                &&& final(self).spec_history_of(hash) == old(self).spec_history_of(hash).push(
                    (TaskKind::InDelivery, now),
                )
                &&& final(self).spec_issuer_of(hash) == old(self).spec_issuer_of(hash)
                &&& final(self).spec_pay_of(hash) == old(self).spec_pay_of(hash)
                &&& final(self).spec_judge_pay_of(hash) == old(self).spec_judge_pay_of(hash)
                &&& final(self).spec_min_rep_of(hash) == old(self).spec_min_rep_of(hash)
                &&& final(self).spec_req_subjects_of(hash) == old(self).spec_req_subjects_of(hash)
                &&& final(self).spec_description_of(hash) == old(self).spec_description_of(hash)
                &&& final(self).spec_cert_of(hash) == old(self).spec_cert_of(hash)
                &&& forall|g: TaskHash|
                    g != hash ==> Self::spec_task_same_at(*old(self), *final(self), g)
                &&& Self::staking_effect(
                    old(self).staking_pay_pool,
                    *old(ledger),
                    final(self).staking_pay_pool,
                    *final(ledger),
                    players@.push(sender),
                    hash,
                    old(self).spec_judge_pay_of(hash),
                )
                &&& final(self).issuer_pay_pool == old(self).issuer_pay_pool
                &&& final(self).boards@[1].inner_board@ == old(self).boards@[1].inner_board@.push(
                    hash,
                )
                &&& !board_has(final(self).boards@[0].inner_board@, hash)
                &&& forall|c: int| 2 <= c < 6 ==> final(self).boards@[c] == old(self).boards@[c]
                &&& final(events)@ == old(events)@.push(
                    Event::TaskChangeState(hash, 0, 1, now),
                ).push(Event::TaskClaimed(sender, hash))
                &&& final(self).nonce == old(self).nonce
                &&& final(self).tasks@.len() == old(self).tasks@.len()
            },
    {
        let mut task = match self.query_task_by_hash(hash) {
            Ok(t) => t,
            Err(e) => {
                return Err(e);
            }
        };
        if !matches!(task.kind, TaskKind::Published) {
            return Err(Error::TaskNotWaitForRecv);
        }
        if contains_account(&players, sender) {
            return Err(Error::TaskTeamLeaderRepeatSetting);
        }
        let ghost orig_players = players@;
        let mut players = players;
        let ghost candidates = players@.push(sender);
        players.push(sender);
        let mut i: usize = 0;
        #[verifier::loop_isolation(false)]
        while i < players.len()
            invariant
                i <= players@.len(),
                players@ == candidates,
                forall|j: int|
                    0 <= j < i ==> Self::spec_eligible(
                        *identity,
                        *reputation,
                        old(self).spec_req_subjects_of(hash),
                        old(self).spec_min_rep_of(hash),
                        old(self).spec_issuer_of(hash),
                        #[trigger] players@[j],
                    ),
            decreases players@.len() - i,
        {
            if !Self::verify_claim(identity, reputation, &task, players[i]) {
                return Err(Error::TaskPlayerIsInvalid);
            }
            i = i + 1;
        }
        task.receivers = players;
        proof {
            self.lemma_stored_step_allowed(task, TaskKind::InDelivery);
        }
        let r = self.change_task_status(ledger, events, &mut task, TaskKind::InDelivery, now);
        match r {
            Ok(()) => {
                events.push(Event::TaskClaimed(sender, hash));
                Ok(())
            }
            Err(e) => Err(e),
        }
    }

    /// The team leader (the last receiver) delivers the task with its
    /// certificate; the task moves InDelivery -> Deliveryed.
    pub fn do_claim_deliver_task(
        &mut self,
        ledger: &mut Ledger,
        events: &mut Vec<Event>,
        sender: AccountId,
        hash: TaskHash,
        delivery_certificate: u64,
        now: u64,
    ) -> (r: Result<(), Error>)
        requires
            old(self).wf(),
            old(ledger).wf(),
        ensures
            final(self).wf(),
            final(ledger).wf(),
            *final(ledger) == *old(ledger),
            r is Err ==> *final(self) == *old(self) && *final(events) == *old(events),
            !old(self).spec_has_hash(hash) ==> r == Err::<(), Error>(Error::TaskNotFoundAtIndex),
            old(self).spec_has_hash(hash) && !(old(self).spec_kind_of(hash) is InDelivery) ==> r
                == Err::<(), Error>(Error::TaskKindInvalid),
            old(self).spec_has_hash(hash) && old(self).spec_kind_of(hash) is InDelivery && old(self).spec_receivers_of(hash).last() != sender ==> r == Err::<(), Error>(
                Error::PermissionError,
            ),
            r is Ok <==> old(self).spec_has_hash(hash) && old(self).spec_kind_of(hash)
                is InDelivery && old(self).spec_receivers_of(hash).last() == sender,
            r is Ok ==> {
                &&& final(self).spec_has_hash(hash)
                &&& final(self).spec_kind_of(hash) is Deliveryed
                &&& final(self).spec_cert_of(hash) == delivery_certificate
                &&& final(self).spec_receivers_of(hash) == old(self).spec_receivers_of(hash)
                &&& final(self).spec_history_of(hash) == old(self).spec_history_of(hash).push(
                    (TaskKind::Deliveryed, now),
                )
                &&& final(self).spec_issuer_of(hash) == old(self).spec_issuer_of(hash)
                &&& final(self).spec_pay_of(hash) == old(self).spec_pay_of(hash)
                &&& final(self).spec_judge_pay_of(hash) == old(self).spec_judge_pay_of(hash)
                &&& final(self).spec_min_rep_of(hash) == old(self).spec_min_rep_of(hash)
                &&& final(self).spec_req_subjects_of(hash) == old(self).spec_req_subjects_of(hash)
                &&& final(self).spec_description_of(hash) == old(self).spec_description_of(hash)
                &&& forall|g: TaskHash|
                    g != hash ==> Self::spec_task_same_at(*old(self), *final(self), g)
                &&& final(self).issuer_pay_pool == old(self).issuer_pay_pool
                &&& final(self).staking_pay_pool == old(self).staking_pay_pool
                &&& final(self).boards@[2].inner_board@ == old(self).boards@[2].inner_board@.push(
                    hash,
                )
                &&& !board_has(final(self).boards@[1].inner_board@, hash)
                &&& forall|c: int|
                    0 <= c < 6 && c != 1 && c != 2 ==> final(self).boards@[c] == old(self).boards@[c]
                &&& final(events)@ == old(events)@.push(Event::TaskChangeState(hash, 1, 2, now))
                &&& final(self).nonce == old(self).nonce
            },
    {
        let mut task = match self.query_task_by_hash(hash) {
            Ok(t) => t,
            Err(e) => {
                return Err(e);
            }
        };
        if !matches!(task.kind, TaskKind::InDelivery) {
            return Err(Error::TaskKindInvalid);
        }
        if task.receivers.len() == 0 {
            return Err(Error::TaskRecvEmpty);
        }
        if task.receivers[task.receivers.len() - 1] != sender {
            return Err(Error::PermissionError);
        }
        task.delivery_certificate = delivery_certificate;
        proof {
            self.lemma_stored_step_allowed(task, TaskKind::Deliveryed);
        }
        let r = self.change_task_status(ledger, events, &mut task, TaskKind::Deliveryed, now);
        proof {
            assert(r is Ok);
        }
        Ok(())
    }

    /// A participant applies for arbitration on a Deliveryed task: a fresh
    /// judgement is opened with the task's arbitration deposit as pledge,
    /// and the task moves Deliveryed -> Arbitration.
    pub fn do_request_for_judge(
        &mut self,
        ledger: &mut Ledger,
        judges: &mut JudgePool,
        events: &mut Vec<Event>,
        sender: AccountId,
        hash: TaskHash,
        now: u64,
    ) -> (r: Result<(), Error>)
        requires
            old(self).wf(),
            old(ledger).wf(),
            old(judges).wf(),
        ensures
            final(self).wf(),
            final(ledger).wf(),
            final(judges).wf(),
            *final(ledger) == *old(ledger),
            r is Err ==> *final(self) == *old(self) && *final(judges) == *old(judges) && *final(events) == *old(events),
            !old(self).spec_has_hash(hash) ==> r == Err::<(), Error>(Error::TaskNotFoundAtIndex),
            old(self).spec_has_hash(hash) && !(old(self).spec_issuer_of(hash) == sender
                || spec_contains_account(old(self).spec_receivers_of(hash), sender)) ==> r
                == Err::<(), Error>(Error::TaskParticipantInvalid),
            old(self).spec_has_hash(hash) && (old(self).spec_issuer_of(hash) == sender
                || spec_contains_account(old(self).spec_receivers_of(hash), sender)) && !(old(self).spec_kind_of(hash) is Deliveryed) ==> r == Err::<(), Error>(Error::TaskKindInvalid),
            old(self).spec_has_hash(hash) && (old(self).spec_issuer_of(hash) == sender
                || spec_contains_account(old(self).spec_receivers_of(hash), sender)) && old(self).spec_kind_of(hash) is Deliveryed && old(judges).spec_has_judgement(hash) ==> r
                == Err::<(), Error>(Error::JudgeKindInvalid),
            r is Ok <==> old(self).spec_has_hash(hash) && (old(self).spec_issuer_of(hash) == sender
                || spec_contains_account(old(self).spec_receivers_of(hash), sender)) && old(self).spec_kind_of(hash) is Deliveryed && !old(judges).spec_has_judgement(hash),
            r is Ok ==> {
                &&& final(self).spec_has_hash(hash)
                &&& final(self).spec_kind_of(hash) is Arbitration
                &&& final(self).spec_history_of(hash) == old(self).spec_history_of(hash).push(
                    (TaskKind::Arbitration, now),
                )
                &&& final(self).spec_receivers_of(hash) == old(self).spec_receivers_of(hash)
                &&& final(self).spec_issuer_of(hash) == old(self).spec_issuer_of(hash)
                &&& final(self).spec_pay_of(hash) == old(self).spec_pay_of(hash)
                &&& final(self).spec_judge_pay_of(hash) == old(self).spec_judge_pay_of(hash)
                &&& final(self).spec_cert_of(hash) == old(self).spec_cert_of(hash)
                &&& forall|g: TaskHash|
                    g != hash ==> Self::spec_task_same_at(*old(self), *final(self), g)
                &&& final(judges).spec_has_judgement(hash)
                &&& final(judges).spec_judgement_kind(hash) is Processing
                &&& final(judges).spec_votes(hash) == Seq::<(AccountId, ResultKind)>::empty()
                &&& final(judges).spec_pledge_limit_of(hash) == old(self).spec_judge_pay_of(hash)
                &&& final(judges).spec_sender_of(hash) == sender
                &&& final(judges).spec_threshold_of(hash) == old(judges).threshold
                &&& final(judges).spec_pool_size_of(hash) == old(judges).judge_size
                &&& forall|g: TaskHash|
                    g != hash ==> JudgePool::spec_judgement_same_at(*old(judges), *final(judges), g)
                &&& final(judges).judge_size == old(judges).judge_size
                &&& final(judges).threshold == old(judges).threshold
                &&& final(judges).pledge_pool == old(judges).pledge_pool
                &&& final(judges).judge_result@ == old(judges).judge_result@
                &&& final(self).issuer_pay_pool == old(self).issuer_pay_pool
                &&& final(self).staking_pay_pool == old(self).staking_pay_pool
                &&& final(self).boards@[3].inner_board@ == old(self).boards@[3].inner_board@.push(
                    hash,
                )
                &&& !board_has(final(self).boards@[2].inner_board@, hash)
                &&& forall|c: int|
                    0 <= c < 6 && c != 2 && c != 3 ==> final(self).boards@[c] == old(self).boards@[c]
                &&& final(events)@ == old(events)@.push(Event::BeginJudge(sender, hash)).push(
                    Event::TaskChangeState(hash, 2, 3, now),
                )
                &&& final(self).nonce == old(self).nonce
            },
    {
        let mut task = match self.query_task_by_hash(hash) {
            Ok(t) => t,
            Err(e) => {
                return Err(e);
            }
        };
        if !Self::is_task_participant(&task, sender) {
            return Err(Error::TaskParticipantInvalid);
        }
        if !matches!(task.kind, TaskKind::Deliveryed) {
            return Err(Error::TaskKindInvalid);
        }
        match judges.begin_judgement(hash, sender, task.judge_pay, events) {
            Ok(()) => {}
            Err(e) => {
                return Err(e);
            }
        }
        proof {
            self.lemma_stored_step_allowed(task, TaskKind::Arbitration);
        }
        let r = self.change_task_status(ledger, events, &mut task, TaskKind::Arbitration, now);
        proof {
            assert(r is Ok);
        }
        Ok(())
    }
}


/// The judgement outcome that finalization acts on: the cached result when
/// one exists, else the majority of the recorded votes (which is then
/// cached).
pub open spec fn spec_final_result(judges: JudgePool, h: TaskHash) -> ResultKind {
    if judges.spec_has_cached(h) {
        judges.spec_cached_of(h)
    } else {
        crate::judge_pool::spec_result_of(judges.spec_votes(h))
    }
}

impl TaskBoard {
    /// Pushes the task to its final state. A task already in Failure or Done
    /// is left untouched and the call succeeds (the idempotent no-op). A
    /// task in Arbitration takes the judgement's final result: ResultTrue
    /// moves it to Done and splits the escrowed payment over the team;
    /// ResultFalse moves it to Failure and refunds the issuer's payment —
    /// the arbitration deposit stays escrowed, because the history records
    /// the Arbitration step. Any earlier state fails with `TaskProcessing`.
    pub fn do_task_to_final(
        &mut self,
        ledger: &mut Ledger,
        judges: &mut JudgePool,
        events: &mut Vec<Event>,
        sender: AccountId,
        hash: TaskHash,
        now: u64,
    ) -> (r: Result<(), Error>)
        requires
            old(self).wf(),
            old(ledger).wf(),
            old(judges).wf(),
        ensures
            final(self).wf(),
            final(ledger).wf(),
            final(judges).wf(),
            r is Err ==> *final(self) == *old(self) && *final(ledger) == *old(ledger) && *final(events) == *old(events),
            !old(self).spec_has_hash(hash) ==> r == Err::<(), Error>(Error::TaskNotFoundAtIndex)
                && *final(judges) == *old(judges),
            old(self).spec_has_hash(hash) && !(old(self).spec_issuer_of(hash) == sender
                || spec_contains_account(old(self).spec_receivers_of(hash), sender)) ==> r
                == Err::<(), Error>(Error::TaskParticipantInvalid) && *final(judges) == *old(judges),
            old(self).spec_has_hash(hash) && (old(self).spec_issuer_of(hash) == sender
                || spec_contains_account(old(self).spec_receivers_of(hash), sender)) ==> {
                &&& ((old(self).spec_kind_of(hash) is Failure || old(self).spec_kind_of(hash)
                    is Done) ==> r is Ok && *final(self) == *old(self) && *final(ledger) == *old(ledger) && *final(judges) == *old(judges) && *final(events) == *old(events))
                &&& ((old(self).spec_kind_of(hash) is Published || old(self).spec_kind_of(hash)
                    is InDelivery || old(self).spec_kind_of(hash) is Deliveryed) ==> r == Err::<
                    (),
                    Error,
                >(Error::TaskProcessing) && *final(judges) == *old(judges))
                &&& (old(self).spec_kind_of(hash) is Arbitration ==> {
                    &&& (!(old(judges).spec_judgement_kind(hash) is Done) ==> r == Err::<
                        (),
                        Error,
                    >(Error::JudgeProcessing) && *final(judges) == *old(judges))
                    &&& (old(judges).spec_judgement_kind(hash) is Done ==> {
                        &&& final(judges).spec_has_cached(hash)
                        &&& final(judges).spec_cached_of(hash) == spec_final_result(
                            *old(judges),
                            hash,
                        )
                        &&& final(judges).judges@ == old(judges).judges@
                        &&& final(judges).pledge_pool == old(judges).pledge_pool
                        &&& final(judges).judge_size == old(judges).judge_size
                        &&& final(judges).threshold == old(judges).threshold
                        &&& forall|g: TaskHash|
                            g != hash ==> final(judges).spec_has_cached(g) == old(judges).spec_has_cached(g) && final(judges).spec_cached_of(g) == old(judges).spec_cached_of(g)
                        &&& (spec_final_result(*old(judges), hash) is ResultTrue ==> {
                            &&& (r is Ok <==> forall|j: int|
                                0 <= j < old(self).spec_receivers_of(hash).len() ==> old(ledger).spec_has_account(
                                    #[trigger] old(self).spec_receivers_of(hash)[j],
                                ) && old(ledger).spec_balance(old(self).spec_receivers_of(hash)[j])
                                    + old(self).issuer_pay_pool.spec_amount(
                                    old(self).spec_issuer_of(hash),
                                    hash,
                                ) <= u64::MAX)
                            &&& (r is Err ==> r == Err::<(), Error>(Error::AccountMissing) || r
                                == Err::<(), Error>(Error::BalanceOverflow))
                            &&& (r is Ok ==> {
                                &&& final(self).spec_kind_of(hash) is Done
                                &&& final(self).spec_history_of(hash) == old(self).spec_history_of(hash).push((TaskKind::Done, now))
                                &&& Self::reward_effect(
                                    *old(ledger),
                                    *final(ledger),
                                    old(self).spec_receivers_of(hash),
                                    old(self).issuer_pay_pool.spec_amount(
                                        old(self).spec_issuer_of(hash),
                                        hash,
                                    ),
                                )
                                &&& final(self).issuer_pay_pool.spec_amount(
                                    old(self).spec_issuer_of(hash),
                                    hash,
                                ) == 0
                                &&& final(self).staking_pay_pool == old(self).staking_pay_pool
                                &&& final(self).boards@[5].inner_board@ == old(self).boards@[
                                    5
                                ].inner_board@.push(hash)
                                &&& !board_has(final(self).boards@[3].inner_board@, hash)
                                &&& final(events)@ == old(events)@.push(
                                    Event::TaskChangeState(hash, 3, 5, now),
                                )
                            })
                        })
                        &&& (spec_final_result(*old(judges), hash) is ResultFalse ==> {
                            &&& (r is Ok <==> old(ledger).spec_has_account(
                                old(self).spec_issuer_of(hash),
                            ) && old(ledger).spec_balance(old(self).spec_issuer_of(hash)) + old(self).issuer_pay_pool.spec_amount(old(self).spec_issuer_of(hash), hash)
                                <= u64::MAX)
                            &&& (r is Err ==> r == Err::<(), Error>(Error::AccountMissing) || r
                                == Err::<(), Error>(Error::BalanceOverflow))
                            &&& (r is Ok ==> {
                                &&& final(self).spec_kind_of(hash) is Failure
                                &&& final(self).spec_history_of(hash) == old(self).spec_history_of(hash).push((TaskKind::Failure, now))
                                &&& final(ledger).spec_balance(old(self).spec_issuer_of(hash))
                                    == old(ledger).spec_balance(old(self).spec_issuer_of(hash))
                                    + old(self).issuer_pay_pool.spec_amount(
                                    old(self).spec_issuer_of(hash),
                                    hash,
                                )
                                &&& forall|b: AccountId|
                                    b != old(self).spec_issuer_of(hash) ==> final(ledger).spec_balance(b) == old(ledger).spec_balance(b)
                                &&& final(self).issuer_pay_pool.spec_amount(
                                    old(self).spec_issuer_of(hash),
                                    hash,
                                ) == 0
                                &&& final(self).staking_pay_pool == old(self).staking_pay_pool
                                &&& final(self).boards@[4].inner_board@ == old(self).boards@[
                                    4
                                ].inner_board@.push(hash)
                                &&& !board_has(final(self).boards@[3].inner_board@, hash)
                                &&& final(events)@ == old(events)@.push(
                                    Event::TaskChangeState(hash, 3, 4, now),
                                )
                            })
                        })
                        &&& (r is Ok ==> {
                            &&& final(self).spec_receivers_of(hash) == old(self).spec_receivers_of(hash)
                            &&& final(self).spec_issuer_of(hash) == old(self).spec_issuer_of(hash)
                            &&& final(self).spec_pay_of(hash) == old(self).spec_pay_of(hash)
                            &&& final(self).spec_judge_pay_of(hash) == old(self).spec_judge_pay_of(
                                hash,
                            )
                            &&& forall|g: TaskHash|
                                g != hash ==> Self::spec_task_same_at(*old(self), *final(self), g)
                            &&& final(self).nonce == old(self).nonce
                            &&& final(self).tasks@.len() == old(self).tasks@.len()
                        })
                    })
                })
            },
    {
        let mut task = match self.query_task_by_hash(hash) {
            Ok(t) => t,
            Err(e) => {
                return Err(e);
            }
        };
        if !Self::is_task_participant(&task, sender) {
            return Err(Error::TaskParticipantInvalid);
        }
        match task.kind {
            TaskKind::Failure => Ok(()),
            TaskKind::Done => Ok(()),
            TaskKind::Arbitration => {
                let result = match judges.do_view_judgement_result(hash) {
                    Ok(v) => v,
                    Err(e) => {
                        return Err(e);
                    }
                };
                proof {
                    assert(task.history@.len() > 0);
                    assert(task.history@[task.history@.len() - 1].0 is Arbitration);
                }
                match result {
                    ResultKind::ResultTrue => {
                        proof {
                            self.lemma_stored_step_allowed(task, TaskKind::Done);
                        }
                        let r = self.change_task_status(
                            ledger,
                            events,
                            &mut task,
                            TaskKind::Done,
                            now,
                        );
                        r
                    }
                    ResultKind::ResultFalse => {
                        proof {
                            self.lemma_stored_step_allowed(task, TaskKind::Failure);
                            assert(spec_history_has_arbitration(
                                task.history@.push((TaskKind::Failure, now)),
                            )) by {
                                let k = task.history@.len() - 1;
                                assert(task.history@.push((TaskKind::Failure, now))[k].0
                                    is Arbitration);
                            }
                        }
                        let r = self.change_task_status(
                            ledger,
                            events,
                            &mut task,
                            TaskKind::Failure,
                            now,
                        );
                        r
                    }
                }
            }
            _ => Err(Error::TaskProcessing),
        }
    }
}


impl TaskBoard {
    /// At any instant, a stored task's identifier is present in exactly one
    /// board — the board of its current state, exactly once — and in no
    /// other.
    pub proof fn lemma_hash_in_exactly_one_board(self, i: int, b: int)
        requires
            self.wf(),
            0 <= i < self.tasks@.len(),
            0 <= b < 6,
        ensures
            board_has(
                self.boards@[spec_kind_ordinal(self.tasks@[i].kind) as int].inner_board@,
                self.tasks@[i].hash,
            ),
            b != spec_kind_ordinal(self.tasks@[i].kind) ==> !board_has(
                self.boards@[b].inner_board@,
                self.tasks@[i].hash,
            ),
            board_nodup(self.boards@[b].inner_board@),
    {
    }

    /// Conversely, every board entry is the identifier of a stored task
    /// whose current state is exactly the board's state.
    pub proof fn lemma_board_entry_is_task(self, b: int, k: int)
        requires
            self.wf(),
            0 <= b < 6,
            0 <= k < self.boards@[b].inner_board@.len(),
        ensures
            self.spec_has_hash(self.boards@[b].inner_board@[k]),
            spec_kind_ordinal(self.spec_kind_of(self.boards@[b].inner_board@[k])) == b,
    {
        let x = self.boards@[b].inner_board@[k];
        assert(self.spec_has_hash(x));
        let j = self.spec_index_of(x);
        self.lemma_task_at(j);
        assert(board_has(self.boards@[b].inner_board@, x));
        if spec_kind_ordinal(self.tasks@[j].kind) != b {
            assert(!board_has(self.boards@[b].inner_board@, self.tasks@[j].hash));
        }
    }
}

/// Identifiers salted with different nonces are different, whatever their
/// digests: publication advances the nonce, so two publications — even of
/// identical content — always yield two distinct identifiers.
pub proof fn lemma_publish_twice_distinct(h1: TaskHash, h2: TaskHash)
    requires
        h1.nonce != h2.nonce,
    ensures
        h1 != h2,
{
}

} // verus!
