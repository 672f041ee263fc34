//! Core data model: task identifiers, lifecycle states with their fixed total
//! order and transition-validity table, task records with their history
//! invariant, per-state boards, and domain events.

use vstd::prelude::*;

verus! {

/// Account identifier of the host ledger, reduced to its numeric form.
pub type AccountId = u64;

/// Balance amount of the host ledger.
pub type Balance = u64;

/// Content-derived task identifier.
///
/// The digest is computed from the task content; the nonce is the value of the
/// global counter at publication time. Because the nonce is part of the
/// identifier, two publications always produce distinct identifiers, even for
/// identical content.
#[derive(Clone, Copy, PartialEq, Eq, Structural, Debug, Hash)]
pub struct TaskHash {
    pub digest: u64,
    pub nonce: u64,
}

/// Lifecycle state of a task.
#[derive(Clone, Copy, PartialEq, Eq, Structural, Debug)]
pub enum TaskKind {
    Published,
    InDelivery,
    Deliveryed,
    Arbitration,
    /// final status
    Failure,
    /// final status
    Done,
}

impl Default for TaskKind {
    /// The state a fresh record starts from.
    fn default() -> (r: Self)
        ensures
            r is Published,
    {
        TaskKind::Published
    }
}

/// The four escrow operations bound to task transitions.
#[derive(Clone, Copy, PartialEq, Eq, Structural, Debug)]
pub enum FundsExchange {
    IssuerPay,
    RecvStaking,
    RecvReward,
    IssuerBack,
}

/// Position of a state in the fixed total order
/// Published < InDelivery < Deliveryed < Arbitration < Failure < Done.
pub open spec fn spec_kind_ordinal(k: TaskKind) -> u8 {
    match k {
        TaskKind::Published => 0,
        TaskKind::InDelivery => 1,
        TaskKind::Deliveryed => 2,
        TaskKind::Arbitration => 3,
        TaskKind::Failure => 4,
        TaskKind::Done => 5,
    }
}

pub fn kind_ordinal(k: TaskKind) -> (r: u8)
    ensures
        r == spec_kind_ordinal(k),
{
    match k {
        TaskKind::Published => 0,
        TaskKind::InDelivery => 1,
        TaskKind::Deliveryed => 2,
        TaskKind::Arbitration => 3,
        TaskKind::Failure => 4,
        TaskKind::Done => 5,
    }
}

/// A state from which no further transition is accepted.
pub open spec fn spec_is_final_kind(k: TaskKind) -> bool {
    k is Failure || k is Done
}

pub fn is_final_kind(k: TaskKind) -> (r: bool)
    ensures
        r == spec_is_final_kind(k),
{
    match k {
        TaskKind::Failure => true,
        TaskKind::Done => true,
        _ => false,
    }
}

/// Explicit transition-validity table of the lifecycle state machine:
/// Published -> InDelivery -> Deliveryed -> Arbitration -> {Failure, Done}.
pub open spec fn spec_valid_transition(from: TaskKind, to: TaskKind) -> bool {
    ||| (from is Published && to is InDelivery)
    ||| (from is InDelivery && to is Deliveryed)
    ||| (from is Deliveryed && to is Arbitration)
    ||| (from is Arbitration && to is Failure)
    ||| (from is Arbitration && to is Done)
}

pub fn valid_transition(from: TaskKind, to: TaskKind) -> (r: bool)
    ensures
        r == spec_valid_transition(from, to),
{
    match (from, to) {
        (TaskKind::Published, TaskKind::InDelivery) => true,
        (TaskKind::InDelivery, TaskKind::Deliveryed) => true,
        (TaskKind::Deliveryed, TaskKind::Arbitration) => true,
        (TaskKind::Arbitration, TaskKind::Failure) => true,
        (TaskKind::Arbitration, TaskKind::Done) => true,
        _ => false,
    }
}

/// Every accepted transition moves strictly forward in the total order, and
/// never leaves a final state.
pub proof fn lemma_transition_strictly_forward(from: TaskKind, to: TaskKind)
    requires
        spec_valid_transition(from, to),
    ensures
        spec_kind_ordinal(from) < spec_kind_ordinal(to),
        !spec_is_final_kind(from),
{
}

/// A final state has no outgoing edge at all: once a task settles in
/// Failure or Done, no transition is accepted.
pub proof fn lemma_final_is_terminal(from: TaskKind, to: TaskKind)
    requires
        spec_is_final_kind(from),
    ensures
        !spec_valid_transition(from, to),
{
}

/// A task record.
#[derive(Clone, Debug)]
pub struct Task {
    pub hash: TaskHash,
    pub issuer: AccountId,
    pub receivers: Vec<AccountId>,
    pub description: Vec<u8>,
    /// done condition / Failure treatment
    pub judge_pay: Balance,
    pub pay: Balance,
    pub min_rep: u32,
    pub kind: TaskKind,
    pub history: Vec<(TaskKind, u64)>,
    pub req_subjects: Vec<u32>,
    pub delivery_certificate: u64,
}

impl Default for Task {
    /// The blank record that publication starts from: everything zeroed or
    /// empty, state Published, no history yet.
    fn default() -> (r: Self)
        ensures
            r.hash == (TaskHash { digest: 0, nonce: 0 }),
            r.issuer == 0,
            r.receivers@ == Seq::<AccountId>::empty(),
            r.description@ == Seq::<u8>::empty(),
            r.judge_pay == 0,
            r.pay == 0,
            r.min_rep == 0,
            r.kind is Published,
            r.history@ == Seq::<(TaskKind, u64)>::empty(),
            r.req_subjects@ == Seq::<u32>::empty(),
            r.delivery_certificate == 0,
    {
        Task {
            hash: TaskHash { digest: 0, nonce: 0 },
            issuer: 0,
            receivers: Vec::new(),
            description: Vec::new(),
            judge_pay: 0,
            pay: 0,
            min_rep: 0,
            kind: TaskKind::Published,
            history: Vec::new(),
            req_subjects: Vec::new(),
            delivery_certificate: 0,
        }
    }
}

/// Field-by-field equality of two task records, with vector fields compared by
/// their contents.
pub open spec fn task_matches(a: Task, b: Task) -> bool {
    &&& a.hash == b.hash
    &&& a.issuer == b.issuer
    &&& a.receivers@ == b.receivers@
    &&& a.description@ == b.description@
    &&& a.judge_pay == b.judge_pay
    &&& a.pay == b.pay
    &&& a.min_rep == b.min_rep
    &&& a.kind == b.kind
    &&& a.history@ == b.history@
    &&& a.req_subjects@ == b.req_subjects@
    &&& a.delivery_certificate == b.delivery_certificate
}

/// Well-formed history of a stored task: it starts at Published, records the
/// current state last, and every consecutive pair is an accepted transition.
pub open spec fn task_wf(t: Task) -> bool {
    &&& t.history@.len() > 0
    &&& t.history@[0].0 is Published
    &&& t.history@[t.history@.len() - 1].0 == t.kind
    &&& forall|i: int|
        0 <= i < t.history@.len() - 1 ==> spec_valid_transition(
            #[trigger] t.history@[i].0,
            t.history@[i + 1].0,
        )
}

/// Along a well-formed history the state's ordinal is non-decreasing
/// (strictly increasing, step by step).
pub proof fn lemma_history_monotonic(t: Task, i: int, j: int)
    requires
        task_wf(t),
        0 <= i <= j < t.history@.len(),
    ensures
        spec_kind_ordinal(t.history@[i].0) <= spec_kind_ordinal(t.history@[j].0),
        i < j ==> spec_kind_ordinal(t.history@[i].0) < spec_kind_ordinal(t.history@[j].0),
    decreases j - i,
{
    if i < j {
        lemma_history_monotonic(t, i + 1, j);
    }
}

/// A task settles in at most one final state: only the last history entry can
/// be final, so Failure and Done never both occur, and nothing follows either.
pub proof fn lemma_history_settles(t: Task, i: int)
    requires
        task_wf(t),
        0 <= i < t.history@.len() - 1,
    ensures
        !spec_is_final_kind(t.history@[i].0),
{
}

/// The registry of one lifecycle state: the identifiers of the tasks that are
/// currently in that state.
#[derive(Clone, Debug)]
pub struct Board {
    pub inner_board: Vec<TaskHash>,
    pub task_kind: TaskKind,
}

impl Default for Board {
    /// An empty registry for the initial state.
    fn default() -> (r: Self)
        ensures
            r.inner_board@ == Seq::<TaskHash>::empty(),
            r.task_kind is Published,
    {
        Board { inner_board: Vec::new(), task_kind: TaskKind::Published }
    }
}

/// Whether a board's registry holds the given identifier.
pub open spec fn board_has(b: Seq<TaskHash>, h: TaskHash) -> bool {
    exists|i: int| 0 <= i < b.len() && b[i] == h
}

/// A registry without duplicate identifiers.
pub open spec fn board_nodup(b: Seq<TaskHash>) -> bool {
    forall|i: int, j: int| 0 <= i < j < b.len() ==> b[i] != b[j]
}

/// Domain events appended by the core's operations.
#[derive(Clone, Copy, PartialEq, Eq, Structural, Debug)]
pub enum Event {
    /// task identifier, ordinal of the state left, ordinal of the state
    /// entered, time
    TaskChangeState(TaskHash, u8, u8, u64),
    TaskPublish(AccountId, TaskHash, u64),
    TaskClaimed(AccountId, TaskHash),
    BeginJudge(AccountId, TaskHash),
    CompletionIncrease(AccountId, u32),
    FailedReduce(AccountId, u32),
    CredentialIssued(AccountId, u32, AccountId),
    CredentialRevoked(AccountId, u32, AccountId),
    SubjectCreated(AccountId, u32),
    IdentityCreated(AccountId),
}

} // verus!
