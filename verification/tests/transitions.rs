use caliburn::errors::Error;
use caliburn::identity::IdentityRegistry;
use caliburn::judge_pool::JudgePool;
use caliburn::ledger::Ledger;
use caliburn::reputation::ReputationStore;
use caliburn::task_board::TaskBoard;
use caliburn::types::{Event, Task, TaskHash, TaskKind};

const ISSUER: u64 = 1;
const LEADER: u64 = 2;

fn setup() -> (TaskBoard, Ledger, ReputationStore, IdentityRegistry, Vec<Event>) {
    let board = TaskBoard::new();
    let mut ledger = Ledger::new();
    ledger.set_balance(ISSUER, 1_000);
    ledger.set_balance(LEADER, 1_000);
    (board, ledger, ReputationStore::new(), IdentityRegistry::new(), Vec::new())
}

#[test]
fn storing_a_second_record_under_a_taken_hash_is_a_duplicate() {
    let (mut board, mut ledger, _rep, _id, mut events) = setup();
    let hash = board
        .do_publish_task(&mut ledger, &mut events, ISSUER, vec![], 0, 10, 1, vec![], 0)
        .unwrap();
    // a fresh record reusing the stored identifier
    let mut task = Task::default();
    task.hash = hash;
    task.issuer = ISSUER;
    let r = board.change_task_status(&mut ledger, &mut events, &mut task, TaskKind::Published, 1);
    assert!(matches!(r, Err(Error::TaskDuplicated)));
}

#[test]
fn publication_stops_when_the_nonce_cannot_grow() {
    let (mut board, mut ledger, _rep, _id, mut events) = setup();
    board.nonce = u64::MAX;
    let r = board.do_publish_task(&mut ledger, &mut events, ISSUER, vec![], 0, 10, 1, vec![], 0);
    assert!(matches!(r, Err(Error::TaskCheckAddFail)));
}

#[test]
fn a_step_outside_the_transition_table_is_rejected() {
    let (mut board, mut ledger, rep, id, mut events) = setup();
    let hash = board
        .do_publish_task(&mut ledger, &mut events, ISSUER, vec![], 0, 10, 1, vec![], 0)
        .unwrap();
    board
        .do_claim_task(&mut ledger, &id, &rep, &mut events, LEADER, hash, vec![], 0)
        .unwrap();
    let mut task = board.query_task_by_hash(hash).unwrap();
    // InDelivery -> InDelivery is no edge of the table
    let r = board.change_task_status(&mut ledger, &mut events, &mut task, TaskKind::InDelivery, 1);
    assert!(matches!(r, Err(Error::TaskChangeStatusFail)));
}

#[test]
fn a_record_whose_hash_is_in_no_board_cannot_step() {
    let (mut board, mut ledger, _rep, _id, mut events) = setup();
    // a well-formed InDelivery record the store never saw
    let task_template = Task {
        hash: TaskHash { digest: 3, nonce: 0 },
        issuer: ISSUER,
        receivers: vec![LEADER],
        description: Vec::new(),
        judge_pay: 1,
        pay: 10,
        min_rep: 0,
        kind: TaskKind::InDelivery,
        history: vec![(TaskKind::Published, 0), (TaskKind::InDelivery, 1)],
        req_subjects: Vec::new(),
        delivery_certificate: 0,
    };
    board.nonce = 1;
    let mut task = task_template;
    let r = board.change_task_status(&mut ledger, &mut events, &mut task, TaskKind::Deliveryed, 2);
    assert!(matches!(r, Err(Error::TaskNotInBoard)));
}

#[test]
fn claiming_a_claimed_task_fails() {
    let (mut board, mut ledger, rep, id, mut events) = setup();
    let hash = board
        .do_publish_task(&mut ledger, &mut events, ISSUER, vec![], 0, 10, 1, vec![], 0)
        .unwrap();
    board
        .do_claim_task(&mut ledger, &id, &rep, &mut events, LEADER, hash, vec![], 0)
        .unwrap();
    let r = board.do_claim_task(&mut ledger, &id, &rep, &mut events, 3, hash, vec![], 0);
    assert!(matches!(r, Err(Error::TaskNotWaitForRecv)));
}

#[test]
fn save_task_creates_a_fresh_published_record() {
    let (mut board, mut ledger, _rep, _id, _events) = setup();
    board.nonce = 1;
    let mut task = Task::default();
    task.hash = TaskHash { digest: 8, nonce: 0 };
    task.issuer = ISSUER;
    task.pay = 40;
    task.judge_pay = 2;
    task.history = vec![(TaskKind::Published, 0)];
    board.save_task(&mut ledger, &task).unwrap();
    let stored = board.query_task_by_hash(task.hash).unwrap();
    assert_eq!(stored.kind, TaskKind::Published);
    assert_eq!(stored.pay, 40);
    assert_eq!(ledger.balance_of(ISSUER), 958);
    // a non-Published record under a fresh hash is refused
    let mut other = Task::default();
    other.hash = TaskHash { digest: 9, nonce: 0 };
    other.kind = TaskKind::Deliveryed;
    other.receivers = vec![LEADER];
    other.history = vec![
        (TaskKind::Published, 0),
        (TaskKind::InDelivery, 1),
        (TaskKind::Deliveryed, 2),
    ];
    let r = board.save_task(&mut ledger, &other);
    assert!(matches!(r, Err(Error::TaskKindInvalid)));
}
