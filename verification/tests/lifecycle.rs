use caliburn::errors::Error;
use caliburn::identity::IdentityRegistry;
use caliburn::judge_pool::JudgePool;
use caliburn::ledger::Ledger;
use caliburn::reputation::ReputationStore;
use caliburn::task_board::TaskBoard;
use caliburn::types::{Event, TaskKind};

const ISSUER: u64 = 1;
const LEADER: u64 = 2;

fn setup() -> (TaskBoard, Ledger, JudgePool, ReputationStore, IdentityRegistry, Vec<Event>) {
    let board = TaskBoard::new();
    let mut ledger = Ledger::new();
    ledger.set_balance(ISSUER, 1_000);
    ledger.set_balance(LEADER, 1_000);
    let judges = JudgePool::new(3, 50);
    let reputation = ReputationStore::new();
    let identity = IdentityRegistry::new();
    (board, ledger, judges, reputation, identity, Vec::new())
}

#[test]
fn publish_stores_a_published_task() {
    let (mut board, mut ledger, _judges, _rep, _id, mut events) = setup();
    let hash = board
        .do_publish_task(&mut ledger, &mut events, ISSUER, vec![1, 2, 3], 50, 100, 10, vec![], 5)
        .unwrap();
    let task = board.query_task_by_hash(hash).unwrap();
    assert_eq!(task.kind, TaskKind::Published);
    assert_eq!(task.issuer, ISSUER);
    assert_eq!(task.pay, 100);
    assert_eq!(task.judge_pay, 10);
    assert_eq!(task.min_rep, 50);
    assert_eq!(task.description, vec![1, 2, 3]);
    assert!(task.receivers.is_empty());
    assert_eq!(task.history, vec![(TaskKind::Published, 5)]);
    // escrow: pay and judge_pay left the issuer's balance
    assert_eq!(ledger.balance_of(ISSUER), 890);
    assert_eq!(board.issuer_pay_pool.amount_of(ISSUER, hash), 100);
    assert_eq!(board.staking_pay_pool.amount_of(ISSUER, hash), 10);
    // the identifier sits in the Published board
    let b = board.load_board(TaskKind::Published);
    assert_eq!(b.inner_board, vec![hash]);
    assert_eq!(events, vec![Event::TaskPublish(ISSUER, hash, 5)]);
}

#[test]
fn publish_identical_content_twice_gives_distinct_hashes() {
    let (mut board, mut ledger, _judges, _rep, _id, mut events) = setup();
    let h1 = board
        .do_publish_task(&mut ledger, &mut events, ISSUER, vec![9], 0, 10, 1, vec![], 0)
        .unwrap();
    let h2 = board
        .do_publish_task(&mut ledger, &mut events, ISSUER, vec![9], 0, 10, 1, vec![], 0)
        .unwrap();
    // nonce salting: never a spurious TaskDuplicated, always distinct ids
    assert_ne!(h1, h2);
    assert_ne!(h1.nonce, h2.nonce);
    assert!(board.query_task_by_hash(h1).is_ok());
    assert!(board.query_task_by_hash(h2).is_ok());
}

#[test]
fn publish_without_funds_fails_with_insufficient_funds() {
    let (mut board, mut ledger, _judges, _rep, _id, mut events) = setup();
    let r = board.do_publish_task(&mut ledger, &mut events, ISSUER, vec![], 0, 900, 200, vec![], 0);
    assert!(matches!(r, Err(Error::InsufficientFunds)));
    // zero mutation: balance untouched, nothing stored
    assert_eq!(ledger.balance_of(ISSUER), 1_000);
    assert!(events.is_empty());
}

#[test]
fn claim_moves_the_task_to_in_delivery_and_stakes_the_team() {
    let (mut board, mut ledger, _judges, rep, id, mut events) = setup();
    let hash = board
        .do_publish_task(&mut ledger, &mut events, ISSUER, vec![], 40, 100, 10, vec![], 1)
        .unwrap();
    events.clear();
    board
        .do_claim_task(&mut ledger, &id, &rep, &mut events, LEADER, hash, vec![], 2)
        .unwrap();
    let task = board.query_task_by_hash(hash).unwrap();
    assert_eq!(task.kind, TaskKind::InDelivery);
    assert_eq!(task.receivers, vec![LEADER]);
    // the leader staked the arbitration deposit once
    assert_eq!(ledger.balance_of(LEADER), 990);
    assert_eq!(board.staking_pay_pool.amount_of(LEADER, hash), 10);
    // board move Published -> InDelivery
    assert!(board.load_board(TaskKind::Published).inner_board.is_empty());
    assert_eq!(board.load_board(TaskKind::InDelivery).inner_board, vec![hash]);
    assert_eq!(
        events,
        vec![Event::TaskChangeState(hash, 0, 1, 2), Event::TaskClaimed(LEADER, hash)]
    );
}

#[test]
fn claim_rejects_a_leader_already_listed() {
    let (mut board, mut ledger, _judges, rep, id, mut events) = setup();
    let hash = board
        .do_publish_task(&mut ledger, &mut events, ISSUER, vec![], 0, 100, 10, vec![], 0)
        .unwrap();
    let r = board.do_claim_task(&mut ledger, &id, &rep, &mut events, LEADER, hash, vec![LEADER], 0);
    assert!(matches!(r, Err(Error::TaskTeamLeaderRepeatSetting)));
}

#[test]
fn claim_rejects_a_candidate_without_the_required_credential() {
    let (mut board, mut ledger, _judges, rep, mut id, mut events) = setup();
    // subject 0 exists, owned by the issuer, but nobody was issued a credential
    id.do_create_subject(ISSUER, &mut events).unwrap();
    let hash = board
        .do_publish_task(&mut ledger, &mut events, ISSUER, vec![], 0, 100, 10, vec![0], 0)
        .unwrap();
    let r = board.do_claim_task(&mut ledger, &id, &rep, &mut events, LEADER, hash, vec![], 0);
    assert!(matches!(r, Err(Error::TaskPlayerIsInvalid)));
}

#[test]
fn claim_accepts_a_credentialed_candidate() {
    let (mut board, mut ledger, _judges, rep, mut id, mut events) = setup();
    id.do_create_subject(ISSUER, &mut events).unwrap();
    id.do_issue(ISSUER, LEADER, 0, 7, &mut events).unwrap();
    let hash = board
        .do_publish_task(&mut ledger, &mut events, ISSUER, vec![], 0, 100, 10, vec![0], 0)
        .unwrap();
    board
        .do_claim_task(&mut ledger, &id, &rep, &mut events, LEADER, hash, vec![], 0)
        .unwrap();
}

#[test]
fn claim_rejects_a_candidate_below_the_reputation_floor() {
    let (mut board, mut ledger, _judges, mut rep, id, mut events) = setup();
    rep.set_reputation(LEADER, 49);
    let hash = board
        .do_publish_task(&mut ledger, &mut events, ISSUER, vec![], 50, 100, 10, vec![], 0)
        .unwrap();
    let r = board.do_claim_task(&mut ledger, &id, &rep, &mut events, LEADER, hash, vec![], 0);
    assert!(matches!(r, Err(Error::TaskPlayerIsInvalid)));
}

#[test]
fn claim_rejects_the_issuer_as_candidate() {
    let (mut board, mut ledger, _judges, rep, id, mut events) = setup();
    let hash = board
        .do_publish_task(&mut ledger, &mut events, ISSUER, vec![], 0, 100, 10, vec![], 0)
        .unwrap();
    let r = board.do_claim_task(&mut ledger, &id, &rep, &mut events, ISSUER, hash, vec![], 0);
    assert!(matches!(r, Err(Error::TaskPlayerIsInvalid)));
}

#[test]
fn claim_of_an_unknown_task_fails() {
    let (mut board, mut ledger, _judges, rep, id, mut events) = setup();
    let hash = board
        .do_publish_task(&mut ledger, &mut events, ISSUER, vec![], 0, 100, 10, vec![], 0)
        .unwrap();
    let unknown = caliburn::types::TaskHash { digest: hash.digest, nonce: hash.nonce + 1 };
    let r = board.do_claim_task(&mut ledger, &id, &rep, &mut events, LEADER, unknown, vec![], 0);
    assert!(matches!(r, Err(Error::TaskNotFoundAtIndex)));
}

#[test]
fn deliver_requires_the_team_leader() {
    let (mut board, mut ledger, _judges, rep, id, mut events) = setup();
    let hash = board
        .do_publish_task(&mut ledger, &mut events, ISSUER, vec![], 0, 100, 10, vec![], 0)
        .unwrap();
    board
        .do_claim_task(&mut ledger, &id, &rep, &mut events, LEADER, hash, vec![], 0)
        .unwrap();
    let r = board.do_claim_deliver_task(&mut ledger, &mut events, ISSUER, hash, 77, 0);
    assert!(matches!(r, Err(Error::PermissionError)));
    board
        .do_claim_deliver_task(&mut ledger, &mut events, LEADER, hash, 77, 3)
        .unwrap();
    let task = board.query_task_by_hash(hash).unwrap();
    assert_eq!(task.kind, TaskKind::Deliveryed);
    assert_eq!(task.delivery_certificate, 77);
}

#[test]
fn deliver_rejects_a_task_not_in_delivery() {
    let (mut board, mut ledger, _judges, _rep, _id, mut events) = setup();
    let hash = board
        .do_publish_task(&mut ledger, &mut events, ISSUER, vec![], 0, 100, 10, vec![], 0)
        .unwrap();
    let r = board.do_claim_deliver_task(&mut ledger, &mut events, LEADER, hash, 1, 0);
    assert!(matches!(r, Err(Error::TaskKindInvalid)));
}

#[test]
fn request_judge_requires_a_participant_and_a_delivered_task() {
    let (mut board, mut ledger, mut judges, rep, id, mut events) = setup();
    let hash = board
        .do_publish_task(&mut ledger, &mut events, ISSUER, vec![], 0, 100, 10, vec![], 0)
        .unwrap();
    let outsider = 99u64;
    let r = board.do_request_for_judge(&mut ledger, &mut judges, &mut events, outsider, hash, 0);
    assert!(matches!(r, Err(Error::TaskParticipantInvalid)));
    let r = board.do_request_for_judge(&mut ledger, &mut judges, &mut events, ISSUER, hash, 0);
    assert!(matches!(r, Err(Error::TaskKindInvalid)));
    board
        .do_claim_task(&mut ledger, &id, &rep, &mut events, LEADER, hash, vec![], 0)
        .unwrap();
    board
        .do_claim_deliver_task(&mut ledger, &mut events, LEADER, hash, 1, 0)
        .unwrap();
    board
        .do_request_for_judge(&mut ledger, &mut judges, &mut events, LEADER, hash, 4)
        .unwrap();
    let task = board.query_task_by_hash(hash).unwrap();
    assert_eq!(task.kind, TaskKind::Arbitration);
    // a second request finds the task past Deliveryed
    let r = board.do_request_for_judge(&mut ledger, &mut judges, &mut events, LEADER, hash, 5);
    assert!(matches!(r, Err(Error::TaskKindInvalid)));
}

#[test]
fn finalize_before_arbitration_fails_with_task_processing() {
    let (mut board, mut ledger, mut judges, _rep, _id, mut events) = setup();
    let hash = board
        .do_publish_task(&mut ledger, &mut events, ISSUER, vec![], 0, 100, 10, vec![], 0)
        .unwrap();
    let r = board.do_task_to_final(&mut ledger, &mut judges, &mut events, ISSUER, hash, 0);
    assert!(matches!(r, Err(Error::TaskProcessing)));
}

#[test]
fn end_to_end_task_reaches_done_and_pays_the_single_receiver() {
    let (mut board, mut ledger, mut judges, mut rep, id, mut events) = setup();
    for judge in [10u64, 11, 12] {
        ledger.set_balance(judge, 100);
        rep.set_reputation(judge, 50);
    }
    let hash = board
        .do_publish_task(&mut ledger, &mut events, ISSUER, vec![42], 50, 100, 10, vec![], 1)
        .unwrap();
    board
        .do_claim_task(&mut ledger, &id, &rep, &mut events, LEADER, hash, vec![], 2)
        .unwrap();
    board
        .do_claim_deliver_task(&mut ledger, &mut events, LEADER, hash, 7, 3)
        .unwrap();
    board
        .do_request_for_judge(&mut ledger, &mut judges, &mut events, LEADER, hash, 4)
        .unwrap();
    for judge in [10u64, 11, 12] {
        judges.do_exec_judgement(&mut ledger, &rep, judge, hash, 1).unwrap();
    }
    board
        .do_task_to_final(&mut ledger, &mut judges, &mut events, LEADER, hash, 5)
        .unwrap();
    let task = board.query_task_by_hash(hash).unwrap();
    assert_eq!(task.kind, TaskKind::Done);
    // leader: 1000 - 10 staked + 100 reward
    assert_eq!(ledger.balance_of(LEADER), 1_090);
    // issuer paid 100 + 10 at publication
    assert_eq!(ledger.balance_of(ISSUER), 890);
    // the payment pool is fully distributed
    assert_eq!(board.issuer_pay_pool.amount_of(ISSUER, hash), 0);
    assert_eq!(board.load_board(TaskKind::Done).inner_board, vec![hash]);
    // finalize on a terminal task is an idempotent no-op
    board
        .do_task_to_final(&mut ledger, &mut judges, &mut events, LEADER, hash, 6)
        .unwrap();
    assert_eq!(ledger.balance_of(LEADER), 1_090);
}

#[test]
fn end_to_end_failed_arbitration_refunds_the_issuer_pay_only() {
    let (mut board, mut ledger, mut judges, mut rep, id, mut events) = setup();
    for judge in [10u64, 11, 12] {
        ledger.set_balance(judge, 100);
        rep.set_reputation(judge, 50);
    }
    let hash = board
        .do_publish_task(&mut ledger, &mut events, ISSUER, vec![], 0, 100, 10, vec![], 1)
        .unwrap();
    board
        .do_claim_task(&mut ledger, &id, &rep, &mut events, LEADER, hash, vec![], 2)
        .unwrap();
    board
        .do_claim_deliver_task(&mut ledger, &mut events, LEADER, hash, 7, 3)
        .unwrap();
    board
        .do_request_for_judge(&mut ledger, &mut judges, &mut events, LEADER, hash, 4)
        .unwrap();
    // majority votes the delivery down
    for (judge, vote) in [(10u64, 0u32), (11, 0), (12, 1)] {
        judges.do_exec_judgement(&mut ledger, &rep, judge, hash, vote).unwrap();
    }
    board
        .do_task_to_final(&mut ledger, &mut judges, &mut events, ISSUER, hash, 5)
        .unwrap();
    let task = board.query_task_by_hash(hash).unwrap();
    assert_eq!(task.kind, TaskKind::Failure);
    // pay came back; the arbitration deposit stays escrowed because the
    // history records the Arbitration step
    assert_eq!(ledger.balance_of(ISSUER), 990);
    assert_eq!(board.issuer_pay_pool.amount_of(ISSUER, hash), 0);
    assert_eq!(board.staking_pay_pool.amount_of(ISSUER, hash), 10);
    assert_eq!(board.load_board(TaskKind::Failure).inner_board, vec![hash]);
}

#[test]
fn task_history_records_every_state_in_order() {
    let (mut board, mut ledger, mut judges, mut rep, id, mut events) = setup();
    for judge in [10u64, 11, 12] {
        ledger.set_balance(judge, 100);
        rep.set_reputation(judge, 50);
    }
    let hash = board
        .do_publish_task(&mut ledger, &mut events, ISSUER, vec![], 0, 100, 10, vec![], 1)
        .unwrap();
    board
        .do_claim_task(&mut ledger, &id, &rep, &mut events, LEADER, hash, vec![], 2)
        .unwrap();
    board
        .do_claim_deliver_task(&mut ledger, &mut events, LEADER, hash, 7, 3)
        .unwrap();
    board
        .do_request_for_judge(&mut ledger, &mut judges, &mut events, LEADER, hash, 4)
        .unwrap();
    for judge in [10u64, 11, 12] {
        judges.do_exec_judgement(&mut ledger, &rep, judge, hash, 1).unwrap();
    }
    board
        .do_task_to_final(&mut ledger, &mut judges, &mut events, LEADER, hash, 5)
        .unwrap();
    let task = board.query_task_by_hash(hash).unwrap();
    assert_eq!(
        task.history,
        vec![
            (TaskKind::Published, 1),
            (TaskKind::InDelivery, 2),
            (TaskKind::Deliveryed, 3),
            (TaskKind::Arbitration, 4),
            (TaskKind::Done, 5),
        ]
    );
}

#[test]
fn arbitration_emits_begin_judge_before_the_state_change() {
    let (mut board, mut ledger, mut judges, rep, id, mut events) = setup();
    let hash = board
        .do_publish_task(&mut ledger, &mut events, ISSUER, vec![], 0, 100, 10, vec![], 0)
        .unwrap();
    board
        .do_claim_task(&mut ledger, &id, &rep, &mut events, LEADER, hash, vec![], 0)
        .unwrap();
    board
        .do_claim_deliver_task(&mut ledger, &mut events, LEADER, hash, 1, 0)
        .unwrap();
    events.clear();
    board
        .do_request_for_judge(&mut ledger, &mut judges, &mut events, LEADER, hash, 9)
        .unwrap();
    assert_eq!(
        events,
        vec![Event::BeginJudge(LEADER, hash), Event::TaskChangeState(hash, 2, 3, 9)]
    );
}
