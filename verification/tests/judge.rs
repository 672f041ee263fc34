use caliburn::errors::Error;
use caliburn::judge_pool::{JudgeKind, JudgePool, Judgement, ResultKind};
use caliburn::ledger::Ledger;
use caliburn::reputation::ReputationStore;
use caliburn::types::{Event, TaskHash};

const H: TaskHash = TaskHash { digest: 5, nonce: 0 };

fn setup() -> (JudgePool, Ledger, ReputationStore, Vec<Event>) {
    let judges = JudgePool::new(3, 50);
    let mut ledger = Ledger::new();
    for judge in [10u64, 11, 12, 13] {
        ledger.set_balance(judge, 100);
    }
    // the default reputation is 50, exactly at the threshold
    let reputation = ReputationStore::new();
    (judges, ledger, reputation, Vec::new())
}

#[test]
fn three_votes_complete_the_judgement_and_true_wins_two_to_one() {
    let (mut judges, mut ledger, rep, mut events) = setup();
    judges.begin_judgement(H, 1, 10, &mut events).unwrap();
    assert_eq!(judges.view_progress(H), JudgeKind::Processing);
    judges.do_exec_judgement(&mut ledger, &rep, 10, H, 1).unwrap();
    judges.do_exec_judgement(&mut ledger, &rep, 11, H, 1).unwrap();
    assert_eq!(judges.view_progress(H), JudgeKind::Processing);
    judges.do_exec_judgement(&mut ledger, &rep, 12, H, 0).unwrap();
    // Done exactly when the vote count reaches the pool size
    assert_eq!(judges.view_progress(H), JudgeKind::Done);
    assert_eq!(judges.view_result(H).unwrap(), ResultKind::ResultTrue);
    // every judge staked the pledge
    for judge in [10u64, 11, 12] {
        assert_eq!(ledger.balance_of(judge), 90);
        assert_eq!(judges.pledge_pool.amount_of(judge, H), 10);
    }
}

#[test]
fn a_fourth_vote_is_rejected_with_judge_size_full() {
    let (mut judges, mut ledger, rep, mut events) = setup();
    judges.begin_judgement(H, 1, 10, &mut events).unwrap();
    for judge in [10u64, 11, 12] {
        judges.do_exec_judgement(&mut ledger, &rep, judge, H, 1).unwrap();
    }
    let r = judges.do_exec_judgement(&mut ledger, &rep, 13, H, 1);
    assert!(matches!(r, Err(Error::JudgeSizeFull)));
    // the rejected judge staked nothing
    assert_eq!(ledger.balance_of(13), 100);
}

#[test]
fn a_repeat_voter_is_rejected_with_judge_verify_faild() {
    let (mut judges, mut ledger, rep, mut events) = setup();
    judges.begin_judgement(H, 1, 10, &mut events).unwrap();
    judges.do_exec_judgement(&mut ledger, &rep, 10, H, 1).unwrap();
    let r = judges.do_exec_judgement(&mut ledger, &rep, 10, H, 0);
    assert!(matches!(r, Err(Error::JudgeVerifyFaild)));
    assert_eq!(ledger.balance_of(10), 90);
}

#[test]
fn a_judge_below_the_threshold_is_rejected() {
    let (mut judges, mut ledger, mut rep, mut events) = setup();
    judges.begin_judgement(H, 1, 10, &mut events).unwrap();
    rep.set_reputation(10, 49);
    let r = judges.do_exec_judgement(&mut ledger, &rep, 10, H, 1);
    assert!(matches!(r, Err(Error::JudgeVerifyFaild)));
}

#[test]
fn voting_on_an_unknown_judgement_is_rejected() {
    let (mut judges, mut ledger, rep, _events) = setup();
    let r = judges.do_exec_judgement(&mut ledger, &rep, 10, H, 1);
    assert!(matches!(r, Err(Error::JudgeVerifyFaild)));
}

#[test]
fn a_judge_that_cannot_cover_the_pledge_is_rejected() {
    let (mut judges, mut ledger, rep, mut events) = setup();
    judges.begin_judgement(H, 1, 500, &mut events).unwrap();
    let r = judges.do_exec_judgement(&mut ledger, &rep, 10, H, 1);
    assert!(matches!(r, Err(Error::InsufficientFunds)));
}

#[test]
fn begin_judgement_rejects_an_existing_judgement() {
    let (mut judges, _ledger, _rep, mut events) = setup();
    judges.begin_judgement(H, 1, 10, &mut events).unwrap();
    let r = judges.begin_judgement(H, 2, 20, &mut events);
    assert!(matches!(r, Err(Error::JudgeKindInvalid)));
}

#[test]
fn view_result_of_an_unknown_judgement_fails() {
    let (judges, _ledger, _rep, _events) = setup();
    assert!(matches!(judges.view_result(H), Err(Error::JudgementNotFound)));
    assert_eq!(judges.view_progress(H), JudgeKind::UnCreated);
}

#[test]
fn a_tie_resolves_to_result_false() {
    let (mut judges, mut ledger, rep, mut events) = setup();
    judges.change_judge_size(2);
    judges.begin_judgement(H, 1, 10, &mut events).unwrap();
    judges.do_exec_judgement(&mut ledger, &rep, 10, H, 1).unwrap();
    judges.do_exec_judgement(&mut ledger, &rep, 11, H, 0).unwrap();
    assert_eq!(judges.view_result(H).unwrap(), ResultKind::ResultFalse);
}

#[test]
fn final_result_is_computed_once_and_cached() {
    let (mut judges, mut ledger, rep, mut events) = setup();
    judges.begin_judgement(H, 1, 10, &mut events).unwrap();
    let early = judges.do_view_judgement_result(H);
    assert!(matches!(early, Err(Error::JudgeProcessing)));
    for (judge, vote) in [(10u64, 1u32), (11, 0), (12, 1)] {
        judges.do_exec_judgement(&mut ledger, &rep, judge, H, vote).unwrap();
    }
    let first = judges.do_view_judgement_result(H).unwrap();
    let second = judges.do_view_judgement_result(H).unwrap();
    assert_eq!(first, ResultKind::ResultTrue);
    assert_eq!(first, second);
}

#[test]
fn handler_result_maps_zero_to_false_and_anything_else_to_true() {
    assert_eq!(JudgePool::handler_result(0), ResultKind::ResultFalse);
    assert_eq!(JudgePool::handler_result(1), ResultKind::ResultTrue);
    assert_eq!(JudgePool::handler_result(42), ResultKind::ResultTrue);
}

#[test]
fn judgement_tracks_votes_and_repeats() {
    let mut judgement = Judgement::default();
    judgement.pool_size = 2;
    assert!(judgement.verify_repeat(10));
    judgement.add_judge(10, ResultKind::ResultTrue).unwrap();
    assert!(!judgement.verify_repeat(10));
    let r = judgement.add_judge(10, ResultKind::ResultFalse);
    assert!(matches!(r, Err(Error::JudgeRepeat)));
    assert_eq!(judgement.kind, JudgeKind::Processing);
    judgement.add_judge(11, ResultKind::ResultFalse).unwrap();
    assert_eq!(judgement.kind, JudgeKind::Done);
    // one against one: ties go to ResultFalse
    assert_eq!(judgement.result(), ResultKind::ResultFalse);
}

#[test]
fn governance_updates_size_and_threshold() {
    let (mut judges, _ledger, _rep, _events) = setup();
    judges.change_judge_size(5);
    judges.change_judge_threshold(70);
    assert_eq!(judges.judge_size, 5);
    assert_eq!(judges.threshold, 70);
}

#[test]
fn save_judgement_rejects_a_done_record_being_reopened() {
    let (mut judges, mut ledger, rep, mut events) = setup();
    judges.begin_judgement(H, 1, 10, &mut events).unwrap();
    for judge in [10u64, 11, 12] {
        judges.do_exec_judgement(&mut ledger, &rep, judge, H, 1).unwrap();
    }
    // moving backwards in the judgement order is invalid
    let mut replacement = Judgement::default();
    replacement.pool_size = 3;
    let r = judges.save_judgement(H, &replacement);
    assert!(matches!(r, Err(Error::JudgeKindInvalid)));
    // and a Done record is frozen even against another Done record
    replacement.kind = JudgeKind::Done;
    let r = judges.save_judgement(H, &replacement);
    assert!(matches!(r, Err(Error::JudgeAlreadyDone)));
}

#[test]
fn raising_the_committee_size_does_not_reopen_a_done_judgement() {
    let (mut judges, mut ledger, rep, mut events) = setup();
    judges.begin_judgement(H, 1, 10, &mut events).unwrap();
    for judge in [10u64, 11, 12] {
        judges.do_exec_judgement(&mut ledger, &rep, judge, H, 1).unwrap();
    }
    assert_eq!(judges.view_progress(H), JudgeKind::Done);
    // governance grows the committee mid-flight; the judgement keeps its own
    // pool size and stays terminal
    judges.change_judge_size(5);
    let r = judges.do_exec_judgement(&mut ledger, &rep, 13, H, 1);
    assert!(matches!(r, Err(Error::JudgeSizeFull)));
    assert_eq!(ledger.balance_of(13), 100);
}

#[test]
fn lowering_the_committee_size_does_not_strand_a_running_judgement() {
    let (mut judges, mut ledger, rep, mut events) = setup();
    judges.begin_judgement(H, 1, 10, &mut events).unwrap();
    judges.do_exec_judgement(&mut ledger, &rep, 10, H, 1).unwrap();
    judges.do_exec_judgement(&mut ledger, &rep, 11, H, 1).unwrap();
    // governance shrinks the committee; the judgement still completes at its
    // own pool size of three
    judges.change_judge_size(2);
    judges.do_exec_judgement(&mut ledger, &rep, 12, H, 1).unwrap();
    assert_eq!(judges.view_progress(H), JudgeKind::Done);
}
