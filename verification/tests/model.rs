use caliburn::hashing::content_digest;
use caliburn::task_board::clone_task;
use caliburn::types::{
    is_final_kind, kind_ordinal, valid_transition, Task, TaskKind,
};

#[test]
fn kind_ordinals_follow_the_fixed_total_order() {
    assert_eq!(kind_ordinal(TaskKind::Published), 0);
    assert_eq!(kind_ordinal(TaskKind::InDelivery), 1);
    assert_eq!(kind_ordinal(TaskKind::Deliveryed), 2);
    assert_eq!(kind_ordinal(TaskKind::Arbitration), 3);
    assert_eq!(kind_ordinal(TaskKind::Failure), 4);
    assert_eq!(kind_ordinal(TaskKind::Done), 5);
}

#[test]
fn the_transition_table_has_exactly_the_five_edges() {
    let all = [
        TaskKind::Published,
        TaskKind::InDelivery,
        TaskKind::Deliveryed,
        TaskKind::Arbitration,
        TaskKind::Failure,
        TaskKind::Done,
    ];
    let mut edges: Vec<(u8, u8)> = Vec::new();
    for from in all {
        for to in all {
            if valid_transition(from, to) {
                edges.push((kind_ordinal(from), kind_ordinal(to)));
            }
        }
    }
    assert_eq!(edges, vec![(0, 1), (1, 2), (2, 3), (3, 4), (3, 5)]);
}

#[test]
fn only_failure_and_done_are_final() {
    assert!(!is_final_kind(TaskKind::Published));
    assert!(!is_final_kind(TaskKind::InDelivery));
    assert!(!is_final_kind(TaskKind::Deliveryed));
    assert!(!is_final_kind(TaskKind::Arbitration));
    assert!(is_final_kind(TaskKind::Failure));
    assert!(is_final_kind(TaskKind::Done));
}

#[test]
fn no_transition_leaves_a_final_state() {
    let all = [
        TaskKind::Published,
        TaskKind::InDelivery,
        TaskKind::Deliveryed,
        TaskKind::Arbitration,
        TaskKind::Failure,
        TaskKind::Done,
    ];
    for from in [TaskKind::Failure, TaskKind::Done] {
        for to in all {
            assert!(!valid_transition(from, to));
        }
    }
}

#[test]
fn a_default_task_is_a_blank_published_record() {
    let task = Task::default();
    assert_eq!(task.kind, TaskKind::Published);
    assert!(task.receivers.is_empty());
    assert!(task.history.is_empty());
    assert_eq!(task.pay, 0);
    assert_eq!(task.judge_pay, 0);
    assert_eq!(task.delivery_certificate, 0);
}

#[test]
fn clone_task_reproduces_every_field() {
    let mut task = Task::default();
    task.issuer = 3;
    task.receivers = vec![4, 5];
    task.description = vec![1, 2];
    task.pay = 9;
    let copy = clone_task(&task);
    assert_eq!(copy.issuer, 3);
    assert_eq!(copy.receivers, vec![4, 5]);
    assert_eq!(copy.description, vec![1, 2]);
    assert_eq!(copy.pay, 9);
}

#[test]
fn content_digest_is_deterministic() {
    let desc = vec![1u8, 2, 3];
    let subjects = vec![7u32];
    let d1 = content_digest(&desc, 50, 100, 10, &subjects, 0);
    let d2 = content_digest(&desc, 50, 100, 10, &subjects, 0);
    assert_eq!(d1, d2);
}

#[test]
fn content_digest_depends_on_the_content() {
    let subjects: Vec<u32> = Vec::new();
    let d1 = content_digest(&vec![1u8], 0, 0, 0, &subjects, 0);
    let d2 = content_digest(&vec![2u8], 0, 0, 0, &subjects, 0);
    let d3 = content_digest(&vec![1u8], 0, 0, 0, &subjects, 1);
    assert_ne!(d1, d2);
    assert_ne!(d1, d3);
}
