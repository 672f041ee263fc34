use caliburn::errors::Error;
use caliburn::identity::IdentityRegistry;
use caliburn::reputation::{ReputationLevel, ReputationOp, ReputationStore};
use caliburn::types::Event;

#[test]
fn create_subject_assigns_increasing_numbers_to_their_creators() {
    let mut id = IdentityRegistry::new();
    let mut events: Vec<Event> = Vec::new();
    id.do_create_subject(1, &mut events).unwrap();
    id.do_create_subject(2, &mut events).unwrap();
    assert_eq!(id.subject_count, 2);
    assert_eq!(id.subject_issuer(0), 1);
    assert_eq!(id.subject_issuer(1), 2);
    assert_eq!(
        events,
        vec![Event::SubjectCreated(1, 0), Event::SubjectCreated(2, 1)]
    );
}

#[test]
fn only_the_subject_owner_may_issue_and_revoke() {
    let mut id = IdentityRegistry::new();
    let mut events: Vec<Event> = Vec::new();
    id.do_create_subject(1, &mut events).unwrap();
    let r = id.do_issue(2, 5, 0, 9, &mut events);
    assert!(matches!(r, Err(Error::Unauthorized)));
    id.do_issue(1, 5, 0, 9, &mut events).unwrap();
    assert!(id.check_credential(5, 0));
    assert!(id.do_verify_credential(5, 0).is_ok());
    let r = id.do_revoke_credential(2, 5, 0, &mut events);
    assert!(matches!(r, Err(Error::Unauthorized)));
    id.do_revoke_credential(1, 5, 0, &mut events).unwrap();
    assert!(!id.check_credential(5, 0));
    assert!(matches!(id.do_verify_credential(5, 0), Err(Error::CredentialNotIssued)));
}

#[test]
fn revoking_a_credential_never_issued_fails() {
    let mut id = IdentityRegistry::new();
    let mut events: Vec<Event> = Vec::new();
    id.do_create_subject(1, &mut events).unwrap();
    let r = id.do_revoke_credential(1, 5, 0, &mut events);
    assert!(matches!(r, Err(Error::CredentialNotIssued)));
}

#[test]
fn register_user_stores_the_identity_record() {
    let mut id = IdentityRegistry::new();
    let mut events: Vec<Event> = Vec::new();
    id.do_register_user(
        3,
        vec![b'a'],
        vec![b'b'],
        vec![b'c'],
        vec![b'd'],
        vec![b'e'],
        &mut events,
    )
    .unwrap();
    assert_eq!(id.identities.len(), 1);
    assert_eq!(id.identities[0].name, vec![b'a']);
    assert_eq!(id.identities[0].email, vec![b'b']);
    assert_eq!(id.identities[0].description, vec![b'c']);
    assert_eq!(id.identities[0].additional, vec![b'd']);
    assert_eq!(id.identities[0].kyc_hash, vec![b'e']);
    assert_eq!(events, vec![Event::IdentityCreated(3)]);
}

#[test]
fn reputation_defaults_to_fifty_and_adjusts_by_the_fixed_reward() {
    let mut rep = ReputationStore::new();
    let mut events: Vec<Event> = Vec::new();
    assert_eq!(rep.rep_of(9), 50);
    let level = rep.get_account_reputation_level(9);
    assert_eq!(level.score, 50);
    rep.reputation_change(9, ReputationOp::CompleteIncrease, &mut events).unwrap();
    assert_eq!(rep.rep_of(9), 55);
    rep.reputation_change(9, ReputationOp::FailedReduce, &mut events).unwrap();
    assert_eq!(rep.rep_of(9), 50);
    assert_eq!(
        events,
        vec![Event::CompletionIncrease(9, 5), Event::FailedReduce(9, 5)]
    );
}

#[test]
fn reputation_level_moves_by_the_fixed_reward() {
    let mut level = ReputationLevel { score: 50 };
    assert_eq!(level.increase(), 5);
    assert_eq!(level.score, 55);
    assert_eq!(level.reduce(), 5);
    assert_eq!(level.score, 50);
}

#[test]
fn set_reputation_overrides_the_default() {
    let mut rep = ReputationStore::new();
    rep.set_reputation(4, 80);
    assert_eq!(rep.rep_of(4), 80);
    assert_eq!(rep.rep_of(5), 50);
}
