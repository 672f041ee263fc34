//! Subjects, credentials and user identities. A subject is a skill category
//! owned by the account that created it; only that account may issue or
//! revoke credentials for the subject. Credentials gate task participation.

use vstd::prelude::*;
use vstd::pervasive::VecAdditionalExecFns;

use crate::errors::Error;
use crate::types::{AccountId, Event};

verus! {

/// A user's registered identity record.
#[derive(Clone, PartialEq, Eq, Debug)]
pub struct IdentityInfo {
    pub name: Vec<u8>,
    pub email: Vec<u8>,
    pub description: Vec<u8>,
    pub kyc_hash: Vec<u8>,
    pub additional: Vec<u8>,
}

impl Default for IdentityInfo {
    fn default() -> (r: Self)
        ensures
            r.name@ == Seq::<u8>::empty(),
            r.email@ == Seq::<u8>::empty(),
            r.description@ == Seq::<u8>::empty(),
            r.kyc_hash@ == Seq::<u8>::empty(),
            r.additional@ == Seq::<u8>::empty(),
    {
        IdentityInfo {
            name: Vec::new(),
            email: Vec::new(),
            description: Vec::new(),
            kyc_hash: Vec::new(),
            additional: Vec::new(),
        }
    }
}

/// Description of a skill subject as its creator registered it.
#[derive(Clone, PartialEq, Eq, Debug)]
pub struct SkillSubjectDetails {
    pub issuer: AccountId,
    pub name: Vec<u8>,
    pub tags: Vec<u8>,
    pub description: Vec<u8>,
}

/// Proof that an account is certified for a subject: when it was issued and
/// by whom.
#[derive(Clone, Copy, PartialEq, Eq, Structural, Debug)]
pub struct Credential {
    pub subject: u32,
    pub when: u64,
    pub by: AccountId,
}

/// The identity registry: subjects with their issuers, issued credentials,
/// and registered user identities.
pub struct IdentityRegistry {
    pub subject_count: u32,
    pub subjects: Vec<(u32, AccountId)>,
    pub credentials: Vec<(AccountId, u32, Credential)>,
    pub identities: Vec<IdentityInfo>,
    pub identity_index: Vec<(AccountId, u64)>,
}

impl IdentityRegistry {
    pub open spec fn wf(self) -> bool {
        &&& forall|i: int, j: int|
            0 <= i < j < self.subjects@.len() ==> (#[trigger] self.subjects@[i]).0 != (
            #[trigger] self.subjects@[j]).0
        &&& forall|i: int|
            0 <= i < self.subjects@.len() ==> (#[trigger] self.subjects@[i]).0
                < self.subject_count
        &&& forall|i: int, j: int|
            0 <= i < j < self.credentials@.len() ==> !((#[trigger] self.credentials@[i]).0 == (
            #[trigger] self.credentials@[j]).0 && self.credentials@[i].1
                == self.credentials@[j].1)
        &&& forall|i: int, j: int|
            0 <= i < j < self.identity_index@.len() ==> (#[trigger] self.identity_index@[i]).0 != (
            #[trigger] self.identity_index@[j]).0
    }

    /// Whether the subject has been created.
    pub open spec fn spec_has_subject(self, s: u32) -> bool {
        exists|i: int| 0 <= i < self.subjects@.len() && (#[trigger] self.subjects@[i]).0 == s
    }

    /// The account that owns the subject; the zero account for a subject
    /// never created, as the host storage would answer.
    pub open spec fn spec_subject_issuer(self, s: u32) -> AccountId {
        if self.spec_has_subject(s) {
            let i = choose|i: int|
                0 <= i < self.subjects@.len() && (#[trigger] self.subjects@[i]).0 == s;
            self.subjects@[i].1
        } else {
            0
        }
    }

    /// Whether the holder has a credential for the subject.
    pub open spec fn spec_has_credential(self, holder: AccountId, s: u32) -> bool {
        exists|i: int|
            0 <= i < self.credentials@.len() && (#[trigger] self.credentials@[i]).0 == holder
                && self.credentials@[i].1 == s
    }

    /// The stored credential for the pair; a zeroed record when none is
    /// issued.
    pub open spec fn spec_credential_of(self, holder: AccountId, s: u32) -> Credential {
        if self.spec_has_credential(holder, s) {
            let i = choose|i: int|
                0 <= i < self.credentials@.len() && (#[trigger] self.credentials@[i]).0 == holder
                    && self.credentials@[i].1 == s;
            self.credentials@[i].2
        } else {
            Credential { subject: s, when: 0, by: 0 }
        }
    }

    pub proof fn lemma_subject_at(self, i: int)
        requires
            self.wf(),
            0 <= i < self.subjects@.len(),
        ensures
            self.spec_has_subject(self.subjects@[i].0),
            self.spec_subject_issuer(self.subjects@[i].0) == self.subjects@[i].1,
    {
        let s = self.subjects@[i].0;
        assert(self.spec_has_subject(s));
        let j = choose|j: int| 0 <= j < self.subjects@.len() && (#[trigger] self.subjects@[j]).0 == s;
        if i < j {
            assert(self.subjects@[i].0 != self.subjects@[j].0);
        } else if j < i {
            assert(self.subjects@[j].0 != self.subjects@[i].0);
        }
    }

    pub proof fn lemma_credential_at(self, i: int)
        requires
            self.wf(),
            0 <= i < self.credentials@.len(),
        ensures
            self.spec_has_credential(self.credentials@[i].0, self.credentials@[i].1),
            self.spec_credential_of(self.credentials@[i].0, self.credentials@[i].1)
                == self.credentials@[i].2,
    {
        let h = self.credentials@[i].0;
        let s = self.credentials@[i].1;
        assert(self.spec_has_credential(h, s));
        let j = choose|j: int|
            0 <= j < self.credentials@.len() && (#[trigger] self.credentials@[j]).0 == h
                && self.credentials@[j].1 == s;
        if i < j {
            assert(!(self.credentials@[i].0 == self.credentials@[j].0 && self.credentials@[i].1
                == self.credentials@[j].1));
        } else if j < i {
            assert(!(self.credentials@[j].0 == self.credentials@[i].0 && self.credentials@[j].1
                == self.credentials@[i].1));
        }
    }

    pub fn new() -> (r: IdentityRegistry)
        ensures
            r.wf(),
            r.subject_count == 0,
            forall|s: u32| !r.spec_has_subject(s),
            forall|a: AccountId, s: u32| !r.spec_has_credential(a, s),
            r.identities@.len() == 0,
    {
        IdentityRegistry {
            subject_count: 0,
            subjects: Vec::new(),
            credentials: Vec::new(),
            identities: Vec::new(),
            identity_index: Vec::new(),
        }
    }

    fn find_subject(&self, s: u32) -> (r: Option<usize>)
        ensures
            match r {
                Some(i) => i < self.subjects@.len() && self.subjects@[i as int].0 == s,
                None => !self.spec_has_subject(s),
            },
    {
        let mut i: usize = 0;
        while i < self.subjects.len()
            invariant
                i <= self.subjects@.len(),
                forall|j: int| 0 <= j < i ==> (#[trigger] self.subjects@[j]).0 != s,
            decreases self.subjects@.len() - i,
        {
            if self.subjects[i].0 == s {
                return Some(i);
            }
            i = i + 1;
        }
        None
    }

    fn find_credential(&self, holder: AccountId, s: u32) -> (r: Option<usize>)
        ensures
            match r {
                Some(i) => i < self.credentials@.len() && self.credentials@[i as int].0 == holder
                    && self.credentials@[i as int].1 == s,
                None => !self.spec_has_credential(holder, s),
            },
    {
        let mut i: usize = 0;
        while i < self.credentials.len()
            invariant
                i <= self.credentials@.len(),
                forall|j: int|
                    0 <= j < i ==> !((#[trigger] self.credentials@[j]).0 == holder
                        && self.credentials@[j].1 == s),
            decreases self.credentials@.len() - i,
        {
            let e = &self.credentials[i];
            if e.0 == holder && e.1 == s {
                return Some(i);
            }
            i = i + 1;
        }
        None
    }

    /// The account that owns the subject, as the issue and revoke checks read
    /// it.
    pub fn subject_issuer(&self, s: u32) -> (r: AccountId)
        requires
            self.wf(),
        ensures
            r == self.spec_subject_issuer(s),
    {
        match self.find_subject(s) {
            Some(i) => {
                proof {
                    self.lemma_subject_at(i as int);
                }
                self.subjects[i].1
            }
            None => 0,
        }
    }

    /// Whether the player holds a credential for the subject.
    pub fn check_credential(&self, player: AccountId, sub: u32) -> (r: bool)
        ensures
            r == self.spec_has_credential(player, sub),
    {
        self.find_credential(player, sub).is_some()
    }

    /// Creates a new subject owned by the sender, under the next subject
    /// number. Fails with `TaskCheckAddFail` only when the subject counter
    /// cannot grow any further.
    pub fn do_create_subject(&mut self, sender: AccountId, events: &mut Vec<Event>) -> (r: Result<
        (),
        Error,
    >)
        requires
            old(self).wf(),
        ensures
            final(self).wf(),
            r is Ok <==> old(self).subject_count < u32::MAX,
            r is Err ==> r == Err::<(), Error>(Error::TaskCheckAddFail) && *final(self) == *old(
                self,
            ) && *final(events) == *old(events),
            r is Ok ==> {
                &&& final(self).subject_count == old(self).subject_count + 1
                &&& final(self).spec_has_subject(old(self).subject_count)
                &&& final(self).spec_subject_issuer(old(self).subject_count) == sender
                &&& forall|s: u32|
                    s != old(self).subject_count ==> final(self).spec_has_subject(s) == old(
                        self,
                    ).spec_has_subject(s) && final(self).spec_subject_issuer(s) == old(
                        self,
                    ).spec_subject_issuer(s)
                &&& final(events)@ == old(events)@.push(
                    Event::SubjectCreated(sender, old(self).subject_count),
                )
                &&& final(self).credentials@ == old(self).credentials@
                &&& final(self).identities@ == old(self).identities@
                &&& final(self).identity_index@ == old(self).identity_index@
            },
    {
        if self.subject_count == u32::MAX {
            return Err(Error::TaskCheckAddFail);
        }
        let ghost pre = *self;
        let s = self.subject_count;
        self.subjects.push((s, sender));
        self.subject_count = self.subject_count + 1;
        proof {
            assert forall|ii: int, jj: int| 0 <= ii < jj < self.subjects@.len() implies (
            #[trigger] self.subjects@[ii]).0 != (#[trigger] self.subjects@[jj]).0 by {
                if jj == self.subjects@.len() - 1 {
                    assert(self.subjects@[ii] == pre.subjects@[ii]);
                }
            }
            assert(self.wf());
            self.lemma_subject_at(self.subjects@.len() - 1);
            assert forall|t: u32| t != s implies self.spec_has_subject(t) == pre.spec_has_subject(
                t,
            ) && self.spec_subject_issuer(t) == pre.spec_subject_issuer(t) by {
                if pre.spec_has_subject(t) {
                    let j = choose|j: int|
                        0 <= j < pre.subjects@.len() && (#[trigger] pre.subjects@[j]).0 == t;
                    assert(self.subjects@[j].0 == t);
                    assert(self.spec_has_subject(t));
                    pre.lemma_subject_at(j);
                    self.lemma_subject_at(j);
                }
                if self.spec_has_subject(t) {
                    let j = choose|j: int|
                        0 <= j < self.subjects@.len() && (#[trigger] self.subjects@[j]).0 == t;
                    assert(j < pre.subjects@.len());
                    assert(pre.subjects@[j].0 == t);
                }
            }
        }
        events.push(Event::SubjectCreated(sender, s));
        Ok(())
    }

    /// Issues (or re-issues) a credential for `subject` to `to`. Only the
    /// subject's owner may issue; anyone else gets `Unauthorized`.
    pub fn do_issue(
        &mut self,
        sender: AccountId,
        to: AccountId,
        subject: u32,
        now: u64,
        events: &mut Vec<Event>,
    ) -> (r: Result<(), Error>)
        requires
            old(self).wf(),
        ensures
            final(self).wf(),
            r is Ok <==> old(self).spec_subject_issuer(subject) == sender,
            r is Err ==> r == Err::<(), Error>(Error::Unauthorized) && *final(self) == *old(self)
                && *final(events) == *old(events),
            r is Ok ==> {
                &&& final(self).spec_has_credential(to, subject)
                &&& final(self).spec_credential_of(to, subject) == (Credential {
                    subject,
                    when: now,
                    by: sender,
                })
                &&& forall|b: AccountId, t: u32|
                    !(b == to && t == subject) ==> final(self).spec_has_credential(b, t) == old(
                        self,
                    ).spec_has_credential(b, t) && final(self).spec_credential_of(b, t) == old(
                        self,
                    ).spec_credential_of(b, t)
                &&& final(events)@ == old(events)@.push(
                    Event::CredentialIssued(to, subject, sender),
                )
                &&& final(self).subjects@ == old(self).subjects@
                &&& final(self).subject_count == old(self).subject_count
                &&& final(self).identities@ == old(self).identities@
                &&& final(self).identity_index@ == old(self).identity_index@
            },
    {
        let subject_issuer = self.subject_issuer(subject);
        if subject_issuer != sender {
            return Err(Error::Unauthorized);
        }
        let ghost pre = *self;
        let cred = Credential { subject, when: now, by: sender };
        match self.find_credential(to, subject) {
            Some(i) => {
                self.credentials.set(i, (to, subject, cred));
                proof {
                    assert(self.wf());
                    self.lemma_credential_at(i as int);
                    assert forall|b: AccountId, t: u32| !(b == to && t == subject) implies self
                        .spec_has_credential(b, t) == pre.spec_has_credential(b, t) && self
                        .spec_credential_of(b, t) == pre.spec_credential_of(b, t) by {
                        Self::lemma_cred_frame_update(pre, *self, i as int, b, t);
                    }
                }
            }
            None => {
                self.credentials.push((to, subject, cred));
                proof {
                    assert forall|ii: int, jj: int|
                        0 <= ii < jj < self.credentials@.len() implies !((
                    #[trigger] self.credentials@[ii]).0 == (#[trigger] self.credentials@[jj]).0
                        && self.credentials@[ii].1 == self.credentials@[jj].1) by {
                        if jj == self.credentials@.len() - 1 {
                            assert(self.credentials@[ii] == pre.credentials@[ii]);
                        }
                    }
                    assert(self.wf());
                    self.lemma_credential_at(self.credentials@.len() - 1);
                    assert forall|b: AccountId, t: u32| !(b == to && t == subject) implies self
                        .spec_has_credential(b, t) == pre.spec_has_credential(b, t) && self
                        .spec_credential_of(b, t) == pre.spec_credential_of(b, t) by {
                        Self::lemma_cred_frame_push(pre, *self, b, t);
                    }
                }
            }
        }
        events.push(Event::CredentialIssued(to, subject, sender));
        Ok(())
    }

    proof fn lemma_cred_frame_update(
        pre: IdentityRegistry,
        post: IdentityRegistry,
        i: int,
        b: AccountId,
        t: u32,
    )
        requires
            pre.wf(),
            post.wf(),
            0 <= i < pre.credentials@.len(),
            post.credentials@ == pre.credentials@.update(i, post.credentials@[i]),
            post.credentials@[i].0 == pre.credentials@[i].0,
            post.credentials@[i].1 == pre.credentials@[i].1,
            !(b == pre.credentials@[i].0 && t == pre.credentials@[i].1),
        ensures
            post.spec_has_credential(b, t) == pre.spec_has_credential(b, t),
            post.spec_credential_of(b, t) == pre.spec_credential_of(b, t),
    {
        if pre.spec_has_credential(b, t) {
            let j = choose|j: int|
                0 <= j < pre.credentials@.len() && (#[trigger] pre.credentials@[j]).0 == b
                    && pre.credentials@[j].1 == t;
            assert(post.credentials@[j].0 == b && post.credentials@[j].1 == t);
            assert(post.spec_has_credential(b, t));
            pre.lemma_credential_at(j);
            post.lemma_credential_at(j);
        }
        if post.spec_has_credential(b, t) {
            let j = choose|j: int|
                0 <= j < post.credentials@.len() && (#[trigger] post.credentials@[j]).0 == b
                    && post.credentials@[j].1 == t;
            assert(pre.credentials@[j].0 == b && pre.credentials@[j].1 == t);
            assert(pre.spec_has_credential(b, t));
        }
    }

    proof fn lemma_cred_frame_push(pre: IdentityRegistry, post: IdentityRegistry, b: AccountId, t: u32)
        requires
            pre.wf(),
            post.wf(),
            post.credentials@ == pre.credentials@.push(post.credentials@.last()),
            !(b == post.credentials@.last().0 && t == post.credentials@.last().1),
        ensures
            post.spec_has_credential(b, t) == pre.spec_has_credential(b, t),
            post.spec_credential_of(b, t) == pre.spec_credential_of(b, t),
    {
        if pre.spec_has_credential(b, t) {
            let j = choose|j: int|
                0 <= j < pre.credentials@.len() && (#[trigger] pre.credentials@[j]).0 == b
                    && pre.credentials@[j].1 == t;
            assert(post.credentials@[j].0 == b && post.credentials@[j].1 == t);
            assert(post.spec_has_credential(b, t));
            pre.lemma_credential_at(j);
            post.lemma_credential_at(j);
        }
        if post.spec_has_credential(b, t) {
            let j = choose|j: int|
                0 <= j < post.credentials@.len() && (#[trigger] post.credentials@[j]).0 == b
                    && post.credentials@[j].1 == t;
            assert(j < pre.credentials@.len());
            assert(pre.credentials@[j].0 == b && pre.credentials@[j].1 == t);
        }
    }

    /// Revokes a credential. Only the subject's owner may revoke; revoking a
    /// credential that was never issued fails with `CredentialNotIssued`.
    pub fn do_revoke_credential(
        &mut self,
        sender: AccountId,
        to: AccountId,
        subject: u32,
        events: &mut Vec<Event>,
    ) -> (r: Result<(), Error>)
        requires
            old(self).wf(),
        ensures
            final(self).wf(),
            r is Ok <==> old(self).spec_subject_issuer(subject) == sender && old(
                self,
            ).spec_has_credential(to, subject),
            old(self).spec_subject_issuer(subject) != sender ==> r == Err::<(), Error>(
                Error::Unauthorized,
            ),
            old(self).spec_subject_issuer(subject) == sender && !old(self).spec_has_credential(
                to,
                subject,
            ) ==> r == Err::<(), Error>(Error::CredentialNotIssued),
            r is Err ==> *final(self) == *old(self) && *final(events) == *old(events),
            r is Ok ==> {
                &&& !final(self).spec_has_credential(to, subject)
                &&& forall|b: AccountId, t: u32|
                    !(b == to && t == subject) ==> final(self).spec_has_credential(b, t) == old(
                        self,
                    ).spec_has_credential(b, t) && final(self).spec_credential_of(b, t) == old(
                        self,
                    ).spec_credential_of(b, t)
                &&& final(events)@ == old(events)@.push(
                    Event::CredentialRevoked(to, subject, sender),
                )
                &&& final(self).subjects@ == old(self).subjects@
                &&& final(self).subject_count == old(self).subject_count
                &&& final(self).identities@ == old(self).identities@
                &&& final(self).identity_index@ == old(self).identity_index@
            },
    {
        let subject_issuer = self.subject_issuer(subject);
        if subject_issuer != sender {
            return Err(Error::Unauthorized);
        }
        match self.find_credential(to, subject) {
            Some(i) => {
                let ghost pre = *self;
                self.credentials.remove(i);
                proof {
                    pre.credentials@.remove_ensures(i as int);
                    assert forall|ii: int, jj: int|
                        0 <= ii < jj < self.credentials@.len() implies !((
                    #[trigger] self.credentials@[ii]).0 == (#[trigger] self.credentials@[jj]).0
                        && self.credentials@[ii].1 == self.credentials@[jj].1) by {
                        let pi = if ii < i as int { ii } else { ii + 1 };
                        let pj = if jj < i as int { jj } else { jj + 1 };
                        assert(self.credentials@[ii] == pre.credentials@[pi]);
                        assert(self.credentials@[jj] == pre.credentials@[pj]);
                    }
                    assert(self.wf());
                    assert forall|b: AccountId, t: u32| !(b == to && t == subject) implies self
                        .spec_has_credential(b, t) == pre.spec_has_credential(b, t) && self
                        .spec_credential_of(b, t) == pre.spec_credential_of(b, t) by {
                        Self::lemma_cred_frame_remove(pre, *self, i as int, b, t);
                    }
                    assert forall|j: int|
                        0 <= j < self.credentials@.len() implies !((
                    #[trigger] self.credentials@[j]).0 == to && self.credentials@[j].1
                        == subject) by {
                        let pj = if j < i as int { j } else { j + 1 };
                        assert(self.credentials@[j] == pre.credentials@[pj]);
                        if pj != i as int {
                            if pj < i as int {
                                assert(!(pre.credentials@[pj].0 == pre.credentials@[i as int].0
                                    && pre.credentials@[pj].1 == pre.credentials@[i as int].1));
                            } else {
                                assert(!(pre.credentials@[i as int].0 == pre.credentials@[pj].0
                                    && pre.credentials@[i as int].1 == pre.credentials@[pj].1));
                            }
                        }
                    }
                }
                events.push(Event::CredentialRevoked(to, subject, sender));
                Ok(())
            }
            None => Err(Error::CredentialNotIssued),
        }
    }

    proof fn lemma_cred_frame_remove(
        pre: IdentityRegistry,
        post: IdentityRegistry,
        i: int,
        b: AccountId,
        t: u32,
    )
        requires
            pre.wf(),
            post.wf(),
            0 <= i < pre.credentials@.len(),
            post.credentials@ == pre.credentials@.remove(i),
            !(b == pre.credentials@[i].0 && t == pre.credentials@[i].1),
        ensures
            post.spec_has_credential(b, t) == pre.spec_has_credential(b, t),
            post.spec_credential_of(b, t) == pre.spec_credential_of(b, t),
    {
        pre.credentials@.remove_ensures(i);
        if pre.spec_has_credential(b, t) {
            let j = choose|j: int|
                0 <= j < pre.credentials@.len() && (#[trigger] pre.credentials@[j]).0 == b
                    && pre.credentials@[j].1 == t;
            let j2 = if j < i { j } else { j - 1 };
            assert(post.credentials@[j2] == pre.credentials@[j]);
            assert(post.spec_has_credential(b, t));
            pre.lemma_credential_at(j);
            post.lemma_credential_at(j2);
        }
        if post.spec_has_credential(b, t) {
            let j = choose|j: int|
                0 <= j < post.credentials@.len() && (#[trigger] post.credentials@[j]).0 == b
                    && post.credentials@[j].1 == t;
            let pj = if j < i { j } else { j + 1 };
            assert(pre.credentials@[pj] == post.credentials@[j]);
            assert(pre.spec_has_credential(b, t));
        }
    }

    /// Whether the account has a registered identity number.
    pub open spec fn spec_has_identity_index(self, a: AccountId) -> bool {
        exists|i: int|
            0 <= i < self.identity_index@.len() && (#[trigger] self.identity_index@[i]).0 == a
    }

    /// The position in the identity store that the account's registration
    /// points at; zero for an account never registered.
    pub open spec fn spec_identity_index_of(self, a: AccountId) -> u64 {
        if self.spec_has_identity_index(a) {
            let i = choose|i: int|
                0 <= i < self.identity_index@.len() && (#[trigger] self.identity_index@[i]).0 == a;
            self.identity_index@[i].1
        } else {
            0
        }
    }

    pub proof fn lemma_identity_index_at(self, i: int)
        requires
            forall|ii: int, jj: int|
                0 <= ii < jj < self.identity_index@.len() ==> (
                #[trigger] self.identity_index@[ii]).0 != (
                #[trigger] self.identity_index@[jj]).0,
            0 <= i < self.identity_index@.len(),
        ensures
            self.spec_has_identity_index(self.identity_index@[i].0),
            self.spec_identity_index_of(self.identity_index@[i].0) == self.identity_index@[i].1,
    {
        let a = self.identity_index@[i].0;
        assert(self.spec_has_identity_index(a));
        let j = choose|j: int|
            0 <= j < self.identity_index@.len() && (#[trigger] self.identity_index@[j]).0 == a;
        if i < j {
            assert(self.identity_index@[i].0 != self.identity_index@[j].0);
        } else if j < i {
            assert(self.identity_index@[j].0 != self.identity_index@[i].0);
        }
    }

    /// Two registries with the same index entries answer the same
    /// registration views, whatever their other fields hold.
    pub proof fn lemma_index_views_same(a: Self, b: Self, x: AccountId)
        requires
            a.identity_index@ == b.identity_index@,
            forall|ii: int, jj: int|
                0 <= ii < jj < a.identity_index@.len() ==> (
                #[trigger] a.identity_index@[ii]).0 != (#[trigger] a.identity_index@[jj]).0,
        ensures
            a.spec_has_identity_index(x) == b.spec_has_identity_index(x),
            a.spec_identity_index_of(x) == b.spec_identity_index_of(x),
    {
        if a.spec_has_identity_index(x) {
            let j = choose|j: int|
                0 <= j < a.identity_index@.len() && (#[trigger] a.identity_index@[j]).0 == x;
            assert(b.identity_index@[j].0 == x);
            assert(b.spec_has_identity_index(x));
            a.lemma_identity_index_at(j);
            b.lemma_identity_index_at(j);
        }
        if b.spec_has_identity_index(x) {
            let j = choose|j: int|
                0 <= j < b.identity_index@.len() && (#[trigger] b.identity_index@[j]).0 == x;
            assert(a.identity_index@[j].0 == x);
            assert(a.spec_has_identity_index(x));
        }
    }

    /// Confirms that the credential is issued; read-only.
    pub fn do_verify_credential(&self, holder: AccountId, subject: u32) -> (r: Result<(), Error>)
        ensures
            r is Ok <==> self.spec_has_credential(holder, subject),
            r is Err ==> r == Err::<(), Error>(Error::CredentialNotIssued),
    {
        if self.check_credential(holder, subject) {
            Ok(())
        } else {
            Err(Error::CredentialNotIssued)
        }
    }

    /// Registers (or re-registers) the sender's identity record under the
    /// next identity number; the sender's index entry points at the new
    /// record's position.
    pub fn do_register_user(
        &mut self,
        sender: AccountId,
        name: Vec<u8>,
        email: Vec<u8>,
        description: Vec<u8>,
        additional: Vec<u8>,
        kyc_hash: Vec<u8>,
        events: &mut Vec<Event>,
    ) -> (r: Result<(), Error>)
        requires
            old(self).wf(),
        ensures
            final(self).wf(),
            r is Ok,
            final(self).identities@.len() == old(self).identities@.len() + 1,
            final(self).identities@.last().name@ == name@,
            final(self).identities@.last().email@ == email@,
            final(self).identities@.last().description@ == description@,
            final(self).identities@.last().additional@ == additional@,
            final(self).identities@.last().kyc_hash@ == kyc_hash@,
            forall|i: int|
                0 <= i < old(self).identities@.len() ==> final(self).identities@[i] == old(
                    self,
                ).identities@[i],
            final(self).spec_has_identity_index(sender),
            final(self).spec_identity_index_of(sender) == old(self).identities@.len(),
            forall|b: AccountId|
                b != sender ==> final(self).spec_has_identity_index(b) == old(
                    self,
                ).spec_has_identity_index(b) && final(self).spec_identity_index_of(b) == old(
                    self,
                ).spec_identity_index_of(b),
            final(events)@ == old(events)@.push(Event::IdentityCreated(sender)),
            final(self).subjects@ == old(self).subjects@,
            final(self).subject_count == old(self).subject_count,
            final(self).credentials@ == old(self).credentials@,
    {
        let mut info = IdentityInfo::default();
        info.name = name;
        info.email = email;
        info.description = description;
        info.additional = additional;
        info.kyc_hash = kyc_hash;

        let ghost pre = *self;
        let identity_count = self.identities.len() as u64;
        self.identities.push(info);
        let ghost mid = *self;
        self.set_identity_index(sender, identity_count);
        proof {
            assert forall|b: AccountId| b != sender implies self.spec_has_identity_index(b)
                == pre.spec_has_identity_index(b) && self.spec_identity_index_of(b)
                == pre.spec_identity_index_of(b) by {
                Self::lemma_index_views_same(mid, pre, b);
            }
        }
        events.push(Event::IdentityCreated(sender));
        Ok(())
    }

    /// Internal upsert of the account's identity number.
    fn set_identity_index(&mut self, a: AccountId, idx: u64)
        requires
            forall|i: int, j: int|
                0 <= i < j < old(self).identity_index@.len() ==> (
                #[trigger] old(self).identity_index@[i]).0 != (
                #[trigger] old(self).identity_index@[j]).0,
        ensures
            forall|i: int, j: int|
                0 <= i < j < final(self).identity_index@.len() ==> (
                #[trigger] final(self).identity_index@[i]).0 != (
                #[trigger] final(self).identity_index@[j]).0,
            final(self).spec_has_identity_index(a),
            final(self).spec_identity_index_of(a) == idx,
            forall|b: AccountId|
                b != a ==> final(self).spec_has_identity_index(b) == old(
                    self,
                ).spec_has_identity_index(b) && final(self).spec_identity_index_of(b) == old(
                    self,
                ).spec_identity_index_of(b),
            final(self).subjects@ == old(self).subjects@,
            final(self).subject_count == old(self).subject_count,
            final(self).credentials@ == old(self).credentials@,
            final(self).identities@ == old(self).identities@,
    {
        let ghost pre = *self;
        match self.find_identity_index(a) {
            Some(i) => {
                self.identity_index.set(i, (a, idx));
                proof {
                    assert forall|ii: int, jj: int|
                        0 <= ii < jj < self.identity_index@.len() implies (
                    #[trigger] self.identity_index@[ii]).0 != (
                    #[trigger] self.identity_index@[jj]).0 by {
                        assert(pre.identity_index@[ii].0 != pre.identity_index@[jj].0);
                    }
                    self.lemma_identity_index_at(i as int);
                    assert forall|b: AccountId| b != a implies self.spec_has_identity_index(b)
                        == pre.spec_has_identity_index(b) && self.spec_identity_index_of(b)
                        == pre.spec_identity_index_of(b) by {
                        if pre.spec_has_identity_index(b) {
                            let j = choose|j: int|
                                0 <= j < pre.identity_index@.len() && (
                                #[trigger] pre.identity_index@[j]).0 == b;
                            assert(self.identity_index@[j].0 == b);
                            assert(self.spec_has_identity_index(b));
                            pre.lemma_identity_index_at(j);
                            self.lemma_identity_index_at(j);
                        }
                        if self.spec_has_identity_index(b) {
                            let j = choose|j: int|
                                0 <= j < self.identity_index@.len() && (
                                #[trigger] self.identity_index@[j]).0 == b;
                            assert(pre.identity_index@[j].0 == b);
                            assert(pre.spec_has_identity_index(b));
                        }
                    }
                }
            }
            None => {
                self.identity_index.push((a, idx));
                proof {
                    assert forall|ii: int, jj: int|
                        0 <= ii < jj < self.identity_index@.len() implies (
                    #[trigger] self.identity_index@[ii]).0 != (
                    #[trigger] self.identity_index@[jj]).0 by {
                        if jj == self.identity_index@.len() - 1 {
                            assert(self.identity_index@[ii] == pre.identity_index@[ii]);
                        }
                    }
                    self.lemma_identity_index_at(self.identity_index@.len() - 1);
                    assert forall|b: AccountId| b != a implies self.spec_has_identity_index(b)
                        == pre.spec_has_identity_index(b) && self.spec_identity_index_of(b)
                        == pre.spec_identity_index_of(b) by {
                        if pre.spec_has_identity_index(b) {
                            let j = choose|j: int|
                                0 <= j < pre.identity_index@.len() && (
                                #[trigger] pre.identity_index@[j]).0 == b;
                            assert(self.identity_index@[j].0 == b);
                            assert(self.spec_has_identity_index(b));
                            pre.lemma_identity_index_at(j);
                            self.lemma_identity_index_at(j);
                        }
                        if self.spec_has_identity_index(b) {
                            let j = choose|j: int|
                                0 <= j < self.identity_index@.len() && (
                                #[trigger] self.identity_index@[j]).0 == b;
                            assert(j < pre.identity_index@.len());
                            assert(pre.identity_index@[j].0 == b);
                        }
                    }
                }
            }
        }
    }

    fn find_identity_index(&self, a: AccountId) -> (r: Option<usize>)
        ensures
            match r {
                Some(i) => i < self.identity_index@.len() && self.identity_index@[i as int].0 == a,
                None => forall|j: int|
                    0 <= j < self.identity_index@.len() ==> (
                    #[trigger] self.identity_index@[j]).0 != a,
            },
    {
        let mut i: usize = 0;
        while i < self.identity_index.len()
            invariant
                i <= self.identity_index@.len(),
                forall|j: int| 0 <= j < i ==> (#[trigger] self.identity_index@[j]).0 != a,
            decreases self.identity_index@.len() - i,
        {
            if self.identity_index[i].0 == a {
                return Some(i);
            }
            i = i + 1;
        }
        None
    }
}

} // verus!
