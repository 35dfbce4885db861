//! The survey state machine.
//!
//! A survey binds to one question and moves through the five phases of
//! [`crate::phase`]. Events arrive from a survey-chain identity, are
//! validated against the caller's role in the parent room and against the
//! phase, and are applied deterministically. Every successful event hands
//! back an undo record; a transaction applies its events in order and, on
//! the first failure, replays the undo records in reverse, leaving the
//! state exactly as it was.

use vstd::prelude::*;

use crate::answer::Answer;
use crate::bytes::push_slice;
use crate::bytes::push_u16_le;
use crate::bytes::push_u64_le;
use crate::bytes::u16_le;
use crate::bytes::u64_le;
use crate::errors::CryptoError;
use crate::errors::RoomError;
use crate::ids::UserID;
use crate::identity::IdentityID;
use crate::identity::SurveyIdentityID;
use crate::phase::MemberPresence;
use crate::phase::OpenStatus;
use crate::phase::Phase;
use crate::phase::RemovalReason;
use crate::phase::copy_vec;
use crate::phase::iter_monotone;
use crate::phase::phase_at_boundary;
use crate::phase::phase_wf;
use crate::question::Question;
use crate::ring::RingSig;
use crate::ring::RingSigLink;
use crate::ring::ring_verify_ok;
use crate::roles::AllowLevel;
use crate::roles::Role;
use crate::room::RoomState;
use crate::schnorr::PublicKey;
use crate::schnorr::SecretKey;
use crate::schnorr::Sig;
use crate::schnorr::schnorr_verify;

verus! {

/// An event of a survey chain.
#[derive(Clone, Debug, PartialEq, Eq)]
pub enum SurveyEvent {
    /// Refused once the survey exists; creation goes through
    /// [`SurveyState::new`].
    CreateSurvey(Question),
    Join,
    Leave,
    Connected(UserID),
    Disconnected(UserID),
    Kick(UserID),
    Unkick(UserID),
    SetJoinability(bool),
    SetCollectability(bool),
    Go,
    Ready,
    PublicPartialKey { public_key: PublicKey, challenge: Sig },
    NewAnswer(Answer),
    PrivatePartialKey(SecretKey),
    Message(String),
    SetMessageLevel(AllowLevel),
}

/// The cryptographic material an event carries is canonical.
pub open spec fn event_wf(e: SurveyEvent) -> bool {
    match e {
        SurveyEvent::PublicPartialKey { public_key, challenge } => public_key.wf()
            && challenge.wf(),
        SurveyEvent::NewAnswer(a) => a.wf(),
        SurveyEvent::PrivatePartialKey(sk) => sk.wf(),
        _ => true,
    }
}

/// The compensating record of one applied event; replaying it reverses the
/// event exactly.
#[derive(Clone, Debug, PartialEq, Eq)]
pub enum SurveyUndo {
    /// The event changed nothing.
    NoChange,
    /// Put the joinability flag back.
    RestoreJoinability(bool),
    /// Put the collectability flag back.
    RestoreCollectability(bool),
    /// Put the message level back.
    RestoreMessageLevel(AllowLevel),
    /// Put the whole phase back.
    RestorePhase(Phase),
}

/// The state of one survey.
#[derive(Clone, Debug, PartialEq, Eq)]
pub struct SurveyState {
    pub question: Question,
    pub phase: Phase,
    pub message_level: AllowLevel,
}

impl SurveyState {
    /// The phase invariant holds and the phase is normalized.
    pub open spec fn wf(self) -> bool {
        phase_wf(self.phase) && !phase_at_boundary(self.phase)
    }

    /// Open a fresh survey on a question: joinable, not yet collectable,
    /// nobody joined.
    pub fn new(question: Question) -> (r: SurveyState)
        ensures
            r.wf(),
            r.question == question,
            r.phase matches Phase::Open { .. },
            r.phase->Open_joinable == true,
            r.phase->Open_collectable == false,
            r.phase->Open_members@.len() == 0,
            r.phase->Open_unready_members == 0,
            r.message_level == AllowLevel::Regular,
    {
        SurveyState {
            question,
            phase: Phase::Open {
                joinable: true,
                collectable: false,
                members: Vec::new(),
                unready_members: 0,
            },
            message_level: AllowLevel::Regular,
        }
    }
}

/// Two ring signatures carry the same data.
pub open spec fn ringsig_equiv(a: RingSig, b: RingSig) -> bool {
    a.a1 == b.a1 && a.c@ == b.c@ && a.z@ == b.z@
}

/// Two answers carry the same data.
pub open spec fn answer_equiv(a: Answer, b: Answer) -> bool {
    &&& a.sign_key == b.sign_key
    &&& a.encrypt_key == b.encrypt_key
    &&& a.iteration == b.iteration
    &&& a.answer@ == b.answer@
    &&& ringsig_equiv(a.ring_sig, b.ring_sig)
    &&& a.sig == b.sig
}

/// Two answer lists carry the same data, in the same order.
pub open spec fn answers_equiv(x: Seq<Answer>, y: Seq<Answer>) -> bool {
    x.len() == y.len() && forall|i: int| 0 <= i < x.len() ==> answer_equiv(#[trigger] x[i], y[i])
}

/// Two clear answers say the same thing.
pub open spec fn clear_equiv(a: crate::answer::ClearAnswer, b: crate::answer::ClearAnswer) -> bool {
    &&& a.sign_key == b.sign_key
    &&& a.encrypt_key == b.encrypt_key
    &&& crate::answer::body_view(a.answer) == crate::answer::body_view(b.answer)
}

/// Two clear-answer lists say the same things, in the same order.
pub open spec fn clears_equiv(
    x: Seq<crate::answer::ClearAnswer>,
    y: Seq<crate::answer::ClearAnswer>,
) -> bool {
    x.len() == y.len() && forall|i: int| 0 <= i < x.len() ==> clear_equiv(#[trigger] x[i], y[i])
}

/// Two phases carry the same data.
pub open spec fn phase_equiv(a: Phase, b: Phase) -> bool {
    match (a, b) {
        (
            Phase::Open { joinable: j1, collectable: c1, members: m1, unready_members: u1 },
            Phase::Open { joinable: j2, collectable: c2, members: m2, unready_members: u2 },
        ) => j1 == j2 && c1 == c2 && m1@ == m2@ && u1 == u2,
        (
            Phase::Encrypt { iteration: i1, ready_members: r1, unready_members: u1 },
            Phase::Encrypt { iteration: i2, ready_members: r2, unready_members: u2 },
        ) => i1 == i2 && r1@ == r2@ && u1@ == u2@,
        (
            Phase::Answers {
                iteration: i1,
                members: m1,
                encryption: e1,
                answers: a1,
                remaining_answers: n1,
            },
            Phase::Answers {
                iteration: i2,
                members: m2,
                encryption: e2,
                answers: a2,
                remaining_answers: n2,
            },
        ) => i1 == i2 && m1@ == m2@ && e1 == e2 && answers_equiv(a1@, a2@) && n1 == n2,
        (
            Phase::Decrypt {
                iteration: i1,
                members: m1,
                encryption: e1,
                answers: a1,
                remaining_secrets: n1,
            },
            Phase::Decrypt {
                iteration: i2,
                members: m2,
                encryption: e2,
                answers: a2,
                remaining_secrets: n2,
            },
        ) => i1 == i2 && m1@ == m2@ && e1 == e2 && answers_equiv(a1@, a2@) && n1 == n2,
        (
            Phase::Debate { members: m1, present: p1, answers: a1 },
            Phase::Debate { members: m2, present: p2, answers: a2 },
        ) => m1@ == m2@ && p1@ == p2@ && clears_equiv(a1@, a2@),
        _ => false,
    }
}

/// Two survey states carry the same data.
pub open spec fn state_equiv(a: SurveyState, b: SurveyState) -> bool {
    a.question == b.question && a.message_level == b.message_level && phase_equiv(a.phase, b.phase)
}

/// Every phase carries the same data as itself.
pub proof fn lemma_phase_equiv_refl(p: Phase)
    ensures
        phase_equiv(p, p),
{
}

/// The state an undo record brings a state back to.
pub open spec fn apply_undo_spec(st: SurveyState, u: SurveyUndo) -> SurveyState {
    match u {
        SurveyUndo::NoChange => st,
        SurveyUndo::RestoreJoinability(b) => SurveyState {
            phase: match st.phase {
                Phase::Open { collectable, members, unready_members, .. } => Phase::Open {
                    joinable: b,
                    collectable,
                    members,
                    unready_members,
                },
                other => other,
            },
            ..st
        },
        SurveyUndo::RestoreCollectability(b) => SurveyState {
            phase: match st.phase {
                Phase::Open { joinable, members, unready_members, .. } => Phase::Open {
                    joinable,
                    collectable: b,
                    members,
                    unready_members,
                },
                other => other,
            },
            ..st
        },
        SurveyUndo::RestoreMessageLevel(l) => SurveyState { message_level: l, ..st },
        SurveyUndo::RestorePhase(p) => SurveyState { phase: p, ..st },
    }
}

/// Replay an undo record.
pub fn apply_undo(st: &mut SurveyState, u: SurveyUndo)
    ensures
        *final(st) == apply_undo_spec(*old(st), u),
{
    match u {
        SurveyUndo::NoChange => {},
        SurveyUndo::RestoreJoinability(b) => {
            match &mut st.phase {
                Phase::Open { joinable, .. } => {
                    *joinable = b;
                },
                _ => {},
            }
        },
        SurveyUndo::RestoreCollectability(b) => {
            match &mut st.phase {
                Phase::Open { collectable, .. } => {
                    *collectable = b;
                },
                _ => {},
            }
        },
        SurveyUndo::RestoreMessageLevel(l) => {
            st.message_level = l;
        },
        SurveyUndo::RestorePhase(p) => {
            st.phase = p;
        },
    }
}

/// Copy an answer, datum for datum.
fn clone_answer(a: &Answer) -> (r: Answer)
    ensures
        answer_equiv(*a, r),
{
    Answer {
        sign_key: a.sign_key,
        encrypt_key: a.encrypt_key,
        iteration: a.iteration,
        answer: copy_vec(&a.answer),
        ring_sig: RingSig { a1: a.ring_sig.a1, c: copy_vec(&a.ring_sig.c), z: copy_vec(&a.ring_sig.z) },
        sig: a.sig,
    }
}

/// Copy an answer list, datum for datum.
fn clone_answers(v: &Vec<Answer>) -> (r: Vec<Answer>)
    ensures
        answers_equiv(v@, r@),
{
    let mut out: Vec<Answer> = Vec::new();
    let mut i: usize = 0;
    while i < v.len()
        invariant
            i <= v@.len(),
            out@.len() == i,
            forall|j: int| 0 <= j < i ==> answer_equiv(#[trigger] v@[j], out@[j]),
        decreases v@.len() - i,
    {
        out.push(clone_answer(&v[i]));
        i = i + 1;
    }
    out
}

/// Copy a clear answer, datum for datum.
fn clone_clear(a: &crate::answer::ClearAnswer) -> (r: crate::answer::ClearAnswer)
    ensures
        clear_equiv(*a, r),
{
    crate::answer::ClearAnswer {
        sign_key: a.sign_key,
        encrypt_key: a.encrypt_key,
        answer: match &a.answer {
            crate::answer::ClearAnswerBody::Open(v) => crate::answer::ClearAnswerBody::Open(
                copy_vec(v),
            ),
            crate::answer::ClearAnswerBody::Closed(x) => crate::answer::ClearAnswerBody::Closed(*x),
            crate::answer::ClearAnswerBody::Poll(k) => crate::answer::ClearAnswerBody::Poll(*k),
        },
    }
}

/// Copy a clear-answer list, datum for datum.
fn clone_clears(v: &Vec<crate::answer::ClearAnswer>) -> (r: Vec<crate::answer::ClearAnswer>)
    ensures
        clears_equiv(v@, r@),
{
    let mut out: Vec<crate::answer::ClearAnswer> = Vec::new();
    let mut i: usize = 0;
    while i < v.len()
        invariant
            i <= v@.len(),
            out@.len() == i,
            forall|j: int| 0 <= j < i ==> clear_equiv(#[trigger] v@[j], out@[j]),
        decreases v@.len() - i,
    {
        out.push(clone_clear(&v[i]));
        i = i + 1;
    }
    out
}

/// Carrying the same data is symmetric.
pub proof fn lemma_phase_equiv_sym(a: Phase, b: Phase)
    requires
        phase_equiv(a, b),
    ensures
        phase_equiv(b, a),
{
}

/// Copy a phase, datum for datum.
pub fn clone_phase(p: &Phase) -> (r: Phase)
    ensures
        phase_equiv(*p, r),
{
    match p {
        Phase::Open { joinable, collectable, members, unready_members } => Phase::Open {
            joinable: *joinable,
            collectable: *collectable,
            members: copy_vec(members),
            unready_members: *unready_members,
        },
        Phase::Encrypt { iteration, ready_members, unready_members } => Phase::Encrypt {
            iteration: *iteration,
            ready_members: copy_vec(ready_members),
            unready_members: copy_vec(unready_members),
        },
        Phase::Answers { iteration, members, encryption, answers, remaining_answers } => Phase::Answers {
            iteration: *iteration,
            members: copy_vec(members),
            encryption: *encryption,
            answers: clone_answers(answers),
            remaining_answers: *remaining_answers,
        },
        Phase::Decrypt { iteration, members, encryption, answers, remaining_secrets } => Phase::Decrypt {
            iteration: *iteration,
            members: copy_vec(members),
            encryption: *encryption,
            answers: clone_answers(answers),
            remaining_secrets: *remaining_secrets,
        },
        Phase::Debate { members, present, answers } => Phase::Debate {
            members: copy_vec(members),
            present: copy_vec(present),
            answers: clone_clears(answers),
        },
    }
}

/// The domain-separating tag every answer of a survey is ring-signed
/// under: a fixed prefix and the question identifier.
pub open spec fn answer_tag(q: Question) -> Seq<u8> {
    seq![107u8, 117u8, 122u8, 104u8, 45u8, 97u8, 110u8, 115u8] + u16_le(q.id.0)
}

/// The message an answer's ring signature covers: the iteration and the
/// sealed box. The ring itself is bound by the signature scheme.
pub open spec fn answer_message(iteration: u64, sealed: Seq<u8>) -> Seq<u8> {
    u64_le(iteration) + sealed
}

/// The ring of an `Answers` roster: the committed shares, in roster order.
pub open spec fn shares_of(s: Seq<(UserID, PublicKey)>) -> Seq<PublicKey> {
    Seq::new(s.len(), |i: int| s[i].1)
}

/// Build the tag of this survey's answers.
pub fn answer_tag_exec(q: &Question) -> (r: Vec<u8>)
    ensures
        r@ == answer_tag(*q),
{
    let mut out: Vec<u8> = Vec::new();
    push_slice(&mut out, &[107u8, 117u8, 122u8, 104u8, 45u8, 97u8, 110u8, 115u8]);
    push_u16_le(&mut out, q.id.0);
    proof {
        assert(out@ =~= answer_tag(*q));
    }
    out
}

/// Build the message an answer's ring signature covers.
pub fn answer_message_exec(iteration: u64, sealed: &Vec<u8>) -> (r: Vec<u8>)
    ensures
        r@ == answer_message(iteration, sealed@),
{
    let mut out: Vec<u8> = Vec::new();
    push_u64_le(&mut out, iteration);
    push_slice(&mut out, sealed.as_slice());
    proof {
        assert(out@ =~= answer_message(iteration, sealed@));
    }
    out
}

/// Collect the ring of an `Answers` roster.
fn collect_shares(members: &Vec<(UserID, PublicKey)>) -> (r: Vec<PublicKey>)
    ensures
        r@ == shares_of(members@),
{
    let mut out: Vec<PublicKey> = Vec::new();
    let mut i: usize = 0;
    while i < members.len()
        invariant
            i <= members@.len(),
            out@.len() == i,
            forall|j: int| 0 <= j < i ==> out@[j] == (#[trigger] members@[j]).1,
        decreases members@.len() - i,
    {
        out.push(members[i].1);
        i = i + 1;
    }
    proof {
        assert(out@ =~= shares_of(members@));
    }
    out
}

/// Whether the room lets this identity moderate the survey: the role
/// lookup's error, `Unauthorized` below duty rank, or leave to proceed.
pub open spec fn duty_gate(room: RoomState, from: SurveyIdentityID) -> Result<(), RoomError> {
    match crate::room::spec_role_of_survey(room, from) {
        Err(e) => Err(e),
        Ok(ro) => if (ro matches Role::Duty(_)) {
            Ok(())
        } else {
            Err(RoomError::Unauthorized)
        },
    }
}

/// The event result with its undo record stripped, for comparing against
/// the phase-level step relations.
pub open spec fn strip_undo(r: Result<SurveyUndo, RoomError>) -> Result<(), RoomError> {
    match r {
        Ok(_) => Ok(()),
        Err(e) => Err(e),
    }
}

/// Everything `SurveyState::apply_event` guarantees per event: the role
/// and signature gates exactly, and past them the phase-level step
/// relation of the matching operation.
pub open spec fn survey_event_post(
    pre: SurveyState,
    post: SurveyState,
    from: SurveyIdentityID,
    event: SurveyEvent,
    room: RoomState,
    r: Result<SurveyUndo, RoomError>,
) -> bool {
    match event {
        SurveyEvent::CreateSurvey(_) => r == Err::<SurveyUndo, RoomError>(
            RoomError::SurveyAlreadyCreated,
        ) && post == pre,
        SurveyEvent::SetJoinability(b) => match duty_gate(room, from) {
            Err(e) => r == Err::<SurveyUndo, RoomError>(e),
            Ok(_) => crate::phase::set_joinability_post(pre.phase, post.phase, b, strip_undo(r)),
        },
        SurveyEvent::SetCollectability(b) => match duty_gate(room, from) {
            Err(e) => r == Err::<SurveyUndo, RoomError>(e),
            Ok(_) => crate::phase::set_collectability_post(pre.phase, post.phase, b, strip_undo(r)),
        },
        SurveyEvent::Go => match duty_gate(room, from) {
            Err(e) => r == Err::<SurveyUndo, RoomError>(e),
            Ok(_) => crate::phase::go_post(pre.phase, post.phase, strip_undo(r)),
        },
        SurveyEvent::Kick(u) => match duty_gate(room, from) {
            Err(e) => r == Err::<SurveyUndo, RoomError>(e),
            Ok(_) => crate::phase::remove_user_post(
                pre.phase,
                post.phase,
                u,
                RemovalReason::Kicked,
                strip_undo(r),
            ),
        },
        SurveyEvent::Unkick(u) => match duty_gate(room, from) {
            Err(e) => r == Err::<SurveyUndo, RoomError>(e),
            Ok(_) => crate::phase::unkick_post(pre.phase, post.phase, u, strip_undo(r)),
        },
        SurveyEvent::Join => match from {
            IdentityID::User(u) => match crate::room::spec_role_of(room, IdentityID::User(u)) {
                Err(e) => r == Err::<SurveyUndo, RoomError>(e),
                Ok(ro) => if (ro matches Role::Banned) {
                    r == Err::<SurveyUndo, RoomError>(RoomError::Unauthorized)
                } else {
                    crate::phase::join_post(pre.phase, post.phase, u, strip_undo(r))
                },
            },
            _ => r == Err::<SurveyUndo, RoomError>(RoomError::Unauthorized),
        },
        SurveyEvent::Leave => match from {
            IdentityID::User(u) => crate::phase::remove_user_post(
                pre.phase,
                post.phase,
                u,
                RemovalReason::Left,
                strip_undo(r),
            ),
            _ => r == Err::<SurveyUndo, RoomError>(RoomError::Unauthorized),
        },
        SurveyEvent::Connected(u) => match from {
            IdentityID::RoomID => crate::phase::connected_post(
                pre.phase,
                post.phase,
                u,
                strip_undo(r),
            ),
            _ => r == Err::<SurveyUndo, RoomError>(RoomError::Unauthorized),
        },
        SurveyEvent::Disconnected(u) => match from {
            IdentityID::RoomID => crate::phase::remove_user_post(
                pre.phase,
                post.phase,
                u,
                RemovalReason::Disconnected,
                strip_undo(r),
            ),
            _ => r == Err::<SurveyUndo, RoomError>(RoomError::Unauthorized),
        },
        SurveyEvent::Ready => match from {
            IdentityID::User(u) => crate::phase::set_ready_post(
                pre.phase,
                post.phase,
                u,
                strip_undo(r),
            ),
            _ => r == Err::<SurveyUndo, RoomError>(RoomError::Unauthorized),
        },
        SurveyEvent::PublicPartialKey { public_key, challenge } => match from {
            IdentityID::User(u) => if !schnorr_verify(
                public_key.bytes@,
                public_key.bytes@,
                challenge,
            ) {
                r == Err::<SurveyUndo, RoomError>(RoomError::Crypto(CryptoError::BadSignature))
            } else {
                crate::phase::commit_share_post(
                    pre.phase,
                    post.phase,
                    u,
                    public_key,
                    strip_undo(r),
                )
            },
            _ => r == Err::<SurveyUndo, RoomError>(RoomError::Unauthorized),
        },
        SurveyEvent::NewAnswer(a) => match from {
            IdentityID::Answer(_) => match pre.phase {
                Phase::Answers { iteration, members, .. } => if a.iteration != iteration {
                    r == Err::<SurveyUndo, RoomError>(RoomError::StaleIteration)
                } else if a.ring_sig.c@.len() != members@.len() || a.ring_sig.z@.len()
                    != members@.len() {
                    r == Err::<SurveyUndo, RoomError>(
                        RoomError::Crypto(CryptoError::LengthMismatch),
                    )
                } else if !crate::group::point_valid(a.ring_sig.a1@) {
                    r == Err::<SurveyUndo, RoomError>(
                        RoomError::Crypto(CryptoError::NonCanonicalPoint),
                    )
                } else if !ring_verify_ok(
                    answer_tag(pre.question),
                    shares_of(members@),
                    answer_message(a.iteration, a.answer@),
                    a.ring_sig,
                ) {
                    r == Err::<SurveyUndo, RoomError>(
                        RoomError::Crypto(CryptoError::BadRingSignature),
                    )
                } else if !schnorr_verify(
                    a.sign_key.bytes@,
                    answer_message(a.iteration, a.answer@),
                    a.sig,
                ) {
                    r == Err::<SurveyUndo, RoomError>(RoomError::Crypto(CryptoError::BadSignature))
                } else {
                    crate::phase::add_answer_post(pre.phase, post.phase, a, strip_undo(r))
                },
                _ => r == Err::<SurveyUndo, RoomError>(RoomError::InvalidSurveyPhase),
            },
            _ => r == Err::<SurveyUndo, RoomError>(RoomError::Unauthorized),
        },
        SurveyEvent::PrivatePartialKey(sk) => match from {
            IdentityID::User(u) => crate::phase::reveal_secret_post(
                pre.phase,
                post.phase,
                u,
                sk,
                strip_undo(r),
            ),
            _ => r == Err::<SurveyUndo, RoomError>(RoomError::Unauthorized),
        },
        SurveyEvent::Message(_) => match crate::room::spec_role_of_survey(room, from) {
            Err(e) => r == Err::<SurveyUndo, RoomError>(e),
            Ok(ro) => match crate::roles::spec_from_role_id(ro, from) {
                None => r == Err::<SurveyUndo, RoomError>(RoomError::Unauthorized),
                Some(l) => if crate::roles::allow_rank(l) < crate::roles::allow_rank(
                    pre.message_level,
                ) {
                    r == Err::<SurveyUndo, RoomError>(RoomError::Unauthorized)
                } else {
                    r == Ok::<SurveyUndo, RoomError>(SurveyUndo::NoChange) && post == pre
                },
            },
        },
        SurveyEvent::SetMessageLevel(l) => match duty_gate(room, from) {
            Err(e) => r == Err::<SurveyUndo, RoomError>(e),
            Ok(_) => r == Ok::<SurveyUndo, RoomError>(
                SurveyUndo::RestoreMessageLevel(pre.message_level),
            ) && post.message_level == l && post.phase == pre.phase && post.question
                == pre.question,
        },
    }
}

impl SurveyState {
    /// Apply one survey event from the given identity.
    ///
    /// The room supplies the roles; the phase methods of
    /// [`crate::phase::Phase`] carry the exact per-phase transition
    /// contracts. This entry point adds the role and signature checks,
    /// guarantees that a failing event leaves the state untouched, that
    /// the iteration counter never falls, and hands back an undo record
    /// that restores the pre-event state datum for datum.
    #[verifier::rlimit(100)]
    #[verifier::spinoff_prover]
    pub fn apply_event(
        &mut self,
        from: SurveyIdentityID,
        event: SurveyEvent,
        room: &RoomState,
    ) -> (r: Result<SurveyUndo, RoomError>)
        requires
            old(self).wf(),
            event_wf(event),
            room.wf(),
        ensures
            final(self).wf(),
            r is Err ==> *final(self) == *old(self),
            final(self).question == old(self).question,
            iter_monotone(old(self).phase, final(self).phase),
            old(self).phase matches Phase::Debate { .. } ==> final(self).phase matches Phase::Debate { .. },
            (crate::phase::phase_iter(old(self).phase) is Some && crate::phase::phase_iter(
                final(self).phase,
            ) is None) ==> final(self).phase matches Phase::Debate { .. },
            r matches Ok(u) ==> state_equiv(apply_undo_spec(*final(self), u), *old(self)),
            survey_event_post(*old(self), *final(self), from, event, *room, r),
            event matches SurveyEvent::SetJoinability(b) ==> (r is Ok ==> {
                &&& r == Ok::<SurveyUndo, RoomError>(
                    SurveyUndo::RestoreJoinability(old(self).phase->Open_joinable),
                )
                &&& final(self).phase matches Phase::Open { .. }
                &&& final(self).phase->Open_joinable == b
                &&& final(self).phase->Open_collectable == old(self).phase->Open_collectable
                &&& final(self).phase->Open_members == old(self).phase->Open_members
                &&& final(self).phase->Open_unready_members == old(
                    self,
                ).phase->Open_unready_members
            }),
    {
        match event {
            SurveyEvent::CreateSurvey(_) => Err(RoomError::SurveyAlreadyCreated),
            SurveyEvent::SetJoinability(b) => {
                let ro = match room.role_of_survey(from) {
                    Ok(ro) => ro,
                    Err(e) => {
                        return Err(e);
                    },
                };
                if !ro.can_moderate() {
                    return Err(RoomError::Unauthorized);
                }
                let prev = match &self.phase {
                    Phase::Open { joinable, .. } => *joinable,
                    _ => false,
                };
                match self.phase.set_joinability(b) {
                    Err(e) => Err(e),
                    Ok(_) => {
                        proof {
                            lemma_phase_equiv_refl(old(self).phase);
                        }
                        Ok(SurveyUndo::RestoreJoinability(prev))
                    },
                }
            },
            SurveyEvent::SetCollectability(b) => {
                let ro = match room.role_of_survey(from) {
                    Ok(ro) => ro,
                    Err(e) => {
                        return Err(e);
                    },
                };
                if !ro.can_moderate() {
                    return Err(RoomError::Unauthorized);
                }
                let saved = clone_phase(&self.phase);
                match self.phase.set_collectability(b) {
                    Err(e) => Err(e),
                    Ok(_) => {
                        proof {
                            lemma_phase_equiv_sym(old(self).phase, saved);
                        }
                        Ok(SurveyUndo::RestorePhase(saved))
                    },
                }
            },
            SurveyEvent::Go => {
                let ro = match room.role_of_survey(from) {
                    Ok(ro) => ro,
                    Err(e) => {
                        return Err(e);
                    },
                };
                if !ro.can_moderate() {
                    return Err(RoomError::Unauthorized);
                }
                let saved = clone_phase(&self.phase);
                match self.phase.go() {
                    Err(e) => Err(e),
                    Ok(_) => {
                        proof {
                            lemma_phase_equiv_sym(old(self).phase, saved);
                        }
                        Ok(SurveyUndo::RestorePhase(saved))
                    },
                }
            },
            SurveyEvent::Join => {
                let user_id = match from {
                    IdentityID::User(u) => u,
                    _ => {
                        return Err(RoomError::Unauthorized);
                    },
                };
                let ro = match room.role_of(IdentityID::User(user_id)) {
                    Ok(ro) => ro,
                    Err(e) => {
                        return Err(e);
                    },
                };
                if ro.is_banned() {
                    return Err(RoomError::Unauthorized);
                }
                let saved = clone_phase(&self.phase);
                match self.phase.join(user_id) {
                    Err(e) => Err(e),
                    Ok(_) => {
                        proof {
                            lemma_phase_equiv_sym(old(self).phase, saved);
                        }
                        Ok(SurveyUndo::RestorePhase(saved))
                    },
                }
            },
            SurveyEvent::Leave => {
                let user_id = match from {
                    IdentityID::User(u) => u,
                    _ => {
                        return Err(RoomError::Unauthorized);
                    },
                };
                let saved = clone_phase(&self.phase);
                match self.phase.remove_user(user_id, RemovalReason::Left) {
                    Err(e) => Err(e),
                    Ok(_) => {
                        proof {
                            lemma_phase_equiv_sym(old(self).phase, saved);
                        }
                        Ok(SurveyUndo::RestorePhase(saved))
                    },
                }
            },
            SurveyEvent::Connected(user_id) => {
                if !matches!(from, IdentityID::RoomID) {
                    return Err(RoomError::Unauthorized);
                }
                let saved = clone_phase(&self.phase);
                match self.phase.connected(user_id) {
                    Err(e) => Err(e),
                    Ok(_) => {
                        proof {
                            lemma_phase_equiv_sym(old(self).phase, saved);
                        }
                        Ok(SurveyUndo::RestorePhase(saved))
                    },
                }
            },
            SurveyEvent::Disconnected(user_id) => {
                if !matches!(from, IdentityID::RoomID) {
                    return Err(RoomError::Unauthorized);
                }
                let saved = clone_phase(&self.phase);
                match self.phase.remove_user(user_id, RemovalReason::Disconnected) {
                    Err(e) => Err(e),
                    Ok(_) => {
                        proof {
                            lemma_phase_equiv_sym(old(self).phase, saved);
                        }
                        Ok(SurveyUndo::RestorePhase(saved))
                    },
                }
            },
            SurveyEvent::Kick(user_id) => {
                let ro = match room.role_of_survey(from) {
                    Ok(ro) => ro,
                    Err(e) => {
                        return Err(e);
                    },
                };
                if !ro.can_moderate() {
                    return Err(RoomError::Unauthorized);
                }
                let saved = clone_phase(&self.phase);
                match self.phase.remove_user(user_id, RemovalReason::Kicked) {
                    Err(e) => Err(e),
                    Ok(_) => {
                        proof {
                            lemma_phase_equiv_sym(old(self).phase, saved);
                        }
                        Ok(SurveyUndo::RestorePhase(saved))
                    },
                }
            },
            SurveyEvent::Unkick(user_id) => {
                let ro = match room.role_of_survey(from) {
                    Ok(ro) => ro,
                    Err(e) => {
                        return Err(e);
                    },
                };
                if !ro.can_moderate() {
                    return Err(RoomError::Unauthorized);
                }
                let saved = clone_phase(&self.phase);
                match self.phase.unkick(user_id) {
                    Err(e) => Err(e),
                    Ok(_) => {
                        proof {
                            lemma_phase_equiv_sym(old(self).phase, saved);
                        }
                        Ok(SurveyUndo::RestorePhase(saved))
                    },
                }
            },
            SurveyEvent::Ready => {
                let user_id = match from {
                    IdentityID::User(u) => u,
                    _ => {
                        return Err(RoomError::Unauthorized);
                    },
                };
                let saved = clone_phase(&self.phase);
                match self.phase.set_ready(user_id) {
                    Err(e) => Err(e),
                    Ok(_) => {
                        proof {
                            lemma_phase_equiv_sym(old(self).phase, saved);
                        }
                        Ok(SurveyUndo::RestorePhase(saved))
                    },
                }
            },
            SurveyEvent::PublicPartialKey { public_key, challenge } => {
                let user_id = match from {
                    IdentityID::User(u) => u,
                    _ => {
                        return Err(RoomError::Unauthorized);
                    },
                };
                let key_bytes = public_key.to_bytes();
                if !public_key.verify(&key_bytes, &challenge) {
                    return Err(RoomError::Crypto(CryptoError::BadSignature));
                }
                let saved = clone_phase(&self.phase);
                match self.phase.commit_share(user_id, public_key) {
                    Err(e) => Err(e),
                    Ok(_) => {
                        proof {
                            lemma_phase_equiv_sym(old(self).phase, saved);
                        }
                        Ok(SurveyUndo::RestorePhase(saved))
                    },
                }
            },
            SurveyEvent::NewAnswer(ans) => {
                if !matches!(from, IdentityID::Answer(_)) {
                    return Err(RoomError::Unauthorized);
                }
                let (current_iteration, ring) = match &self.phase {
                    Phase::Answers { iteration, members, .. } => (
                        *iteration,
                        collect_shares(members),
                    ),
                    _ => {
                        return Err(RoomError::InvalidSurveyPhase);
                    },
                };
                if ans.iteration != current_iteration {
                    return Err(RoomError::StaleIteration);
                }
                proof {
                    assert forall|j: int| 0 <= j < ring@.len() implies (#[trigger] ring@[j]).wf() by {
                        assert(ring@[j] == old(self).phase->Answers_members@[j].1);
                    }
                }
                let tag = answer_tag_exec(&self.question);
                let message = answer_message_exec(ans.iteration, &ans.answer);
                match ans.ring_sig.verify(tag.as_slice(), &ring, message.as_slice()) {
                    Err(e) => {
                        return Err(RoomError::Crypto(e));
                    },
                    Ok(false) => {
                        return Err(RoomError::Crypto(CryptoError::BadRingSignature));
                    },
                    Ok(true) => {},
                }
                if !ans.sign_key.verify(message.as_slice(), &ans.sig) {
                    return Err(RoomError::Crypto(CryptoError::BadSignature));
                }
                let saved = clone_phase(&self.phase);
                match self.phase.add_answer(ans) {
                    Err(e) => Err(e),
                    Ok(_) => {
                        proof {
                            lemma_phase_equiv_sym(old(self).phase, saved);
                        }
                        Ok(SurveyUndo::RestorePhase(saved))
                    },
                }
            },
            SurveyEvent::PrivatePartialKey(sk) => {
                let user_id = match from {
                    IdentityID::User(u) => u,
                    _ => {
                        return Err(RoomError::Unauthorized);
                    },
                };
                let saved = clone_phase(&self.phase);
                match self.phase.reveal_secret(user_id, sk) {
                    Err(e) => Err(e),
                    Ok(_) => {
                        proof {
                            lemma_phase_equiv_sym(old(self).phase, saved);
                        }
                        Ok(SurveyUndo::RestorePhase(saved))
                    },
                }
            },
            SurveyEvent::Message(_) => {
                let ro = match room.role_of_survey(from) {
                    Ok(ro) => ro,
                    Err(e) => {
                        return Err(e);
                    },
                };
                let level = match AllowLevel::from_role_id(ro, from) {
                    Some(l) => l,
                    None => {
                        return Err(RoomError::Unauthorized);
                    },
                };
                if level.rank() < self.message_level.rank() {
                    return Err(RoomError::Unauthorized);
                }
                proof {
                    lemma_phase_equiv_refl(old(self).phase);
                }
                Ok(SurveyUndo::NoChange)
            },
            SurveyEvent::SetMessageLevel(l) => {
                let ro = match room.role_of_survey(from) {
                    Ok(ro) => ro,
                    Err(e) => {
                        return Err(e);
                    },
                };
                if !ro.can_moderate() {
                    return Err(RoomError::Unauthorized);
                }
                let prev = self.message_level;
                self.message_level = l;
                proof {
                    lemma_phase_equiv_refl(old(self).phase);
                }
                Ok(SurveyUndo::RestoreMessageLevel(prev))
            },
        }
    }
}

/// Every event of a transaction carries canonical material.
pub open spec fn events_wf(s: Seq<SurveyEvent>) -> bool {
    forall|i: int| 0 <= i < s.len() ==> event_wf(#[trigger] s[i])
}

/// The state reached by replaying a stack of undo records, newest first.
pub open spec fn undo_all(st: SurveyState, undos: Seq<SurveyUndo>) -> SurveyState
    decreases undos.len(),
{
    if undos.len() == 0 {
        st
    } else {
        undo_all(apply_undo_spec(st, undos.last()), undos.drop_last())
    }
}

/// Carrying the same data survives one undo record.
pub proof fn lemma_apply_undo_equiv(a: SurveyState, b: SurveyState, u: SurveyUndo)
    requires
        state_equiv(a, b),
    ensures
        state_equiv(apply_undo_spec(a, u), apply_undo_spec(b, u)),
{
    match u {
        SurveyUndo::RestorePhase(p) => {
            lemma_phase_equiv_refl(p);
        },
        _ => {},
    }
}

/// Carrying the same data survives a whole undo stack.
pub proof fn lemma_undo_all_equiv(a: SurveyState, b: SurveyState, undos: Seq<SurveyUndo>)
    requires
        state_equiv(a, b),
    ensures
        state_equiv(undo_all(a, undos), undo_all(b, undos)),
    decreases undos.len(),
{
    if undos.len() > 0 {
        lemma_apply_undo_equiv(a, b, undos.last());
        lemma_undo_all_equiv(
            apply_undo_spec(a, undos.last()),
            apply_undo_spec(b, undos.last()),
            undos.drop_last(),
        );
    }
}

/// Carrying the same data is transitive.
pub proof fn lemma_state_equiv_trans(a: SurveyState, b: SurveyState, c: SurveyState)
    requires
        state_equiv(a, b),
        state_equiv(b, c),
    ensures
        state_equiv(a, c),
{
}

/// A state carrying the same data as a well-formed one is well-formed.
pub proof fn lemma_equiv_wf(a: SurveyState, b: SurveyState)
    requires
        state_equiv(a, b),
        b.wf(),
    ensures
        a.wf(),
{
    match (a.phase, b.phase) {
        (Phase::Answers { .. }, Phase::Answers { .. }) => {
            assert forall|i: int|
                0 <= i < a.phase->Answers_answers@.len() implies (
            #[trigger] a.phase->Answers_answers@[i]).wf() && a.phase->Answers_answers@[i].iteration
                == a.phase->Answers_iteration by {
                assert(answer_equiv(
                    b.phase->Answers_answers@[i],
                    a.phase->Answers_answers@[i],
                ) || answer_equiv(a.phase->Answers_answers@[i], b.phase->Answers_answers@[i]));
            }
        },
        (Phase::Decrypt { .. }, Phase::Decrypt { .. }) => {
            assert forall|i: int|
                0 <= i < a.phase->Decrypt_answers@.len() implies (
            #[trigger] a.phase->Decrypt_answers@[i]).wf() && a.phase->Decrypt_answers@[i].iteration
                == a.phase->Decrypt_iteration by {
                assert(answer_equiv(a.phase->Decrypt_answers@[i], b.phase->Decrypt_answers@[i])
                    || answer_equiv(b.phase->Decrypt_answers@[i], a.phase->Decrypt_answers@[i]));
            }
        },
        _ => {},
    }
}

/// Phases carrying the same data carry the same iteration.
pub proof fn lemma_equiv_iter(a: Phase, b: Phase)
    requires
        phase_equiv(a, b),
    ensures
        crate::phase::phase_iter(a) == crate::phase::phase_iter(b),
{
}

/// The state reached by applying the events in order, each through the
/// per-event step relation with a successful result.
pub open spec fn events_applied(
    pre: SurveyState,
    post: SurveyState,
    from: SurveyIdentityID,
    events: Seq<SurveyEvent>,
    room: RoomState,
) -> bool
    decreases events.len(),
{
    if events.len() == 0 {
        post == pre
    } else {
        exists|mid: SurveyState, u: SurveyUndo|
            #[trigger] survey_event_post(pre, mid, from, events.first(), room, Ok(u))
                && events_applied(mid, post, from, events.drop_first(), room)
    }
}

/// One more successful step extends an application chain at its end.
proof fn lemma_events_applied_snoc(
    pre: SurveyState,
    mid: SurveyState,
    post: SurveyState,
    from: SurveyIdentityID,
    s: Seq<SurveyEvent>,
    e: SurveyEvent,
    room: RoomState,
    u: SurveyUndo,
)
    requires
        events_applied(pre, mid, from, s, room),
        survey_event_post(mid, post, from, e, room, Ok(u)),
    ensures
        events_applied(pre, post, from, s.push(e), room),
    decreases s.len(),
{
    if s.len() == 0 {
        assert(mid == pre);
        assert(s.push(e).first() == e);
        assert(s.push(e).drop_first() =~= Seq::<SurveyEvent>::empty());
        assert(events_applied(post, post, from, s.push(e).drop_first(), room));
        assert(survey_event_post(pre, post, from, s.push(e).first(), room, Ok(u)));
    } else {
        let (m0, u0) = choose|m0: SurveyState, u0: SurveyUndo|
            #[trigger] survey_event_post(pre, m0, from, s.first(), room, Ok(u0))
                && events_applied(m0, mid, from, s.drop_first(), room);
        lemma_events_applied_snoc(m0, mid, post, from, s.drop_first(), e, room, u);
        assert(s.push(e).first() == s.first());
        assert(s.push(e).drop_first() =~= s.drop_first().push(e));
        assert(survey_event_post(pre, m0, from, s.push(e).first(), room, Ok(u0)));
        assert(events_applied(m0, post, from, s.push(e).drop_first(), room));
    }
}

impl SurveyState {
    /// Apply a transaction: its events in order, atomically.
    ///
    /// On the first failing event the undo records of the already applied
    /// events are replayed in reverse and the error surfaces; the state
    /// then carries exactly the data it carried before the transaction.
    pub fn apply_transaction(
        &mut self,
        from: SurveyIdentityID,
        events: Vec<SurveyEvent>,
        room: &RoomState,
    ) -> (r: Result<(), RoomError>)
        requires
            old(self).wf(),
            events_wf(events@),
            room.wf(),
        ensures
            final(self).wf(),
            r is Err ==> state_equiv(*final(self), *old(self)),
            r is Ok ==> events_applied(*old(self), *final(self), from, events@, *room),
            iter_monotone(old(self).phase, final(self).phase),
            final(self).question == old(self).question,
    {
        let mut undos: Vec<SurveyUndo> = Vec::new();
        let mut evs = events;
        let ghost orig = evs@;
        proof {
            assert(orig.take(0) =~= Seq::<SurveyEvent>::empty());
        }
        while evs.len() > 0
            invariant
                self.wf(),
                room.wf(),
                events_wf(evs@),
                evs@.len() <= orig.len(),
                evs@ == orig.subrange(orig.len() - evs@.len(), orig.len() as int),
                events_applied(
                    *old(self),
                    *self,
                    from,
                    orig.take(orig.len() - evs@.len()),
                    *room,
                ),
                state_equiv(undo_all(*self, undos@), *old(self)),
                iter_monotone(old(self).phase, self.phase),
                (crate::phase::phase_iter(old(self).phase) is Some && crate::phase::phase_iter(
                    self.phase,
                ) is None) ==> self.phase matches Phase::Debate { .. },
                self.question == old(self).question,
                old(self).wf(),
            decreases evs@.len(),
        {
            let ghost pre = *self;
            let ghost d = orig.len() - evs@.len();
            let ghost prev_evs = evs@;
            let e = evs.remove(0);
            proof {
                assert(prev_evs == orig.subrange(d as int, orig.len() as int));
                assert(orig.subrange(d as int, orig.len() as int)[0] == orig[d as int]);
                assert(e == orig[d as int]);
                assert(evs@ == prev_evs.remove(0));
                assert(evs@ =~= orig.subrange(d as int + 1, orig.len() as int));
                assert(event_wf(e));
                assert(events_wf(evs@));
            }
            match self.apply_event(from, e, room) {
                Ok(u) => {
                    let ghost old_undos = undos@;
                    undos.push(u);
                    proof {
                        assert(undos@.drop_last() =~= old_undos);
                        assert(undo_all(*self, undos@) == undo_all(
                            apply_undo_spec(*self, u),
                            old_undos,
                        ));
                        lemma_undo_all_equiv(apply_undo_spec(*self, u), pre, old_undos);
                        lemma_state_equiv_trans(
                            undo_all(*self, undos@),
                            undo_all(pre, old_undos),
                            *old(self),
                        );
                        assert(survey_event_post(pre, *self, from, e, *room, Ok(u)));
                        lemma_events_applied_snoc(
                            *old(self),
                            pre,
                            *self,
                            from,
                            orig.take(d as int),
                            e,
                            *room,
                            u,
                        );
                        assert(orig.take(d as int).push(e) =~= orig.take(d as int + 1));
                        assert(events_applied(
                            *old(self),
                            *self,
                            from,
                            orig.take(orig.len() - evs@.len()),
                            *room,
                        ));
                    }
                },
                Err(err) => {
                    while undos.len() > 0
                        invariant
                            state_equiv(undo_all(*self, undos@), *old(self)),
                            old(self).wf(),
                        decreases undos@.len(),
                    {
                        let ghost old_undos = undos@;
                        // The loop guard makes the stack non-empty, so
                        // popping cannot fail.
                        let u = match undos.pop() {
                            Some(u) => u,
                            None => {
                                proof {
                                    assert(false);
                                }
                                SurveyUndo::NoChange
                            },
                        };
                        proof {
                            assert(old_undos.drop_last() =~= undos@);
                            assert(u == old_undos.last());
                        }
                        let ghost pre2 = *self;
                        apply_undo(self, u);
                        proof {
                            assert(*self == apply_undo_spec(pre2, u));
                            assert(undo_all(pre2, old_undos) == undo_all(
                                apply_undo_spec(pre2, u),
                                undos@,
                            ));
                        }
                    }
                    proof {
                        assert(undo_all(*self, undos@) == *self);
                        lemma_equiv_wf(*self, *old(self));
                        lemma_equiv_iter(self.phase, old(self).phase);
                    }
                    return Err(err);
                },
            }
        }
        proof {
            assert(orig.take(orig.len() as int) =~= orig);
        }
        Ok(())
    }
}

/// Decide whether two accepted answers of the same iteration come from the
/// same ring slot: the proof of a member contributing twice.
///
/// The outcome mirrors [`RingSig::link`] on the answers' ring-signed
/// messages: a slot in `SamePublicKey` names the cheating member's position
/// in the roster the ring was built from.
pub fn link_answers(
    tag: &[u8],
    public_keys: &Vec<PublicKey>,
    first: &Answer,
    second: &Answer,
) -> (r: Result<RingSigLink, CryptoError>)
    requires
        first.wf(),
        second.wf(),
    ensures
        r == Err::<RingSigLink, CryptoError>(CryptoError::LengthMismatch) <==> (public_keys@.len()
            == 0 || first.ring_sig.c@.len() != public_keys@.len() || first.ring_sig.z@.len()
            != public_keys@.len() || second.ring_sig.c@.len() != public_keys@.len()
            || second.ring_sig.z@.len() != public_keys@.len()),
        (public_keys@.len() == 1 && first.ring_sig.c@.len() == 1 && first.ring_sig.z@.len() == 1
            && second.ring_sig.c@.len() == 1 && second.ring_sig.z@.len() == 1) ==> r == Ok::<
            RingSigLink,
            CryptoError,
        >(RingSigLink::SamePublicKey(0)),
        (public_keys@.len() >= 2 && first.ring_sig.c@.len() == public_keys@.len()
            && first.ring_sig.z@.len() == public_keys@.len() && second.ring_sig.c@.len()
            == public_keys@.len() && second.ring_sig.z@.len() == public_keys@.len()
            && crate::group::point_valid(first.ring_sig.a1@) && crate::group::point_valid(
            second.ring_sig.a1@,
        )) ==> r == Ok::<RingSigLink, CryptoError>(
            crate::ring::link_outcome(
                tag@,
                public_keys@,
                answer_message(first.iteration, first.answer@),
                first.ring_sig.a1@,
                answer_message(second.iteration, second.answer@),
                second.ring_sig.a1@,
            ),
        ),
{
    let m1 = answer_message_exec(first.iteration, &first.answer);
    let m2 = answer_message_exec(second.iteration, &second.answer);
    RingSig::link(
        tag,
        public_keys,
        m1.as_slice(),
        &first.ring_sig,
        m2.as_slice(),
        &second.ring_sig,
    )
}

} // verus!
