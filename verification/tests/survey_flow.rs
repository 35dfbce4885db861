//! The survey state machine, driven end to end through all five phases.

use kuzh::answer::Answer;
use kuzh::answer::ClearAnswerBody;
use kuzh::answer::seal_box;
use kuzh::errors::CryptoError;
use kuzh::errors::RoomError;
use kuzh::group::point_mul_exec;
use kuzh::identity::IdentityID;
use kuzh::ids::AnswerID;
use kuzh::ids::BlockHeight;
use kuzh::ids::Hashed;
use kuzh::ids::Nonce;
use kuzh::ids::QuestionID;
use kuzh::ids::UserID;
use kuzh::phase::Phase;
use kuzh::question::Question;
use kuzh::question::QuestionKind;
use kuzh::ring::RingSig;
use kuzh::ring::RingSigLink;
use kuzh::roles::DutyRole;
use kuzh::roles::RegularRole;
use kuzh::roles::Role;
use kuzh::roles::SharingDutyRole;
use kuzh::room::IdentitiesState;
use kuzh::room::IdentityInfo;
use kuzh::room::PublicationRights;
use kuzh::room::QuestionsState;
use kuzh::room::RoomAccessibility;
use kuzh::room::RoomState;
use kuzh::schnorr::CryptoID;
use kuzh::schnorr::PublicKey;
use kuzh::schnorr::SecretKey;
use kuzh::schnorr::Signed;
use kuzh::survey::SurveyEvent;
use kuzh::survey::SurveyState;
use kuzh::survey::SurveyUndo;
use kuzh::survey::answer_message_exec;
use kuzh::survey::answer_tag_exec;
use kuzh::survey::link_answers;

fn crypto_id() -> CryptoID {
    let sign = SecretKey::random();
    let enc = SecretKey::random();
    let enc_pk = enc.public_key();
    let vouch = sign.sign(&enc_pk.to_bytes());
    CryptoID { sign_key: sign.public_key(), encrypt_key: Signed { value: enc_pk, signature: vouch } }
}

fn info(role: Role) -> IdentityInfo {
    IdentityInfo { crypto_id: crypto_id(), name: None, description: None, nonce: Nonce(0), role }
}

fn room_with_users(roles: Vec<Role>) -> RoomState {
    let n = roles.len() as u16;
    let mut identities = Vec::new();
    for r in roles {
        identities.push(info(r));
    }
    RoomState {
        block_height: BlockHeight { height: 0 },
        block_hash: Hashed([0u8; 32]),
        room: info(Role::Duty(SharingDutyRole { duty: DutyRole::Owner, giver: true })),
        users: IdentitiesState { identities, next_id: Some(UserID(n)) },
        masks: IdentitiesState { identities: Vec::new(), next_id: Some(kuzh::ids::MaskID(0)) },
        public_key_index: Vec::new(),
        room_accessibility: RoomAccessibility::OpenToAnyone,
        max_connected_users: 16,
        questions_state: QuestionsState {
            max_questions: 8,
            next_id: Some(QuestionID(0)),
            questions: Vec::new(),
            rights: PublicationRights { role: Role::Regular(RegularRole::Asker), explicit: Vec::new() },
        },
        message_rights: PublicationRights {
            role: Role::Regular(RegularRole::Messager),
            explicit: Vec::new(),
        },
        answering: None,
    }
}

fn question() -> Question {
    Question {
        id: QuestionID(0),
        from: IdentityID::RoomID,
        kind: QuestionKind::Closed,
        question: String::from("shall we?"),
        clarifications: Vec::new(),
    }
}

fn user(u: u16) -> kuzh::identity::SurveyIdentityID {
    IdentityID::User(UserID(u))
}

/// Drive a fresh survey with three members to the `Answers` phase. Returns
/// the per-member share secrets.
fn to_answers(survey: &mut SurveyState, room: &RoomState) -> Vec<SecretKey> {
    for u in 0..3u16 {
        survey.apply_event(user(u), SurveyEvent::Join, room).expect("join");
        survey.apply_event(user(u), SurveyEvent::Ready, room).expect("ready");
    }
    survey
        .apply_event(IdentityID::RoomID, SurveyEvent::SetCollectability(true), room)
        .expect("collect");
    assert!(matches!(survey.phase, Phase::Encrypt { .. }));

    let mut shares = Vec::new();
    for u in 0..3u16 {
        let sk = SecretKey::random();
        let pk = sk.public_key();
        let challenge = sk.sign(&pk.to_bytes());
        survey
            .apply_event(
                user(u),
                SurveyEvent::PublicPartialKey { public_key: pk, challenge },
                room,
            )
            .expect("share");
        shares.push(sk);
    }
    assert!(matches!(survey.phase, Phase::Answers { .. }));
    shares
}

/// Build a valid sealed answer for slot `i` of the current `Answers`
/// phase.
fn make_answer(survey: &SurveyState, shares: &Vec<SecretKey>, i: usize, body: ClearAnswerBody) -> Answer {
    let (iteration, ring, joint) = match &survey.phase {
        Phase::Answers { iteration, members, encryption, .. } => {
            let ring: Vec<PublicKey> = members.iter().map(|m| m.1).collect();
            (*iteration, ring, *encryption)
        },
        _ => panic!("not in the answers phase"),
    };
    let ephemeral = SecretKey::random();
    let encrypt_key = ephemeral.public_key();
    let shared = point_mul_exec(&ephemeral.bytes, &joint.bytes);
    let sealed = seal_box(&shared, iteration, &body);
    let message = answer_message_exec(iteration, &sealed);
    let tag = answer_tag_exec(&survey.question);
    let ring_sig = RingSig::sign(&tag, &ring, &message, &shares[i], i).expect("ring sign");
    let signer = SecretKey::random();
    let sig = signer.sign(&message);
    Answer {
        sign_key: signer.public_key(),
        encrypt_key,
        iteration,
        answer: sealed,
        ring_sig,
        sig,
    }
}

#[test]
fn happy_path_three_members() {
    let room = room_with_users(vec![
        Role::Regular(RegularRole::Asker),
        Role::Regular(RegularRole::Asker),
        Role::Regular(RegularRole::Asker),
    ]);
    let mut survey = SurveyState::new(question());
    let shares = to_answers(&mut survey, &room);

    let bodies = vec![
        ClearAnswerBody::Closed(true),
        ClearAnswerBody::Closed(false),
        ClearAnswerBody::Closed(true),
    ];
    for i in 0..3usize {
        let ans = make_answer(&survey, &shares, i, bodies[i].clone());
        survey
            .apply_event(IdentityID::Answer(AnswerID(i as u8)), SurveyEvent::NewAnswer(ans), &room)
            .expect("answer accepted");
    }
    assert!(matches!(survey.phase, Phase::Decrypt { .. }));

    for u in 0..3u16 {
        survey
            .apply_event(
                user(u),
                SurveyEvent::PrivatePartialKey(shares[u as usize]),
                &room,
            )
            .expect("reveal");
    }
    match &survey.phase {
        Phase::Debate { members, present, answers } => {
            assert_eq!(members.len(), 3);
            assert_eq!(present.len(), 3);
            let mut clear: Vec<ClearAnswerBody> = answers.iter().map(|a| a.answer.clone()).collect();
            let expected = vec![
                ClearAnswerBody::Closed(true),
                ClearAnswerBody::Closed(false),
                ClearAnswerBody::Closed(true),
            ];
            clear.sort_by_key(|b| match b {
                ClearAnswerBody::Closed(x) => *x as u8,
                _ => 9,
            });
            let mut exp = expected.clone();
            exp.sort_by_key(|b| match b {
                ClearAnswerBody::Closed(x) => *x as u8,
                _ => 9,
            });
            assert_eq!(clear, exp);
        },
        other => panic!("expected the debate phase, got {:?}", other),
    }
}

#[test]
fn loss_in_decrypt_starts_next_iteration() {
    let room = room_with_users(vec![
        Role::Regular(RegularRole::Asker),
        Role::Regular(RegularRole::Asker),
        Role::Regular(RegularRole::Asker),
    ]);
    let mut survey = SurveyState::new(question());
    let shares = to_answers(&mut survey, &room);
    for i in 0..3usize {
        let ans = make_answer(&survey, &shares, i, ClearAnswerBody::Closed(true));
        survey
            .apply_event(IdentityID::Answer(AnswerID(i as u8)), SurveyEvent::NewAnswer(ans), &room)
            .expect("answer accepted");
    }
    assert!(matches!(survey.phase, Phase::Decrypt { .. }));

    survey.apply_event(user(1), SurveyEvent::Leave, &room).expect("leave");
    match &survey.phase {
        Phase::Encrypt { iteration, ready_members, unready_members } => {
            assert_eq!(*iteration, 1);
            assert_eq!(ready_members.len(), 0);
            assert_eq!(unready_members.len(), 2);
            assert!(unready_members.contains(&UserID(0)));
            assert!(unready_members.contains(&UserID(2)));
        },
        other => panic!("expected a fresh encrypt phase, got {:?}", other),
    }
}

#[test]
fn stale_iteration_is_rejected_and_state_unchanged() {
    let room = room_with_users(vec![
        Role::Regular(RegularRole::Asker),
        Role::Regular(RegularRole::Asker),
        Role::Regular(RegularRole::Asker),
    ]);
    let mut survey = SurveyState::new(question());
    let shares = to_answers(&mut survey, &room);
    // An answer made in iteration 0 of this roster.
    let stale = make_answer(&survey, &shares, 0, ClearAnswerBody::Closed(true));

    // Losing a member restarts the commit cycle at iteration 1.
    survey.apply_event(user(1), SurveyEvent::Leave, &room).expect("leave");
    let sk0 = SecretKey::random();
    let pk0 = sk0.public_key();
    let c0 = sk0.sign(&pk0.to_bytes());
    survey
        .apply_event(user(0), SurveyEvent::PublicPartialKey { public_key: pk0, challenge: c0 }, &room)
        .expect("share");
    let sk2 = SecretKey::random();
    let pk2 = sk2.public_key();
    let c2 = sk2.sign(&pk2.to_bytes());
    survey
        .apply_event(user(2), SurveyEvent::PublicPartialKey { public_key: pk2, challenge: c2 }, &room)
        .expect("share");
    assert!(matches!(survey.phase, Phase::Answers { .. }));

    let before = survey.clone();
    let r = survey.apply_event(
        IdentityID::Answer(AnswerID(0)),
        SurveyEvent::NewAnswer(stale),
        &room,
    );
    assert_eq!(r, Err(RoomError::StaleIteration));
    assert_eq!(survey, before);
}

#[test]
fn duty_policy_on_joinability() {
    let room = room_with_users(vec![
        Role::Regular(RegularRole::Asker),
        Role::Duty(SharingDutyRole { duty: DutyRole::Admin, giver: false }),
    ]);
    let mut survey = SurveyState::new(question());

    let refused = survey.apply_event(user(0), SurveyEvent::SetJoinability(false), &room);
    assert_eq!(refused, Err(RoomError::Unauthorized));

    let undo = survey
        .apply_event(user(1), SurveyEvent::SetJoinability(false), &room)
        .expect("an admin may set joinability");
    assert_eq!(undo, SurveyUndo::RestoreJoinability(true));
    match &survey.phase {
        Phase::Open { joinable, .. } => assert!(!*joinable),
        other => panic!("expected the open phase, got {:?}", other),
    }
}

#[test]
fn transaction_rolls_back_atomically() {
    let room = room_with_users(vec![Role::Regular(RegularRole::Asker)]);
    let mut survey = SurveyState::new(question());

    // A syntactically valid but unverifiable answer: the survey is still
    // open, so the answer is rejected after the join succeeded.
    let bogus = Answer {
        sign_key: SecretKey::random().public_key(),
        encrypt_key: SecretKey::random().public_key(),
        iteration: 0,
        answer: vec![0u8; 300],
        ring_sig: RingSig { a1: [0u8; 32], c: Vec::new(), z: Vec::new() },
        sig: SecretKey::random().sign(b"x"),
    };
    let before = survey.clone();
    let r = survey.apply_transaction(
        user(0),
        vec![SurveyEvent::Join, SurveyEvent::NewAnswer(bogus)],
        &room,
    );
    assert!(r.is_err());
    assert_eq!(survey, before);

    // The same join alone goes through, so the rollback above really
    // undid a successful event.
    survey.apply_event(user(0), SurveyEvent::Join, &room).expect("join");
    match &survey.phase {
        Phase::Open { members, .. } => assert_eq!(members.len(), 1),
        other => panic!("expected the open phase, got {:?}", other),
    }
}

#[test]
fn cheater_contributing_twice_is_detected_and_banned() {
    let mut room = room_with_users(vec![
        Role::Regular(RegularRole::Asker),
        Role::Regular(RegularRole::Asker),
        Role::Regular(RegularRole::Asker),
    ]);
    let mut survey = SurveyState::new(question());
    let shares = to_answers(&mut survey, &room);

    // Member at slot 1 crafts two valid answers.
    let a1 = make_answer(&survey, &shares, 1, ClearAnswerBody::Closed(true));
    let a2 = make_answer(&survey, &shares, 1, ClearAnswerBody::Closed(false));
    let (ring, roster): (Vec<PublicKey>, Vec<UserID>) = match &survey.phase {
        Phase::Answers { members, .. } => {
            (members.iter().map(|m| m.1).collect(), members.iter().map(|m| m.0).collect())
        },
        _ => panic!("not in the answers phase"),
    };
    let tag = answer_tag_exec(&survey.question);
    let outcome = link_answers(&tag, &ring, &a1, &a2).expect("linkable");
    assert_eq!(outcome, RingSigLink::SamePublicKey(1));

    let cheater = roster[1];
    room.on_cheater_detected(cheater).expect("ban");
    assert_eq!(
        room.role_of(IdentityID::User(cheater)).expect("role"),
        Role::Banned
    );
}

#[test]
fn iteration_never_decreases() {
    let room = room_with_users(vec![
        Role::Regular(RegularRole::Asker),
        Role::Regular(RegularRole::Asker),
        Role::Regular(RegularRole::Asker),
    ]);
    let mut survey = SurveyState::new(question());
    let _ = to_answers(&mut survey, &room);
    let iter_of = |s: &SurveyState| match &s.phase {
        Phase::Encrypt { iteration, .. } => Some(*iteration),
        Phase::Answers { iteration, .. } => Some(*iteration),
        Phase::Decrypt { iteration, .. } => Some(*iteration),
        _ => None,
    };
    assert_eq!(iter_of(&survey), Some(0));
    survey.apply_event(user(0), SurveyEvent::Leave, &room).expect("leave");
    assert_eq!(iter_of(&survey), Some(1));
    survey.apply_event(user(1), SurveyEvent::Leave, &room).expect("leave");
    assert_eq!(iter_of(&survey), Some(2));
}

#[test]
fn go_requires_everyone_ready() {
    let room = room_with_users(vec![Role::Regular(RegularRole::Asker)]);
    let mut survey = SurveyState::new(question());
    survey.apply_event(user(0), SurveyEvent::Join, &room).expect("join");
    let r = survey.apply_event(IdentityID::RoomID, SurveyEvent::Go, &room);
    assert_eq!(r, Err(RoomError::SurveyUnready));
    survey.apply_event(user(0), SurveyEvent::Ready, &room).expect("ready");
    survey.apply_event(IdentityID::RoomID, SurveyEvent::Go, &room).expect("go");
    assert!(matches!(survey.phase, Phase::Encrypt { .. }));
}

#[test]
fn survey_messages_follow_the_message_level() {
    let room = room_with_users(vec![
        Role::Regular(RegularRole::Asker),
        Role::Duty(SharingDutyRole { duty: DutyRole::Admin, giver: false }),
    ]);
    let mut survey = SurveyState::new(question());
    // At the default regular level a user may speak, a mask may not.
    assert_eq!(
        survey.apply_event(user(0), SurveyEvent::Message(String::from("hi")), &room),
        Ok(SurveyUndo::NoChange)
    );
    assert_eq!(
        survey.apply_event(
            IdentityID::Mask(kuzh::ids::MaskID(0)),
            SurveyEvent::Message(String::from("hi")),
            &room,
        ),
        Err(RoomError::NoSuchMask)
    );
    // Raising the level to duty silences regular users.
    let undo = survey
        .apply_event(
            user(1),
            SurveyEvent::SetMessageLevel(kuzh::roles::AllowLevel::Duty),
            &room,
        )
        .expect("level set");
    assert_eq!(undo, SurveyUndo::RestoreMessageLevel(kuzh::roles::AllowLevel::Regular));
    assert_eq!(
        survey.apply_event(user(0), SurveyEvent::Message(String::from("hi")), &room),
        Err(RoomError::Unauthorized)
    );
}

#[test]
fn kicked_members_can_be_unkicked() {
    let room = room_with_users(vec![
        Role::Regular(RegularRole::Asker),
        Role::Duty(SharingDutyRole { duty: DutyRole::Admin, giver: false }),
    ]);
    let mut survey = SurveyState::new(question());
    survey.apply_event(user(0), SurveyEvent::Join, &room).expect("join");
    // Only a duty holder may kick.
    assert_eq!(
        survey.apply_event(user(0), SurveyEvent::Kick(UserID(0)), &room),
        Err(RoomError::Unauthorized)
    );
    survey.apply_event(user(1), SurveyEvent::Kick(UserID(0)), &room).expect("kick");
    // A kicked member cannot flip their ready flag.
    assert_eq!(
        survey.apply_event(user(0), SurveyEvent::Ready, &room),
        Err(RoomError::Unauthorized)
    );
    survey.apply_event(user(1), SurveyEvent::Unkick(UserID(0)), &room).expect("unkick");
    survey.apply_event(user(0), SurveyEvent::Ready, &room).expect("ready again");
}

#[test]
fn join_is_refused_when_unjoinable_or_doubled() {
    let room = room_with_users(vec![
        Role::Regular(RegularRole::Asker),
        Role::Duty(SharingDutyRole { duty: DutyRole::Admin, giver: false }),
    ]);
    let mut survey = SurveyState::new(question());
    survey.apply_event(user(0), SurveyEvent::Join, &room).expect("join");
    assert_eq!(
        survey.apply_event(user(0), SurveyEvent::Join, &room),
        Err(RoomError::AlreadyJoined)
    );
    survey
        .apply_event(user(1), SurveyEvent::SetJoinability(false), &room)
        .expect("set");
    assert_eq!(
        survey.apply_event(user(1), SurveyEvent::Join, &room),
        Err(RoomError::SurveyUnjoinable)
    );
}
