//! The room state machine and the identifier newtypes.

use kuzh::errors::RoomError;
use kuzh::identity::IdentityID;
use kuzh::ids::AnswerID;
use kuzh::ids::BlockHeight;
use kuzh::ids::Hashed;
use kuzh::ids::MaskID;
use kuzh::ids::Nonce;
use kuzh::ids::QuestionID;
use kuzh::ids::UserID;
use kuzh::question::QuestionKind;
use kuzh::question::QuestionPriority;
use kuzh::roles::AllowLevel;
use kuzh::roles::DutyRole;
use kuzh::roles::Like;
use kuzh::roles::RegularRole;
use kuzh::roles::Role;
use kuzh::roles::SharingDutyRole;
use kuzh::room::IdentitiesState;
use kuzh::room::IdentityInfo;
use kuzh::room::PublicationRights;
use kuzh::room::QuestionDeleteSpec;
use kuzh::room::QuestionsState;
use kuzh::room::RoomAccessibility;
use kuzh::room::RoomOutput;
use kuzh::room::RoomState;
use kuzh::schnorr::CryptoID;
use kuzh::schnorr::SecretKey;
use kuzh::schnorr::Signed;

fn crypto_id() -> CryptoID {
    let sign = SecretKey::random();
    let enc = SecretKey::random();
    let enc_pk = enc.public_key();
    let vouch = sign.sign(&enc_pk.to_bytes());
    CryptoID { sign_key: sign.public_key(), encrypt_key: Signed { value: enc_pk, signature: vouch } }
}

fn info(role: Role) -> IdentityInfo {
    IdentityInfo { crypto_id: crypto_id(), name: None, description: None, nonce: Nonce(0), role }
}

fn admin() -> Role {
    Role::Duty(SharingDutyRole { duty: DutyRole::Admin, giver: false })
}

fn room_with_users(roles: Vec<Role>) -> RoomState {
    let n = roles.len() as u16;
    let mut identities = Vec::new();
    for r in roles {
        identities.push(info(r));
    }
    RoomState {
        block_height: BlockHeight { height: 0 },
        block_hash: Hashed([0u8; 32]),
        room: info(Role::Duty(SharingDutyRole { duty: DutyRole::Owner, giver: true })),
        users: IdentitiesState { identities, next_id: Some(UserID(n)) },
        masks: IdentitiesState { identities: Vec::new(), next_id: Some(MaskID(0)) },
        public_key_index: Vec::new(),
        room_accessibility: RoomAccessibility::OpenToAnyone,
        max_connected_users: 16,
        questions_state: QuestionsState {
            max_questions: 8,
            next_id: Some(QuestionID(0)),
            questions: Vec::new(),
            rights: PublicationRights { role: Role::Regular(RegularRole::Asker), explicit: Vec::new() },
        },
        message_rights: PublicationRights {
            role: Role::Regular(RegularRole::Messager),
            explicit: Vec::new(),
        },
        answering: None,
    }
}

#[test]
fn user_id_next_saturates_at_the_top() {
    assert_eq!(UserID(0).next(), Some(UserID(1)));
    assert_eq!(UserID(u16::MAX).next(), None);
    assert_eq!(UserID(0).previous(), None);
    assert_eq!(UserID(5).previous(), Some(UserID(4)));
    assert_eq!(MaskID(u32::MAX).next(), None);
    assert_eq!(MaskID(7).next(), Some(MaskID(8)));
    assert_eq!(QuestionID(u16::MAX).next(), None);
    assert_eq!(QuestionID(1).previous(), Some(QuestionID(0)));
    assert_eq!(AnswerID(u8::MAX).next(), None);
    assert_eq!(AnswerID(0).next(), Some(AnswerID(1)));
}

#[test]
fn nonce_counts_up_from_zero() {
    let n = Nonce::new();
    assert_eq!(n, Nonce(0));
    assert_eq!(n.next(), Nonce(1));
    assert_eq!(Nonce::default(), Nonce(0));
}

#[test]
fn exhausted_user_space_surfaces_the_sentinel() {
    let mut room = room_with_users(vec![]);
    room.users.next_id = None;
    let r = room.new_user(IdentityID::RoomID, crypto_id());
    assert_eq!(r, Err(RoomError::MaxUserIDReached));
    let mut room2 = room_with_users(vec![]);
    room2.masks.next_id = None;
    let r2 = room2.new_mask(IdentityID::RoomID, crypto_id());
    assert_eq!(r2, Err(RoomError::MaxMaskIDReached));
}

#[test]
fn new_user_registers_keys_once() {
    let mut room = room_with_users(vec![]);
    let id = crypto_id();
    assert_eq!(room.new_user(IdentityID::RoomID, id.clone()), Ok(None));
    assert_eq!(room.users.identities.len(), 1);
    assert_eq!(room.users.next_id, Some(UserID(1)));
    // Reusing either key is refused.
    let mut reuse = crypto_id();
    reuse.sign_key = id.sign_key;
    assert_eq!(
        room.new_user(IdentityID::RoomID, reuse),
        Err(RoomError::PublicKeyAlreadyUsed)
    );
    // Only the room itself may register users.
    assert_eq!(
        room.new_user(IdentityID::User(UserID(0)), crypto_id()),
        Err(RoomError::Unauthorized)
    );
}

#[test]
fn banning_a_user_reports_the_ban() {
    let mut room = room_with_users(vec![admin(), Role::Regular(RegularRole::Asker)]);
    let r = room.change_role(IdentityID::User(UserID(0)), UserID(1), Role::Banned);
    assert_eq!(r, Ok(Some(RoomOutput::Ban(UserID(1)))));
    assert_eq!(room.role_of(IdentityID::User(UserID(1))), Ok(Role::Banned));
    // A regular user cannot change an admin's role.
    let mut room2 = room_with_users(vec![admin(), Role::Regular(RegularRole::Asker)]);
    let r2 = room2.change_role(IdentityID::User(UserID(1)), UserID(0), Role::Banned);
    assert_eq!(r2, Err(RoomError::Unauthorized));
}

#[test]
fn question_queue_orders_by_priority_then_score_then_id() {
    let mut room = room_with_users(vec![
        admin(),
        Role::Regular(RegularRole::Asker),
        Role::Regular(RegularRole::Asker),
    ]);
    let duty = IdentityID::User(UserID(0));
    for text in ["first", "second", "third"] {
        room.new_question(duty, QuestionKind::Open, String::from(text)).expect("queued");
    }
    // Raise the second question's priority; like the third.
    room.change_question_priority(duty, QuestionID(1), QuestionPriority::Top).expect("prio");
    room.like_question(IdentityID::User(UserID(1)), QuestionID(2), Some(Like::Like))
        .expect("like");

    match room.open_answering(duty).expect("opened") {
        Some(RoomOutput::NewQuestion(q)) => assert_eq!(q.id, QuestionID(1)),
        other => panic!("expected a question, got {:?}", other),
    }
    assert_eq!(room.answering, Some(QuestionID(1)));
    // A second survey cannot open while one is running.
    assert_eq!(room.open_answering(duty), Err(RoomError::SurveyAlreadyCreated));
    room.close_answering(duty).expect("closed");

    // Next pick: the liked question wins over the unliked one.
    match room.open_answering(duty).expect("opened") {
        Some(RoomOutput::NewQuestion(q)) => assert_eq!(q.id, QuestionID(2)),
        other => panic!("expected a question, got {:?}", other),
    }
}

#[test]
fn like_scores_count_up_and_down() {
    let mut room = room_with_users(vec![
        admin(),
        Role::Regular(RegularRole::Asker),
        Role::Regular(RegularRole::Asker),
    ]);
    let duty = IdentityID::User(UserID(0));
    room.new_question(duty, QuestionKind::Open, String::from("q")).expect("queued");
    room.like_question(IdentityID::User(UserID(1)), QuestionID(0), Some(Like::Like)).expect("l");
    room.like_question(IdentityID::User(UserID(2)), QuestionID(0), Some(Like::Dislike))
        .expect("d");
    assert_eq!(room.questions_state.questions[0].1.like_score(), 0);
    room.like_question(IdentityID::User(UserID(2)), QuestionID(0), None).expect("undo");
    assert_eq!(room.questions_state.questions[0].1.like_score(), 1);
    room.like_question(IdentityID::User(UserID(1)), QuestionID(0), Some(Like::Dislike))
        .expect("flip");
    assert_eq!(room.questions_state.questions[0].1.like_score(), -1);
}

#[test]
fn deleting_questions_by_list_and_priority() {
    let mut room = room_with_users(vec![admin()]);
    let duty = IdentityID::User(UserID(0));
    for text in ["a", "b", "c", "d"] {
        room.new_question(duty, QuestionKind::Open, String::from(text)).expect("queued");
    }
    room.change_question_priority(duty, QuestionID(3), QuestionPriority::Top).expect("prio");

    // Deleting an unknown question refuses the whole request.
    assert_eq!(
        room.delete_questions(duty, QuestionDeleteSpec::Delete(vec![QuestionID(9)])),
        Err(RoomError::NoSuchQuestion)
    );
    room.delete_questions(duty, QuestionDeleteSpec::Delete(vec![QuestionID(0)])).expect("del");
    assert_eq!(room.questions_state.questions.len(), 3);

    room.delete_questions(
        duty,
        QuestionDeleteSpec::Keep(vec![QuestionID(1), QuestionID(3)]),
    ).expect("keep");
    assert_eq!(room.questions_state.questions.len(), 2);

    room.delete_questions(duty, QuestionDeleteSpec::DeletePriority(QuestionPriority::Top))
        .expect("low");
    assert_eq!(room.questions_state.questions.len(), 1);
    assert_eq!(room.questions_state.questions[0].0, QuestionID(3));
}

#[test]
fn message_rights_follow_threshold_and_explicit_grants() {
    let mut room = room_with_users(vec![
        admin(),
        Role::Regular(RegularRole::Observer),
        Role::Regular(RegularRole::Messager),
    ]);
    let duty = IdentityID::User(UserID(0));
    // An observer speaks below the threshold.
    assert_eq!(room.message(IdentityID::User(UserID(1))), Err(RoomError::Unauthorized));
    assert_eq!(room.message(IdentityID::User(UserID(2))), Ok(None));
    // An explicit grant overrides the threshold; a denial overrides too.
    room.set_explicit_message_right(duty, IdentityID::User(UserID(1)), Some(true)).expect("g");
    assert_eq!(room.message(IdentityID::User(UserID(1))), Ok(None));
    room.set_explicit_message_right(duty, IdentityID::User(UserID(2)), Some(false)).expect("d");
    assert_eq!(room.message(IdentityID::User(UserID(2))), Err(RoomError::Unauthorized));
    // The banned role is not a threshold.
    assert_eq!(room.set_message_rights(duty, Role::Banned), Err(RoomError::InvalidRole));
}

#[test]
fn role_helpers_follow_the_lattice() {
    let duty = admin();
    assert!(duty.is_duty());
    assert!(duty.can_moderate());
    assert!(!duty.is_banned());
    assert_eq!(
        duty.duty(),
        Some(SharingDutyRole { duty: DutyRole::Admin, giver: false })
    );
    let regular = Role::Regular(RegularRole::Asker);
    assert!(!regular.is_duty());
    assert!(Role::Banned.is_banned());

    // Granting: only one's own role, only as a giver, only downward.
    let owner_giver = Role::Duty(SharingDutyRole { duty: DutyRole::Owner, giver: true });
    let owner_plain = Role::Duty(SharingDutyRole { duty: DutyRole::Owner, giver: false });
    assert!(owner_giver.can_grant_role(regular, owner_giver));
    assert!(!owner_giver.can_grant_role(regular, owner_plain));
    assert!(!owner_giver.can_grant_role(regular, duty));
    assert!(!owner_plain.can_grant_role(regular, owner_plain));
    assert!(!owner_giver.can_grant_role(owner_giver, owner_giver));
    assert!(!regular.can_grant_role(Role::Banned, Role::Banned));

    // Allow levels by role and identity.
    assert_eq!(
        AllowLevel::from_role_id::<MaskID, AnswerID>(duty, IdentityID::User(UserID(0))),
        Some(AllowLevel::Duty)
    );
    assert_eq!(
        AllowLevel::from_role_id::<MaskID, AnswerID>(regular, IdentityID::Mask(MaskID(0))),
        Some(AllowLevel::Anonymous)
    );
    assert_eq!(
        AllowLevel::from_role_id::<MaskID, AnswerID>(Role::Banned, IdentityID::User(UserID(0))),
        None
    );
}

#[test]
fn identity_info_is_edited_by_its_owner_only() {
    let mut room = room_with_users(vec![admin(), Role::Regular(RegularRole::Asker)]);
    let me = IdentityID::User(UserID(1));
    room.change_identity_info(me, me, Some(String::from("ana")), None).expect("own record");
    assert_eq!(room.users.identities[1].name, Some(String::from("ana")));
    assert_eq!(room.users.identities[1].description, None);
    // Someone else's record is off limits, even for an admin.
    let r = room.change_identity_info(
        IdentityID::User(UserID(0)),
        me,
        Some(String::from("bob")),
        None,
    );
    assert_eq!(r, Err(RoomError::Unauthorized));
    // The room's own record takes an admin.
    room.change_identity_info(
        IdentityID::User(UserID(0)),
        IdentityID::RoomID,
        Some(String::from("the big room")),
        Some(String::from("weekly")),
    )
    .expect("room record");
    assert_eq!(room.room.name, Some(String::from("the big room")));
}

#[test]
fn clarifications_come_from_the_author_only() {
    let mut room = room_with_users(vec![
        admin(),
        Role::Regular(RegularRole::Asker),
        Role::Regular(RegularRole::Asker),
    ]);
    let author = IdentityID::User(UserID(1));
    room.new_question(author, QuestionKind::Open, String::from("why?")).expect("queued");
    room.clarify_question(author, QuestionID(0), String::from("because")).expect("clarified");
    assert_eq!(
        room.questions_state.questions[0].1.question.clarifications,
        vec![String::from("because")]
    );
    let r = room.clarify_question(IdentityID::User(UserID(2)), QuestionID(0), String::from("no"));
    assert_eq!(r, Err(RoomError::Unauthorized));
    let r2 = room.clarify_question(author, QuestionID(9), String::from("?"));
    assert_eq!(r2, Err(RoomError::NoSuchQuestion));
}

#[test]
fn identity_predicates() {
    let m: kuzh::identity::SurveyIdentityID = IdentityID::Mask(MaskID(1));
    assert!(m.is_anonymous());
    assert!(!m.is_user());
    let u: kuzh::identity::SurveyIdentityID = IdentityID::User(UserID(1));
    assert!(u.is_user());
    assert_eq!(u.user_id(), Some(UserID(1)));
    let a: kuzh::identity::SurveyIdentityID = IdentityID::Answer(AnswerID(1));
    assert!(a.is_anonymous());
    assert_eq!(a.user_id(), None);
}
