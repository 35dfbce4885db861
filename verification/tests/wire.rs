//! The wire encoding of survey transactions.

use kuzh::answer::Answer;
use kuzh::codec::SurveyTransaction;
use kuzh::codec::decode_signed_transaction;
use kuzh::codec::encode_signed_transaction;
use kuzh::identity::IdentityID;
use kuzh::ids::AnswerID;
use kuzh::ids::MaskID;
use kuzh::ids::Nonce;
use kuzh::ids::QuestionID;
use kuzh::ids::UserID;
use kuzh::question::Question;
use kuzh::question::QuestionKind;
use kuzh::ring::RingSig;
use kuzh::roles::AllowLevel;
use kuzh::schnorr::SecretKey;
use kuzh::schnorr::Signed;
use kuzh::survey::SurveyEvent;

fn sample_answer() -> Answer {
    let signer = SecretKey::random();
    let eph = SecretKey::random();
    let ring_member = SecretKey::random();
    let ring = vec![ring_member.public_key()];
    let ring_sig = RingSig::sign(b"t", &ring, b"m", &ring_member, 0).expect("ring sign");
    Answer {
        sign_key: signer.public_key(),
        encrypt_key: eph.public_key(),
        iteration: 3,
        answer: vec![7u8; 300],
        ring_sig,
        sig: signer.sign(b"m"),
    }
}

fn sample_transaction() -> Signed<SurveyTransaction> {
    let author = SecretKey::random();
    let share = SecretKey::random();
    let events = vec![
        SurveyEvent::Join,
        SurveyEvent::SetJoinability(false),
        SurveyEvent::Connected(UserID(7)),
        SurveyEvent::Message(String::from("carnets de campagne")),
        SurveyEvent::SetMessageLevel(AllowLevel::Duty),
        SurveyEvent::PublicPartialKey {
            public_key: share.public_key(),
            challenge: share.sign(b"possession"),
        },
        SurveyEvent::PrivatePartialKey(share),
        SurveyEvent::NewAnswer(sample_answer()),
        SurveyEvent::CreateSurvey(Question {
            id: QuestionID(12),
            from: IdentityID::Mask(MaskID(4)),
            kind: QuestionKind::Poll(vec![String::from("tea"), String::from("coffee")]),
            question: String::from("which one?"),
            clarifications: vec![String::from("pick exactly one")],
        }),
        SurveyEvent::Go,
    ];
    Signed {
        value: SurveyTransaction {
            chain: QuestionID(12),
            from: IdentityID::Answer(AnswerID(9)),
            events,
            nonce: Nonce(41),
        },
        signature: author.sign(b"the transaction bytes"),
    }
}

#[test]
fn transaction_round_trips() {
    let t = sample_transaction();
    let bytes = encode_signed_transaction(&t);
    let back = decode_signed_transaction(&bytes).expect("an encoding must decode");
    assert_eq!(back, t);
    // Re-encoding the decoded transaction reproduces the bytes exactly.
    assert_eq!(encode_signed_transaction(&back), bytes);
}

#[test]
fn empty_transaction_round_trips() {
    let author = SecretKey::random();
    let t = Signed {
        value: SurveyTransaction {
            chain: QuestionID(0),
            from: IdentityID::RoomID,
            events: Vec::new(),
            nonce: Nonce(0),
        },
        signature: author.sign(b"x"),
    };
    let bytes = encode_signed_transaction(&t);
    assert_eq!(decode_signed_transaction(&bytes), Some(t));
}

#[test]
fn decoding_rejects_garbage_and_trailing_bytes() {
    let t = sample_transaction();
    let mut bytes = encode_signed_transaction(&t);
    bytes.push(0u8);
    assert!(decode_signed_transaction(&bytes).is_none());
    assert!(decode_signed_transaction(&vec![1u8, 2, 3]).is_none());
    assert!(decode_signed_transaction(&Vec::new()).is_none());
}

#[test]
fn decoding_rejects_a_non_canonical_scalar() {
    let author = SecretKey::random();
    let t = Signed {
        value: SurveyTransaction {
            chain: QuestionID(1),
            from: IdentityID::User(UserID(2)),
            events: Vec::new(),
            nonce: Nonce(1),
        },
        signature: author.sign(b"x"),
    };
    let mut bytes = encode_signed_transaction(&t);
    // The final 64 bytes are the signature's two scalars; force the last
    // one out of canonical range.
    let n = bytes.len();
    for i in (n - 32)..n {
        bytes[i] = 0xFF;
    }
    assert!(decode_signed_transaction(&bytes).is_none());
}
