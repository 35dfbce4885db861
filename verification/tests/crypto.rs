//! The cryptographic layer, driven end to end on the real group.

use kuzh::answer::seal_box;
use kuzh::answer::open_box;
use kuzh::answer::ClearAnswerBody;
use kuzh::errors::CryptoError;
use kuzh::group::point_mul_exec;
use kuzh::ring::RingSig;
use kuzh::ring::RingSigLink;
use kuzh::schnorr::PublicKey;
use kuzh::schnorr::SecretKey;

fn keypair() -> (SecretKey, PublicKey) {
    let sk = SecretKey::random();
    let pk = sk.public_key();
    (sk, pk)
}

fn ring_of(n: usize) -> (Vec<SecretKey>, Vec<PublicKey>) {
    let mut sks = Vec::new();
    let mut pks = Vec::new();
    for _ in 0..n {
        let (sk, pk) = keypair();
        sks.push(sk);
        pks.push(pk);
    }
    (sks, pks)
}

#[test]
fn schnorr_sign_then_verify() {
    let (sk, pk) = keypair();
    let sig = sk.sign(b"a short message");
    assert!(pk.verify(b"a short message", &sig));
    assert!(!pk.verify(b"a different message", &sig));
    let (_, other) = keypair();
    assert!(!other.verify(b"a short message", &sig));
}

#[test]
fn point_encoding_round_trips_on_canonical_input() {
    let (_, pk) = keypair();
    let bytes = pk.to_bytes();
    let back = PublicKey::from_bytes(&bytes).expect("canonical encoding must decode");
    assert_eq!(back.to_bytes(), bytes);
}

#[test]
fn point_decoding_fails_on_non_canonical_input() {
    // The all-ones string is not a canonical field element encoding.
    let bad = [0xFFu8; 32];
    assert!(PublicKey::from_bytes(&bad).is_none());
    // A canonical encoding with its top bit set is rejected as well.
    let (_, pk) = keypair();
    let mut twisted = pk.to_bytes();
    twisted[31] |= 0x80;
    assert!(PublicKey::from_bytes(&twisted).is_none());
}

#[test]
fn ring_sign_then_verify() {
    let (sks, pks) = ring_of(4);
    let tag = b"tag-a";
    let msg = b"the message";
    for i in 0..4 {
        let sig = RingSig::sign(tag, &pks, msg, &sks[i], i).expect("signing must succeed");
        assert_eq!(sig.verify(tag, &pks, msg), Ok(true));
        assert_eq!(sig.verify(tag, &pks, b"another message"), Ok(false));
        assert_eq!(sig.verify(b"tag-b", &pks, msg), Ok(false));
    }
}

#[test]
fn ring_sign_rejects_bad_slot() {
    let (sks, pks) = ring_of(3);
    assert_eq!(
        RingSig::sign(b"t", &pks, b"m", &sks[0], 3),
        Err(CryptoError::LengthMismatch)
    );
    assert_eq!(
        RingSig::sign(b"t", &pks, b"m", &sks[0], 1),
        Err(CryptoError::BadSignature)
    );
}

#[test]
fn link_two_signers_is_independent() {
    let (sks, pks) = ring_of(3);
    let tag = b"survey";
    let s1 = RingSig::sign(tag, &pks, b"first", &sks[0], 0).unwrap();
    let s2 = RingSig::sign(tag, &pks, b"second", &sks[2], 2).unwrap();
    assert_eq!(
        RingSig::link(tag, &pks, b"first", &s1, b"second", &s2),
        Ok(RingSigLink::Independent)
    );
}

#[test]
fn link_same_signer_two_messages_names_the_slot() {
    let (sks, pks) = ring_of(3);
    let tag = b"survey";
    let s1 = RingSig::sign(tag, &pks, b"first", &sks[1], 1).unwrap();
    let s2 = RingSig::sign(tag, &pks, b"second", &sks[1], 1).unwrap();
    assert_eq!(
        RingSig::link(tag, &pks, b"first", &s1, b"second", &s2),
        Ok(RingSigLink::SamePublicKey(1))
    );
}

#[test]
fn link_same_signer_same_message_is_same_message() {
    let (sks, pks) = ring_of(3);
    let tag = b"survey";
    let s1 = RingSig::sign(tag, &pks, b"same", &sks[1], 1).unwrap();
    let s2 = RingSig::sign(tag, &pks, b"same", &sks[1], 1).unwrap();
    assert_eq!(
        RingSig::link(tag, &pks, b"same", &s1, b"same", &s2),
        Ok(RingSigLink::SameMessage)
    );
}

#[test]
fn ring_of_one_always_traces_to_slot_zero() {
    let (sks, pks) = ring_of(1);
    let tag = b"solo";
    let s1 = RingSig::sign(tag, &pks, b"a", &sks[0], 0).unwrap();
    let s2 = RingSig::sign(tag, &pks, b"b", &sks[0], 0).unwrap();
    assert_eq!(
        RingSig::link(tag, &pks, b"a", &s1, b"b", &s2),
        Ok(RingSigLink::SamePublicKey(0))
    );
}

#[test]
fn empty_ring_fails_with_length_mismatch() {
    let (sks, pks) = ring_of(1);
    let tag = b"none";
    let s1 = RingSig::sign(tag, &pks, b"a", &sks[0], 0).unwrap();
    let empty: Vec<PublicKey> = Vec::new();
    assert_eq!(
        RingSig::link(tag, &empty, b"a", &s1, b"a", &s1),
        Err(CryptoError::LengthMismatch)
    );
}

#[test]
fn link_rejects_wrongly_sized_signatures() {
    let (sks, pks) = ring_of(3);
    let tag = b"sz";
    let s1 = RingSig::sign(tag, &pks, b"a", &sks[0], 0).unwrap();
    let (_, small) = ring_of(2);
    assert_eq!(
        RingSig::link(tag, &small, b"a", &s1, b"a", &s1),
        Err(CryptoError::LengthMismatch)
    );
}

#[test]
fn sealed_box_round_trips() {
    let (u, up) = keypair();
    let (k, kp) = keypair();
    // The submitter derives the secret from its ephemeral key and the
    // other party's public key; the opener from its key and the
    // submitter's ephemeral public key. On the real group both agree.
    let shared_seal = point_mul_exec(&u.bytes, &kp.bytes);
    let shared_open = point_mul_exec(&k.bytes, &up.bytes);
    assert_eq!(shared_seal, shared_open);

    let body = ClearAnswerBody::Open(b"yes, definitely".to_vec());
    let sealed = seal_box(&shared_seal, 7, &body);
    assert_eq!(sealed.len(), 300);
    let opened = open_box(&shared_open, 7, &sealed).expect("the box must open");
    assert_eq!(opened, body);

    let closed = ClearAnswerBody::Closed(false);
    let sealed2 = seal_box(&shared_seal, 7, &closed);
    assert_eq!(open_box(&shared_open, 7, &sealed2), Some(ClearAnswerBody::Closed(false)));

    let poll = ClearAnswerBody::Poll(3);
    let sealed3 = seal_box(&shared_seal, 7, &poll);
    assert_eq!(open_box(&shared_open, 7, &sealed3), Some(ClearAnswerBody::Poll(3)));
}

#[test]
fn sealed_box_rejects_tampering_and_wrong_context() {
    let (u, _) = keypair();
    let (_, kp) = keypair();
    let shared = point_mul_exec(&u.bytes, &kp.bytes);
    let body = ClearAnswerBody::Closed(true);
    let mut sealed = seal_box(&shared, 1, &body);
    // A wrong iteration must not open the box.
    assert!(open_box(&shared, 2, &sealed).is_none());
    // A flipped ciphertext bit must not open the box.
    sealed[0] ^= 1;
    assert!(open_box(&shared, 1, &sealed).is_none());
    // A wrong shared secret must not open the box.
    let (w, _) = keypair();
    let other = point_mul_exec(&w.bytes, &kp.bytes);
    let sealed3 = seal_box(&shared, 1, &body);
    assert!(open_box(&other, 1, &sealed3).is_none());
}
