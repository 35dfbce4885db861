//! The closed error taxonomy.
//!
//! Protocol errors are recoverable and surfaced to the originator of the
//! offending event; cryptographic errors are recoverable and keep the
//! evidence that produced them. A failing event inside a transaction rolls
//! the whole transaction back.

use vstd::prelude::*;

verus! {

/// An error of the cryptographic layer.
#[derive(Clone, Copy, Debug, PartialEq, Eq, Structural, Hash)]
pub enum CryptoError {
    /// A signature failed verification, or a signing key does not own the
    /// ring slot it claims.
    BadSignature,
    /// A ring signature failed verification.
    BadRingSignature,
    /// 32 bytes that are not the canonical encoding of a group element.
    NonCanonicalPoint,
    /// A slice whose length does not fit the ring, an empty ring included.
    LengthMismatch,
}

/// An error of the room or survey state machines.
#[derive(Clone, Copy, Debug, PartialEq, Eq, Structural, Hash)]
pub enum RoomError {
    RoomAlreadyCreated,
    PublicKeyAlreadyUsed,
    MaxUserIDReached,
    MaxMaskIDReached,
    AlreadyConnected,
    NotConnected,
    Unauthorized,
    NoSuchUser,
    NoSuchMask,
    NoSuchIdentity,
    MaxQuestionsReached,
    MaxQuestionIDReached,
    NoSuchQuestion,
    NoSurvey,
    SurveyAlreadyCreated,
    SurveyUnjoinable,
    InvalidRole,
    AlreadyJoined,
    InvalidSurveyPhase,
    ConnectionRefused,
    /// Progress was forced while members were still unready.
    SurveyUnready,
    /// An answer bound to an iteration that is no longer current.
    StaleIteration,
    /// A cryptographic check failed inside event application.
    Crypto(CryptoError),
}

} // verus!
