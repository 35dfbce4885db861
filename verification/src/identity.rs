//! Identities inside a room.
//!
//! An identity is the room itself, a concrete user, a mask (anonymous but
//! long-lived inside the room) or an answer pseudonym (anonymous and scoped
//! to one survey). The two type parameters pin which anonymous identities a
//! given chain admits; `Never` closes a slot entirely.

use vstd::prelude::*;

use crate::ids::AnswerID;
use crate::ids::MaskID;
use crate::ids::UserID;

verus! {

/// A marker closing an identity slot: the state machines reject any
/// identity built over it, so such identities never act.
#[derive(Clone, Copy, Debug, PartialEq, Eq, Structural, Hash)]
pub struct Never;

/// Who signed or is addressed: the room, a user, a mask or an answer slot.
#[derive(Clone, Copy, Debug, PartialEq, Eq, Structural, Hash)]
pub enum IdentityID<M, A> {
    RoomID,
    User(UserID),
    Mask(M),
    Answer(A),
}

/// Identities allowed on the room chain: no answer pseudonyms.
pub type RoomIdentityID = IdentityID<MaskID, Never>;

/// Identities allowed on a survey chain.
pub type SurveyIdentityID = IdentityID<MaskID, AnswerID>;

/// The historical name of a survey-chain identity, kept for callers that
/// speak of surveys as answerings.
pub type AnsweringIdentityID = IdentityID<MaskID, AnswerID>;

impl<M, A> IdentityID<M, A> {
    /// Whether the identity hides who is behind it.
    pub fn is_anonymous(self) -> (r: bool)
        ensures
            r == (self matches IdentityID::Mask(_) || self matches IdentityID::Answer(_)),
    {
        match self {
            IdentityID::Mask(_) => true,
            IdentityID::Answer(_) => true,
            _ => false,
        }
    }

    /// Whether the identity is a concrete user.
    pub fn is_user(self) -> (r: bool)
        ensures
            r == (self matches IdentityID::User(_)),
    {
        match self {
            IdentityID::User(_) => true,
            _ => false,
        }
    }

    /// The user behind the identity, when it is one.
    pub fn user_id(self) -> (r: Option<UserID>)
        ensures
            self matches IdentityID::User(u) ==> r == Some(u),
            !(self matches IdentityID::User(_)) ==> r is None,
    {
        match self {
            IdentityID::User(u) => Some(u),
            _ => None,
        }
    }
}

} // verus!
