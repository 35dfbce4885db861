//! Questions a survey may answer.

use vstd::prelude::*;

use crate::identity::RoomIdentityID;
use crate::ids::QuestionID;

verus! {

/// What shape of answer a question calls for.
#[derive(Clone, Debug, PartialEq, Eq, Hash)]
pub enum QuestionKind {
    /// A bounded free-text answer.
    Open,
    /// A yes/no answer.
    Closed,
    /// One option out of the listed ones.
    Poll(Vec<String>),
}

/// A question queued in the room.
#[derive(Clone, Debug, PartialEq, Eq, Hash)]
pub struct Question {
    pub id: QuestionID,
    pub from: RoomIdentityID,
    pub kind: QuestionKind,
    pub question: String,
    pub clarifications: Vec<String>,
}

/// How urgently a question should be opened, lowest first.
#[derive(Clone, Copy, Debug, PartialEq, Eq, Structural, Hash)]
pub enum QuestionPriority {
    Bottom,
    Low,
    Standard,
    Hight,
    Top,
}

/// The rank of a priority in its total order.
pub open spec fn priority_rank(p: QuestionPriority) -> int {
    match p {
        QuestionPriority::Bottom => 0,
        QuestionPriority::Low => 1,
        QuestionPriority::Standard => 2,
        QuestionPriority::Hight => 3,
        QuestionPriority::Top => 4,
    }
}

impl QuestionPriority {
    /// The rank of this priority.
    pub fn rank(&self) -> (r: u8)
        ensures
            r as int == priority_rank(*self),
    {
        match self {
            QuestionPriority::Bottom => 0,
            QuestionPriority::Low => 1,
            QuestionPriority::Standard => 2,
            QuestionPriority::Hight => 3,
            QuestionPriority::Top => 4,
        }
    }
}

} // verus!
