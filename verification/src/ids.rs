//! Fixed-width identifier newtypes.
//!
//! Each identifier wraps an unsigned integer of a fixed width and offers
//! `next` / `previous`, which saturate: at the top of the range `next`
//! returns `None` (the caller surfaces the matching "no more room" error),
//! and at zero `previous` returns `None`.

use vstd::prelude::*;

verus! {

/// A persistent room member (16 bits).
#[derive(Clone, Copy, Debug, PartialEq, Eq, Structural, Hash, PartialOrd, Ord)]
pub struct UserID(pub u16);

impl UserID {
    /// The identifier after this one, or `None` at the top of the range.
    pub fn next(&self) -> (r: Option<UserID>)
        ensures
            self.0 < u16::MAX ==> r == Some(UserID((self.0 + 1) as u16)),
            self.0 == u16::MAX ==> r is None,
    {
        if self.0 < u16::MAX {
            Some(UserID(self.0 + 1))
        } else {
            None
        }
    }

    /// The identifier before this one, or `None` at zero.
    pub fn previous(&self) -> (r: Option<UserID>)
        ensures
            self.0 > 0 ==> r == Some(UserID((self.0 - 1) as u16)),
            self.0 == 0 ==> r is None,
    {
        if self.0 > 0 {
            Some(UserID(self.0 - 1))
        } else {
            None
        }
    }
}

/// A room-scoped pseudonym owned by one user (32 bits).
#[derive(Clone, Copy, Debug, PartialEq, Eq, Structural, Hash, PartialOrd, Ord)]
pub struct MaskID(pub u32);

impl MaskID {
    /// The identifier after this one, or `None` at the top of the range.
    pub fn next(&self) -> (r: Option<MaskID>)
        ensures
            self.0 < u32::MAX ==> r == Some(MaskID((self.0 + 1) as u32)),
            self.0 == u32::MAX ==> r is None,
    {
        if self.0 < u32::MAX {
            Some(MaskID(self.0 + 1))
        } else {
            None
        }
    }

    /// The identifier before this one, or `None` at zero.
    pub fn previous(&self) -> (r: Option<MaskID>)
        ensures
            self.0 > 0 ==> r == Some(MaskID((self.0 - 1) as u32)),
            self.0 == 0 ==> r is None,
    {
        if self.0 > 0 {
            Some(MaskID(self.0 - 1))
        } else {
            None
        }
    }
}

/// The question a survey answers (16 bits).
#[derive(Clone, Copy, Debug, PartialEq, Eq, Structural, Hash, PartialOrd, Ord)]
pub struct QuestionID(pub u16);

impl QuestionID {
    /// The identifier after this one, or `None` at the top of the range.
    pub fn next(&self) -> (r: Option<QuestionID>)
        ensures
            self.0 < u16::MAX ==> r == Some(QuestionID((self.0 + 1) as u16)),
            self.0 == u16::MAX ==> r is None,
    {
        if self.0 < u16::MAX {
            Some(QuestionID(self.0 + 1))
        } else {
            None
        }
    }

    /// The identifier before this one, or `None` at zero.
    pub fn previous(&self) -> (r: Option<QuestionID>)
        ensures
            self.0 > 0 ==> r == Some(QuestionID((self.0 - 1) as u16)),
            self.0 == 0 ==> r is None,
    {
        if self.0 > 0 {
            Some(QuestionID(self.0 - 1))
        } else {
            None
        }
    }
}

/// A per-survey ephemeral answer pseudonym (8 bits).
#[derive(Clone, Copy, Debug, PartialEq, Eq, Structural, Hash, PartialOrd, Ord)]
pub struct AnswerID(pub u8);

impl AnswerID {
    /// The identifier after this one, or `None` at the top of the range.
    pub fn next(&self) -> (r: Option<AnswerID>)
        ensures
            self.0 < u8::MAX ==> r == Some(AnswerID((self.0 + 1) as u8)),
            self.0 == u8::MAX ==> r is None,
    {
        if self.0 < u8::MAX {
            Some(AnswerID(self.0 + 1))
        } else {
            None
        }
    }

    /// The identifier before this one, or `None` at zero.
    pub fn previous(&self) -> (r: Option<AnswerID>)
        ensures
            self.0 > 0 ==> r == Some(AnswerID((self.0 - 1) as u8)),
            self.0 == 0 ==> r is None,
    {
        if self.0 > 0 {
            Some(AnswerID(self.0 - 1))
        } else {
            None
        }
    }
}

/// A message inside the room (64 bits).
#[derive(Clone, Copy, Debug, PartialEq, Eq, Structural, Hash, PartialOrd, Ord)]
pub struct MessageID(pub u64);

/// A per-identity monotonic transaction counter.
#[derive(Clone, Copy, Debug, PartialEq, Eq, Structural, Hash, PartialOrd, Ord)]
pub struct Nonce(pub u64);

impl Nonce {
    /// The first nonce.
    pub fn new() -> (r: Nonce)
        ensures
            r.0 == 0,
    {
        Nonce(0)
    }

    /// The nonce after this one; nonces never reach the top of `u64`.
    pub fn next(self) -> (r: Nonce)
        requires
            self.0 < u64::MAX,
        ensures
            r.0 == self.0 + 1,
    {
        Nonce(self.0 + 1)
    }
}

impl Default for Nonce {
    fn default() -> (r: Nonce)
        ensures
            r.0 == 0,
    {
        Nonce::new()
    }
}

/// The height of a block inside one chain; strictly monotonic.
///
/// Heights of distinct chains must never be mixed; callers parse a height
/// straight into the state of the one chain it belongs to.
#[derive(Clone, Copy, Debug, PartialEq, Eq, Structural, Hash, PartialOrd, Ord)]
pub struct BlockHeight {
    pub height: u64,
}

impl BlockHeight {
    /// The height of the first block.
    pub fn first() -> (r: BlockHeight)
        ensures
            r.height == 0,
    {
        BlockHeight { height: 0 }
    }

    /// The height after this one; chains never reach the top of `u64`.
    pub fn next(&self) -> (r: BlockHeight)
        requires
            self.height < u64::MAX,
        ensures
            r.height == self.height + 1,
    {
        BlockHeight { height: self.height + 1 }
    }
}

/// A 32-byte digest.
#[derive(Clone, Copy, Debug, PartialEq, Eq, Hash)]
pub struct Hashed(pub [u8; 32]);

} // verus!
