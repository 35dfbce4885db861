//! The role lattice and the grant rules.
//!
//! `Banned < Regular{Observer, Messager, Asker} < Duty{Moderator, Admin,
//! Owner}`. A Duty role additionally carries a boolean saying whether its
//! holder may give that very role away. Comparison is total on ranks; the
//! giver flag never influences rank.

use vstd::prelude::*;

use crate::identity::IdentityID;

verus! {

/// A moderation role, lowest first.
#[derive(Clone, Copy, Debug, PartialEq, Eq, Structural, Hash)]
pub enum DutyRole {
    Moderator,
    Admin,
    Owner,
}

/// A duty role plus whether its holder may pass it on.
#[derive(Clone, Copy, Debug, PartialEq, Eq, Structural, Hash)]
pub struct SharingDutyRole {
    pub duty: DutyRole,
    pub giver: bool,
}

/// A non-moderation role, lowest first.
#[derive(Clone, Copy, Debug, PartialEq, Eq, Structural, Hash)]
pub enum RegularRole {
    Observer,
    Messager,
    Asker,
}

/// A member's role inside the room.
#[derive(Clone, Copy, Debug, PartialEq, Eq, Structural, Hash)]
pub enum Role {
    Banned,
    Regular(RegularRole),
    Duty(SharingDutyRole),
}

/// The rank of a role in the total order of the lattice: `Banned` lowest,
/// then the regular roles, then the duty roles; the giver flag is ignored.
pub open spec fn role_rank(r: Role) -> int {
    match r {
        Role::Banned => 0,
        Role::Regular(RegularRole::Observer) => 1,
        Role::Regular(RegularRole::Messager) => 2,
        Role::Regular(RegularRole::Asker) => 3,
        Role::Duty(sd) => match sd.duty {
            DutyRole::Moderator => 4,
            DutyRole::Admin => 5,
            DutyRole::Owner => 6,
        },
    }
}

impl Role {
    /// The rank of this role.
    pub fn rank(&self) -> (r: u8)
        ensures
            r as int == role_rank(*self),
    {
        match self {
            Role::Banned => 0,
            Role::Regular(RegularRole::Observer) => 1,
            Role::Regular(RegularRole::Messager) => 2,
            Role::Regular(RegularRole::Asker) => 3,
            Role::Duty(sd) => match sd.duty {
                DutyRole::Moderator => 4,
                DutyRole::Admin => 5,
                DutyRole::Owner => 6,
            },
        }
    }

    /// Whether the role carries moderation powers.
    pub fn is_duty(self) -> (r: bool)
        ensures
            r == (self matches Role::Duty(_)),
    {
        match self {
            Role::Duty(_) => true,
            _ => false,
        }
    }

    /// Whether the role may moderate; the same test as `is_duty`.
    pub fn can_moderate(self) -> (r: bool)
        ensures
            r == (self matches Role::Duty(_)),
    {
        self.is_duty()
    }

    /// The duty component, when the role has one.
    pub fn duty(self) -> (r: Option<SharingDutyRole>)
        ensures
            self matches Role::Duty(sd) ==> r == Some(sd),
            !(self matches Role::Duty(_)) ==> r is None,
    {
        match self {
            Role::Duty(sd) => Some(sd),
            _ => None,
        }
    }

    /// Whether the role is the banned one.
    pub fn is_banned(self) -> (r: bool)
        ensures
            r == (self matches Role::Banned),
    {
        match self {
            Role::Banned => true,
            _ => false,
        }
    }

    /// Whether a holder of this role may set a member currently holding
    /// `to` to the new role `role`: a duty holder may pass on exactly
    /// their own role — giver flag included — only when that flag is set,
    /// and only to a member strictly below them.
    pub fn can_grant_role(self, to: Role, role: Role) -> (r: bool)
        ensures
            r == can_grant(self, to, role),
    {
        match self {
            Role::Duty(sd) => {
                self.rank() > to.rank() && role == self && sd.giver
            },
            _ => false,
        }
    }
}

/// The grant rule: see [`Role::can_grant_role`].
pub open spec fn can_grant(granter: Role, to: Role, role: Role) -> bool {
    match granter {
        Role::Duty(sd) => role_rank(granter) > role_rank(to) && role == granter && sd.giver,
        _ => false,
    }
}

/// Who a publication channel is open to, lowest first.
#[derive(Clone, Copy, Debug, PartialEq, Eq, Structural, Hash)]
pub enum AllowLevel {
    Anonymous,
    Regular,
    Duty,
}

/// The rank of an allow level.
pub open spec fn allow_rank(a: AllowLevel) -> int {
    match a {
        AllowLevel::Anonymous => 0,
        AllowLevel::Regular => 1,
        AllowLevel::Duty => 2,
    }
}

impl AllowLevel {
    /// The rank of this level.
    pub fn rank(&self) -> (r: u8)
        ensures
            r as int == allow_rank(*self),
    {
        match self {
            AllowLevel::Anonymous => 0,
            AllowLevel::Regular => 1,
            AllowLevel::Duty => 2,
        }
    }

    /// The level a member speaks at: duty holders at `Duty`, regular users
    /// at `Regular`, regular anonymous identities at `Anonymous`; the
    /// banned, and the room itself outside a duty role, speak at no level.
    pub fn from_role_id<M, A>(role: Role, identity: IdentityID<M, A>) -> (r: Option<AllowLevel>)
        ensures
            r == spec_from_role_id(role, identity),
    {
        match role {
            Role::Duty(_) => Some(AllowLevel::Duty),
            Role::Regular(_) => match identity {
                IdentityID::User(_) => Some(AllowLevel::Regular),
                IdentityID::Mask(_) => Some(AllowLevel::Anonymous),
                IdentityID::Answer(_) => Some(AllowLevel::Anonymous),
                IdentityID::RoomID => None,
            },
            Role::Banned => None,
        }
    }
}

/// The level a member speaks at: see [`AllowLevel::from_role_id`].
pub open spec fn spec_from_role_id<M, A>(role: Role, identity: IdentityID<M, A>) -> Option<
    AllowLevel,
> {
    match role {
        Role::Duty(_) => Some(AllowLevel::Duty),
        Role::Regular(_) => match identity {
            IdentityID::User(_) => Some(AllowLevel::Regular),
            IdentityID::Mask(_) => Some(AllowLevel::Anonymous),
            IdentityID::Answer(_) => Some(AllowLevel::Anonymous),
            IdentityID::RoomID => None,
        },
        Role::Banned => None,
    }
}

/// A member's opinion on a question.
#[derive(Clone, Copy, Debug, PartialEq, Eq, Structural, Hash)]
pub enum Like {
    Like,
    Dislike,
}

} // verus!
