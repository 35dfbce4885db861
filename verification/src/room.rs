//! The room state machine.
//!
//! The room owns the persistent identities (users and masks, each with a
//! role and a pair of public keys), the queue of questions with their likes
//! and priorities, the publication rights for questions and messages, and
//! the handle of the survey currently open. Room events are validated
//! against the caller's role and applied deterministically.

use vstd::prelude::*;

use crate::errors::RoomError;
use crate::group::Bin;
use crate::ids::BlockHeight;
use crate::ids::Hashed;
use crate::ids::MaskID;
use crate::ids::Nonce;
use crate::ids::QuestionID;
use crate::ids::UserID;
use crate::identity::IdentityID;
use crate::identity::RoomIdentityID;
use crate::identity::SurveyIdentityID;
use crate::phase::has_key;
use crate::phase::key_index;
use crate::phase::unique_keys;
use crate::question::Question;
use crate::question::QuestionKind;
use crate::question::QuestionPriority;
use crate::question::priority_rank;
use crate::roles::RegularRole;
use crate::roles::DutyRole;
use crate::roles::Like;
use crate::roles::Role;
use crate::roles::SharingDutyRole;
use crate::roles::role_rank;
use crate::schnorr::CryptoID;
use crate::schnorr::PublicKey;
use crate::schnorr::PublicKeyType;
use crate::schnorr::SecretKey;

verus! {

/// How the room may be entered.
#[derive(Clone, Debug, PartialEq, Eq)]
pub enum RoomAccessibility {
    OpenToAnyone,
    MembersOnly,
    PublicKeyProtected(PublicKey),
    SecretKeyProtected(SecretKey),
}

/// What the room knows of one identity.
#[derive(Clone, Debug, PartialEq, Eq)]
pub struct IdentityInfo {
    pub crypto_id: CryptoID,
    pub name: Option<String>,
    pub description: Option<String>,
    pub nonce: Nonce,
    pub role: Role,
}

/// The identities of one kind (users or masks), indexed by identifier, and
/// the next identifier to hand out; `None` when the space is exhausted.
#[derive(Clone, Debug, PartialEq, Eq)]
pub struct IdentitiesState<A> {
    pub identities: Vec<IdentityInfo>,
    pub next_id: Option<A>,
}

/// A queued question with its likes and priority.
#[derive(Clone, Debug, PartialEq, Eq)]
pub struct QuestionInfo {
    pub question: Question,
    pub likes: Vec<(UserID, Like)>,
    pub priority: QuestionPriority,
}

/// The question queue and its publication rights.
#[derive(Clone, Debug, PartialEq, Eq)]
pub struct QuestionsState {
    pub max_questions: u8,
    pub next_id: Option<QuestionID>,
    pub questions: Vec<(QuestionID, QuestionInfo)>,
    pub rights: PublicationRights,
}

/// Who may publish on a channel: a role threshold, overridden per identity
/// by explicit grants and denials.
#[derive(Clone, Debug, PartialEq, Eq)]
pub struct PublicationRights {
    pub role: Role,
    pub explicit: Vec<(RoomIdentityID, bool)>,
}

/// What applying a room event hands back to the host besides the new
/// state.
#[derive(Clone, Debug, PartialEq, Eq)]
pub enum RoomOutput {
    /// A question was opened for a survey.
    NewQuestion(Question),
    /// A member was banned; the host closes their connection.
    Ban(UserID),
}

/// The whole room state.
#[derive(Clone, Debug, PartialEq, Eq)]
pub struct RoomState {
    pub block_height: BlockHeight,
    pub block_hash: Hashed,
    pub room: IdentityInfo,
    pub users: IdentitiesState<UserID>,
    pub masks: IdentitiesState<MaskID>,
    pub public_key_index: Vec<(Bin, (PublicKeyType, RoomIdentityID))>,
    pub room_accessibility: RoomAccessibility,
    pub max_connected_users: u16,
    pub questions_state: QuestionsState,
    pub message_rights: PublicationRights,
    pub answering: Option<QuestionID>,
}

/// The saturating like score of a question: likes count one up, dislikes
/// one down.
pub open spec fn sat_score(s: Seq<(UserID, Like)>) -> int
    decreases s.len(),
{
    if s.len() == 0 {
        0
    } else {
        let rest = sat_score(s.drop_last());
        match s.last().1 {
            Like::Like => if rest < i32::MAX as int {
                rest + 1
            } else {
                rest
            },
            Like::Dislike => if rest > i32::MIN as int {
                rest - 1
            } else {
                rest
            },
        }
    }
}

/// The like score stays inside `i32`.
pub proof fn lemma_sat_score_bounds(s: Seq<(UserID, Like)>)
    ensures
        i32::MIN as int <= sat_score(s) <= i32::MAX as int,
    decreases s.len(),
{
    if s.len() > 0 {
        lemma_sat_score_bounds(s.drop_last());
    }
}

impl QuestionInfo {
    /// The question's likes all come from distinct users.
    pub open spec fn wf(self) -> bool {
        unique_keys(self.likes@)
    }

    /// The question's score: its likes minus its dislikes, saturating at
    /// the bounds of `i32`.
    pub fn like_score(&self) -> (r: i32)
        ensures
            r as int == sat_score(self.likes@),
    {
        proof {
            lemma_sat_score_bounds(self.likes@);
        }
        let mut r: i32 = 0;
        let mut i: usize = 0;
        while i < self.likes.len()
            invariant
                i <= self.likes@.len(),
                r as int == sat_score(self.likes@.subrange(0, i as int)),
            decreases self.likes@.len() - i,
        {
            proof {
                let pre = self.likes@.subrange(0, i + 1);
                assert(pre.drop_last() =~= self.likes@.subrange(0, i as int));
                lemma_sat_score_bounds(self.likes@.subrange(0, i as int));
            }
            match self.likes[i].1 {
                Like::Like => {
                    if r < i32::MAX {
                        r = r + 1;
                    }
                },
                Like::Dislike => {
                    if r > i32::MIN {
                        r = r - 1;
                    }
                },
            }
            i = i + 1;
        }
        proof {
            assert(self.likes@.subrange(0, self.likes@.len() as int) =~= self.likes@);
        }
        r
    }
}

/// The ordering key of a queued question: priority first, then score, then
/// identifier. Distinct questions order strictly because identifiers are
/// unique.
pub open spec fn question_key(e: (QuestionID, QuestionInfo)) -> (int, int, int) {
    (priority_rank(e.1.priority), sat_score(e.1.likes@), e.0.0 as int)
}

/// Strict lexicographic order on question keys.
pub open spec fn question_lt(a: (QuestionID, QuestionInfo), b: (QuestionID, QuestionInfo)) -> bool {
    let ka = question_key(a);
    let kb = question_key(b);
    ka.0 < kb.0 || (ka.0 == kb.0 && (ka.1 < kb.1 || (ka.1 == kb.1 && ka.2 < kb.2)))
}

/// Every question identifier in the queue lies below the next one to hand
/// out.
pub open spec fn qids_below(s: Seq<(QuestionID, QuestionInfo)>, next: Option<QuestionID>) -> bool {
    match next {
        Some(n) => forall|i: int| 0 <= i < s.len() ==> (#[trigger] s[i]).0.0 < n.0,
        None => true,
    }
}

impl RoomState {
    /// The room invariant: identifier spaces line up with the identity
    /// vectors, and every association vector has unique keys.
    pub open spec fn wf(self) -> bool {
        &&& match self.users.next_id {
            Some(n) => self.users.identities@.len() == n.0 as int,
            None => self.users.identities@.len() == 0x10000,
        }
        &&& match self.masks.next_id {
            Some(n) => self.masks.identities@.len() == n.0 as int,
            None => self.masks.identities@.len() == 0x1_0000_0000,
        }
        &&& unique_keys(self.public_key_index@)
        &&& unique_keys(self.questions_state.questions@)
        &&& qids_below(self.questions_state.questions@, self.questions_state.next_id)
        &&& unique_keys(self.questions_state.rights.explicit@)
        &&& unique_keys(self.message_rights.explicit@)
        &&& forall|i: int|
            0 <= i < self.questions_state.questions@.len() ==> (
            #[trigger] self.questions_state.questions@[i]).1.wf()
    }

    /// Whether a user identifier was ever handed out.
    pub fn is_valid_user_id(&self, user_id: UserID) -> (r: bool)
        ensures
            r == match self.users.next_id {
                Some(n) => user_id.0 < n.0,
                None => true,
            },
    {
        match self.users.next_id {
            Some(n) => user_id.0 < n.0,
            None => true,
        }
    }

    /// Whether a mask identifier was ever handed out.
    pub fn is_valid_mask_id(&self, mask_id: MaskID) -> (r: bool)
        ensures
            r == match self.masks.next_id {
                Some(n) => mask_id.0 < n.0,
                None => true,
            },
    {
        match self.masks.next_id {
            Some(n) => mask_id.0 < n.0,
            None => true,
        }
    }

    /// Whether an identity exists in this room.
    pub fn is_valid_identity_id(&self, id: RoomIdentityID) -> (r: bool)
        ensures
            r == spec_valid_identity(*self, id),
    {
        match id {
            IdentityID::RoomID => true,
            IdentityID::User(u) => self.is_valid_user_id(u),
            IdentityID::Mask(m) => self.is_valid_mask_id(m),
            IdentityID::Answer(_) => false,
        }
    }

    /// The role an identity holds: the room acts as a sharing owner, users
    /// and masks hold their stored role.
    pub fn role_of(&self, id: RoomIdentityID) -> (r: Result<Role, RoomError>)
        requires
            self.wf(),
        ensures
            r == spec_role_of(*self, id),
    {
        match id {
            IdentityID::RoomID => Ok(
                Role::Duty(SharingDutyRole { duty: DutyRole::Owner, giver: true }),
            ),
            IdentityID::User(u) => {
                if (u.0 as usize) < self.users.identities.len() {
                    Ok(self.users.identities[u.0 as usize].role)
                } else {
                    Err(RoomError::NoSuchUser)
                }
            },
            IdentityID::Mask(m) => {
                if (m.0 as usize) < self.masks.identities.len() {
                    Ok(self.masks.identities[m.0 as usize].role)
                } else {
                    Err(RoomError::NoSuchMask)
                }
            },
            IdentityID::Answer(_) => Err(RoomError::NoSuchIdentity),
        }
    }

    /// The role behind a survey-chain identity: answer pseudonyms act as
    /// anonymous regular askers.
    pub fn role_of_survey(&self, id: SurveyIdentityID) -> (r: Result<Role, RoomError>)
        requires
            self.wf(),
        ensures
            r == spec_role_of_survey(*self, id),
    {
        match id {
            IdentityID::RoomID => Ok(
                Role::Duty(SharingDutyRole { duty: DutyRole::Owner, giver: true }),
            ),
            IdentityID::User(u) => self.role_of(IdentityID::User(u)),
            IdentityID::Mask(m) => self.role_of(IdentityID::Mask(m)),
            IdentityID::Answer(_) => Ok(Role::Regular(RegularRole::Asker)),
        }
    }

    /// The caller's role if they hold moderation powers, `Unauthorized`
    /// otherwise.
    pub fn ensure_admin_or_moderator(&self, from: RoomIdentityID) -> (r: Result<Role, RoomError>)
        requires
            self.wf(),
        ensures
            r == match spec_role_of(*self, from) {
                Ok(ro) => if ro matches Role::Duty(_) {
                    Ok::<Role, RoomError>(ro)
                } else {
                    Err::<Role, RoomError>(RoomError::Unauthorized)
                },
                Err(e) => Err::<Role, RoomError>(e),
            },
    {
        match self.role_of(from) {
            Ok(ro) => {
                if ro.can_moderate() {
                    Ok(ro)
                } else {
                    Err(RoomError::Unauthorized)
                }
            },
            Err(e) => Err(e),
        }
    }

    /// Record a proved cheater: the member's role becomes `Banned`.
    ///
    /// The proof — two answers that link to the same ring slot — stays with
    /// the host; the room only records the ban.
    pub fn on_cheater_detected(&mut self, user: UserID) -> (r: Result<(), RoomError>)
        requires
            old(self).wf(),
        ensures
            final(self).wf(),
            r is Err ==> *final(self) == *old(self),
            (user.0 as int) >= old(self).users.identities@.len() ==> r == Err::<(), RoomError>(
                RoomError::NoSuchUser,
            ),
            (user.0 as int) < old(self).users.identities@.len() ==> {
                &&& r is Ok
                &&& final(self).users.identities@ == old(self).users.identities@.update(
                    user.0 as int,
                    IdentityInfo {
                        role: Role::Banned,
                        ..old(self).users.identities@[user.0 as int]
                    },
                )
                &&& final(self).masks == old(self).masks
                &&& final(self).questions_state == old(self).questions_state
                &&& final(self).answering == old(self).answering
            },
    {
        if (user.0 as usize) < self.users.identities.len() {
            let info = vstd::std_specs::vec::vec_index_mut(
                &mut self.users.identities,
                user.0 as usize,
            );
            info.role = Role::Banned;
            Ok(())
        } else {
            Err(RoomError::NoSuchUser)
        }
    }
}

/// Whether an identity exists in the room.
pub open spec fn spec_valid_identity(s: RoomState, id: RoomIdentityID) -> bool {
    match id {
        IdentityID::RoomID => true,
        IdentityID::User(u) => match s.users.next_id {
            Some(n) => u.0 < n.0,
            None => true,
        },
        IdentityID::Mask(m) => match s.masks.next_id {
            Some(n) => m.0 < n.0,
            None => true,
        },
        IdentityID::Answer(_) => false,
    }
}

/// The role an identity holds; see [`RoomState::role_of`].
pub open spec fn spec_role_of(s: RoomState, id: RoomIdentityID) -> Result<Role, RoomError> {
    match id {
        IdentityID::RoomID => Ok(Role::Duty(SharingDutyRole { duty: DutyRole::Owner, giver: true })),
        IdentityID::User(u) => if (u.0 as int) < s.users.identities@.len() {
            Ok(s.users.identities@[u.0 as int].role)
        } else {
            Err(RoomError::NoSuchUser)
        },
        IdentityID::Mask(m) => if (m.0 as int) < s.masks.identities@.len() {
            Ok(s.masks.identities@[m.0 as int].role)
        } else {
            Err(RoomError::NoSuchMask)
        },
        IdentityID::Answer(_) => Err(RoomError::NoSuchIdentity),
    }
}

/// The role behind a survey-chain identity; see
/// [`RoomState::role_of_survey`].
pub open spec fn spec_role_of_survey(s: RoomState, id: SurveyIdentityID) -> Result<
    Role,
    RoomError,
> {
    match id {
        IdentityID::RoomID => Ok(Role::Duty(SharingDutyRole { duty: DutyRole::Owner, giver: true })),
        IdentityID::User(u) => spec_role_of(s, IdentityID::User(u)),
        IdentityID::Mask(m) => spec_role_of(s, IdentityID::Mask(m)),
        IdentityID::Answer(_) => Ok(Role::Regular(RegularRole::Asker)),
    }
}

/// An event of the room chain.
pub enum RoomEvent {
    RoomCreation(CryptoID),
    NewUser(CryptoID),
    NewMask(CryptoID),
    ChangeRole { user: UserID, role: Role },
    ChangeIdentityInfo { identity: RoomIdentityID, name: Option<String>, description: Option<String> },
    ChangeRoomAccessibility(RoomAccessibility),
    MaxConnectedUsers(u16),
    NewQuestion { kind: QuestionKind, question: String },
    ClarifyQuestion { question: QuestionID, clarification: String },
    LikeQuestion { question: QuestionID, like: Option<Like> },
    ChangeQuestionPriority { question: QuestionID, priority: QuestionPriority },
    DeleteQuestions(QuestionDeleteSpec),
    MaxQuestions(u8),
    QuestionRights(Role),
    ExplicitQuestionRight { identity: RoomIdentityID, allow: Option<bool> },
    OpenAnswering,
    CloseAnswering,
    FinishedAnswering,
    Message(String),
    MessageRights(Role),
    ExplicitMessageRight { identity: RoomIdentityID, allow: Option<bool> },
}

/// Which questions a deletion removes.
pub enum QuestionDeleteSpec {
    /// Delete exactly the listed questions.
    Delete(Vec<QuestionID>),
    /// Delete every question but the listed ones.
    Keep(Vec<QuestionID>),
    /// Delete every question of strictly lower priority.
    DeletePriority(QuestionPriority),
}

/// Find an identity in an explicit-rights vector.
fn rid_find(v: &Vec<(RoomIdentityID, bool)>, k: RoomIdentityID) -> (r: Option<usize>)
    ensures
        r matches Some(i) ==> i < v@.len() && v@[i as int].0 == k,
        r is None <==> !has_key(v@, k),
{
    let mut i: usize = 0;
    while i < v.len()
        invariant
            i <= v@.len(),
            forall|j: int| 0 <= j < i ==> (#[trigger] v@[j]).0 != k,
        decreases v@.len() - i,
    {
        if v[i].0 == k {
            return Some(i);
        }
        i = i + 1;
    }
    None
}

/// Find a question in the queue.
fn qid_find(v: &Vec<(QuestionID, QuestionInfo)>, k: QuestionID) -> (r: Option<usize>)
    ensures
        r matches Some(i) ==> i < v@.len() && v@[i as int].0 == k,
        r is None <==> !has_key(v@, k),
{
    let mut i: usize = 0;
    while i < v.len()
        invariant
            i <= v@.len(),
            forall|j: int| 0 <= j < i ==> (#[trigger] v@[j]).0 != k,
        decreases v@.len() - i,
    {
        if v[i].0 == k {
            return Some(i);
        }
        i = i + 1;
    }
    None
}

/// Find a serialized public key in the key index.
fn bin_find(v: &Vec<(Bin, (PublicKeyType, RoomIdentityID))>, k: &Bin) -> (r: Option<usize>)
    ensures
        r matches Some(i) ==> i < v@.len() && v@[i as int].0 == k,
        r is None <==> !has_key(v@, *k),
{
    let mut i: usize = 0;
    while i < v.len()
        invariant
            i <= v@.len(),
            forall|j: int| 0 <= j < i ==> (#[trigger] v@[j]).0 != k,
        decreases v@.len() - i,
    {
        if crate::group::ct_eq(&v[i].0, k) {
            proof {
                assert(v@[i as int].0@ == k@);
                assert(v@[i as int].0 =~= *k);
            }
            return Some(i);
        }
        proof {
            assert(v@[i as int].0@ != k@);
            assert(v@[i as int].0 != *k);
        }
        i = i + 1;
    }
    None
}

/// Whether a question identifier stands in a list.
fn qid_in_list(ids: &Vec<QuestionID>, k: QuestionID) -> (r: bool)
    ensures
        r == ids@.contains(k),
{
    let mut i: usize = 0;
    while i < ids.len()
        invariant
            i <= ids@.len(),
            forall|j: int| 0 <= j < i ==> ids@[j] != k,
        decreases ids@.len() - i,
    {
        if ids[i] == k {
            return true;
        }
        i = i + 1;
    }
    proof {
        assert(!ids@.contains(k));
    }
    false
}

/// Which questions a bulk deletion keeps.
#[derive(Clone, Copy, Debug, PartialEq, Eq, Structural)]
pub enum QuestionFilter {
    /// Keep the questions that are not listed.
    NotListed,
    /// Keep exactly the listed questions.
    Listed,
    /// Keep the questions of at least the given priority.
    MinPriority,
}

/// Whether a filter keeps a queue entry.
pub open spec fn question_kept(
    f: QuestionFilter,
    ids: Seq<QuestionID>,
    p: QuestionPriority,
    e: (QuestionID, QuestionInfo),
) -> bool {
    match f {
        QuestionFilter::NotListed => !ids.contains(e.0),
        QuestionFilter::Listed => ids.contains(e.0),
        QuestionFilter::MinPriority => priority_rank(e.1.priority) >= priority_rank(p),
    }
}

/// The queue entries a filter keeps, in order.
pub open spec fn retain_questions(s: Seq<(QuestionID, QuestionInfo)>, f: QuestionFilter, ids: Seq<QuestionID>, p: QuestionPriority) -> Seq<(QuestionID, QuestionInfo)>
    decreases s.len(),
{
    if s.len() == 0 {
        s
    } else {
        let rest = retain_questions(s.drop_last(), f, ids, p);
        if question_kept(f, ids, p, s.last()) {
            rest.push(s.last())
        } else {
            rest
        }
    }
}

/// Retaining entries keeps keys unique, keeps only entries of the vector,
/// keeps every entry the predicate admits, and never grows.
pub proof fn lemma_retain_questions(s: Seq<(QuestionID, QuestionInfo)>, f: QuestionFilter, ids: Seq<QuestionID>, p: QuestionPriority)
    requires
        unique_keys(s),
    ensures
        unique_keys(retain_questions(s, f, ids, p)),
        retain_questions(s, f, ids, p).len() <= s.len(),
        forall|k: int|
            0 <= k < retain_questions(s, f, ids, p).len() ==> s.contains(
                #[trigger] retain_questions(s, f, ids, p)[k],
            ) && question_kept(f, ids, p, retain_questions(s, f, ids, p)[k]),
        forall|i: int| 0 <= i < s.len() && question_kept(f, ids, p, #[trigger] s[i]) ==> retain_questions(s, f, ids, p).contains(s[i]),
    decreases s.len(),
{
    if s.len() == 0 {
        assert(retain_questions(s, f, ids, p) == s);
    } else {
        let dl = s.drop_last();
        assert(unique_keys(dl));
        lemma_retain_questions(dl, f, ids, p);
        let rest = retain_questions(dl, f, ids, p);
        assert(dl =~= s.subrange(0, s.len() - 1));
        assert forall|k: int|
            0 <= k < retain_questions(s, f, ids, p).len() implies s.contains(
            retain_questions(s, f, ids, p)[k],
        ) && question_kept(f, ids, p, retain_questions(s, f, ids, p)[k]) by {
            let x = retain_questions(s, f, ids, p)[k];
            if k < rest.len() {
                assert(x == rest[k]);
                assert(retain_questions(dl, f, ids, p)[k] == x);
                assert(dl.contains(x) && question_kept(f, ids, p, x));
                let j = choose|j: int| 0 <= j < dl.len() && dl[j] == x;
                assert(dl[j] == s[j]);
                assert(s[j] == x);
                assert(s.contains(x));
            } else {
                assert(question_kept(f, ids, p, s.last()));
                assert(x == s.last());
                assert(s[s.len() - 1] == x);
                assert(s.contains(x));
            }
        }
        assert forall|i: int|
            0 <= i < s.len() && question_kept(f, ids, p, #[trigger] s[i]) implies retain_questions(s, f, ids, p).contains(
            s[i],
        ) by {
            if i < s.len() - 1 {
                assert(dl[i] == s[i]);
                assert(rest.contains(s[i]));
                let k = choose|k: int| 0 <= k < rest.len() && rest[k] == s[i];
                assert(retain_questions(s, f, ids, p)[k] == s[i]);
                assert(retain_questions(s, f, ids, p).contains(s[i]));
            } else {
                assert(question_kept(f, ids, p, s.last()));
                assert(retain_questions(s, f, ids, p).last() == s.last());
                assert(retain_questions(s, f, ids, p).contains(s.last()));
            }
        }
        if question_kept(f, ids, p, s.last()) {
            assert forall|a: int, b: int|
                0 <= a < b < retain_questions(s, f, ids, p).len() implies (#[trigger] retain_questions(s, f, ids, p)[a]).0 != (#[trigger] retain_questions(
                s,
                f,
                ids,
                p,
            )[b]).0 by {
                if b == retain_questions(s, f, ids, p).len() - 1 {
                    let x = retain_questions(s, f, ids, p)[a];
                    assert(rest[a] == x);
                    assert(retain_questions(dl, f, ids, p)[a] == x);
                    assert(dl.contains(x));
                    let j = choose|j: int| 0 <= j < dl.len() && dl[j] == x;
                    assert(dl[j] == s[j]);
                    assert(s[j] == x);
                    assert(s[j].0 != s[s.len() - 1].0);
                    assert(retain_questions(s, f, ids, p)[b] == s.last());
                }
            }
        }
    }
}

/// The user identifier after `n`, if any.
pub open spec fn spec_next_user(n: UserID) -> Option<UserID> {
    if n.0 < 0xFFFF {
        Some(UserID((n.0 + 1) as u16))
    } else {
        None
    }
}

/// The mask identifier after `n`, if any.
pub open spec fn spec_next_mask(n: MaskID) -> Option<MaskID> {
    if n.0 < 0xFFFF_FFFF {
        Some(MaskID((n.0 + 1) as u32))
    } else {
        None
    }
}

/// The question identifier after `n`, if any.
pub open spec fn spec_next_qid(n: QuestionID) -> Option<QuestionID> {
    if n.0 < 0xFFFF {
        Some(QuestionID((n.0 + 1) as u16))
    } else {
        None
    }
}

/// An identity record with its name and description overridden where the
/// change carries one.
pub open spec fn info_with(
    old_info: IdentityInfo,
    name: Option<String>,
    description: Option<String>,
) -> IdentityInfo {
    IdentityInfo {
        name: if name is Some {
            name
        } else {
            old_info.name
        },
        description: if description is Some {
            description
        } else {
            old_info.description
        },
        ..old_info
    }
}

/// An explicit-rights vector with any entry for the identity taken out.
pub open spec fn explicit_removed(s: Seq<(RoomIdentityID, bool)>, id: RoomIdentityID) -> Seq<
    (RoomIdentityID, bool),
> {
    if has_key(s, id) {
        s.remove(key_index(s, id))
    } else {
        s
    }
}

/// The identity record freshly created for a new user or mask.
pub open spec fn fresh_info(id: CryptoID) -> IdentityInfo {
    IdentityInfo {
        crypto_id: id,
        name: None,
        description: None,
        nonce: Nonce(0),
        role: Role::Regular(RegularRole::Asker),
    }
}

/// Whether `a` (a role and the user holding it) may act on `b`: strictly
/// higher rank always may; two admins break the tie by user identifier;
/// equal or incomparable ranks otherwise may not, except acting on
/// oneself.
pub open spec fn role_user_le(a: (Role, UserID), b: (Role, UserID)) -> bool {
    if a == b {
        true
    } else if role_rank(a.0) > role_rank(b.0) {
        true
    } else if role_rank(a.0) == role_rank(b.0) {
        match a.0 {
            Role::Duty(sd) => sd.duty matches DutyRole::Admin && (a.1).0 <= (b.1).0,
            _ => false,
        }
    } else {
        false
    }
}

/// Decide [`role_user_le`].
pub fn role_user_le_exec(a: (Role, UserID), b: (Role, UserID)) -> (r: bool)
    ensures
        r == role_user_le(a, b),
{
    if a.0 == b.0 && (a.1).0 == (b.1).0 {
        return true;
    }
    let ra = a.0.rank();
    let rb = b.0.rank();
    if ra > rb {
        true
    } else if ra == rb {
        match a.0 {
            Role::Duty(sd) => matches!(sd.duty, DutyRole::Admin) && (a.1).0 <= (b.1).0,
            _ => false,
        }
    } else {
        false
    }
}

impl RoomState {
    /// Register a new user: only the room itself may, both keys must be
    /// fresh and distinct, and the identifier space must not be exhausted.
    pub fn new_user(&mut self, from: RoomIdentityID, id: CryptoID) -> (r: Result<
        Option<RoomOutput>,
        RoomError,
    >)
        requires
            old(self).wf(),
        ensures
            new_user_post(*old(self), *final(self), from, id, r),
    {
        if !matches!(from, IdentityID::RoomID) {
            return Err(RoomError::Unauthorized);
        }
        let sign_used = bin_find(&self.public_key_index, &id.sign_key.bytes).is_some();
        let enc_used = bin_find(&self.public_key_index, &id.encrypt_key.value.bytes).is_some();
        let same = crate::group::ct_eq(&id.sign_key.bytes, &id.encrypt_key.value.bytes);
        if sign_used || enc_used || same {
            proof {
                if id.sign_key.bytes@ == id.encrypt_key.value.bytes@ {
                    assert(id.sign_key.bytes =~= id.encrypt_key.value.bytes);
                }
            }
            return Err(RoomError::PublicKeyAlreadyUsed);
        }
        proof {
            assert(id.sign_key.bytes@ != id.encrypt_key.value.bytes@);
        }
        match self.users.next_id {
            None => Err(RoomError::MaxUserIDReached),
            Some(n) => {
                let ghost oldix = self.public_key_index@;
                self.public_key_index.push(
                    (id.sign_key.bytes, (PublicKeyType::Sign, IdentityID::User(n))),
                );
                self.public_key_index.push(
                    (id.encrypt_key.value.bytes, (PublicKeyType::Encrypt, IdentityID::User(n))),
                );
                proof {
                    assert forall|i: int, j: int|
                        0 <= i < j < self.public_key_index@.len() implies (
                    #[trigger] self.public_key_index@[i]).0 != (
                    #[trigger] self.public_key_index@[j]).0 by {
                        if j < oldix.len() {
                            assert(self.public_key_index@[i] == oldix[i]);
                            assert(self.public_key_index@[j] == oldix[j]);
                        } else if i < oldix.len() {
                            assert(self.public_key_index@[i] == oldix[i]);
                            assert(has_key(oldix, oldix[i].0));
                            if self.public_key_index@[j].0 == oldix[i].0 {
                                assert(self.public_key_index@[j].0 == id.sign_key.bytes
                                    || self.public_key_index@[j].0 == id.encrypt_key.value.bytes);
                            }
                        } else {
                            assert(self.public_key_index@[i].0 == id.sign_key.bytes);
                            assert(self.public_key_index@[j].0 == id.encrypt_key.value.bytes);
                            assert(id.sign_key.bytes@ != id.encrypt_key.value.bytes@);
                        }
                    }
                }
                self.users.identities.push(
                    IdentityInfo {
                        crypto_id: id,
                        name: None,
                        description: None,
                        nonce: Nonce(0),
                        role: Role::Regular(RegularRole::Asker),
                    },
                );
                self.users.next_id = n.next();
                Ok(None)
            },
        }
    }

    /// Register a new mask: the same rules as a new user, on the mask
    /// identifier space.
    pub fn new_mask(&mut self, from: RoomIdentityID, id: CryptoID) -> (r: Result<
        Option<RoomOutput>,
        RoomError,
    >)
        requires
            old(self).wf(),
        ensures
            new_mask_post(*old(self), *final(self), from, id, r),
    {
        if !matches!(from, IdentityID::RoomID) {
            return Err(RoomError::Unauthorized);
        }
        let sign_used = bin_find(&self.public_key_index, &id.sign_key.bytes).is_some();
        let enc_used = bin_find(&self.public_key_index, &id.encrypt_key.value.bytes).is_some();
        let same = crate::group::ct_eq(&id.sign_key.bytes, &id.encrypt_key.value.bytes);
        if sign_used || enc_used || same {
            proof {
                if id.sign_key.bytes@ == id.encrypt_key.value.bytes@ {
                    assert(id.sign_key.bytes =~= id.encrypt_key.value.bytes);
                }
            }
            return Err(RoomError::PublicKeyAlreadyUsed);
        }
        proof {
            assert(id.sign_key.bytes@ != id.encrypt_key.value.bytes@);
        }
        match self.masks.next_id {
            None => Err(RoomError::MaxMaskIDReached),
            Some(n) => {
                let ghost oldix = self.public_key_index@;
                self.public_key_index.push(
                    (id.sign_key.bytes, (PublicKeyType::Sign, IdentityID::Mask(n))),
                );
                self.public_key_index.push(
                    (id.encrypt_key.value.bytes, (PublicKeyType::Encrypt, IdentityID::Mask(n))),
                );
                proof {
                    assert forall|i: int, j: int|
                        0 <= i < j < self.public_key_index@.len() implies (
                    #[trigger] self.public_key_index@[i]).0 != (
                    #[trigger] self.public_key_index@[j]).0 by {
                        if j < oldix.len() {
                            assert(self.public_key_index@[i] == oldix[i]);
                            assert(self.public_key_index@[j] == oldix[j]);
                        } else if i < oldix.len() {
                            assert(self.public_key_index@[i] == oldix[i]);
                            assert(has_key(oldix, oldix[i].0));
                            if self.public_key_index@[j].0 == oldix[i].0 {
                                assert(self.public_key_index@[j].0 == id.sign_key.bytes
                                    || self.public_key_index@[j].0 == id.encrypt_key.value.bytes);
                            }
                        } else {
                            assert(self.public_key_index@[i].0 == id.sign_key.bytes);
                            assert(self.public_key_index@[j].0 == id.encrypt_key.value.bytes);
                            assert(id.sign_key.bytes@ != id.encrypt_key.value.bytes@);
                        }
                    }
                }
                self.masks.identities.push(
                    IdentityInfo {
                        crypto_id: id,
                        name: None,
                        description: None,
                        nonce: Nonce(0),
                        role: Role::Regular(RegularRole::Asker),
                    },
                );
                self.masks.next_id = n.next();
                Ok(None)
            },
        }
    }

    /// Change a user's role: the caller must dominate the user in the
    /// role-and-identifier order, and handing out a duty role takes at
    /// least admin rank. Banning reports the ban to the host.
    pub fn change_role(&mut self, from: RoomIdentityID, user: UserID, role: Role) -> (r: Result<
        Option<RoomOutput>,
        RoomError,
    >)
        requires
            old(self).wf(),
        ensures
            change_role_post(*old(self), *final(self), from, user, role, r),
    {
        let user_role = match self.role_of(IdentityID::User(user)) {
            Ok(ro) => ro,
            Err(e) => {
                return Err(e);
            },
        };
        match from {
            IdentityID::User(fu) => {
                let from_role = match self.role_of(IdentityID::User(fu)) {
                    Ok(ro) => ro,
                    Err(e) => {
                        return Err(e);
                    },
                };
                if !role_user_le_exec((from_role, fu), (user_role, user)) {
                    return Err(RoomError::Unauthorized);
                }
                if matches!(role, Role::Duty(_)) && from_role.rank() < 5 {
                    return Err(RoomError::Unauthorized);
                }
            },
            IdentityID::RoomID => {},
            IdentityID::Mask(_) => {
                return Err(RoomError::Unauthorized);
            },
            IdentityID::Answer(_) => {
                return Err(RoomError::Unauthorized);
            },
        }
        let info = vstd::std_specs::vec::vec_index_mut(
            &mut self.users.identities,
            user.0 as usize,
        );
        info.role = role;
        Ok(
            if matches!(role, Role::Banned) {
                Some(RoomOutput::Ban(user))
            } else {
                None
            },
        )
    }

    /// Change an identity's name or description: the room's record only by
    /// an admin or the room itself, anyone else's only by themselves and
    /// only while not banned.
    pub fn change_identity_info(
        &mut self,
        from: RoomIdentityID,
        identity: RoomIdentityID,
        name: Option<String>,
        description: Option<String>,
    ) -> (r: Result<Option<RoomOutput>, RoomError>)
        requires
            old(self).wf(),
        ensures
            change_identity_info_post(*old(self), *final(self), from, identity, name, description, r),
    {
        if !self.is_valid_identity_id(identity) {
            return Err(RoomError::NoSuchIdentity);
        }
        if matches!(identity, IdentityID::RoomID) && !matches!(from, IdentityID::RoomID) {
            let from_role = match self.role_of(from) {
                Ok(ro) => ro,
                Err(e) => {
                    return Err(e);
                },
            };
            if from_role.rank() < 5 {
                return Err(RoomError::Unauthorized);
            }
        } else if !matches!(identity, IdentityID::RoomID) {
            if !(identity == from) {
                return Err(RoomError::Unauthorized);
            }
            let from_role = match self.role_of(from) {
                Ok(ro) => ro,
                Err(e) => {
                    return Err(e);
                },
            };
            if from_role.is_banned() {
                return Err(RoomError::Unauthorized);
            }
        }
        match identity {
            IdentityID::RoomID => {
                if name.is_some() {
                    self.room.name = name;
                }
                if description.is_some() {
                    self.room.description = description;
                }
                Ok(None)
            },
            IdentityID::User(u) => {
                let info = vstd::std_specs::vec::vec_index_mut(
                    &mut self.users.identities,
                    u.0 as usize,
                );
                if name.is_some() {
                    info.name = name;
                }
                if description.is_some() {
                    info.description = description;
                }
                Ok(None)
            },
            IdentityID::Mask(m) => {
                let info = vstd::std_specs::vec::vec_index_mut(
                    &mut self.masks.identities,
                    m.0 as usize,
                );
                if name.is_some() {
                    info.name = name;
                }
                if description.is_some() {
                    info.description = description;
                }
                Ok(None)
            },
            IdentityID::Answer(_) => Err(RoomError::NoSuchIdentity),
        }
    }

    /// Set how the room may be entered; moderators and up.
    pub fn set_room_accessibility(&mut self, from: RoomIdentityID, a: RoomAccessibility) -> (r:
        Result<Option<RoomOutput>, RoomError>)
        requires
            old(self).wf(),
        ensures
            set_room_accessibility_post(*old(self), *final(self), from, a, r),
    {
        match self.ensure_admin_or_moderator(from) {
            Err(e) => Err(e),
            Ok(_) => {
                self.room_accessibility = a;
                Ok(None)
            },
        }
    }

    /// Set the connection cap; moderators and up.
    pub fn set_max_connected_users(&mut self, from: RoomIdentityID, c: u16) -> (r: Result<
        Option<RoomOutput>,
        RoomError,
    >)
        requires
            old(self).wf(),
        ensures
            set_max_connected_users_post(*old(self), *final(self), from, c, r),
    {
        match self.ensure_admin_or_moderator(from) {
            Err(e) => Err(e),
            Ok(_) => {
                self.max_connected_users = c;
                Ok(None)
            },
        }
    }

    /// Set the question cap; moderators and up.
    pub fn set_max_questions(&mut self, from: RoomIdentityID, m: u8) -> (r: Result<
        Option<RoomOutput>,
        RoomError,
    >)
        requires
            old(self).wf(),
        ensures
            set_max_questions_post(*old(self), *final(self), from, m, r),
    {
        match self.ensure_admin_or_moderator(from) {
            Err(e) => Err(e),
            Ok(_) => {
                self.questions_state.max_questions = m;
                Ok(None)
            },
        }
    }

    /// Set the role threshold for asking questions; moderators and up, and
    /// never the banned role.
    pub fn set_question_rights(&mut self, from: RoomIdentityID, role: Role) -> (r: Result<
        Option<RoomOutput>,
        RoomError,
    >)
        requires
            old(self).wf(),
        ensures
            set_question_rights_post(*old(self), *final(self), from, role, r),
    {
        match self.ensure_admin_or_moderator(from) {
            Err(e) => Err(e),
            Ok(_) => {
                if matches!(role, Role::Banned) {
                    return Err(RoomError::InvalidRole);
                }
                self.questions_state.rights.role = role;
                Ok(None)
            },
        }
    }

    /// Set the role threshold for messages; moderators and up, and never
    /// the banned role.
    pub fn set_message_rights(&mut self, from: RoomIdentityID, role: Role) -> (r: Result<
        Option<RoomOutput>,
        RoomError,
    >)
        requires
            old(self).wf(),
        ensures
            set_message_rights_post(*old(self), *final(self), from, role, r),
    {
        match self.ensure_admin_or_moderator(from) {
            Err(e) => Err(e),
            Ok(_) => {
                if matches!(role, Role::Banned) {
                    return Err(RoomError::InvalidRole);
                }
                self.message_rights.role = role;
                Ok(None)
            },
        }
    }

    /// Grant or revoke an explicit question right for one identity;
    /// moderators and up.
    pub fn set_explicit_question_right(
        &mut self,
        from: RoomIdentityID,
        identity: RoomIdentityID,
        allow: Option<bool>,
    ) -> (r: Result<Option<RoomOutput>, RoomError>)
        requires
            old(self).wf(),
        ensures
            set_explicit_question_right_post(*old(self), *final(self), from, identity, allow, r),
    {
        match self.ensure_admin_or_moderator(from) {
            Err(e) => Err(e),
            Ok(_) => {
                if !self.is_valid_identity_id(identity) {
                    return Err(RoomError::NoSuchIdentity);
                }
                let ghost olde = self.questions_state.rights.explicit@;
                match rid_find(&self.questions_state.rights.explicit, identity) {
                    Some(i) => {
                        proof {
                            let ki = key_index(olde, identity);
                            assert(0 <= ki < olde.len() && olde[ki].0 == identity);
                            assert(ki == i);
                        }
                        self.questions_state.rights.explicit.remove(i);
                    },
                    None => {},
                }
                proof {
                    assert(self.questions_state.rights.explicit@ == explicit_removed(
                        olde,
                        identity,
                    ));
                    assert(!has_key(self.questions_state.rights.explicit@, identity));
                }
                match allow {
                    Some(b) => {
                        let ghost mid = self.questions_state.rights.explicit@;
                        self.questions_state.rights.explicit.push((identity, b));
                        proof {
                            assert(self.questions_state.rights.explicit@.drop_last() =~= mid);
                        }
                    },
                    None => {},
                }
                Ok(None)
            },
        }
    }

    /// Grant or revoke an explicit message right for one identity;
    /// moderators and up.
    pub fn set_explicit_message_right(
        &mut self,
        from: RoomIdentityID,
        identity: RoomIdentityID,
        allow: Option<bool>,
    ) -> (r: Result<Option<RoomOutput>, RoomError>)
        requires
            old(self).wf(),
        ensures
            set_explicit_message_right_post(*old(self), *final(self), from, identity, allow, r),
    {
        match self.ensure_admin_or_moderator(from) {
            Err(e) => Err(e),
            Ok(_) => {
                if !self.is_valid_identity_id(identity) {
                    return Err(RoomError::NoSuchIdentity);
                }
                let ghost olde = self.message_rights.explicit@;
                match rid_find(&self.message_rights.explicit, identity) {
                    Some(i) => {
                        proof {
                            let ki = key_index(olde, identity);
                            assert(0 <= ki < olde.len() && olde[ki].0 == identity);
                            assert(ki == i);
                        }
                        self.message_rights.explicit.remove(i);
                    },
                    None => {},
                }
                proof {
                    assert(self.message_rights.explicit@ == explicit_removed(olde, identity));
                    assert(!has_key(self.message_rights.explicit@, identity));
                }
                match allow {
                    Some(b) => {
                        let ghost mid = self.message_rights.explicit@;
                        self.message_rights.explicit.push((identity, b));
                        proof {
                            assert(self.message_rights.explicit@.drop_last() =~= mid);
                        }
                    },
                    None => {},
                }
                Ok(None)
            },
        }
    }

    /// Whether a message from this identity is accepted: an explicit grant
    /// admits, an explicit denial refuses, and otherwise the identity's
    /// role must reach the threshold. Messages leave the state untouched.
    pub fn message(&mut self, from: RoomIdentityID) -> (r: Result<Option<RoomOutput>, RoomError>)
        requires
            old(self).wf(),
        ensures
            message_post(*old(self), *final(self), from, r),
    {
        match rid_find(&self.message_rights.explicit, from) {
            Some(i) => {
                proof {
                    let ki = key_index(self.message_rights.explicit@, from);
                    assert(0 <= ki < self.message_rights.explicit@.len()
                        && self.message_rights.explicit@[ki].0 == from);
                    assert(ki == i);
                }
                if self.message_rights.explicit[i].1 {
                    Ok(None)
                } else {
                    Err(RoomError::Unauthorized)
                }
            },
            None => {
                let ro = match self.role_of(from) {
                    Ok(ro) => ro,
                    Err(e) => {
                        return Err(e);
                    },
                };
                if ro.rank() >= self.message_rights.role.rank() {
                    Ok(None)
                } else {
                    Err(RoomError::Unauthorized)
                }
            },
        }
    }

    /// Close the open survey at a moderator's request.
    pub fn close_answering(&mut self, from: RoomIdentityID) -> (r: Result<
        Option<RoomOutput>,
        RoomError,
    >)
        requires
            old(self).wf(),
        ensures
            close_answering_post(*old(self), *final(self), from, r),
    {
        match self.ensure_admin_or_moderator(from) {
            Err(e) => Err(e),
            Ok(_) => {
                if self.answering.is_some() {
                    self.answering = None;
                    Ok(None)
                } else {
                    Err(RoomError::NoSurvey)
                }
            },
        }
    }

    /// Record that the open survey finished; only the room itself reports
    /// it.
    pub fn finished_answering(&mut self, from: RoomIdentityID) -> (r: Result<
        Option<RoomOutput>,
        RoomError,
    >)
        requires
            old(self).wf(),
        ensures
            finished_answering_post(*old(self), *final(self), from, r),
    {
        if !matches!(from, IdentityID::RoomID) {
            return Err(RoomError::Unauthorized);
        }
        if self.answering.is_some() {
            self.answering = None;
            Ok(None)
        } else {
            Err(RoomError::NoSurvey)
        }
    }

    /// Queue a new question. An explicit grant admits regardless of role;
    /// otherwise the caller's role must reach the threshold. The queue has
    /// a cap, and the identifier space may run out.
    pub fn new_question(&mut self, from: RoomIdentityID, kind: QuestionKind, question: String) -> (r:
        Result<Option<RoomOutput>, RoomError>)
        requires
            old(self).wf(),
        ensures
            new_question_post(*old(self), *final(self), from, kind, question, r),
    {
        let granted = match rid_find(&self.questions_state.rights.explicit, from) {
            Some(i) => {
                proof {
                    let ki = key_index(self.questions_state.rights.explicit@, from);
                    assert(0 <= ki < self.questions_state.rights.explicit@.len()
                        && self.questions_state.rights.explicit@[ki].0 == from);
                    assert(ki == i);
                }
                self.questions_state.rights.explicit[i].1
            },
            None => false,
        };
        if !granted {
            let ro = match self.role_of(from) {
                Ok(ro) => ro,
                Err(e) => {
                    return Err(e);
                },
            };
            if ro.rank() < self.questions_state.rights.role.rank() {
                return Err(RoomError::Unauthorized);
            }
        }
        if self.questions_state.questions.len() >= self.questions_state.max_questions as usize {
            return Err(RoomError::MaxQuestionsReached);
        }
        match self.questions_state.next_id {
            None => Err(RoomError::MaxQuestionIDReached),
            Some(n) => {
                let ghost oldq = self.questions_state.questions@;
                let info = QuestionInfo {
                    question: Question {
                        id: n,
                        from,
                        kind,
                        question,
                        clarifications: Vec::new(),
                    },
                    likes: Vec::new(),
                    priority: QuestionPriority::Standard,
                };
                self.questions_state.questions.push((n, info));
                self.questions_state.next_id = n.next();
                proof {
                    assert(self.questions_state.questions@.drop_last() =~= oldq);
                    assert forall|i: int, j: int|
                        0 <= i < j < self.questions_state.questions@.len() implies (
                    #[trigger] self.questions_state.questions@[i]).0 != (
                    #[trigger] self.questions_state.questions@[j]).0 by {
                        if j == self.questions_state.questions@.len() - 1 {
                            assert(self.questions_state.questions@[i] == oldq[i]);
                            assert(oldq[i].0.0 < n.0);
                        }
                    }
                }
                Ok(None)
            },
        }
    }

    /// Add a clarification to a question: its author or a moderator, and
    /// only while not banned.
    pub fn clarify_question(
        &mut self,
        from: RoomIdentityID,
        question: QuestionID,
        clarification: String,
    ) -> (r: Result<Option<RoomOutput>, RoomError>)
        requires
            old(self).wf(),
        ensures
            clarify_question_post(*old(self), *final(self), from, question, clarification, r),
    {
        let ro = match self.role_of(from) {
            Ok(ro) => ro,
            Err(e) => {
                return Err(e);
            },
        };
        match qid_find(&self.questions_state.questions, question) {
            None => Err(RoomError::NoSuchQuestion),
            Some(i) => {
                proof {
                    let ki = key_index(self.questions_state.questions@, question);
                    assert(0 <= ki < self.questions_state.questions@.len()
                        && self.questions_state.questions@[ki].0 == question);
                    assert(ki == i);
                }
                let author_ok = self.questions_state.questions[i].1.question.from == from;
                if !(author_ok || ro.can_moderate()) || ro.is_banned() {
                    return Err(RoomError::Unauthorized);
                }
                let entry = vstd::std_specs::vec::vec_index_mut(
                    &mut self.questions_state.questions,
                    i,
                );
                entry.1.question.clarifications.push(clarification);
                Ok(None)
            },
        }
    }

    /// Record a user's like or dislike of a question, or withdraw it.
    pub fn like_question(
        &mut self,
        from: RoomIdentityID,
        question: QuestionID,
        like: Option<Like>,
    ) -> (r: Result<Option<RoomOutput>, RoomError>)
        requires
            old(self).wf(),
        ensures
            like_question_post(*old(self), *final(self), from, question, like, r),
    {
        let uid = match from {
            IdentityID::User(u) => u,
            _ => {
                return Err(RoomError::Unauthorized);
            },
        };
        let ro = match self.role_of(from) {
            Ok(ro) => ro,
            Err(e) => {
                return Err(e);
            },
        };
        if ro.is_banned() {
            return Err(RoomError::Unauthorized);
        }
        match qid_find(&self.questions_state.questions, question) {
            None => Err(RoomError::NoSuchQuestion),
            Some(i) => {
                proof {
                    let ki = key_index(self.questions_state.questions@, question);
                    assert(0 <= ki < self.questions_state.questions@.len()
                        && self.questions_state.questions@[ki].0 == question);
                    assert(ki == i);
                }
                let entry = vstd::std_specs::vec::vec_index_mut(
                    &mut self.questions_state.questions,
                    i,
                );
                let ghost oldl = entry.1.likes@;
                match like {
                    Some(l) => {
                        match crate::phase::assoc_find(&entry.1.likes, uid) {
                            Some(j) => {
                                proof {
                                    let kj = key_index(entry.1.likes@, uid);
                                    assert(0 <= kj < entry.1.likes@.len() && entry.1.likes@[kj].0
                                        == uid);
                                    assert(kj == j);
                                }
                                entry.1.likes.set(j, (uid, l));
                            },
                            None => {
                                let ghost oldlk = entry.1.likes@;
                                entry.1.likes.push((uid, l));
                                proof {
                                    assert(entry.1.likes@.drop_last() =~= oldlk);
                                }
                            },
                        }
                    },
                    None => {
                        match crate::phase::assoc_find(&entry.1.likes, uid) {
                            Some(j) => {
                                proof {
                                    let kj = key_index(entry.1.likes@, uid);
                                    assert(0 <= kj < entry.1.likes@.len() && entry.1.likes@[kj].0
                                        == uid);
                                    assert(kj == j);
                                }
                                entry.1.likes.remove(j);
                            },
                            None => {},
                        }
                    },
                }
                Ok(None)
            },
        }
    }

    /// Set a question's priority; moderators and up.
    pub fn change_question_priority(
        &mut self,
        from: RoomIdentityID,
        question: QuestionID,
        priority: QuestionPriority,
    ) -> (r: Result<Option<RoomOutput>, RoomError>)
        requires
            old(self).wf(),
        ensures
            change_question_priority_post(*old(self), *final(self), from, question, priority, r),
    {
        match self.ensure_admin_or_moderator(from) {
            Err(e) => Err(e),
            Ok(_) => {
                match qid_find(&self.questions_state.questions, question) {
                    None => Err(RoomError::NoSuchQuestion),
                    Some(i) => {
                        proof {
                            let ki = key_index(self.questions_state.questions@, question);
                            assert(0 <= ki < self.questions_state.questions@.len()
                                && self.questions_state.questions@[ki].0 == question);
                            assert(ki == i);
                        }
                        let entry = vstd::std_specs::vec::vec_index_mut(
                            &mut self.questions_state.questions,
                            i,
                        );
                        entry.1.priority = priority;
                        Ok(None)
                    },
                }
            },
        }
    }
}

impl RoomState {
    /// Delete questions in bulk; moderators and up. Deleting or keeping a
    /// listed set demands that every listed question exist.
    pub fn delete_questions(&mut self, from: RoomIdentityID, spec: QuestionDeleteSpec) -> (r:
        Result<Option<RoomOutput>, RoomError>)
        requires
            old(self).wf(),
        ensures
            delete_questions_post(*old(self), *final(self), from, spec, r),
    {
        match self.ensure_admin_or_moderator(from) {
            Err(e) => {
                return Err(e);
            },
            Ok(_) => {},
        }
        match spec {
            QuestionDeleteSpec::Delete(ids) => {
                let mut all_found = true;
                let mut i: usize = 0;
                while i < ids.len()
                    invariant
                        i <= ids@.len(),
                        self == old(self),
                        old(self).wf(),
                        all_found == (forall|j: int|
                            0 <= j < i ==> has_key(
                                old(self).questions_state.questions@,
                                #[trigger] ids@[j],
                            )),
                    decreases ids@.len() - i,
                {
                    if qid_find(&self.questions_state.questions, ids[i]).is_none() {
                        all_found = false;
                    }
                    i = i + 1;
                }
                if !all_found {
                    return Err(RoomError::NoSuchQuestion);
                }
                self.retain_filtered(QuestionFilter::NotListed, &ids, QuestionPriority::Bottom);
                Ok(None)
            },
            QuestionDeleteSpec::Keep(ids) => {
                let mut all_found = true;
                let mut i: usize = 0;
                while i < ids.len()
                    invariant
                        i <= ids@.len(),
                        self == old(self),
                        old(self).wf(),
                        all_found == (forall|j: int|
                            0 <= j < i ==> has_key(
                                old(self).questions_state.questions@,
                                #[trigger] ids@[j],
                            )),
                    decreases ids@.len() - i,
                {
                    if qid_find(&self.questions_state.questions, ids[i]).is_none() {
                        all_found = false;
                    }
                    i = i + 1;
                }
                if !all_found {
                    return Err(RoomError::NoSuchQuestion);
                }
                self.retain_filtered(QuestionFilter::Listed, &ids, QuestionPriority::Bottom);
                Ok(None)
            },
            QuestionDeleteSpec::DeletePriority(p) => {
                let empty: Vec<QuestionID> = Vec::new();
                self.retain_filtered(QuestionFilter::MinPriority, &empty, p);
                Ok(None)
            },
        }
    }

    /// Drop every queue entry the filter does not keep.
    fn retain_filtered(&mut self, f: QuestionFilter, ids: &Vec<QuestionID>, p: QuestionPriority)
        requires
            old(self).wf(),
        ensures
            final(self).wf(),
            final(self).questions_state.questions@ == retain_questions(
                old(self).questions_state.questions@,
                f,
                ids@,
                p,
            ),
            *final(self) == (RoomState {
                questions_state: QuestionsState {
                    questions: final(self).questions_state.questions,
                    ..old(self).questions_state
                },
                ..*old(self)
            }),
    {
        let ghost orig = self.questions_state.questions@;
        let mut rest: Vec<(QuestionID, QuestionInfo)> = Vec::new();
        core::mem::swap(&mut self.questions_state.questions, &mut rest);
        let mut kept: Vec<(QuestionID, QuestionInfo)> = Vec::new();
        proof {
            assert(orig.subrange(0, orig.len() as int) =~= orig);
            assert(retain_questions(orig.subrange(0, 0), f, ids@, p) =~= kept@);
        }
        while rest.len() > 0
            invariant
                rest@.len() <= orig.len(),
                rest@ == orig.subrange(orig.len() - rest@.len(), orig.len() as int),
                kept@ == retain_questions(
                    orig.subrange(0, orig.len() - rest@.len()),
                    f,
                    ids@,
                    p,
                ),
            decreases rest@.len(),
        {
            let ghost d = orig.len() - rest@.len();
            let ghost prev = rest@;
            let e = rest.remove(0);
            proof {
                assert(prev == orig.subrange(d as int, orig.len() as int));
                assert(orig.subrange(d as int, orig.len() as int)[0] == orig[d as int]);
                assert(e == orig[d as int]);
                assert(rest@ == prev.remove(0));
                assert(rest@ =~= orig.subrange(d as int + 1, orig.len() as int));
            }
            let keep_it = match f {
                QuestionFilter::NotListed => !qid_in_list(ids, e.0),
                QuestionFilter::Listed => qid_in_list(ids, e.0),
                QuestionFilter::MinPriority => e.1.priority.rank() >= p.rank(),
            };
            proof {
                assert(keep_it == question_kept(f, ids@, p, orig[d as int]));
            }
            if keep_it {
                kept.push(e);
            }
            proof {
                let pre = orig.subrange(0, d as int + 1);
                assert(pre.drop_last() =~= orig.subrange(0, d as int));
                assert(pre.last() == orig[d as int]);
                assert(retain_questions(pre.drop_last(), f, ids@, p) == retain_questions(
                    orig.subrange(0, d as int),
                    f,
                    ids@,
                    p,
                ));
                if question_kept(f, ids@, p, orig[d as int]) {
                    assert(retain_questions(pre, f, ids@, p) == retain_questions(
                        pre.drop_last(),
                        f,
                        ids@,
                        p,
                    ).push(pre.last()));
                    assert(kept@ =~= retain_questions(pre, f, ids@, p));
                } else {
                    assert(retain_questions(pre, f, ids@, p) == retain_questions(
                        pre.drop_last(),
                        f,
                        ids@,
                        p,
                    ));
                }
            }
        }
        proof {
            assert(orig.subrange(0, orig.len() as int) =~= orig);
            lemma_retain_questions(orig, f, ids@, p);
            assert forall|a: int|
                0 <= a < retain_questions(orig, f, ids@, p).len() implies qinfo_ok(
                *old(self),
                retain_questions(orig, f, ids@, p)[a],
            ) by {
                let x = retain_questions(orig, f, ids@, p)[a];
                assert(orig.contains(x));
                let j = choose|j: int| 0 <= j < orig.len() && orig[j] == x;
            }
        }
        self.questions_state.questions = kept;
    }

    /// Open the best queued question for a survey: the highest priority,
    /// then the highest like score, then the highest identifier. Only
    /// moderators and up, and only one survey at a time; with nothing
    /// queued the request is a no-op.
    pub fn open_answering(&mut self, from: RoomIdentityID) -> (r: Result<
        Option<RoomOutput>,
        RoomError,
    >)
        requires
            old(self).wf(),
        ensures
            open_answering_post(*old(self), *final(self), from, r),
    {
        match self.ensure_admin_or_moderator(from) {
            Err(e) => {
                return Err(e);
            },
            Ok(_) => {},
        }
        if self.answering.is_some() {
            return Err(RoomError::SurveyAlreadyCreated);
        }
        if self.questions_state.questions.len() == 0 {
            return Ok(None);
        }
        let ghost qs = self.questions_state.questions@;
        let mut best: usize = 0;
        let mut best_prio: u8 = self.questions_state.questions[0].1.priority.rank();
        let mut best_score: i32 = self.questions_state.questions[0].1.like_score();
        let mut best_id: u16 = self.questions_state.questions[0].0.0;
        let mut k: usize = 1;
        while k < self.questions_state.questions.len()
            invariant
                old(self).wf(),
                self == old(self),
                qs == self.questions_state.questions@,
                1 <= k <= qs.len(),
                best < k,
                best_prio as int == priority_rank(qs[best as int].1.priority),
                best_score as int == sat_score(qs[best as int].1.likes@),
                best_id == qs[best as int].0.0,
                forall|j: int| 0 <= j < k && j != best ==> question_lt(
                    #[trigger] qs[j],
                    qs[best as int],
                ),
            decreases qs.len() - k,
        {
            let cand = &self.questions_state.questions[k];
            let cp = cand.1.priority.rank();
            let cs = cand.1.like_score();
            let ci = cand.0.0;
            let better = cp > best_prio || (cp == best_prio && (cs > best_score || (cs
                == best_score && ci > best_id)));
            if better {
                best = k;
                best_prio = cp;
                best_score = cs;
                best_id = ci;
            } else {
                proof {
                    assert(qs[k as int].0 != qs[best as int].0);
                    assert(question_lt(qs[k as int], qs[best as int]));
                }
            }
            k = k + 1;
        }
        let entry = self.questions_state.questions.remove(best);
        self.answering = Some(entry.0);
        proof {
            assert forall|a: int|
                0 <= a < self.questions_state.questions@.len() implies qinfo_ok(
                *old(self),
                self.questions_state.questions@[a],
            ) by {
                if a < best as int {
                    assert(self.questions_state.questions@[a] == qs[a]);
                } else {
                    assert(self.questions_state.questions@[a] == qs[a + 1]);
                }
            }
        }
        Ok(Some(RoomOutput::NewQuestion(entry.1.question)))
    }
}

/// Everything `new_user` guarantees, as one step relation.
pub open spec fn new_user_post(pre: RoomState, post: RoomState, from: RoomIdentityID, id: CryptoID, r: Result<Option<RoomOutput>, RoomError>) -> bool {
    &&& (post.wf())
    &&& (r is Err ==> post == pre)
    &&& (!(from matches IdentityID::RoomID) ==> r == Err::<Option<RoomOutput>, RoomError>(
                RoomError::Unauthorized,
            ))
    &&& ((from matches IdentityID::RoomID && (has_key(
                pre.public_key_index@,
                id.sign_key.bytes,
            ) || has_key(pre.public_key_index@, id.encrypt_key.value.bytes)
                || id.sign_key.bytes@ == id.encrypt_key.value.bytes@)) ==> r == Err::<Option<RoomOutput>, RoomError>(RoomError::PublicKeyAlreadyUsed))
    &&& ((from matches IdentityID::RoomID && !has_key(
                pre.public_key_index@,
                id.sign_key.bytes,
            ) && !has_key(pre.public_key_index@, id.encrypt_key.value.bytes)
                && id.sign_key.bytes@ != id.encrypt_key.value.bytes@) ==> match pre.users.next_id {
                None => r == Err::<Option<RoomOutput>, RoomError>(RoomError::MaxUserIDReached),
                Some(n) => {
                    &&& r == Ok::<Option<RoomOutput>, RoomError>(None)
                    &&& post.users.identities@ == pre.users.identities@.push(
                        fresh_info(id),
                    )
                    &&& post.users.next_id == spec_next_user(n)
                    &&& post.public_key_index@ == pre.public_key_index@.push(
                        (id.sign_key.bytes, (PublicKeyType::Sign, IdentityID::User(n))),
                    ).push((id.encrypt_key.value.bytes, (PublicKeyType::Encrypt, IdentityID::User(n))))
                    &&& post.masks == pre.masks
                    &&& post.questions_state == pre.questions_state
                    &&& post.message_rights == pre.message_rights
                    &&& post.answering == pre.answering
                },
            })
}

/// Everything `new_mask` guarantees, as one step relation.
pub open spec fn new_mask_post(pre: RoomState, post: RoomState, from: RoomIdentityID, id: CryptoID, r: Result<Option<RoomOutput>, RoomError>) -> bool {
    &&& (post.wf())
    &&& (r is Err ==> post == pre)
    &&& (!(from matches IdentityID::RoomID) ==> r == Err::<Option<RoomOutput>, RoomError>(
                RoomError::Unauthorized,
            ))
    &&& ((from matches IdentityID::RoomID && (has_key(
                pre.public_key_index@,
                id.sign_key.bytes,
            ) || has_key(pre.public_key_index@, id.encrypt_key.value.bytes)
                || id.sign_key.bytes@ == id.encrypt_key.value.bytes@)) ==> r == Err::<Option<RoomOutput>, RoomError>(RoomError::PublicKeyAlreadyUsed))
    &&& ((from matches IdentityID::RoomID && !has_key(
                pre.public_key_index@,
                id.sign_key.bytes,
            ) && !has_key(pre.public_key_index@, id.encrypt_key.value.bytes)
                && id.sign_key.bytes@ != id.encrypt_key.value.bytes@) ==> match pre.masks.next_id {
                None => r == Err::<Option<RoomOutput>, RoomError>(RoomError::MaxMaskIDReached),
                Some(n) => {
                    &&& r == Ok::<Option<RoomOutput>, RoomError>(None)
                    &&& post.masks.identities@ == pre.masks.identities@.push(
                        fresh_info(id),
                    )
                    &&& post.masks.next_id == spec_next_mask(n)
                    &&& post.public_key_index@ == pre.public_key_index@.push(
                        (id.sign_key.bytes, (PublicKeyType::Sign, IdentityID::Mask(n))),
                    ).push((id.encrypt_key.value.bytes, (PublicKeyType::Encrypt, IdentityID::Mask(n))))
                    &&& post.users == pre.users
                    &&& post.questions_state == pre.questions_state
                    &&& post.message_rights == pre.message_rights
                    &&& post.answering == pre.answering
                },
            })
}

/// Everything `change_role` guarantees, as one step relation.
pub open spec fn change_role_post(pre: RoomState, post: RoomState, from: RoomIdentityID, user: UserID, role: Role, r: Result<Option<RoomOutput>, RoomError>) -> bool {
    &&& (post.wf())
    &&& (r is Err ==> post == pre)
    &&& (r is Ok ==> {
                &&& (user.0 as int) < pre.users.identities@.len()
                &&& post.users.identities@ == pre.users.identities@.update(
                    user.0 as int,
                    IdentityInfo { role, ..pre.users.identities@[user.0 as int] },
                )
                &&& post.users.next_id == pre.users.next_id
                &&& post.masks == pre.masks
                &&& post.public_key_index == pre.public_key_index
                &&& post.questions_state == pre.questions_state
                &&& post.answering == pre.answering
                &&& r == Ok::<Option<RoomOutput>, RoomError>(
                    match role {
                        Role::Banned => Some(RoomOutput::Ban(user)),
                        _ => None,
                    },
                )
            })
    &&& ((user.0 as int) >= pre.users.identities@.len() ==> r == Err::<Option<RoomOutput>, RoomError>(RoomError::NoSuchUser))
    &&& (((user.0 as int) < pre.users.identities@.len() && from matches IdentityID::Mask(
                _,
            )) ==> r == Err::<Option<RoomOutput>, RoomError>(RoomError::Unauthorized))
    &&& ((from matches IdentityID::RoomID && (user.0 as int) < pre.users.identities@.len()) ==> r is Ok)
    &&& ((match from {
                IdentityID::User(fu) => (user.0 as int) < pre.users.identities@.len() && (
                fu.0 as int) < pre.users.identities@.len(),
                _ => false,
            }) ==> {
                let fu = from->User_0;
                let from_role = pre.users.identities@[fu.0 as int].role;
                let user_role = pre.users.identities@[user.0 as int].role;
                if !role_user_le((from_role, fu), (user_role, user)) {
                    r == Err::<Option<RoomOutput>, RoomError>(RoomError::Unauthorized)
                } else if role matches Role::Duty(_) && role_rank(from_role) < 5 {
                    r == Err::<Option<RoomOutput>, RoomError>(RoomError::Unauthorized)
                } else {
                    r is Ok
                }
            })
}

/// Everything `change_identity_info` guarantees, as one step relation.
pub open spec fn change_identity_info_post(pre: RoomState, post: RoomState, from: RoomIdentityID, identity: RoomIdentityID, name: Option<String>, description: Option<String>, r: Result<Option<RoomOutput>, RoomError>) -> bool {
    &&& (post.wf())
    &&& (r is Err ==> post == pre)
    &&& (!spec_valid_identity(pre, identity) ==> r == Err::<Option<RoomOutput>, RoomError>(RoomError::NoSuchIdentity))
    &&& (r is Ok ==> {
                &&& r == Ok::<Option<RoomOutput>, RoomError>(None)
                &&& match identity {
                    IdentityID::RoomID => post == (RoomState {
                        room: info_with(pre.room, name, description),
                        ..pre
                    }),
                    IdentityID::User(u) => {
                        &&& (u.0 as int) < pre.users.identities@.len()
                        &&& post == (RoomState {
                            users: IdentitiesState {
                                identities: post.users.identities,
                                next_id: pre.users.next_id,
                            },
                            ..pre
                        })
                        &&& post.users.identities@ == pre.users.identities@.update(
                            u.0 as int,
                            info_with(pre.users.identities@[u.0 as int], name, description),
                        )
                    },
                    IdentityID::Mask(m) => {
                        &&& (m.0 as int) < pre.masks.identities@.len()
                        &&& post == (RoomState {
                            masks: IdentitiesState {
                                identities: post.masks.identities,
                                next_id: pre.masks.next_id,
                            },
                            ..pre
                        })
                        &&& post.masks.identities@ == pre.masks.identities@.update(
                            m.0 as int,
                            info_with(pre.masks.identities@[m.0 as int], name, description),
                        )
                    },
                    IdentityID::Answer(_) => false,
                }
            })
    &&& ((spec_valid_identity(pre, identity) && (identity matches IdentityID::RoomID)
                && (from matches IdentityID::RoomID)) ==> r is Ok)
    &&& ((spec_valid_identity(pre, identity) && !(identity == from) && !(identity
                matches IdentityID::RoomID)) ==> r == Err::<Option<RoomOutput>, RoomError>(
                RoomError::Unauthorized,
            ))
}

/// Everything `set_room_accessibility` guarantees, as one step relation.
pub open spec fn set_room_accessibility_post(pre: RoomState, post: RoomState, from: RoomIdentityID, a: RoomAccessibility, r: Result<Option<RoomOutput>, RoomError>) -> bool {
    &&& (post.wf())
    &&& (r is Err ==> post == pre)
    &&& (r is Ok <==> (spec_role_of(pre, from) matches Ok(ro) && ro matches Role::Duty(_)))
    &&& (r is Ok ==> r == Ok::<Option<RoomOutput>, RoomError>(None) && post == (
            RoomState { room_accessibility: a, ..pre }))
}

/// Everything `set_max_connected_users` guarantees, as one step relation.
pub open spec fn set_max_connected_users_post(pre: RoomState, post: RoomState, from: RoomIdentityID, c: u16, r: Result<Option<RoomOutput>, RoomError>) -> bool {
    &&& (post.wf())
    &&& (r is Err ==> post == pre)
    &&& (r is Ok <==> (spec_role_of(pre, from) matches Ok(ro) && ro matches Role::Duty(_)))
    &&& (r is Ok ==> r == Ok::<Option<RoomOutput>, RoomError>(None) && post == (
            RoomState { max_connected_users: c, ..pre }))
}

/// Everything `set_max_questions` guarantees, as one step relation.
pub open spec fn set_max_questions_post(pre: RoomState, post: RoomState, from: RoomIdentityID, m: u8, r: Result<Option<RoomOutput>, RoomError>) -> bool {
    &&& (post.wf())
    &&& (r is Err ==> post == pre)
    &&& (r is Ok <==> (spec_role_of(pre, from) matches Ok(ro) && ro matches Role::Duty(_)))
    &&& (r is Ok ==> r == Ok::<Option<RoomOutput>, RoomError>(None) && post == (
            RoomState {
                questions_state: QuestionsState {
                    max_questions: m,
                    ..pre.questions_state
                },
                ..pre
            }))
}

/// Everything `set_question_rights` guarantees, as one step relation.
pub open spec fn set_question_rights_post(pre: RoomState, post: RoomState, from: RoomIdentityID, role: Role, r: Result<Option<RoomOutput>, RoomError>) -> bool {
    &&& (post.wf())
    &&& (r is Err ==> post == pre)
    &&& ((spec_role_of(pre, from) matches Ok(ro) && ro matches Role::Duty(_) && role
                matches Role::Banned) ==> r == Err::<Option<RoomOutput>, RoomError>(
                RoomError::InvalidRole,
            ))
    &&& (r is Ok <==> (spec_role_of(pre, from) matches Ok(ro) && ro matches Role::Duty(_)
                && !(role matches Role::Banned)))
    &&& (r is Ok ==> r == Ok::<Option<RoomOutput>, RoomError>(None) && post == (
            RoomState {
                questions_state: QuestionsState {
                    rights: PublicationRights {
                        role,
                        explicit: pre.questions_state.rights.explicit,
                    },
                    ..pre.questions_state
                },
                ..pre
            }))
}

/// Everything `set_message_rights` guarantees, as one step relation.
pub open spec fn set_message_rights_post(pre: RoomState, post: RoomState, from: RoomIdentityID, role: Role, r: Result<Option<RoomOutput>, RoomError>) -> bool {
    &&& (post.wf())
    &&& (r is Err ==> post == pre)
    &&& ((spec_role_of(pre, from) matches Ok(ro) && ro matches Role::Duty(_) && role
                matches Role::Banned) ==> r == Err::<Option<RoomOutput>, RoomError>(
                RoomError::InvalidRole,
            ))
    &&& (r is Ok <==> (spec_role_of(pre, from) matches Ok(ro) && ro matches Role::Duty(_)
                && !(role matches Role::Banned)))
    &&& (r is Ok ==> r == Ok::<Option<RoomOutput>, RoomError>(None) && post == (
            RoomState {
                message_rights: PublicationRights {
                    role,
                    explicit: pre.message_rights.explicit,
                },
                ..pre
            }))
}

/// Everything `set_explicit_question_right` guarantees, as one step relation.
pub open spec fn set_explicit_question_right_post(pre: RoomState, post: RoomState, from: RoomIdentityID, identity: RoomIdentityID, allow: Option<bool>, r: Result<Option<RoomOutput>, RoomError>) -> bool {
    &&& (post.wf())
    &&& (r is Err ==> post == pre)
    &&& ((spec_role_of(pre, from) matches Ok(ro) && ro matches Role::Duty(_)
                && !spec_valid_identity(pre, identity)) ==> r == Err::<Option<RoomOutput>, RoomError>(RoomError::NoSuchIdentity))
    &&& (r is Ok <==> (spec_role_of(pre, from) matches Ok(ro) && ro matches Role::Duty(_)
                && spec_valid_identity(pre, identity)))
    &&& (r is Ok ==> {
                &&& r == Ok::<Option<RoomOutput>, RoomError>(None)
                &&& post.questions_state.rights.explicit@ == (match allow {
                    Some(b) => explicit_removed(
                        pre.questions_state.rights.explicit@,
                        identity,
                    ).push((identity, b)),
                    None => explicit_removed(pre.questions_state.rights.explicit@, identity),
                })
                &&& post.questions_state.rights.role == pre.questions_state.rights.role
                &&& post.questions_state.questions == pre.questions_state.questions
                &&& post.questions_state.max_questions == pre.questions_state.max_questions
                &&& post.questions_state.next_id == pre.questions_state.next_id
                &&& post.users == pre.users
                &&& post.masks == pre.masks
                &&& post.message_rights == pre.message_rights
                &&& post.answering == pre.answering
            })
}

/// Everything `set_explicit_message_right` guarantees, as one step relation.
pub open spec fn set_explicit_message_right_post(pre: RoomState, post: RoomState, from: RoomIdentityID, identity: RoomIdentityID, allow: Option<bool>, r: Result<Option<RoomOutput>, RoomError>) -> bool {
    &&& (post.wf())
    &&& (r is Err ==> post == pre)
    &&& ((spec_role_of(pre, from) matches Ok(ro) && ro matches Role::Duty(_)
                && !spec_valid_identity(pre, identity)) ==> r == Err::<Option<RoomOutput>, RoomError>(RoomError::NoSuchIdentity))
    &&& (r is Ok <==> (spec_role_of(pre, from) matches Ok(ro) && ro matches Role::Duty(_)
                && spec_valid_identity(pre, identity)))
    &&& (r is Ok ==> {
                &&& r == Ok::<Option<RoomOutput>, RoomError>(None)
                &&& post.message_rights.explicit@ == (match allow {
                    Some(b) => explicit_removed(pre.message_rights.explicit@, identity).push(
                        (identity, b),
                    ),
                    None => explicit_removed(pre.message_rights.explicit@, identity),
                })
                &&& post.message_rights.role == pre.message_rights.role
                &&& post.questions_state == pre.questions_state
                &&& post.users == pre.users
                &&& post.masks == pre.masks
                &&& post.answering == pre.answering
            })
}

/// Everything `message` guarantees, as one step relation.
pub open spec fn message_post(pre: RoomState, post: RoomState, from: RoomIdentityID, r: Result<Option<RoomOutput>, RoomError>) -> bool {
    &&& (post.wf())
    &&& (post == pre)
    &&& (({
                let e = pre.message_rights.explicit@;
                if has_key(e, from) {
                    if e[key_index(e, from)].1 {
                        r == Ok::<Option<RoomOutput>, RoomError>(None)
                    } else {
                        r == Err::<Option<RoomOutput>, RoomError>(RoomError::Unauthorized)
                    }
                } else {
                    match spec_role_of(pre, from) {
                        Ok(ro) => if role_rank(ro) >= role_rank(pre.message_rights.role) {
                            r == Ok::<Option<RoomOutput>, RoomError>(None)
                        } else {
                            r == Err::<Option<RoomOutput>, RoomError>(RoomError::Unauthorized)
                        },
                        Err(e2) => r == Err::<Option<RoomOutput>, RoomError>(e2),
                    }
                }
            }))
}

/// Everything `close_answering` guarantees, as one step relation.
pub open spec fn close_answering_post(pre: RoomState, post: RoomState, from: RoomIdentityID, r: Result<Option<RoomOutput>, RoomError>) -> bool {
    &&& (post.wf())
    &&& (r is Err ==> post == pre)
    &&& ((spec_role_of(pre, from) matches Ok(ro) && ro matches Role::Duty(_) && pre.answering is None) ==> r == Err::<Option<RoomOutput>, RoomError>(RoomError::NoSurvey))
    &&& (r is Ok <==> (spec_role_of(pre, from) matches Ok(ro) && ro matches Role::Duty(_)
                && pre.answering is Some))
    &&& (r is Ok ==> r == Ok::<Option<RoomOutput>, RoomError>(None) && post == (
            RoomState { answering: None, ..pre }))
}

/// Everything `finished_answering` guarantees, as one step relation.
pub open spec fn finished_answering_post(pre: RoomState, post: RoomState, from: RoomIdentityID, r: Result<Option<RoomOutput>, RoomError>) -> bool {
    &&& (post.wf())
    &&& (r is Err ==> post == pre)
    &&& (!(from matches IdentityID::RoomID) ==> r == Err::<Option<RoomOutput>, RoomError>(
                RoomError::Unauthorized,
            ))
    &&& ((from matches IdentityID::RoomID && pre.answering is None) ==> r == Err::<Option<RoomOutput>, RoomError>(RoomError::NoSurvey))
    &&& (r is Ok <==> (from matches IdentityID::RoomID && pre.answering is Some))
    &&& (r is Ok ==> r == Ok::<Option<RoomOutput>, RoomError>(None) && post == (
            RoomState { answering: None, ..pre }))
}

/// Everything `new_question` guarantees, as one step relation.
pub open spec fn new_question_post(pre: RoomState, post: RoomState, from: RoomIdentityID, kind: QuestionKind, question: String, r: Result<Option<RoomOutput>, RoomError>) -> bool {
    &&& (post.wf())
    &&& (r is Err ==> post == pre)
    &&& (r is Ok ==> match pre.questions_state.next_id {
                Some(n) => {
                    let le = post.questions_state.questions@.last();
                    &&& r == Ok::<Option<RoomOutput>, RoomError>(None)
                    &&& post.questions_state.questions@.len() == pre.questions_state.questions@.len() + 1
                    &&& post.questions_state.questions@.drop_last() == pre.questions_state.questions@
                    &&& le.0 == n
                    &&& le.1.question.id == n
                    &&& le.1.question.from == from
                    &&& le.1.question.kind == kind
                    &&& le.1.question.question == question
                    &&& le.1.question.clarifications@.len() == 0
                    &&& le.1.likes@.len() == 0
                    &&& le.1.priority == QuestionPriority::Standard
                    &&& post.questions_state.next_id == spec_next_qid(n)
                    &&& post.questions_state.rights == pre.questions_state.rights
                    &&& post.questions_state.max_questions == pre.questions_state.max_questions
                    &&& post.users == pre.users
                    &&& post.masks == pre.masks
                    &&& post.message_rights == pre.message_rights
                    &&& post.answering == pre.answering
                },
                None => false,
            })
    &&& (({
                let e = pre.questions_state.rights.explicit@;
                let granted = has_key(e, from) && e[key_index(e, from)].1;
                if !granted {
                    match spec_role_of(pre, from) {
                        Ok(ro) => role_rank(ro) < role_rank(pre.questions_state.rights.role)
                            ==> r == Err::<Option<RoomOutput>, RoomError>(RoomError::Unauthorized),
                        Err(e2) => r == Err::<Option<RoomOutput>, RoomError>(e2),
                    }
                } else {
                    true
                }
            }))
    &&& (({
                let e = pre.questions_state.rights.explicit@;
                let granted = has_key(e, from) && e[key_index(e, from)].1;
                let role_ok = match spec_role_of(pre, from) {
                    Ok(ro) => role_rank(ro) >= role_rank(pre.questions_state.rights.role),
                    Err(_) => false,
                };
                (granted || role_ok) ==> {
                    if pre.questions_state.questions@.len() >= pre.questions_state.max_questions as int {
                        r == Err::<Option<RoomOutput>, RoomError>(RoomError::MaxQuestionsReached)
                    } else if pre.questions_state.next_id is None {
                        r == Err::<Option<RoomOutput>, RoomError>(RoomError::MaxQuestionIDReached)
                    } else {
                        r is Ok
                    }
                }
            }))
}

/// Everything `clarify_question` guarantees, as one step relation.
pub open spec fn clarify_question_post(pre: RoomState, post: RoomState, from: RoomIdentityID, question: QuestionID, clarification: String, r: Result<Option<RoomOutput>, RoomError>) -> bool {
    &&& (post.wf())
    &&& (r is Err ==> post == pre)
    &&& (({
                let qs = pre.questions_state.questions@;
                match spec_role_of(pre, from) {
                    Err(e2) => r == Err::<Option<RoomOutput>, RoomError>(e2),
                    Ok(ro) => if !has_key(qs, question) {
                        r == Err::<Option<RoomOutput>, RoomError>(RoomError::NoSuchQuestion)
                    } else {
                        let i = key_index(qs, question);
                        let entry = qs[i];
                        if !(entry.1.question.from == from || ro matches Role::Duty(_)) || (ro
                            matches Role::Banned) {
                            r == Err::<Option<RoomOutput>, RoomError>(RoomError::Unauthorized)
                        } else {
                            &&& r == Ok::<Option<RoomOutput>, RoomError>(None)
                            &&& post.questions_state.questions@.len() == qs.len()
                            &&& post.questions_state.questions@ == qs.update(
                                i,
                                (
                                    question,
                                    QuestionInfo {
                                        question: Question {
                                            clarifications: post.questions_state.questions@[i].1.question.clarifications,
                                            ..entry.1.question
                                        },
                                        ..entry.1
                                    },
                                ),
                            )
                            &&& post.questions_state.questions@[i].1.question.clarifications@
                                == entry.1.question.clarifications@.push(clarification)
                            &&& post.questions_state.next_id == pre.questions_state.next_id
                            &&& post.questions_state.rights == pre.questions_state.rights
                            &&& post.questions_state.max_questions == pre.questions_state.max_questions
                            &&& post.users == pre.users
                            &&& post.masks == pre.masks
                            &&& post.answering == pre.answering
                        }
                    },
                }
            }))
}

/// Everything `like_question` guarantees, as one step relation.
pub open spec fn like_question_post(pre: RoomState, post: RoomState, from: RoomIdentityID, question: QuestionID, like: Option<Like>, r: Result<Option<RoomOutput>, RoomError>) -> bool {
    &&& (post.wf())
    &&& (r is Err ==> post == pre)
    &&& (!(from matches IdentityID::User(_)) ==> r == Err::<Option<RoomOutput>, RoomError>(
                RoomError::Unauthorized,
            ))
    &&& (({
                let qs = pre.questions_state.questions@;
                match from {
                    IdentityID::User(uid) => match spec_role_of(pre, from) {
                        Err(e2) => r == Err::<Option<RoomOutput>, RoomError>(e2),
                        Ok(ro) => if (ro matches Role::Banned) {
                            r == Err::<Option<RoomOutput>, RoomError>(RoomError::Unauthorized)
                        } else if !has_key(qs, question) {
                            r == Err::<Option<RoomOutput>, RoomError>(RoomError::NoSuchQuestion)
                        } else {
                            let i = key_index(qs, question);
                            let entry = qs[i];
                            &&& r == Ok::<Option<RoomOutput>, RoomError>(None)
                            &&& post.questions_state.questions@ == qs.update(
                                i,
                                (
                                    question,
                                    QuestionInfo {
                                        likes: post.questions_state.questions@[i].1.likes,
                                        ..entry.1
                                    },
                                ),
                            )
                            &&& post.questions_state.questions@[i].1.likes@ == (match like {
                                Some(l) => if has_key(entry.1.likes@, uid) {
                                    entry.1.likes@.update(
                                        key_index(entry.1.likes@, uid),
                                        (uid, l),
                                    )
                                } else {
                                    entry.1.likes@.push((uid, l))
                                },
                                None => if has_key(entry.1.likes@, uid) {
                                    entry.1.likes@.remove(key_index(entry.1.likes@, uid))
                                } else {
                                    entry.1.likes@
                                },
                            })
                            &&& post.questions_state.next_id == pre.questions_state.next_id
                            &&& post.questions_state.rights == pre.questions_state.rights
                            &&& post.questions_state.max_questions == pre.questions_state.max_questions
                            &&& post.users == pre.users
                            &&& post.masks == pre.masks
                            &&& post.answering == pre.answering
                        },
                    },
                    _ => true,
                }
            }))
}

/// Everything `change_question_priority` guarantees, as one step relation.
pub open spec fn change_question_priority_post(pre: RoomState, post: RoomState, from: RoomIdentityID, question: QuestionID, priority: QuestionPriority, r: Result<Option<RoomOutput>, RoomError>) -> bool {
    &&& (post.wf())
    &&& (r is Err ==> post == pre)
    &&& (({
                let qs = pre.questions_state.questions@;
                match spec_role_of(pre, from) {
                    Err(e2) => r == Err::<Option<RoomOutput>, RoomError>(e2),
                    Ok(ro) => if !(ro matches Role::Duty(_)) {
                        r == Err::<Option<RoomOutput>, RoomError>(RoomError::Unauthorized)
                    } else if !has_key(qs, question) {
                        r == Err::<Option<RoomOutput>, RoomError>(RoomError::NoSuchQuestion)
                    } else {
                        let i = key_index(qs, question);
                        &&& r == Ok::<Option<RoomOutput>, RoomError>(None)
                        &&& post.questions_state.questions@ == qs.update(
                            i,
                            (question, QuestionInfo { priority, ..qs[i].1 }),
                        )
                        &&& post.questions_state.next_id == pre.questions_state.next_id
                        &&& post.questions_state.rights == pre.questions_state.rights
                        &&& post.questions_state.max_questions == pre.questions_state.max_questions
                        &&& post.users == pre.users
                        &&& post.masks == pre.masks
                        &&& post.answering == pre.answering
                    },
                }
            }))
}

/// Everything `delete_questions` guarantees, as one step relation.
pub open spec fn delete_questions_post(pre: RoomState, post: RoomState, from: RoomIdentityID, spec: QuestionDeleteSpec, r: Result<Option<RoomOutput>, RoomError>) -> bool {
    &&& (post.wf())
    &&& (r is Err ==> post == pre)
    &&& (r is Ok ==> {
                &&& r == Ok::<Option<RoomOutput>, RoomError>(None)
                &&& post.questions_state.questions@ == (match spec {
                    QuestionDeleteSpec::Delete(ids) => retain_questions(
                        pre.questions_state.questions@,
                        QuestionFilter::NotListed,
                        ids@,
                        QuestionPriority::Bottom,
                    ),
                    QuestionDeleteSpec::Keep(ids) => retain_questions(
                        pre.questions_state.questions@,
                        QuestionFilter::Listed,
                        ids@,
                        QuestionPriority::Bottom,
                    ),
                    QuestionDeleteSpec::DeletePriority(p) => retain_questions(
                        pre.questions_state.questions@,
                        QuestionFilter::MinPriority,
                        Seq::<QuestionID>::empty(),
                        p,
                    ),
                })
                &&& post.questions_state.next_id == pre.questions_state.next_id
                &&& post.questions_state.rights == pre.questions_state.rights
                &&& post.questions_state.max_questions == pre.questions_state.max_questions
                &&& post.users == pre.users
                &&& post.masks == pre.masks
                &&& post.message_rights == pre.message_rights
                &&& post.answering == pre.answering
            })
    &&& ((match spec_role_of(pre, from) {
                Ok(ro) => ro matches Role::Duty(_),
                Err(_) => false,
            }) ==> match spec {
                QuestionDeleteSpec::Delete(ids) => if forall|i: int|
                    0 <= i < ids@.len() ==> has_key(
                        pre.questions_state.questions@,
                        #[trigger] ids@[i],
                    ) {
                    r is Ok
                } else {
                    r == Err::<Option<RoomOutput>, RoomError>(RoomError::NoSuchQuestion)
                },
                QuestionDeleteSpec::Keep(ids) => if forall|i: int|
                    0 <= i < ids@.len() ==> has_key(
                        pre.questions_state.questions@,
                        #[trigger] ids@[i],
                    ) {
                    r is Ok
                } else {
                    r == Err::<Option<RoomOutput>, RoomError>(RoomError::NoSuchQuestion)
                },
                QuestionDeleteSpec::DeletePriority(_) => r is Ok,
            })
}

/// Everything `open_answering` guarantees, as one step relation.
pub open spec fn open_answering_post(pre: RoomState, post: RoomState, from: RoomIdentityID, r: Result<Option<RoomOutput>, RoomError>) -> bool {
    &&& (post.wf())
    &&& (r is Err ==> post == pre)
    &&& ((match spec_role_of(pre, from) {
                Ok(ro) => ro matches Role::Duty(_),
                Err(_) => false,
            }) ==> {
                if pre.answering is Some {
                    r == Err::<Option<RoomOutput>, RoomError>(RoomError::SurveyAlreadyCreated)
                } else if pre.questions_state.questions@.len() == 0 {
                    r == Ok::<Option<RoomOutput>, RoomError>(None) && post == pre
                } else {
                    r is Ok && r->Ok_0 is Some
                }
            })
    &&& ((r is Ok && r->Ok_0 is Some) ==> exists|i: int|
                #![trigger pre.questions_state.questions@[i]]
                {
                    let qs = pre.questions_state.questions@;
                    &&& 0 <= i < qs.len()
                    &&& (forall|j: int|
                        0 <= j < qs.len() && j != i ==> question_lt(#[trigger] qs[j], qs[i]))
                    &&& post.questions_state.questions@ == qs.remove(i)
                    &&& post.answering == Some(qs[i].0)
                    &&& r == Ok::<Option<RoomOutput>, RoomError>(
                        Some(RoomOutput::NewQuestion(qs[i].1.question)),
                    )
                    &&& post.questions_state.next_id == pre.questions_state.next_id
                    &&& post.questions_state.rights == pre.questions_state.rights
                    &&& post.questions_state.max_questions == pre.questions_state.max_questions
                    &&& post.users == pre.users
                    &&& post.masks == pre.masks
                    &&& post.message_rights == pre.message_rights
                })
}

impl RoomState {
    /// Apply one room event: validate it against the caller's role and the
    /// current state, and mutate the state deterministically.
    ///
    /// Every event is carried out by the method named after it, whose
    /// contract states the full effect; this entry point dispatches and
    /// guarantees on its own that a failing event leaves the state
    /// untouched, that the invariant is kept, and that a room-creation
    /// event is always refused once the room exists.
    pub fn apply_event(&mut self, from: RoomIdentityID, event: RoomEvent) -> (r: Result<
        Option<RoomOutput>,
        RoomError,
    >)
        requires
            old(self).wf(),
        ensures
            final(self).wf(),
            r is Err ==> *final(self) == *old(self),
            (match event {
                RoomEvent::RoomCreation(_) => r == Err::<Option<RoomOutput>, RoomError>(
                    RoomError::RoomAlreadyCreated,
                ) && *final(self) == *old(self),
                RoomEvent::NewUser(id) => new_user_post(*old(self), *final(self), from, id, r),
                RoomEvent::NewMask(id) => new_mask_post(*old(self), *final(self), from, id, r),
                RoomEvent::ChangeRole { user, role } => change_role_post(
                    *old(self),
                    *final(self),
                    from,
                    user,
                    role,
                    r,
                ),
                RoomEvent::ChangeIdentityInfo { identity, name, description } => change_identity_info_post(
                    *old(self),
                    *final(self),
                    from,
                    identity,
                    name,
                    description,
                    r,
                ),
                RoomEvent::ChangeRoomAccessibility(a) => set_room_accessibility_post(
                    *old(self),
                    *final(self),
                    from,
                    a,
                    r,
                ),
                RoomEvent::MaxConnectedUsers(c) => set_max_connected_users_post(
                    *old(self),
                    *final(self),
                    from,
                    c,
                    r,
                ),
                RoomEvent::NewQuestion { kind, question } => new_question_post(
                    *old(self),
                    *final(self),
                    from,
                    kind,
                    question,
                    r,
                ),
                RoomEvent::ClarifyQuestion { question, clarification } => clarify_question_post(
                    *old(self),
                    *final(self),
                    from,
                    question,
                    clarification,
                    r,
                ),
                RoomEvent::LikeQuestion { question, like } => like_question_post(
                    *old(self),
                    *final(self),
                    from,
                    question,
                    like,
                    r,
                ),
                RoomEvent::ChangeQuestionPriority { question, priority } => change_question_priority_post(
                    *old(self),
                    *final(self),
                    from,
                    question,
                    priority,
                    r,
                ),
                RoomEvent::DeleteQuestions(spec) => delete_questions_post(
                    *old(self),
                    *final(self),
                    from,
                    spec,
                    r,
                ),
                RoomEvent::MaxQuestions(m) => set_max_questions_post(
                    *old(self),
                    *final(self),
                    from,
                    m,
                    r,
                ),
                RoomEvent::QuestionRights(ro) => set_question_rights_post(
                    *old(self),
                    *final(self),
                    from,
                    ro,
                    r,
                ),
                RoomEvent::ExplicitQuestionRight { identity, allow } => set_explicit_question_right_post(
                    *old(self),
                    *final(self),
                    from,
                    identity,
                    allow,
                    r,
                ),
                RoomEvent::OpenAnswering => open_answering_post(*old(self), *final(self), from, r),
                RoomEvent::CloseAnswering => close_answering_post(
                    *old(self),
                    *final(self),
                    from,
                    r,
                ),
                RoomEvent::FinishedAnswering => finished_answering_post(
                    *old(self),
                    *final(self),
                    from,
                    r,
                ),
                RoomEvent::Message(_) => message_post(*old(self), *final(self), from, r),
                RoomEvent::MessageRights(ro) => set_message_rights_post(
                    *old(self),
                    *final(self),
                    from,
                    ro,
                    r,
                ),
                RoomEvent::ExplicitMessageRight { identity, allow } => set_explicit_message_right_post(
                    *old(self),
                    *final(self),
                    from,
                    identity,
                    allow,
                    r,
                ),
            }),
    {
        match event {
            RoomEvent::RoomCreation(_) => Err(RoomError::RoomAlreadyCreated),
            RoomEvent::NewUser(id) => self.new_user(from, id),
            RoomEvent::NewMask(id) => self.new_mask(from, id),
            RoomEvent::ChangeRole { user, role } => self.change_role(from, user, role),
            RoomEvent::ChangeIdentityInfo { identity, name, description } => self
                .change_identity_info(from, identity, name, description),
            RoomEvent::ChangeRoomAccessibility(a) => self.set_room_accessibility(from, a),
            RoomEvent::MaxConnectedUsers(c) => self.set_max_connected_users(from, c),
            RoomEvent::NewQuestion { kind, question } => self.new_question(from, kind, question),
            RoomEvent::ClarifyQuestion { question, clarification } => self.clarify_question(
                from,
                question,
                clarification,
            ),
            RoomEvent::LikeQuestion { question, like } => self.like_question(from, question, like),
            RoomEvent::ChangeQuestionPriority { question, priority } => self
                .change_question_priority(from, question, priority),
            RoomEvent::DeleteQuestions(spec) => self.delete_questions(from, spec),
            RoomEvent::MaxQuestions(m) => self.set_max_questions(from, m),
            RoomEvent::QuestionRights(ro) => self.set_question_rights(from, ro),
            RoomEvent::ExplicitQuestionRight { identity, allow } => self
                .set_explicit_question_right(from, identity, allow),
            RoomEvent::OpenAnswering => self.open_answering(from),
            RoomEvent::CloseAnswering => self.close_answering(from),
            RoomEvent::FinishedAnswering => self.finished_answering(from),
            RoomEvent::Message(_) => self.message(from),
            RoomEvent::MessageRights(ro) => self.set_message_rights(from, ro),
            RoomEvent::ExplicitMessageRight { identity, allow } => self.set_explicit_message_right(
                from,
                identity,
                allow,
            ),
        }
    }
}

/// A queue entry is coherent with the room: its identifier below the next
/// and its likes unique.
pub open spec fn qinfo_ok(s: RoomState, e: (QuestionID, QuestionInfo)) -> bool {
    &&& match s.questions_state.next_id {
        Some(n) => e.0.0 < n.0,
        None => true,
    }
    &&& e.1.wf()
}

} // verus!
