//! The five survey phases and their deterministic transitions.
//!
//! A survey moves `Open → Encrypt → Answers → Decrypt → Debate`. After every
//! event the phase is normalized: as long as it sits on a transition
//! boundary it is advanced, so a well-formed survey state is never on a
//! boundary. Losing a member in `Encrypt`, `Answers` or `Decrypt` starts
//! the next iteration: the counter grows and the survivors are pushed back
//! to the start of `Encrypt`, discarding pending ciphertexts.
//!
//! Member maps are association vectors with unique keys, so every
//! computation over them — the joint key above all — is deterministic.

use vstd::prelude::*;

use crate::answer::Answer;
use crate::answer::ClearAnswer;
use crate::answer::body_view;
use crate::answer::body_wf;
use crate::errors::RoomError;
use crate::group::point_add;
use crate::group::point_add_exec;
use crate::group::point_identity;
use crate::group::point_mul_base;
use crate::group::point_mul_base_exec;
use crate::group::point_valid;
use crate::group::scalar_add;
use crate::group::scalar_add_exec;
use crate::group::scalar_from_u64;
use crate::group::scalar_from_u64_exec;
use crate::group::scalar_valid;
use crate::ids::UserID;
use crate::schnorr::PublicKey;
use crate::schnorr::SecretKey;

verus! {

/// Whether a member still sits in the `Open` roster, and how.
#[derive(Clone, Copy, Debug, PartialEq, Eq, Structural, Hash)]
pub enum MemberPresence {
    Present,
    Disconnected,
    Kicked,
}

/// A member's standing while the survey is `Open`.
#[derive(Clone, Copy, Debug, PartialEq, Eq, Structural, Hash)]
pub struct OpenStatus {
    pub status: MemberPresence,
    pub ready: bool,
}

/// A member's standing while the survey is `Decrypt`: the encryption share
/// they committed, and the secret share once they reveal it.
#[derive(Clone, Copy, Debug, PartialEq, Eq, Hash)]
pub struct DecryptStatus {
    pub public_key: PublicKey,
    pub secret_key: Option<SecretKey>,
}

/// Why a member is being taken out of the survey.
#[derive(Clone, Copy, Debug, PartialEq, Eq, Structural, Hash)]
pub enum RemovalReason {
    Left,
    Disconnected,
    Kicked,
}

/// The phase a survey is in, with its per-phase bookkeeping.
#[derive(Clone, Debug, PartialEq, Eq)]
pub enum Phase {
    /// Members join and declare themselves ready.
    Open {
        joinable: bool,
        collectable: bool,
        members: Vec<(UserID, OpenStatus)>,
        unready_members: u16,
    },
    /// Members commit their encryption shares.
    Encrypt {
        iteration: u64,
        ready_members: Vec<(UserID, PublicKey)>,
        unready_members: Vec<UserID>,
    },
    /// Members contribute sealed answers under the joint key.
    Answers {
        iteration: u64,
        members: Vec<(UserID, PublicKey)>,
        encryption: PublicKey,
        answers: Vec<Answer>,
        remaining_answers: u16,
    },
    /// Members reveal their secret shares.
    Decrypt {
        iteration: u64,
        members: Vec<(UserID, DecryptStatus)>,
        encryption: PublicKey,
        answers: Vec<Answer>,
        remaining_secrets: u16,
    },
    /// The answers are clear; the members debate them.
    Debate { members: Vec<UserID>, present: Vec<UserID>, answers: Vec<ClearAnswer> },
}

/// No two entries of an association vector share a key.
pub open spec fn unique_keys<K, V>(s: Seq<(K, V)>) -> bool {
    forall|i: int, j: int| 0 <= i < j < s.len() ==> (#[trigger] s[i]).0 != (#[trigger] s[j]).0
}

/// Whether a key appears in an association vector.
pub open spec fn has_key<K, V>(s: Seq<(K, V)>, k: K) -> bool {
    exists|i: int| 0 <= i < s.len() && (#[trigger] s[i]).0 == k
}

/// No two entries of an identifier vector coincide.
pub open spec fn unique_ids(s: Seq<UserID>) -> bool {
    forall|i: int, j: int| 0 <= i < j < s.len() ==> s[i] != s[j]
}

/// The keys of an association vector, in order.
pub open spec fn ids_of<K, V>(s: Seq<(K, V)>) -> Seq<K> {
    Seq::new(s.len(), |i: int| s[i].0)
}

/// How many `Open` members are present but not yet ready.
pub open spec fn count_unready(s: Seq<(UserID, OpenStatus)>) -> int
    decreases s.len(),
{
    if s.len() == 0 {
        0
    } else {
        count_unready(s.drop_last()) + if s.last().1.status matches MemberPresence::Present
            && !s.last().1.ready {
            1int
        } else {
            0int
        }
    }
}

/// The members that survive `Open`: present and ready, in roster order.
pub open spec fn surviving(s: Seq<(UserID, OpenStatus)>) -> Seq<UserID>
    decreases s.len(),
{
    if s.len() == 0 {
        Seq::<UserID>::empty()
    } else {
        surviving(s.drop_last()) + if s.last().1.status matches MemberPresence::Present
            && s.last().1.ready {
            seq![s.last().0]
        } else {
            Seq::<UserID>::empty()
        }
    }
}

/// The all-zero 32-byte string: the canonical encoding of the identity.
pub open spec fn zeros32() -> Seq<u8> {
    Seq::new(32, |i: int| 0u8)
}

/// The joint key of a share map: the group sum of the shares, folded left
/// from the identity in roster order.
pub open spec fn sum_keys(s: Seq<(UserID, PublicKey)>) -> Seq<u8>
    decreases s.len(),
{
    if s.len() == 0 {
        zeros32()
    } else {
        point_add(sum_keys(s.drop_last()), s.last().1.bytes@)
    }
}

/// The joint key over `Decrypt` bookkeeping: the same sum over the shares.
pub open spec fn sum_shares(s: Seq<(UserID, DecryptStatus)>) -> Seq<u8>
    decreases s.len(),
{
    if s.len() == 0 {
        zeros32()
    } else {
        point_add(sum_shares(s.drop_last()), s.last().1.public_key.bytes@)
    }
}

/// How many members have not revealed their secret share yet.
pub open spec fn count_missing(s: Seq<(UserID, DecryptStatus)>) -> int
    decreases s.len(),
{
    if s.len() == 0 {
        0
    } else {
        count_missing(s.drop_last()) + if s.last().1.secret_key is None {
            1int
        } else {
            0int
        }
    }
}

/// The joint secret: the scalar sum of the revealed shares, folded left
/// from zero in roster order; a missing share contributes zero.
pub open spec fn secrets_sum(s: Seq<(UserID, DecryptStatus)>) -> Seq<u8>
    decreases s.len(),
{
    if s.len() == 0 {
        scalar_from_u64(0)
    } else {
        scalar_add(
            secrets_sum(s.drop_last()),
            match s.last().1.secret_key {
                Some(k) => k.bytes@,
                None => scalar_from_u64(0),
            },
        )
    }
}

/// Every committed share is a canonical encoding.
pub open spec fn shares_wf(s: Seq<(UserID, PublicKey)>) -> bool {
    forall|i: int| 0 <= i < s.len() ==> (#[trigger] s[i]).1.wf()
}

/// Every `Decrypt` entry is coherent: the share canonical, and a revealed
/// secret is reduced and owns the share it claims.
pub open spec fn decrypt_entries_wf(s: Seq<(UserID, DecryptStatus)>) -> bool {
    forall|i: int|
        0 <= i < s.len() ==> {
            &&& (#[trigger] s[i]).1.public_key.wf()
            &&& (s[i].1.secret_key matches Some(k) ==> k.wf() && point_mul_base(k.bytes@)
                == s[i].1.public_key.bytes@)
        }
}

/// Every pending answer is well-formed and bound to the given iteration.
pub open spec fn answers_wf(s: Seq<Answer>, iteration: u64) -> bool {
    forall|i: int| 0 <= i < s.len() ==> (#[trigger] s[i]).wf() && s[i].iteration == iteration
}

/// The well-formedness invariant of a phase.
pub open spec fn phase_wf(p: Phase) -> bool {
    match p {
        Phase::Open { members, unready_members, .. } => {
            &&& unique_keys(members@)
            &&& members@.len() <= 0xFFFF
            &&& unready_members as int == count_unready(members@)
        },
        Phase::Encrypt { ready_members, unready_members, .. } => {
            &&& unique_keys(ready_members@)
            &&& unique_ids(unready_members@)
            &&& forall|i: int, j: int|
                0 <= i < ready_members@.len() && 0 <= j < unready_members@.len() ==> (
                #[trigger] ready_members@[i]).0 != #[trigger] unready_members@[j]
            &&& ready_members@.len() + unready_members@.len() <= 0xFFFF
            &&& shares_wf(ready_members@)
        },
        Phase::Answers { iteration, members, encryption, answers, remaining_answers } => {
            &&& unique_keys(members@)
            &&& members@.len() <= 0xFFFF
            &&& shares_wf(members@)
            &&& encryption.wf()
            &&& encryption.bytes@ == sum_keys(members@)
            &&& answers_wf(answers@, iteration)
            &&& remaining_answers as int + answers@.len() == members@.len()
        },
        Phase::Decrypt { iteration, members, encryption, answers, remaining_secrets } => {
            &&& unique_keys(members@)
            &&& members@.len() <= 0xFFFF
            &&& decrypt_entries_wf(members@)
            &&& encryption.wf()
            &&& encryption.bytes@ == sum_shares(members@)
            &&& answers_wf(answers@, iteration)
            &&& remaining_secrets as int == count_missing(members@)
        },
        Phase::Debate { members, present, .. } => {
            &&& unique_ids(members@)
            &&& unique_ids(present@)
            &&& members@.len() <= 0xFFFF
        },
    }
}

/// Whether the phase sits on a transition boundary.
pub open spec fn phase_at_boundary(p: Phase) -> bool {
    match p {
        Phase::Open { collectable, unready_members, .. } => collectable && unready_members == 0,
        Phase::Encrypt { unready_members, .. } => unready_members@.len() == 0,
        Phase::Answers { remaining_answers, .. } => remaining_answers == 0,
        Phase::Decrypt { remaining_secrets, .. } => remaining_secrets == 0,
        Phase::Debate { .. } => false,
    }
}

/// The position of a phase in the progression.
pub open spec fn phase_rank(p: Phase) -> int {
    match p {
        Phase::Open { .. } => 0,
        Phase::Encrypt { .. } => 1,
        Phase::Answers { .. } => 2,
        Phase::Decrypt { .. } => 3,
        Phase::Debate { .. } => 4,
    }
}

/// The iteration counter a phase carries, where it carries one.
pub open spec fn phase_iter(p: Phase) -> Option<u64> {
    match p {
        Phase::Open { .. } => None,
        Phase::Encrypt { iteration, .. } => Some(iteration),
        Phase::Answers { iteration, .. } => Some(iteration),
        Phase::Decrypt { iteration, .. } => Some(iteration),
        Phase::Debate { .. } => None,
    }
}

/// The iteration counter never falls from `a` to `b`.
pub open spec fn iter_monotone(a: Phase, b: Phase) -> bool {
    match (phase_iter(a), phase_iter(b)) {
        (Some(x), Some(y)) => x <= y,
        _ => true,
    }
}

/// A `Debate` phase with nobody in it and nothing decided.
pub open spec fn empty_debate(p: Phase) -> bool {
    &&& p matches Phase::Debate { members, present, answers }
    &&& p->Debate_members@.len() == 0
    &&& p->Debate_present@.len() == 0
    &&& p->Debate_answers@.len() == 0
}

/// The `Decrypt` roster obtained from an `Answers` roster: same members,
/// same shares, no secret revealed yet.
pub open spec fn decrypt_roster_of(
    a: Seq<(UserID, PublicKey)>,
    d: Seq<(UserID, DecryptStatus)>,
) -> bool {
    &&& d.len() == a.len()
    &&& forall|i: int|
        0 <= i < a.len() ==> (#[trigger] d[i]).0 == a[i].0 && d[i].1.public_key == a[i].1
            && d[i].1.secret_key is None
}

/// The clear answers are drawn from the sealed ones: no more of them, each
/// well-formed, and each carrying the keys of one sealed answer.
pub open spec fn debate_answers_of(src: Seq<Answer>, out: Seq<ClearAnswer>) -> bool {
    &&& out.len() <= src.len()
    &&& forall|k: int|
        0 <= k < out.len() ==> body_wf((#[trigger] out[k]).answer) && exists|i: int|
            0 <= i < src.len() && out[k].sign_key == (#[trigger] src[i]).sign_key
                && out[k].encrypt_key == src[i].encrypt_key
}

/// What one normalization step does to a phase on a boundary.
pub open spec fn step_post(old_p: Phase, new_p: Phase) -> bool {
    match old_p {
        Phase::Open { members, .. } => {
            &&& new_p matches Phase::Encrypt { iteration, ready_members, unready_members }
            &&& new_p->Encrypt_iteration == 0
            &&& new_p->Encrypt_ready_members@.len() == 0
            &&& new_p->Encrypt_unready_members@ == surviving(members@)
        },
        Phase::Encrypt { iteration, ready_members, .. } => {
            &&& new_p matches Phase::Answers { .. }
            &&& new_p->Answers_iteration == iteration
            &&& new_p->Answers_members@ == ready_members@
            &&& new_p->Answers_encryption.bytes@ == sum_keys(ready_members@)
            &&& new_p->Answers_answers@.len() == 0
            &&& new_p->Answers_remaining_answers as int == ready_members@.len()
        },
        Phase::Answers { iteration, members, encryption, answers, .. } => {
            &&& new_p matches Phase::Decrypt { .. }
            &&& new_p->Decrypt_iteration == iteration
            &&& decrypt_roster_of(members@, new_p->Decrypt_members@)
            &&& new_p->Decrypt_encryption == encryption
            &&& new_p->Decrypt_answers == answers
            &&& new_p->Decrypt_remaining_secrets as int == members@.len()
        },
        Phase::Decrypt { members, encryption, answers, .. } => {
            &&& new_p matches Phase::Debate { .. }
            &&& new_p->Debate_members@ == ids_of(members@)
            &&& new_p->Debate_present@ == ids_of(members@)
            &&& if point_mul_base(secrets_sum(members@)) == encryption.bytes@ {
                debate_answers_of(answers@, new_p->Debate_answers@)
            } else {
                new_p->Debate_answers@.len() == 0
            }
        },
        Phase::Debate { .. } => false,
    }
}

/// What normalization does: nothing off a boundary; otherwise it advances,
/// cascading through empty phases down to an empty debate.
pub open spec fn normalize_post(old_p: Phase, new_p: Phase) -> bool {
    if !phase_at_boundary(old_p) {
        new_p == old_p
    } else {
        match old_p {
            Phase::Open { members, .. } => {
                if surviving(members@).len() > 0 {
                    &&& new_p matches Phase::Encrypt { .. }
                    &&& new_p->Encrypt_iteration == 0
                    &&& new_p->Encrypt_ready_members@.len() == 0
                    &&& new_p->Encrypt_unready_members@ == surviving(members@)
                } else {
                    empty_debate(new_p)
                }
            },
            Phase::Encrypt { iteration, ready_members, .. } => {
                if ready_members@.len() > 0 {
                    &&& new_p matches Phase::Answers { .. }
                    &&& new_p->Answers_iteration == iteration
                    &&& new_p->Answers_members@ == ready_members@
                    &&& new_p->Answers_encryption.bytes@ == sum_keys(ready_members@)
                    &&& new_p->Answers_answers@.len() == 0
                    &&& new_p->Answers_remaining_answers as int == ready_members@.len()
                } else {
                    empty_debate(new_p)
                }
            },
            Phase::Answers { iteration, members, encryption, answers, .. } => {
                if members@.len() > 0 {
                    &&& new_p matches Phase::Decrypt { .. }
                    &&& new_p->Decrypt_iteration == iteration
                    &&& decrypt_roster_of(members@, new_p->Decrypt_members@)
                    &&& new_p->Decrypt_encryption == encryption
                    &&& new_p->Decrypt_answers == answers
                    &&& new_p->Decrypt_remaining_secrets as int == members@.len()
                } else {
                    empty_debate(new_p)
                }
            },
            Phase::Decrypt { members, encryption, answers, .. } => {
                &&& new_p matches Phase::Debate { .. }
                &&& new_p->Debate_members@ == ids_of(members@)
                &&& new_p->Debate_present@ == ids_of(members@)
                &&& if point_mul_base(secrets_sum(members@)) == encryption.bytes@ {
                    debate_answers_of(answers@, new_p->Debate_answers@)
                } else {
                    new_p->Debate_answers@.len() == 0
                }
            },
            Phase::Debate { .. } => false,
        }
    }
}

/// The joint key invariant: in every well-formed `Answers` or `Decrypt`
/// phase, the joint encryption key is exactly the group sum of the
/// encryption shares of the members present in that phase. (In `Encrypt`
/// the joint key does not exist yet, and `Open` and `Debate` carry no
/// shares.)
pub proof fn lemma_joint_key_is_share_sum(p: Phase)
    requires
        phase_wf(p),
    ensures
        p matches Phase::Answers { .. } ==> p->Answers_encryption.bytes@ == sum_keys(
            p->Answers_members@,
        ),
        p matches Phase::Decrypt { .. } ==> p->Decrypt_encryption.bytes@ == sum_shares(
            p->Decrypt_members@,
        ),
{
}

/// Find the position of a key in an association vector.
pub fn assoc_find<V>(v: &Vec<(UserID, V)>, k: UserID) -> (r: Option<usize>)
    ensures
        r matches Some(i) ==> i < v@.len() && v@[i as int].0 == k,
        r is None <==> !has_key(v@, k),
{
    let mut i: usize = 0;
    while i < v.len()
        invariant
            i <= v@.len(),
            forall|j: int| 0 <= j < i ==> (#[trigger] v@[j]).0 != k,
        decreases v@.len() - i,
    {
        if v[i].0 == k {
            return Some(i);
        }
        i = i + 1;
    }
    None
}

/// Find the position of an identifier in an identifier vector.
pub fn ids_find(v: &Vec<UserID>, k: UserID) -> (r: Option<usize>)
    ensures
        r matches Some(i) ==> i < v@.len() && v@[i as int] == k,
        r is None <==> !v@.contains(k),
{
    let mut i: usize = 0;
    while i < v.len()
        invariant
            i <= v@.len(),
            forall|j: int| 0 <= j < i ==> v@[j] != k,
        decreases v@.len() - i,
    {
        if v[i] == k {
            return Some(i);
        }
        i = i + 1;
    }
    proof {
        assert(!v@.contains(k));
    }
    None
}

/// Copy a vector of `Copy` elements.
pub fn copy_vec<T: Copy>(v: &Vec<T>) -> (r: Vec<T>)
    ensures
        r@ == v@,
{
    let mut out: Vec<T> = Vec::new();
    let mut i: usize = 0;
    while i < v.len()
        invariant
            i <= v@.len(),
            out@ == v@.subrange(0, i as int),
        decreases v@.len() - i,
    {
        out.push(v[i]);
        i = i + 1;
        proof {
            assert(out@ =~= v@.subrange(0, i as int));
        }
    }
    proof {
        assert(out@ =~= v@);
    }
    out
}

impl Phase {
    /// Whether the phase sits on a transition boundary.
    pub fn at_boundary(&self) -> (r: bool)
        ensures
            r == phase_at_boundary(*self),
    {
        match self {
            Phase::Open { collectable, unready_members, .. } => *collectable && *unready_members
                == 0,
            Phase::Encrypt { unready_members, .. } => unready_members.len() == 0,
            Phase::Answers { remaining_answers, .. } => *remaining_answers == 0,
            Phase::Decrypt { remaining_secrets, .. } => *remaining_secrets == 0,
            Phase::Debate { .. } => false,
        }
    }
}

/// The survivors of a roster with unique keys: no more of them than
/// members, each one a member, and no two alike.
pub proof fn lemma_surviving(s: Seq<(UserID, OpenStatus)>)
    requires
        unique_keys(s),
    ensures
        surviving(s).len() <= s.len(),
        unique_ids(surviving(s)),
        forall|x: UserID| surviving(s).contains(x) ==> has_key(s, x),
    decreases s.len(),
{
    if s.len() > 0 {
        let dl = s.drop_last();
        assert(unique_keys(dl));
        lemma_surviving(dl);
        let grew = s.last().1.status matches MemberPresence::Present && s.last().1.ready;
        if grew {
            assert(surviving(s) == surviving(dl) + seq![s.last().0]);
        } else {
            assert(surviving(s) == surviving(dl) + Seq::<UserID>::empty());
            assert(surviving(s) =~= surviving(dl));
        }
        assert forall|x: UserID| surviving(s).contains(x) implies has_key(s, x) by {
            let k = choose|k: int| 0 <= k < surviving(s).len() && surviving(s)[k] == x;
            if k < surviving(dl).len() {
                assert(surviving(dl)[k] == x);
                assert(surviving(dl).contains(x));
                assert(has_key(dl, x));
                let j = choose|j: int| 0 <= j < dl.len() && (#[trigger] dl[j]).0 == x;
                assert(s[j] == dl[j]);
                assert(0 <= j < s.len() && s[j].0 == x);
                assert(has_key(s, x));
            } else {
                assert(x == s.last().0);
                assert(s[s.len() - 1].0 == x);
                assert(has_key(s, x));
            }
        }
        if grew {
            assert forall|i: int, j: int|
                0 <= i < j < surviving(s).len() implies surviving(s)[i] != surviving(s)[j] by {
                if j == surviving(s).len() - 1 {
                    let x = surviving(s)[i];
                    assert(surviving(dl)[i] == x);
                    assert(surviving(dl).contains(x));
                    assert(has_key(dl, x));
                    let m = choose|m: int| 0 <= m < dl.len() && (#[trigger] dl[m]).0 == x;
                    assert(s[m] == dl[m]);
                    assert(s[m].0 != s[s.len() - 1].0);
                    assert(surviving(s)[j] == s.last().0);
                }
            }
        }
    }
}

/// The position of a key in an association vector; meaningful when the key
/// is there and the keys are unique.
pub open spec fn key_index<K, V>(s: Seq<(K, V)>, k: K) -> int {
    choose|i: int| 0 <= i < s.len() && (#[trigger] s[i]).0 == k
}

/// The unready count never exceeds the roster.
pub proof fn lemma_count_unready_upper(s: Seq<(UserID, OpenStatus)>)
    ensures
        count_unready(s) <= s.len(),
    decreases s.len(),
{
    if s.len() > 0 {
        lemma_count_unready_upper(s.drop_last());
    }
}

/// A roster entry counts as unready when present and not ready.
pub open spec fn unready_contrib(e: (UserID, OpenStatus)) -> int {
    if e.1.status matches MemberPresence::Present && !e.1.ready {
        1int
    } else {
        0int
    }
}

/// The unready count is never negative.
pub proof fn lemma_count_unready_nonneg(s: Seq<(UserID, OpenStatus)>)
    ensures
        count_unready(s) >= 0,
    decreases s.len(),
{
    if s.len() > 0 {
        lemma_count_unready_nonneg(s.drop_last());
    }
}

/// An entry with a present, not-ready member keeps the count at one or
/// more.
pub proof fn lemma_count_unready_lower(s: Seq<(UserID, OpenStatus)>, i: int)
    requires
        0 <= i < s.len(),
        unready_contrib(s[i]) == 1,
    ensures
        count_unready(s) >= 1,
    decreases s.len(),
{
    if i < s.len() - 1 {
        lemma_count_unready_lower(s.drop_last(), i);
    } else {
        lemma_count_unready_nonneg(s.drop_last());
    }
}

/// Replacing one roster entry moves the count by the difference of the two
/// contributions.
pub proof fn lemma_count_unready_update(s: Seq<(UserID, OpenStatus)>, i: int, v: (UserID, OpenStatus))
    requires
        0 <= i < s.len(),
    ensures
        count_unready(s.update(i, v)) == count_unready(s) - unready_contrib(s[i])
            + unready_contrib(v),
    decreases s.len(),
{
    if i == s.len() - 1 {
        assert(s.update(i, v).drop_last() =~= s.drop_last());
    } else {
        assert(s.update(i, v).drop_last() =~= s.drop_last().update(i, v));
        lemma_count_unready_update(s.drop_last(), i, v);
    }
}

/// Removing one roster entry takes its contribution out of the count.
pub proof fn lemma_count_unready_remove(s: Seq<(UserID, OpenStatus)>, i: int)
    requires
        0 <= i < s.len(),
    ensures
        count_unready(s.remove(i)) == count_unready(s) - unready_contrib(s[i]),
    decreases s.len(),
{
    if i == s.len() - 1 {
        assert(s.remove(i) =~= s.drop_last());
    } else {
        assert(s.remove(i).drop_last() =~= s.drop_last().remove(i));
        lemma_count_unready_remove(s.drop_last(), i);
    }
}

/// A `Decrypt` entry counts as missing when its secret is unrevealed.
pub open spec fn missing_contrib(e: (UserID, DecryptStatus)) -> int {
    if e.1.secret_key is None {
        1int
    } else {
        0int
    }
}

/// The missing count is never negative.
pub proof fn lemma_count_missing_nonneg(s: Seq<(UserID, DecryptStatus)>)
    ensures
        count_missing(s) >= 0,
    decreases s.len(),
{
    if s.len() > 0 {
        lemma_count_missing_nonneg(s.drop_last());
    }
}

/// An entry with an unrevealed secret keeps the missing count at one or
/// more.
pub proof fn lemma_count_missing_lower(s: Seq<(UserID, DecryptStatus)>, i: int)
    requires
        0 <= i < s.len(),
        missing_contrib(s[i]) == 1,
    ensures
        count_missing(s) >= 1,
    decreases s.len(),
{
    if i < s.len() - 1 {
        lemma_count_missing_lower(s.drop_last(), i);
    } else {
        lemma_count_missing_nonneg(s.drop_last());
    }
}

/// Replacing one `Decrypt` entry moves the missing count by the difference
/// of the two contributions.
pub proof fn lemma_count_missing_update(
    s: Seq<(UserID, DecryptStatus)>,
    i: int,
    v: (UserID, DecryptStatus),
)
    requires
        0 <= i < s.len(),
    ensures
        count_missing(s.update(i, v)) == count_missing(s) - missing_contrib(s[i])
            + missing_contrib(v),
    decreases s.len(),
{
    if i == s.len() - 1 {
        assert(s.update(i, v).drop_last() =~= s.drop_last());
    } else {
        assert(s.update(i, v).drop_last() =~= s.drop_last().update(i, v));
        lemma_count_missing_update(s.drop_last(), i, v);
    }
}

/// Removing one `Decrypt` entry takes its contribution out of the missing
/// count.
pub proof fn lemma_count_missing_remove(s: Seq<(UserID, DecryptStatus)>, i: int)
    requires
        0 <= i < s.len(),
    ensures
        count_missing(s.remove(i)) == count_missing(s) - missing_contrib(s[i]),
    decreases s.len(),
{
    if i == s.len() - 1 {
        assert(s.remove(i) =~= s.drop_last());
    } else {
        assert(s.remove(i).drop_last() =~= s.drop_last().remove(i));
        lemma_count_missing_remove(s.drop_last(), i);
    }
}

/// Replacing one `Decrypt` entry with one carrying the same share keeps the
/// joint key.
pub proof fn lemma_sum_shares_update(
    s: Seq<(UserID, DecryptStatus)>,
    i: int,
    v: (UserID, DecryptStatus),
)
    requires
        0 <= i < s.len(),
        v.1.public_key == s[i].1.public_key,
    ensures
        sum_shares(s.update(i, v)) == sum_shares(s),
    decreases s.len(),
{
    if i == s.len() - 1 {
        assert(s.update(i, v).drop_last() =~= s.drop_last());
    } else {
        assert(s.update(i, v).drop_last() =~= s.drop_last().update(i, v));
        lemma_sum_shares_update(s.drop_last(), i, v);
    }
}

/// What the phase machine needs of a phase before starting the next
/// iteration: the bookkeeping lists are coherent, though the joint key may
/// already be stale.
pub open spec fn next_iter_pre(p: Phase) -> bool {
    match p {
        Phase::Open { .. } => true,
        Phase::Encrypt { ready_members, unready_members, .. } => {
            &&& unique_keys(ready_members@)
            &&& unique_ids(unready_members@)
            &&& forall|i: int, j: int|
                0 <= i < ready_members@.len() && 0 <= j < unready_members@.len() ==> (
                #[trigger] ready_members@[i]).0 != #[trigger] unready_members@[j]
            &&& ready_members@.len() + unready_members@.len() <= 0xFFFF
        },
        Phase::Answers { members, .. } => unique_keys(members@) && members@.len() <= 0xFFFF,
        Phase::Decrypt { members, .. } => unique_keys(members@) && members@.len() <= 0xFFFF,
        Phase::Debate { .. } => true,
    }
}

/// What starting the next iteration does: in `Encrypt`, `Answers` and
/// `Decrypt` the counter grows by one (it never falls, and saturates only
/// at the top of `u64`) and every member is pushed back unready into
/// `Encrypt`; elsewhere nothing changes.
pub open spec fn next_iter_post(old_p: Phase, new_p: Phase) -> bool {
    match old_p {
        Phase::Encrypt { iteration, ready_members, unready_members } => {
            &&& new_p matches Phase::Encrypt { .. }
            &&& new_p->Encrypt_iteration as int == if iteration < u64::MAX {
                iteration + 1
            } else {
                iteration as int
            }
            &&& new_p->Encrypt_ready_members@.len() == 0
            &&& new_p->Encrypt_unready_members@ == unready_members@ + ids_of(ready_members@)
        },
        Phase::Answers { iteration, members, .. } => {
            &&& new_p matches Phase::Encrypt { .. }
            &&& new_p->Encrypt_iteration as int == if iteration < u64::MAX {
                iteration + 1
            } else {
                iteration as int
            }
            &&& new_p->Encrypt_ready_members@.len() == 0
            &&& new_p->Encrypt_unready_members@ == ids_of(members@)
        },
        Phase::Decrypt { iteration, members, .. } => {
            &&& new_p matches Phase::Encrypt { .. }
            &&& new_p->Encrypt_iteration as int == if iteration < u64::MAX {
                iteration + 1
            } else {
                iteration as int
            }
            &&& new_p->Encrypt_ready_members@.len() == 0
            &&& new_p->Encrypt_unready_members@ == ids_of(members@)
        },
        _ => new_p == old_p,
    }
}

impl Phase {
    /// Advance a phase sitting on a boundary by one transition.
    fn normalize_step(&mut self)
        requires
            phase_wf(*old(self)),
            phase_at_boundary(*old(self)),
        ensures
            phase_wf(*final(self)),
            step_post(*old(self), *final(self)),
            phase_rank(*final(self)) == phase_rank(*old(self)) + 1,
            iter_monotone(*old(self), *final(self)),
    {
        let mut tmp = Phase::Debate { members: Vec::new(), present: Vec::new(), answers: Vec::new() };
        core::mem::swap(self, &mut tmp);
        match tmp {
            Phase::Open { members, .. } => {
                let mut surv: Vec<UserID> = Vec::new();
                let mut i: usize = 0;
                while i < members.len()
                    invariant
                        i <= members@.len(),
                        surv@ == surviving(members@.subrange(0, i as int)),
                    decreases members@.len() - i,
                {
                    let (uid, st) = members[i];
                    if matches!(st.status, MemberPresence::Present) && st.ready {
                        surv.push(uid);
                    }
                    i = i + 1;
                    proof {
                        let pre = members@.subrange(0, i as int);
                        assert(pre.drop_last() =~= members@.subrange(0, i - 1));
                        assert(surv@ =~= surviving(pre));
                    }
                }
                proof {
                    assert(members@.subrange(0, members@.len() as int) =~= members@);
                    lemma_surviving(members@);
                }
                *self = Phase::Encrypt {
                    iteration: 0,
                    ready_members: Vec::new(),
                    unready_members: surv,
                };
            },
            Phase::Encrypt { iteration, ready_members, .. } => {
                let mut enc = point_identity();
                let mut i: usize = 0;
                while i < ready_members.len()
                    invariant
                        i <= ready_members@.len(),
                        shares_wf(ready_members@),
                        enc@ == sum_keys(ready_members@.subrange(0, i as int)),
                        point_valid(enc@),
                    decreases ready_members@.len() - i,
                {
                    enc = point_add_exec(&enc, &ready_members[i].1.bytes);
                    i = i + 1;
                    proof {
                        let pre = ready_members@.subrange(0, i as int);
                        assert(pre.drop_last() =~= ready_members@.subrange(0, i - 1));
                    }
                }
                proof {
                    assert(ready_members@.subrange(0, ready_members@.len() as int)
                        =~= ready_members@);
                }
                let n = ready_members.len();
                *self = Phase::Answers {
                    iteration,
                    members: ready_members,
                    encryption: PublicKey { bytes: enc },
                    answers: Vec::new(),
                    remaining_answers: n as u16,
                };
            },
            Phase::Answers { iteration, members, encryption, answers, .. } => {
                let mut dm: Vec<(UserID, DecryptStatus)> = Vec::new();
                let mut i: usize = 0;
                while i < members.len()
                    invariant
                        i <= members@.len(),
                        shares_wf(members@),
                        dm@.len() == i,
                        forall|j: int| 0 <= j < i ==> (#[trigger] dm@[j]).0 == members@[j].0
                            && dm@[j].1.public_key == members@[j].1 && dm@[j].1.secret_key is None,
                        sum_shares(dm@) == sum_keys(members@.subrange(0, i as int)),
                        count_missing(dm@) == i,
                    decreases members@.len() - i,
                {
                    let ghost prev = dm@;
                    let (uid, pk) = members[i];
                    dm.push((uid, DecryptStatus { public_key: pk, secret_key: None }));
                    i = i + 1;
                    proof {
                        let pre = members@.subrange(0, i as int);
                        assert(pre.drop_last() =~= members@.subrange(0, i - 1));
                        assert(dm@.drop_last() =~= prev);
                        assert(sum_shares(dm@) == point_add(sum_shares(prev), pk.bytes@));
                        assert(count_missing(dm@) == count_missing(prev) + 1);
                    }
                }
                proof {
                    assert(members@.subrange(0, members@.len() as int) =~= members@);
                }
                let n = members.len();
                *self = Phase::Decrypt {
                    iteration,
                    members: dm,
                    encryption,
                    answers,
                    remaining_secrets: n as u16,
                };
            },
            Phase::Decrypt { iteration, members, encryption, answers, .. } => {
                let mut acc = scalar_from_u64_exec(0);
                let mut ids: Vec<UserID> = Vec::new();
                let mut i: usize = 0;
                while i < members.len()
                    invariant
                        i <= members@.len(),
                        decrypt_entries_wf(members@),
                        acc@ == secrets_sum(members@.subrange(0, i as int)),
                        scalar_valid(acc@),
                        ids@.len() == i,
                        forall|j: int| 0 <= j < i ==> ids@[j] == (#[trigger] members@[j]).0,
                    decreases members@.len() - i,
                {
                    let entry = members[i];
                    match entry.1.secret_key {
                        Some(k) => {
                            acc = scalar_add_exec(&acc, &k.bytes);
                        },
                        None => {
                            let z = scalar_from_u64_exec(0);
                            acc = scalar_add_exec(&acc, &z);
                        },
                    }
                    ids.push(entry.0);
                    i = i + 1;
                    proof {
                        let pre = members@.subrange(0, i as int);
                        assert(pre.drop_last() =~= members@.subrange(0, i - 1));
                    }
                }
                proof {
                    assert(members@.subrange(0, members@.len() as int) =~= members@);
                    assert(ids@ =~= ids_of(members@));
                }
                let present = copy_vec(&ids);
                let joint = point_mul_base_exec(&acc);
                let mut clear: Vec<ClearAnswer> = Vec::new();
                if crate::group::ct_eq(&joint, &encryption.bytes) {
                    let sk = SecretKey { bytes: acc };
                    let mut k: usize = 0;
                    while k < answers.len()
                        invariant
                            k <= answers@.len(),
                            answers_wf(answers@, iteration),
                            sk.wf(),
                            clear@.len() <= k,
                            forall|m: int| 0 <= m < clear@.len() ==> body_wf(
                                (#[trigger] clear@[m]).answer,
                            ) && exists|i2: int|
                                0 <= i2 < answers@.len() && clear@[m].sign_key == (
                                #[trigger] answers@[i2]).sign_key && clear@[m].encrypt_key
                                    == answers@[i2].encrypt_key,
                        decreases answers@.len() - k,
                    {
                        match answers[k].decrypt(&sk) {
                            Some(ca) => {
                                clear.push(ca);
                            },
                            None => {},
                        }
                        k = k + 1;
                    }
                }
                *self = Phase::Debate { members: ids, present, answers: clear };
            },
            Phase::Debate { .. } => {
                // A debate is never on a boundary, so this arm is
                // unreachable under the precondition.
                proof {
                    assert(false);
                }
            },
        }
    }

    /// Normalize the phase: advance it as long as it sits on a boundary.
    pub fn normalize(&mut self)
        requires
            phase_wf(*old(self)),
        ensures
            phase_wf(*final(self)),
            !phase_at_boundary(*final(self)),
            normalize_post(*old(self), *final(self)),
            iter_monotone(*old(self), *final(self)),
    {
        if !self.at_boundary() {
            return ;
        }
        self.normalize_step();
        if !self.at_boundary() {
            return ;
        }
        self.normalize_step();
        if !self.at_boundary() {
            return ;
        }
        self.normalize_step();
        if !self.at_boundary() {
            return ;
        }
        self.normalize_step();
    }

    /// Start the next iteration: push every member of the commit, answer or
    /// decrypt stage back into `Encrypt` as unready, one iteration up.
    pub fn next_iteration(&mut self)
        requires
            next_iter_pre(*old(self)),
        ensures
            next_iter_post(*old(self), *final(self)),
            phase_wf(*final(self)) || !(*old(self) matches Phase::Encrypt { .. }
                || *old(self) matches Phase::Answers { .. } || *old(self) matches Phase::Decrypt {
                ..
            }),
            iter_monotone(*old(self), *final(self)),
    {
        let mut tmp = Phase::Debate { members: Vec::new(), present: Vec::new(), answers: Vec::new() };
        core::mem::swap(self, &mut tmp);
        match tmp {
            Phase::Encrypt { iteration, ready_members, mut unready_members } => {
                let next_it: u64 = if iteration < u64::MAX {
                    iteration + 1
                } else {
                    iteration
                };
                let ghost old_unready = unready_members@;
                let mut i: usize = 0;
                while i < ready_members.len()
                    invariant
                        i <= ready_members@.len(),
                        unready_members@ == old_unready + ids_of(
                            ready_members@.subrange(0, i as int),
                        ),
                    decreases ready_members@.len() - i,
                {
                    unready_members.push(ready_members[i].0);
                    i = i + 1;
                    proof {
                        assert(unready_members@ =~= old_unready + ids_of(
                            ready_members@.subrange(0, i as int),
                        ));
                    }
                }
                proof {
                    assert(ready_members@.subrange(0, ready_members@.len() as int)
                        =~= ready_members@);
                    assert(ids_of(ready_members@.subrange(0, ready_members@.len() as int))
                        =~= ids_of(ready_members@));
                }
                *self = Phase::Encrypt {
                    iteration: next_it,
                    ready_members: Vec::new(),
                    unready_members,
                };
            },
            Phase::Answers { iteration, members, .. } => {
                let next_it: u64 = if iteration < u64::MAX {
                    iteration + 1
                } else {
                    iteration
                };
                let mut unready: Vec<UserID> = Vec::new();
                let mut i: usize = 0;
                while i < members.len()
                    invariant
                        i <= members@.len(),
                        unready@.len() == i,
                        forall|j: int| 0 <= j < i ==> unready@[j] == (#[trigger] members@[j]).0,
                    decreases members@.len() - i,
                {
                    unready.push(members[i].0);
                    i = i + 1;
                }
                proof {
                    assert(unready@ =~= ids_of(members@));
                }
                *self = Phase::Encrypt {
                    iteration: next_it,
                    ready_members: Vec::new(),
                    unready_members: unready,
                };
            },
            Phase::Decrypt { iteration, members, .. } => {
                let next_it: u64 = if iteration < u64::MAX {
                    iteration + 1
                } else {
                    iteration
                };
                let mut unready: Vec<UserID> = Vec::new();
                let mut i: usize = 0;
                while i < members.len()
                    invariant
                        i <= members@.len(),
                        unready@.len() == i,
                        forall|j: int| 0 <= j < i ==> unready@[j] == (#[trigger] members@[j]).0,
                    decreases members@.len() - i,
                {
                    unready.push(members[i].0);
                    i = i + 1;
                }
                proof {
                    assert(unready@ =~= ids_of(members@));
                }
                *self = Phase::Encrypt {
                    iteration: next_it,
                    ready_members: Vec::new(),
                    unready_members: unready,
                };
            },
            other => {
                *self = other;
            },
        }
    }
}

/// The position of an identifier in an identifier vector; meaningful when
/// it is there and the identifiers are unique.
pub open spec fn id_index(s: Seq<UserID>, k: UserID) -> int {
    choose|i: int| 0 <= i < s.len() && s[i] == k
}

/// The `Open` phase right after a member was taken out, before
/// normalization: the member is dropped (on leaving) or marked (on
/// disconnection or kick), and the unready count loses the member's
/// contribution.
pub open spec fn open_removal_mid(before: Phase, mid: Phase, u: UserID, reason: RemovalReason) -> bool {
    &&& before matches Phase::Open { .. }
    &&& mid matches Phase::Open { .. }
    &&& mid->Open_joinable == before->Open_joinable
    &&& mid->Open_collectable == before->Open_collectable
    &&& has_key(before->Open_members@, u)
    &&& {
        let i = key_index(before->Open_members@, u);
        let entry = before->Open_members@[i];
        &&& mid->Open_unready_members as int == before->Open_unready_members as int
            - unready_contrib(entry)
        &&& match reason {
            RemovalReason::Left => mid->Open_members@ == before->Open_members@.remove(i),
            RemovalReason::Disconnected => mid->Open_members@ == before->Open_members@.update(
                i,
                (u, OpenStatus { status: MemberPresence::Disconnected, ready: entry.1.ready }),
            ),
            RemovalReason::Kicked => mid->Open_members@ == before->Open_members@.update(
                i,
                (u, OpenStatus { status: MemberPresence::Kicked, ready: entry.1.ready }),
            ),
        }
    }
}

/// A commit, answer or decrypt roster right after a member was taken out,
/// before the next iteration starts.
pub open spec fn roster_removal_mid(before: Phase, mid: Phase, u: UserID) -> bool {
    match before {
        Phase::Encrypt { iteration, ready_members, unready_members } => {
            &&& mid matches Phase::Encrypt { .. }
            &&& mid->Encrypt_iteration == iteration
            &&& if unready_members@.contains(u) {
                &&& mid->Encrypt_ready_members@ == ready_members@
                &&& mid->Encrypt_unready_members@ == unready_members@.remove(
                    id_index(unready_members@, u),
                )
            } else {
                &&& mid->Encrypt_ready_members@ == ready_members@.remove(
                    key_index(ready_members@, u),
                )
                &&& mid->Encrypt_unready_members@ == unready_members@
            }
        },
        Phase::Answers { iteration, members, encryption, answers, remaining_answers } => {
            &&& mid matches Phase::Answers { .. }
            &&& mid->Answers_iteration == iteration
            &&& mid->Answers_members@ == members@.remove(key_index(members@, u))
            &&& mid->Answers_answers == answers
        },
        Phase::Decrypt { iteration, members, encryption, answers, remaining_secrets } => {
            &&& mid matches Phase::Decrypt { .. }
            &&& mid->Decrypt_iteration == iteration
            &&& mid->Decrypt_members@ == members@.remove(key_index(members@, u))
            &&& mid->Decrypt_answers == answers
        },
        _ => false,
    }
}

/// Everything `remove_user` guarantees, as one step relation.
pub open spec fn remove_user_post(pre: Phase, post: Phase, user_id: UserID, reason: RemovalReason, r: Result<(), RoomError>) -> bool {
    &&& (phase_wf(post))
    &&& (iter_monotone(pre, post))
    &&& (r is Err ==> post == pre)
    &&& (match pre {
                Phase::Open { members, .. } => {
                    if !has_key(members@, user_id) {
                        r == Err::<(), RoomError>(RoomError::NoSuchUser)
                    } else {
                        let st = members@[key_index(members@, user_id)].1;
                        if (reason matches RemovalReason::Disconnected && !(st.status
                            matches MemberPresence::Present)) || (!(reason
                            matches RemovalReason::Disconnected) && st.status
                            matches MemberPresence::Kicked) {
                            r == Err::<(), RoomError>(RoomError::Unauthorized)
                        } else {
                            r is Ok && exists|mid: Phase|
                                open_removal_mid(pre, mid, user_id, reason)
                                    && #[trigger] normalize_post(mid, post)
                        }
                    }
                },
                Phase::Debate { members, .. } => {
                    if members@.contains(user_id) {
                        &&& r is Ok
                        &&& post matches Phase::Debate { .. }
                        &&& post->Debate_members@ == members@.remove(
                            id_index(members@, user_id),
                        )
                        &&& post->Debate_present == pre->Debate_present
                        &&& post->Debate_answers == pre->Debate_answers
                    } else {
                        r == Err::<(), RoomError>(RoomError::NoSuchUser)
                    }
                },
                Phase::Encrypt { ready_members, unready_members, .. } => {
                    if unready_members@.contains(user_id) || has_key(ready_members@, user_id) {
                        r is Ok && exists|mid: Phase, mid2: Phase|
                            roster_removal_mid(pre, mid, user_id) && #[trigger] next_iter_post(
                                mid,
                                mid2,
                            ) && #[trigger] normalize_post(mid2, post)
                    } else {
                        r == Err::<(), RoomError>(RoomError::NoSuchUser)
                    }
                },
                Phase::Answers { members, .. } => {
                    if has_key(members@, user_id) {
                        r is Ok && exists|mid: Phase, mid2: Phase|
                            roster_removal_mid(pre, mid, user_id) && #[trigger] next_iter_post(
                                mid,
                                mid2,
                            ) && #[trigger] normalize_post(mid2, post)
                    } else {
                        r == Err::<(), RoomError>(RoomError::NoSuchUser)
                    }
                },
                Phase::Decrypt { members, .. } => {
                    if has_key(members@, user_id) {
                        r is Ok && exists|mid: Phase, mid2: Phase|
                            roster_removal_mid(pre, mid, user_id) && #[trigger] next_iter_post(
                                mid,
                                mid2,
                            ) && #[trigger] normalize_post(mid2, post)
                    } else {
                        r == Err::<(), RoomError>(RoomError::NoSuchUser)
                    }
                },
            })
}

/// Everything `join` guarantees, as one step relation.
pub open spec fn join_post(pre: Phase, post: Phase, user_id: UserID, r: Result<(), RoomError>) -> bool {
    &&& (phase_wf(post))
    &&& (iter_monotone(pre, post))
    &&& (r is Err ==> post == pre)
    &&& (match pre {
                Phase::Open { joinable, members, .. } => {
                    if !joinable {
                        r == Err::<(), RoomError>(RoomError::SurveyUnjoinable)
                    } else if has_key(members@, user_id) {
                        r == Err::<(), RoomError>(RoomError::AlreadyJoined)
                    } else if members@.len() >= 0xFFFF {
                        r == Err::<(), RoomError>(RoomError::SurveyUnjoinable)
                    } else {
                        &&& r is Ok
                        &&& post matches Phase::Open { .. }
                        &&& post->Open_joinable == joinable
                        &&& post->Open_collectable == pre->Open_collectable
                        &&& post->Open_members@ == members@.push(
                            (
                                user_id,
                                OpenStatus { status: MemberPresence::Present, ready: false },
                            ),
                        )
                        &&& post->Open_unready_members as int == pre->Open_unready_members as int + 1
                    }
                },
                _ => r == Err::<(), RoomError>(RoomError::SurveyUnjoinable),
            })
}

/// Everything `set_ready` guarantees, as one step relation.
pub open spec fn set_ready_post(pre: Phase, post: Phase, user_id: UserID, r: Result<(), RoomError>) -> bool {
    &&& (phase_wf(post))
    &&& (iter_monotone(pre, post))
    &&& (r is Err ==> post == pre)
    &&& (match pre {
                Phase::Open { members, .. } => {
                    if !has_key(members@, user_id) {
                        r == Err::<(), RoomError>(RoomError::NoSuchUser)
                    } else {
                        let i = key_index(members@, user_id);
                        let e = members@[i].1;
                        if !(e.status matches MemberPresence::Present) {
                            r == Err::<(), RoomError>(RoomError::Unauthorized)
                        } else {
                            r is Ok && exists|mid: Phase|
                                {
                                    &&& mid matches Phase::Open { .. }
                                    &&& mid->Open_joinable == pre->Open_joinable
                                    &&& mid->Open_collectable == pre->Open_collectable
                                    &&& mid->Open_members@ == members@.update(
                                        i,
                                        (
                                            user_id,
                                            OpenStatus {
                                                status: MemberPresence::Present,
                                                ready: !e.ready,
                                            },
                                        ),
                                    )
                                    &&& mid->Open_unready_members as int == pre->Open_unready_members as int + if e.ready {
                                        1int
                                    } else {
                                        -1int
                                    }
                                    &&& #[trigger] normalize_post(mid, post)
                                }
                        }
                    }
                },
                _ => r == Err::<(), RoomError>(RoomError::InvalidSurveyPhase),
            })
}

/// Everything `commit_share` guarantees, as one step relation.
pub open spec fn commit_share_post(pre: Phase, post: Phase, user_id: UserID, share: PublicKey, r: Result<(), RoomError>) -> bool {
    &&& (phase_wf(post))
    &&& (iter_monotone(pre, post))
    &&& (r is Err ==> post == pre)
    &&& (match pre {
                Phase::Encrypt { iteration, ready_members, unready_members } => {
                    if unready_members@.contains(user_id) {
                        r is Ok && exists|mid: Phase|
                            {
                                &&& mid matches Phase::Encrypt { .. }
                                &&& mid->Encrypt_iteration == iteration
                                &&& mid->Encrypt_ready_members@ == ready_members@.push(
                                    (user_id, share),
                                )
                                &&& mid->Encrypt_unready_members@ == unready_members@.remove(
                                    id_index(unready_members@, user_id),
                                )
                                &&& #[trigger] normalize_post(mid, post)
                            }
                    } else if has_key(ready_members@, user_id) {
                        r == Err::<(), RoomError>(RoomError::AlreadyJoined)
                    } else {
                        r == Err::<(), RoomError>(RoomError::NoSuchUser)
                    }
                },
                _ => r == Err::<(), RoomError>(RoomError::InvalidSurveyPhase),
            })
}

/// Everything `add_answer` guarantees, as one step relation.
pub open spec fn add_answer_post(pre: Phase, post: Phase, ans: Answer, r: Result<(), RoomError>) -> bool {
    &&& (phase_wf(post))
    &&& (iter_monotone(pre, post))
    &&& (r is Err ==> post == pre)
    &&& (match pre {
                Phase::Answers { iteration, members, answers, remaining_answers, .. } => {
                    if ans.iteration != iteration {
                        r == Err::<(), RoomError>(RoomError::StaleIteration)
                    } else if remaining_answers == 0 {
                        r == Err::<(), RoomError>(RoomError::InvalidSurveyPhase)
                    } else {
                        r is Ok && exists|mid: Phase|
                            {
                                &&& mid matches Phase::Answers { .. }
                                &&& mid->Answers_iteration == iteration
                                &&& mid->Answers_members@ == members@
                                &&& mid->Answers_encryption == pre->Answers_encryption
                                &&& mid->Answers_answers@ == answers@.push(ans)
                                &&& mid->Answers_remaining_answers as int
                                    == remaining_answers as int - 1
                                &&& #[trigger] normalize_post(mid, post)
                            }
                    }
                },
                _ => r == Err::<(), RoomError>(RoomError::InvalidSurveyPhase),
            })
}

/// Everything `reveal_secret` guarantees, as one step relation.
pub open spec fn reveal_secret_post(pre: Phase, post: Phase, user_id: UserID, secret: SecretKey, r: Result<(), RoomError>) -> bool {
    &&& (phase_wf(post))
    &&& (iter_monotone(pre, post))
    &&& (r is Err ==> post == pre)
    &&& (match pre {
                Phase::Decrypt { iteration, members, remaining_secrets, .. } => {
                    if !has_key(members@, user_id) {
                        r == Err::<(), RoomError>(RoomError::NoSuchUser)
                    } else {
                        let i = key_index(members@, user_id);
                        let e = members@[i].1;
                        if e.secret_key is Some {
                            r == Err::<(), RoomError>(RoomError::AlreadyJoined)
                        } else if point_mul_base(secret.bytes@) != e.public_key.bytes@ {
                            r == Err::<(), RoomError>(
                                RoomError::Crypto(crate::errors::CryptoError::BadSignature),
                            )
                        } else {
                            r is Ok && exists|mid: Phase|
                                {
                                    &&& mid matches Phase::Decrypt { .. }
                                    &&& mid->Decrypt_iteration == iteration
                                    &&& mid->Decrypt_members@ == members@.update(
                                        i,
                                        (
                                            user_id,
                                            DecryptStatus {
                                                public_key: e.public_key,
                                                secret_key: Some(secret),
                                            },
                                        ),
                                    )
                                    &&& mid->Decrypt_encryption == pre->Decrypt_encryption
                                    &&& mid->Decrypt_answers == pre->Decrypt_answers
                                    &&& mid->Decrypt_remaining_secrets as int
                                        == remaining_secrets as int - 1
                                    &&& #[trigger] normalize_post(mid, post)
                                }
                        }
                    }
                },
                _ => r == Err::<(), RoomError>(RoomError::InvalidSurveyPhase),
            })
}

/// Everything `unkick` guarantees, as one step relation.
pub open spec fn unkick_post(pre: Phase, post: Phase, user_id: UserID, r: Result<(), RoomError>) -> bool {
    &&& (phase_wf(post))
    &&& (iter_monotone(pre, post))
    &&& (r is Err ==> post == pre)
    &&& (match pre {
                Phase::Open { members, .. } => {
                    if !has_key(members@, user_id) {
                        r == Err::<(), RoomError>(RoomError::NoSuchUser)
                    } else {
                        let i = key_index(members@, user_id);
                        let e = members@[i].1;
                        if !(e.status matches MemberPresence::Kicked) {
                            r == Err::<(), RoomError>(RoomError::Unauthorized)
                        } else {
                            &&& r is Ok
                            &&& post matches Phase::Open { .. }
                            &&& post->Open_joinable == pre->Open_joinable
                            &&& post->Open_collectable == pre->Open_collectable
                            &&& post->Open_members@ == members@.update(
                                i,
                                (
                                    user_id,
                                    OpenStatus { status: MemberPresence::Present, ready: e.ready },
                                ),
                            )
                            &&& post->Open_unready_members as int == pre->Open_unready_members as int + if e.ready {
                                0int
                            } else {
                                1int
                            }
                        }
                    }
                },
                _ => r == Err::<(), RoomError>(RoomError::InvalidSurveyPhase),
            })
}

/// Everything `connected` guarantees, as one step relation.
pub open spec fn connected_post(pre: Phase, post: Phase, user_id: UserID, r: Result<(), RoomError>) -> bool {
    &&& (phase_wf(post))
    &&& (iter_monotone(pre, post))
    &&& (r is Err ==> post == pre)
    &&& (match pre {
                Phase::Open { members, .. } => {
                    if !has_key(members@, user_id) {
                        r == Err::<(), RoomError>(RoomError::NoSuchUser)
                    } else {
                        let i = key_index(members@, user_id);
                        let e = members@[i].1;
                        if !(e.status matches MemberPresence::Present) {
                            r == Err::<(), RoomError>(RoomError::Unauthorized)
                        } else {
                            r is Ok && exists|mid: Phase|
                                {
                                    &&& mid matches Phase::Open { .. }
                                    &&& mid->Open_joinable == pre->Open_joinable
                                    &&& mid->Open_collectable == pre->Open_collectable
                                    &&& mid->Open_members@ == members@.remove(i)
                                    &&& mid->Open_unready_members as int == pre->Open_unready_members as int - unready_contrib(members@[i])
                                    &&& #[trigger] normalize_post(mid, post)
                                }
                        }
                    }
                },
                Phase::Debate { members, .. } => {
                    if members@.contains(user_id) {
                        &&& r is Ok
                        &&& post matches Phase::Debate { .. }
                        &&& post->Debate_members@ == members@.remove(
                            id_index(members@, user_id),
                        )
                        &&& post->Debate_present == pre->Debate_present
                        &&& post->Debate_answers == pre->Debate_answers
                    } else {
                        r == Err::<(), RoomError>(RoomError::NoSuchUser)
                    }
                },
                _ => r == Err::<(), RoomError>(RoomError::ConnectionRefused),
            })
}

/// Everything `set_joinability` guarantees, as one step relation.
pub open spec fn set_joinability_post(pre: Phase, post: Phase, b: bool, r: Result<(), RoomError>) -> bool {
    &&& (phase_wf(post))
    &&& (iter_monotone(pre, post))
    &&& (r is Err ==> post == pre)
    &&& (match pre {
                Phase::Open { collectable, members, unready_members, .. } => {
                    &&& r is Ok
                    &&& post == (Phase::Open {
                        joinable: b,
                        collectable,
                        members,
                        unready_members,
                    })
                },
                _ => r == Err::<(), RoomError>(RoomError::InvalidSurveyPhase),
            })
}

/// Everything `set_collectability` guarantees, as one step relation.
pub open spec fn set_collectability_post(pre: Phase, post: Phase, b: bool, r: Result<(), RoomError>) -> bool {
    &&& (phase_wf(post))
    &&& (iter_monotone(pre, post))
    &&& (r is Err ==> post == pre)
    &&& (match pre {
                Phase::Open { joinable, members, unready_members, .. } => {
                    r is Ok && exists|mid: Phase|
                        mid == (Phase::Open { joinable, collectable: b, members, unready_members })
                            && #[trigger] normalize_post(mid, post)
                },
                _ => r == Err::<(), RoomError>(RoomError::InvalidSurveyPhase),
            })
}

/// Everything `go` guarantees, as one step relation.
pub open spec fn go_post(pre: Phase, post: Phase, r: Result<(), RoomError>) -> bool {
    &&& (phase_wf(post))
    &&& (iter_monotone(pre, post))
    &&& (r is Err ==> post == pre)
    &&& (match pre {
                Phase::Open { joinable, members, unready_members, .. } => {
                    if unready_members != 0 {
                        r == Err::<(), RoomError>(RoomError::SurveyUnready)
                    } else {
                        r is Ok && exists|mid: Phase|
                            mid == (Phase::Open {
                                joinable,
                                collectable: true,
                                members,
                                unready_members,
                            }) && #[trigger] normalize_post(mid, post)
                    }
                },
                _ => r == Err::<(), RoomError>(RoomError::InvalidSurveyPhase),
            })
}

impl Phase {
    /// Take a member out of the survey, for the given reason.
    ///
    /// In `Open` the member is dropped or marked and the phase is
    /// normalized; in `Encrypt`, `Answers` and `Decrypt` the member is
    /// dropped and the next iteration starts; in `Debate` the member is
    /// dropped. Whoever is not there to be removed leaves the phase
    /// untouched with `NoSuchUser`, and an ineligible `Open` member
    /// (kicked, or disconnecting while not present) leaves it untouched
    /// with `Unauthorized`.
    pub fn remove_user(&mut self, user_id: UserID, reason: RemovalReason) -> (r: Result<
        (),
        RoomError,
    >)
        requires
            phase_wf(*old(self)),
        ensures
            remove_user_post(*old(self), *final(self), user_id, reason, r),
    {
        let ghost before = *self;
        let mut tmp = Phase::Debate { members: Vec::new(), present: Vec::new(), answers: Vec::new() };
        core::mem::swap(self, &mut tmp);
        match tmp {
            Phase::Open { joinable, collectable, mut members, mut unready_members } => {
                match assoc_find(&members, user_id) {
                    None => {
                        *self = Phase::Open { joinable, collectable, members, unready_members };
                        Err(RoomError::NoSuchUser)
                    },
                    Some(i) => {
                        proof {
                            let ki = key_index(members@, user_id);
                            assert(0 <= ki < members@.len() && members@[ki].0 == user_id);
                            assert(ki == i);
                        }
                        let entry = members[i];
                        let refused = match reason {
                            RemovalReason::Disconnected => !matches!(
                                entry.1.status,
                                MemberPresence::Present,
                            ),
                            _ => matches!(entry.1.status, MemberPresence::Kicked),
                        };
                        if refused {
                            *self = Phase::Open { joinable, collectable, members, unready_members };
                            return Err(RoomError::Unauthorized);
                        }
                        if matches!(entry.1.status, MemberPresence::Present) && !entry.1.ready {
                            proof {
                                lemma_count_unready_lower(members@, i as int);
                            }
                            unready_members = unready_members - 1;
                        }
                        let ghost oldm = members@;
                        match reason {
                            RemovalReason::Left => {
                                members.remove(i);
                                proof {
                                    lemma_count_unready_remove(oldm, i as int);
                                }
                            },
                            RemovalReason::Disconnected => {
                                members.set(
                                    i,
                                    (
                                        user_id,
                                        OpenStatus {
                                            status: MemberPresence::Disconnected,
                                            ready: entry.1.ready,
                                        },
                                    ),
                                );
                                proof {
                                    lemma_count_unready_update(oldm, i as int, members@[i as int]);
                                }
                            },
                            RemovalReason::Kicked => {
                                members.set(
                                    i,
                                    (
                                        user_id,
                                        OpenStatus {
                                            status: MemberPresence::Kicked,
                                            ready: entry.1.ready,
                                        },
                                    ),
                                );
                                proof {
                                    lemma_count_unready_update(oldm, i as int, members@[i as int]);
                                }
                            },
                        }
                        *self = Phase::Open { joinable, collectable, members, unready_members };
                        let ghost mid = *self;
                        proof {
                            assert(open_removal_mid(before, mid, user_id, reason));
                            assert(phase_wf(mid));
                        }
                        self.normalize();
                        proof {
                            assert(open_removal_mid(before, mid, user_id, reason)
                                && normalize_post(mid, *self));
                        }
                        Ok(())
                    },
                }
            },
            Phase::Debate { mut members, present, answers } => {
                match ids_find(&members, user_id) {
                    None => {
                        *self = Phase::Debate { members, present, answers };
                        Err(RoomError::NoSuchUser)
                    },
                    Some(i) => {
                        proof {
                            let ki = id_index(members@, user_id);
                            assert(0 <= ki < members@.len() && members@[ki] == user_id);
                            assert(ki == i);
                        }
                        members.remove(i);
                        *self = Phase::Debate { members, present, answers };
                        Ok(())
                    },
                }
            },
            Phase::Encrypt { iteration, mut ready_members, mut unready_members } => {
                match ids_find(&unready_members, user_id) {
                    Some(i) => {
                        proof {
                            let ki = id_index(unready_members@, user_id);
                            assert(0 <= ki < unready_members@.len() && unready_members@[ki]
                                == user_id);
                            assert(ki == i);
                        }
                        unready_members.remove(i);
                        *self = Phase::Encrypt { iteration, ready_members, unready_members };
                        let ghost mid = *self;
                        proof {
                            assert(roster_removal_mid(before, mid, user_id));
                            assert(next_iter_pre(mid));
                        }
                        self.next_iteration();
                        let ghost mid2 = *self;
                        self.normalize();
                        proof {
                            assert(roster_removal_mid(before, mid, user_id) && next_iter_post(
                                mid,
                                mid2,
                            ) && normalize_post(mid2, *self));
                        }
                        Ok(())
                    },
                    None => {
                        match assoc_find(&ready_members, user_id) {
                            Some(i) => {
                                proof {
                                    let ki = key_index(ready_members@, user_id);
                                    assert(0 <= ki < ready_members@.len() && ready_members@[ki].0
                                        == user_id);
                                    assert(ki == i);
                                }
                                ready_members.remove(i);
                                *self = Phase::Encrypt {
                                    iteration,
                                    ready_members,
                                    unready_members,
                                };
                                let ghost mid = *self;
                                proof {
                                    assert(roster_removal_mid(before, mid, user_id));
                                    assert(next_iter_pre(mid));
                                }
                                self.next_iteration();
                                let ghost mid2 = *self;
                                self.normalize();
                                proof {
                                    assert(roster_removal_mid(before, mid, user_id)
                                        && next_iter_post(mid, mid2) && normalize_post(
                                        mid2,
                                        *self,
                                    ));
                                }
                                Ok(())
                            },
                            None => {
                                *self = Phase::Encrypt {
                                    iteration,
                                    ready_members,
                                    unready_members,
                                };
                                Err(RoomError::NoSuchUser)
                            },
                        }
                    },
                }
            },
            Phase::Answers { iteration, mut members, encryption, answers, remaining_answers } => {
                match assoc_find(&members, user_id) {
                    None => {
                        *self = Phase::Answers {
                            iteration,
                            members,
                            encryption,
                            answers,
                            remaining_answers,
                        };
                        Err(RoomError::NoSuchUser)
                    },
                    Some(i) => {
                        proof {
                            let ki = key_index(members@, user_id);
                            assert(0 <= ki < members@.len() && members@[ki].0 == user_id);
                            assert(ki == i);
                        }
                        members.remove(i);
                        *self = Phase::Answers {
                            iteration,
                            members,
                            encryption,
                            answers,
                            remaining_answers,
                        };
                        let ghost mid = *self;
                        proof {
                            assert(roster_removal_mid(before, mid, user_id));
                            assert(next_iter_pre(mid));
                        }
                        self.next_iteration();
                        let ghost mid2 = *self;
                        self.normalize();
                        proof {
                            assert(roster_removal_mid(before, mid, user_id) && next_iter_post(
                                mid,
                                mid2,
                            ) && normalize_post(mid2, *self));
                        }
                        Ok(())
                    },
                }
            },
            Phase::Decrypt { iteration, mut members, encryption, answers, remaining_secrets } => {
                match assoc_find(&members, user_id) {
                    None => {
                        *self = Phase::Decrypt {
                            iteration,
                            members,
                            encryption,
                            answers,
                            remaining_secrets,
                        };
                        Err(RoomError::NoSuchUser)
                    },
                    Some(i) => {
                        proof {
                            let ki = key_index(members@, user_id);
                            assert(0 <= ki < members@.len() && members@[ki].0 == user_id);
                            assert(ki == i);
                        }
                        members.remove(i);
                        *self = Phase::Decrypt {
                            iteration,
                            members,
                            encryption,
                            answers,
                            remaining_secrets,
                        };
                        let ghost mid = *self;
                        proof {
                            assert(roster_removal_mid(before, mid, user_id));
                            assert(next_iter_pre(mid));
                        }
                        self.next_iteration();
                        let ghost mid2 = *self;
                        self.normalize();
                        proof {
                            assert(roster_removal_mid(before, mid, user_id) && next_iter_post(
                                mid,
                                mid2,
                            ) && normalize_post(mid2, *self));
                        }
                        Ok(())
                    },
                }
            },
        }
    }

    /// Let a user join an `Open`, joinable survey: they enter present and
    /// not ready.
    pub fn join(&mut self, user_id: UserID) -> (r: Result<(), RoomError>)
        requires
            phase_wf(*old(self)),
        ensures
            join_post(*old(self), *final(self), user_id, r),
    {
        match self {
            Phase::Open { joinable, members, unready_members, .. } => {
                if !*joinable {
                    return Err(RoomError::SurveyUnjoinable);
                }
                match assoc_find(members, user_id) {
                    Some(_) => Err(RoomError::AlreadyJoined),
                    None => {
                        if members.len() >= 0xFFFF {
                            return Err(RoomError::SurveyUnjoinable);
                        }
                        proof {
                            lemma_count_unready_upper(members@);
                        }
                        let ghost oldm = members@;
                        members.push(
                            (user_id, OpenStatus { status: MemberPresence::Present, ready: false }),
                        );
                        *unready_members = *unready_members + 1;
                        proof {
                            assert(members@.drop_last() =~= oldm);
                            assert(unique_keys(members@));
                        }
                        Ok(())
                    },
                }
            },
            _ => Err(RoomError::SurveyUnjoinable),
        }
    }

    /// Flip the caller's ready flag in `Open`, then normalize.
    pub fn set_ready(&mut self, user_id: UserID) -> (r: Result<(), RoomError>)
        requires
            phase_wf(*old(self)),
        ensures
            set_ready_post(*old(self), *final(self), user_id, r),
    {
        let ghost before = *self;
        let mut tmp = Phase::Debate { members: Vec::new(), present: Vec::new(), answers: Vec::new() };
        core::mem::swap(self, &mut tmp);
        match tmp {
            Phase::Open { joinable, collectable, mut members, mut unready_members } => {
                match assoc_find(&members, user_id) {
                    None => {
                        *self = Phase::Open { joinable, collectable, members, unready_members };
                        Err(RoomError::NoSuchUser)
                    },
                    Some(i) => {
                        proof {
                            let ki = key_index(members@, user_id);
                            assert(0 <= ki < members@.len() && members@[ki].0 == user_id);
                            assert(ki == i);
                        }
                        let entry = members[i];
                        if !matches!(entry.1.status, MemberPresence::Present) {
                            *self = Phase::Open { joinable, collectable, members, unready_members };
                            return Err(RoomError::Unauthorized);
                        }
                        let ghost oldm = members@;
                        if entry.1.ready {
                            proof {
                                let ne = (
                                    user_id,
                                    OpenStatus { status: MemberPresence::Present, ready: false },
                                );
                                lemma_count_unready_update(members@, i as int, ne);
                                lemma_count_unready_upper(members@.update(i as int, ne));
                            }
                            members.set(
                                i,
                                (
                                    user_id,
                                    OpenStatus { status: MemberPresence::Present, ready: false },
                                ),
                            );
                            unready_members = unready_members + 1;
                        } else {
                            proof {
                                lemma_count_unready_lower(members@, i as int);
                                lemma_count_unready_update(
                                    members@,
                                    i as int,
                                    (
                                        user_id,
                                        OpenStatus { status: MemberPresence::Present, ready: true },
                                    ),
                                );
                            }
                            members.set(
                                i,
                                (
                                    user_id,
                                    OpenStatus { status: MemberPresence::Present, ready: true },
                                ),
                            );
                            unready_members = unready_members - 1;
                        }
                        *self = Phase::Open { joinable, collectable, members, unready_members };
                        let ghost mid = *self;
                        proof {
                            assert(phase_wf(mid));
                        }
                        self.normalize();
                        proof {
                            assert(normalize_post(mid, *self));
                        }
                        Ok(())
                    },
                }
            },
            other => {
                *self = other;
                Err(RoomError::InvalidSurveyPhase)
            },
        }
    }

    /// Commit a member's encryption share in `Encrypt`, then normalize.
    pub fn commit_share(&mut self, user_id: UserID, share: PublicKey) -> (r: Result<(), RoomError>)
        requires
            phase_wf(*old(self)),
            share.wf(),
        ensures
            commit_share_post(*old(self), *final(self), user_id, share, r),
    {
        let ghost before = *self;
        let mut tmp = Phase::Debate { members: Vec::new(), present: Vec::new(), answers: Vec::new() };
        core::mem::swap(self, &mut tmp);
        match tmp {
            Phase::Encrypt { iteration, mut ready_members, mut unready_members } => {
                match ids_find(&unready_members, user_id) {
                    None => {
                        let already = assoc_find(&ready_members, user_id);
                        *self = Phase::Encrypt { iteration, ready_members, unready_members };
                        match already {
                            Some(_) => Err(RoomError::AlreadyJoined),
                            None => Err(RoomError::NoSuchUser),
                        }
                    },
                    Some(i) => {
                        proof {
                            let ki = id_index(unready_members@, user_id);
                            assert(0 <= ki < unready_members@.len() && unready_members@[ki]
                                == user_id);
                            assert(ki == i);
                        }
                        unready_members.remove(i);
                        let ghost oldr = ready_members@;
                        ready_members.push((user_id, share));
                        proof {
                            assert(ready_members@.drop_last() =~= oldr);
                        }
                        *self = Phase::Encrypt { iteration, ready_members, unready_members };
                        let ghost mid = *self;
                        proof {
                            assert(phase_wf(mid));
                        }
                        self.normalize();
                        proof {
                            assert(normalize_post(mid, *self));
                        }
                        Ok(())
                    },
                }
            },
            other => {
                *self = other;
                Err(RoomError::InvalidSurveyPhase)
            },
        }
    }

    /// Accept one sealed answer in `Answers`, then normalize. The caller
    /// has already checked the answer's signatures; the phase checks the
    /// iteration binding.
    pub fn add_answer(&mut self, ans: Answer) -> (r: Result<(), RoomError>)
        requires
            phase_wf(*old(self)),
            ans.wf(),
        ensures
            add_answer_post(*old(self), *final(self), ans, r),
    {
        let ghost before = *self;
        let mut tmp = Phase::Debate { members: Vec::new(), present: Vec::new(), answers: Vec::new() };
        core::mem::swap(self, &mut tmp);
        match tmp {
            Phase::Answers { iteration, members, encryption, mut answers, remaining_answers } => {
                if ans.iteration != iteration {
                    *self = Phase::Answers {
                        iteration,
                        members,
                        encryption,
                        answers,
                        remaining_answers,
                    };
                    return Err(RoomError::StaleIteration);
                }
                if remaining_answers == 0 {
                    *self = Phase::Answers {
                        iteration,
                        members,
                        encryption,
                        answers,
                        remaining_answers,
                    };
                    return Err(RoomError::InvalidSurveyPhase);
                }
                let ghost olda = answers@;
                answers.push(ans);
                proof {
                    assert(answers@.drop_last() =~= olda);
                }
                *self = Phase::Answers {
                    iteration,
                    members,
                    encryption,
                    answers,
                    remaining_answers: remaining_answers - 1,
                };
                let ghost mid = *self;
                proof {
                    assert(phase_wf(mid));
                }
                self.normalize();
                proof {
                    assert(normalize_post(mid, *self));
                }
                Ok(())
            },
            other => {
                *self = other;
                Err(RoomError::InvalidSurveyPhase)
            },
        }
    }

    /// Accept a member's revealed secret share in `Decrypt`, then
    /// normalize. The share must own the commitment the member made.
    pub fn reveal_secret(&mut self, user_id: UserID, secret: SecretKey) -> (r: Result<
        (),
        RoomError,
    >)
        requires
            phase_wf(*old(self)),
            secret.wf(),
        ensures
            reveal_secret_post(*old(self), *final(self), user_id, secret, r),
    {
        let ghost before = *self;
        let mut tmp = Phase::Debate { members: Vec::new(), present: Vec::new(), answers: Vec::new() };
        core::mem::swap(self, &mut tmp);
        match tmp {
            Phase::Decrypt { iteration, mut members, encryption, answers, remaining_secrets } => {
                match assoc_find(&members, user_id) {
                    None => {
                        *self = Phase::Decrypt {
                            iteration,
                            members,
                            encryption,
                            answers,
                            remaining_secrets,
                        };
                        Err(RoomError::NoSuchUser)
                    },
                    Some(i) => {
                        proof {
                            let ki = key_index(members@, user_id);
                            assert(0 <= ki < members@.len() && members@[ki].0 == user_id);
                            assert(ki == i);
                        }
                        let entry = members[i];
                        if entry.1.secret_key.is_some() {
                            *self = Phase::Decrypt {
                                iteration,
                                members,
                                encryption,
                                answers,
                                remaining_secrets,
                            };
                            return Err(RoomError::AlreadyJoined);
                        }
                        let owned = point_mul_base_exec(&secret.bytes);
                        if !crate::group::ct_eq(&owned, &entry.1.public_key.bytes) {
                            *self = Phase::Decrypt {
                                iteration,
                                members,
                                encryption,
                                answers,
                                remaining_secrets,
                            };
                            return Err(RoomError::Crypto(crate::errors::CryptoError::BadSignature));
                        }
                        let ghost oldm = members@;
                        let newentry = (
                            user_id,
                            DecryptStatus {
                                public_key: entry.1.public_key,
                                secret_key: Some(secret),
                            },
                        );
                        proof {
                            lemma_count_missing_lower(members@, i as int);
                            lemma_count_missing_update(members@, i as int, newentry);
                            lemma_sum_shares_update(members@, i as int, newentry);
                        }
                        members.set(i, newentry);
                        *self = Phase::Decrypt {
                            iteration,
                            members,
                            encryption,
                            answers,
                            remaining_secrets: remaining_secrets - 1,
                        };
                        let ghost mid = *self;
                        proof {
                            assert(phase_wf(mid));
                        }
                        self.normalize();
                        proof {
                            assert(normalize_post(mid, *self));
                        }
                        Ok(())
                    },
                }
            },
            other => {
                *self = other;
                Err(RoomError::InvalidSurveyPhase)
            },
        }
    }

    /// Restore a kicked member of an `Open` survey to presence.
    pub fn unkick(&mut self, user_id: UserID) -> (r: Result<(), RoomError>)
        requires
            phase_wf(*old(self)),
        ensures
            unkick_post(*old(self), *final(self), user_id, r),
    {
        match self {
            Phase::Open { members, unready_members, .. } => {
                match assoc_find(members, user_id) {
                    None => Err(RoomError::NoSuchUser),
                    Some(i) => {
                        proof {
                            let ki = key_index(members@, user_id);
                            assert(0 <= ki < members@.len() && members@[ki].0 == user_id);
                            assert(ki == i);
                        }
                        let entry = members[i];
                        if !matches!(entry.1.status, MemberPresence::Kicked) {
                            return Err(RoomError::Unauthorized);
                        }
                        let newentry = (
                            user_id,
                            OpenStatus { status: MemberPresence::Present, ready: entry.1.ready },
                        );
                        proof {
                            lemma_count_unready_update(members@, i as int, newentry);
                            lemma_count_unready_upper(members@.update(i as int, newentry));
                        }
                        members.set(i, newentry);
                        if !entry.1.ready {
                            *unready_members = *unready_members + 1;
                        }
                        Ok(())
                    },
                }
            },
            _ => Err(RoomError::InvalidSurveyPhase),
        }
    }

    /// Record that a user connected: a present `Open` member is dropped
    /// from the roster, a `Debate` member is dropped from the member set.
    pub fn connected(&mut self, user_id: UserID) -> (r: Result<(), RoomError>)
        requires
            phase_wf(*old(self)),
        ensures
            connected_post(*old(self), *final(self), user_id, r),
    {
        let ghost before = *self;
        let mut tmp = Phase::Debate { members: Vec::new(), present: Vec::new(), answers: Vec::new() };
        core::mem::swap(self, &mut tmp);
        match tmp {
            Phase::Open { joinable, collectable, mut members, mut unready_members } => {
                match assoc_find(&members, user_id) {
                    None => {
                        *self = Phase::Open { joinable, collectable, members, unready_members };
                        Err(RoomError::NoSuchUser)
                    },
                    Some(i) => {
                        proof {
                            let ki = key_index(members@, user_id);
                            assert(0 <= ki < members@.len() && members@[ki].0 == user_id);
                            assert(ki == i);
                        }
                        let entry = members[i];
                        if !matches!(entry.1.status, MemberPresence::Present) {
                            *self = Phase::Open { joinable, collectable, members, unready_members };
                            return Err(RoomError::Unauthorized);
                        }
                        if !entry.1.ready {
                            proof {
                                lemma_count_unready_lower(members@, i as int);
                            }
                            unready_members = unready_members - 1;
                        }
                        let ghost oldm = members@;
                        members.remove(i);
                        proof {
                            lemma_count_unready_remove(oldm, i as int);
                        }
                        *self = Phase::Open { joinable, collectable, members, unready_members };
                        let ghost mid = *self;
                        proof {
                            assert(phase_wf(mid));
                        }
                        self.normalize();
                        proof {
                            assert(normalize_post(mid, *self));
                        }
                        Ok(())
                    },
                }
            },
            Phase::Debate { mut members, present, answers } => {
                match ids_find(&members, user_id) {
                    None => {
                        *self = Phase::Debate { members, present, answers };
                        Err(RoomError::NoSuchUser)
                    },
                    Some(i) => {
                        proof {
                            let ki = id_index(members@, user_id);
                            assert(0 <= ki < members@.len() && members@[ki] == user_id);
                            assert(ki == i);
                        }
                        members.remove(i);
                        *self = Phase::Debate { members, present, answers };
                        Ok(())
                    },
                }
            },
            other => {
                *self = other;
                Err(RoomError::ConnectionRefused)
            },
        }
    }

    /// Set whether members may still join; only meaningful in `Open`.
    pub fn set_joinability(&mut self, b: bool) -> (r: Result<(), RoomError>)
        requires
            phase_wf(*old(self)),
        ensures
            set_joinability_post(*old(self), *final(self), b, r),
    {
        match self {
            Phase::Open { joinable, .. } => {
                *joinable = b;
                Ok(())
            },
            _ => Err(RoomError::InvalidSurveyPhase),
        }
    }

    /// Set whether the collection of shares may start; only meaningful in
    /// `Open`, and normalizes, so setting it with nobody left unready
    /// starts `Encrypt`.
    pub fn set_collectability(&mut self, b: bool) -> (r: Result<(), RoomError>)
        requires
            phase_wf(*old(self)),
        ensures
            set_collectability_post(*old(self), *final(self), b, r),
    {
        match self {
            Phase::Open { collectable, .. } => {
                *collectable = b;
            },
            _ => {
                return Err(RoomError::InvalidSurveyPhase);
            },
        }
        let ghost mid = *self;
        self.normalize();
        proof {
            assert(normalize_post(mid, *self));
        }
        Ok(())
    }

    /// Force progress out of `Open`: acts as if collection were allowed for
    /// one normalization step; fails with `SurveyUnready` while members are
    /// still unready.
    pub fn go(&mut self) -> (r: Result<(), RoomError>)
        requires
            phase_wf(*old(self)),
        ensures
            go_post(*old(self), *final(self), r),
    {
        match self {
            Phase::Open { collectable, unready_members, .. } => {
                if *unready_members != 0 {
                    return Err(RoomError::SurveyUnready);
                }
                *collectable = true;
            },
            _ => {
                return Err(RoomError::InvalidSurveyPhase);
            },
        }
        let ghost mid = *self;
        self.normalize();
        proof {
            assert(normalize_post(mid, *self));
        }
        Ok(())
    }
}

} // verus!
