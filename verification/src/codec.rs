//! The byte-exact wire encoding of survey transactions.
//!
//! Integers are little-endian; group elements and scalars are 32-byte
//! canonical encodings, rejected on input when non-canonical; strings are
//! length-prefixed UTF-8; sequences are length-prefixed; tagged unions
//! carry one tag byte, and an unknown tag is fatal at decode time.
//!
//! Every decoder states its half of the round trip: any buffer carrying
//! the encoding of a well-formed value decodes to a value that says the
//! same thing.

use vstd::prelude::*;

use crate::answer::Answer;
use crate::bytes::push_slice;
use crate::bytes::push_u16_le;
use crate::bytes::push_u32_le;
use crate::bytes::push_u64_le;
use crate::bytes::read_u16_le;
use crate::bytes::read_u32_le;
use crate::bytes::read_u64_le;
use crate::bytes::u16_le;
use crate::bytes::u32_le;
use crate::bytes::u64_le;
use crate::group::Bin;
use crate::group::point_valid;
use crate::group::scalar_valid;
use crate::ids::AnswerID;
use crate::ids::MaskID;
use crate::ids::Nonce;
use crate::ids::QuestionID;
use crate::ids::UserID;
use crate::identity::IdentityID;
use crate::identity::SurveyIdentityID;
use crate::ring::RingSig;
use crate::schnorr::PublicKey;
use crate::schnorr::SecretKey;
use crate::schnorr::Sig;
use crate::survey::ringsig_equiv;

verus! {

/// The UTF-8 bytes of a string; what `str::as_bytes` returns.
pub uninterp spec fn utf8_of(s: Seq<char>) -> Seq<u8>;

/// Whether bytes are valid UTF-8; what `String::from_utf8` accepts.
pub uninterp spec fn utf8_valid(b: Seq<u8>) -> bool;

/// Relies on `str::as_bytes`: the UTF-8 bytes of the string, which are
/// valid UTF-8, no longer than `u32` can count for any string this codec
/// accepts.
#[verifier::external_body]
fn string_to_bytes(s: &String) -> (r: Vec<u8>)
    ensures
        r@ == utf8_of(s@),
        utf8_valid(r@),
{
    s.as_bytes().to_vec()
}

/// Relies on `String::from_utf8`: it accepts exactly valid UTF-8, and on a
/// string's own bytes it returns that string back.
#[verifier::external_body]
fn bytes_to_string(b: Vec<u8>) -> (r: Option<String>)
    ensures
        r is Some <==> utf8_valid(b@),
        r matches Some(s) ==> utf8_of(s@) == b@,
        forall|c: Seq<char>| b@ == utf8_of(c) ==> r is Some && r->0@ == c,
{
    match String::from_utf8(b) {
        Ok(s) => Some(s),
        Err(_) => None,
    }
}

/// Append a string: a 32-bit length, then the UTF-8 bytes.
fn push_string(out: &mut Vec<u8>, s: &String)
    requires
        utf8_of(s@).len() <= 0xFFFF_FFFF,
    ensures
        final(out)@ == old(out)@ + enc_string(s@),
{
    let b = string_to_bytes(s);
    proof {
        assert(b@.len() <= 0xFFFF_FFFF);
    }
    push_u32_le(out, b.len() as u32);
    push_slice(out, b.as_slice());
    proof {
        assert(final(out)@ =~= old(out)@ + enc_string(s@));
    }
}

/// The encoding of a string.
pub open spec fn enc_string(s: Seq<char>) -> Seq<u8> {
    u32_le(utf8_of(s).len() as u32) + utf8_of(s)
}

/// Read a 32-byte block.
fn read_bin(b: &Vec<u8>, pos: usize) -> (r: Bin)
    requires
        pos + 32 <= b@.len(),
    ensures
        r@ == b@.subrange(pos as int, pos + 32),
{
    let n: usize = b.len();
    let mut arr: Bin = [0u8; 32];
    let mut i: usize = 0;
    while i < 32
        invariant
            i <= 32,
            n == b@.len(),
            pos + 32 <= n,
            arr@.len() == 32,
            forall|j: int| 0 <= j < i ==> arr@[j] == b@[pos + j],
        decreases 32 - i,
    {
        arr[i] = b[pos + i];
        i = i + 1;
    }
    proof {
        assert(arr@ =~= b@.subrange(pos as int, pos + 32));
    }
    arr
}

/// Read a string: its length, then its UTF-8 bytes.
fn read_string(b: &Vec<u8>, pos: usize) -> (r: Option<(String, usize)>)
    requires
        pos <= b@.len(),
    ensures
        r matches Some((s, p2)) ==> pos <= p2 <= b@.len() && enc_string(s@) == b@.subrange(
            pos as int,
            p2 as int,
        ) && utf8_of(s@).len() <= 0xFFFF_FFFF,
        forall|c: Seq<char>|
            (utf8_of(c).len() <= 0xFFFF_FFFF && pos + enc_string(c).len() <= b@.len()
                && b@.subrange(pos as int, pos + enc_string(c).len()) == enc_string(c)) ==> r
                is Some && (r->0).0@ == c && (r->0).1 == pos + enc_string(c).len(),
{
    let n: usize = b.len();
    if n - pos < 4 {
        proof {
            assert forall|c: Seq<char>|
                (utf8_of(c).len() <= 0xFFFF_FFFF && pos + enc_string(c).len() <= b@.len()
                    && b@.subrange(pos as int, pos + enc_string(c).len()) == enc_string(c))
                implies false by {
                assert(enc_string(c).len() >= 4);
            }
        }
        return None;
    }
    let len = read_u32_le(b, pos);
    proof {
        assert forall|c: Seq<char>|
            (utf8_of(c).len() <= 0xFFFF_FFFF && pos + enc_string(c).len() <= b@.len()
                && b@.subrange(pos as int, pos + enc_string(c).len()) == enc_string(c)) implies (
        b@.subrange(pos as int, pos + 4) == u32_le(utf8_of(c).len() as u32)) by {
            assert(b@.subrange(pos as int, pos + 4) =~= enc_string(c).subrange(0, 4));
            assert(enc_string(c).subrange(0, 4) =~= u32_le(utf8_of(c).len() as u32));
        }
    }
    let l = len as usize;
    if l > n - (pos + 4) {
        proof {
            assert forall|c: Seq<char>|
                (utf8_of(c).len() <= 0xFFFF_FFFF && pos + enc_string(c).len() <= b@.len()
                    && b@.subrange(pos as int, pos + enc_string(c).len()) == enc_string(c))
                implies false by {
                assert(len == utf8_of(c).len() as u32);
            }
        }
        return None;
    }
    let mut payload: Vec<u8> = Vec::new();
    let mut i: usize = 0;
    while i < l
        invariant
            i <= l,
            n == b@.len(),
            pos + 4 + l <= n,
            payload@ == b@.subrange(pos + 4, pos + 4 + i as int),
        decreases l - i,
    {
        payload.push(b[pos + 4 + i]);
        i = i + 1;
        proof {
            assert(payload@ =~= b@.subrange(pos + 4, pos + 4 + i as int));
        }
    }
    let ghost payload_view = payload@;
    match bytes_to_string(payload) {
        Some(s) => {
            proof {
                assert forall|c: Seq<char>|
                    (utf8_of(c).len() <= 0xFFFF_FFFF && pos + enc_string(c).len() <= b@.len()
                        && b@.subrange(pos as int, pos + enc_string(c).len()) == enc_string(c))
                    implies s@ == c && pos + 4 + l == pos + enc_string(c).len() by {
                    assert(b@.subrange(pos as int, pos + 4) =~= enc_string(c).subrange(0, 4));
                    assert(enc_string(c).subrange(0, 4) =~= u32_le(utf8_of(c).len() as u32));
                    assert(len == utf8_of(c).len() as u32);
                    assert(l == utf8_of(c).len());
                    assert(payload_view =~= enc_string(c).subrange(4, enc_string(c).len() as int));
                    assert(enc_string(c).subrange(4, enc_string(c).len() as int) =~= utf8_of(c));
                    assert(payload_view == utf8_of(c));
                }
            }
            proof {
                assert(utf8_of(s@) == payload_view);
                assert(enc_string(s@) =~= b@.subrange(pos as int, pos + 4 + l));
            }
            Some((s, pos + 4 + l))
        },
        None => {
            proof {
                assert forall|c: Seq<char>|
                    (utf8_of(c).len() <= 0xFFFF_FFFF && pos + enc_string(c).len() <= b@.len()
                        && b@.subrange(pos as int, pos + enc_string(c).len()) == enc_string(c))
                    implies false by {
                    assert(b@.subrange(pos as int, pos + 4) =~= enc_string(c).subrange(0, 4));
                    assert(enc_string(c).subrange(0, 4) =~= u32_le(utf8_of(c).len() as u32));
                    assert(len == utf8_of(c).len() as u32);
                    assert(l == utf8_of(c).len());
                    assert(payload_view =~= enc_string(c).subrange(4, enc_string(c).len() as int));
                    assert(enc_string(c).subrange(4, enc_string(c).len() as int) =~= utf8_of(c));
                    assert(payload_view == utf8_of(c));
                }
            }
            None
        },
    }
}

/// The encoding of a survey-chain identity: a tag byte, then the
/// identifier.
pub open spec fn enc_identity(id: SurveyIdentityID) -> Seq<u8> {
    match id {
        IdentityID::RoomID => seq![0u8],
        IdentityID::User(u) => seq![1u8] + u16_le(u.0),
        IdentityID::Mask(m) => seq![2u8] + u32_le(m.0),
        IdentityID::Answer(a) => seq![3u8] + seq![a.0],
    }
}

/// Append a survey-chain identity.
fn push_identity(out: &mut Vec<u8>, id: SurveyIdentityID)
    ensures
        final(out)@ == old(out)@ + enc_identity(id),
{
    match id {
        IdentityID::RoomID => {
            out.push(0u8);
        },
        IdentityID::User(u) => {
            out.push(1u8);
            push_u16_le(out, u.0);
        },
        IdentityID::Mask(m) => {
            out.push(2u8);
            push_u32_le(out, m.0);
        },
        IdentityID::Answer(a) => {
            out.push(3u8);
            out.push(a.0);
        },
    }
    proof {
        assert(final(out)@ =~= old(out)@ + enc_identity(id));
    }
}

/// Read a survey-chain identity.
fn read_identity(b: &Vec<u8>, pos: usize) -> (r: Option<(SurveyIdentityID, usize)>)
    requires
        pos <= b@.len(),
    ensures
        r matches Some((v, p2)) ==> pos <= p2 <= b@.len() && enc_identity(v) == b@.subrange(
            pos as int,
            p2 as int,
        ),
        forall|x: SurveyIdentityID|
            (pos + enc_identity(x).len() <= b@.len() && b@.subrange(
                pos as int,
                pos + enc_identity(x).len(),
            ) == enc_identity(x)) ==> r is Some && (r->0).0 == x && (r->0).1 == pos + enc_identity(
                x,
            ).len(),
{
    let n: usize = b.len();
    if pos >= n {
        return None;
    }
    proof {
        assert forall|x: SurveyIdentityID|
            (pos + enc_identity(x).len() <= b@.len() && b@.subrange(
                pos as int,
                pos + enc_identity(x).len(),
            ) == enc_identity(x)) implies b@[pos as int] == enc_identity(x)[0] by {}
    }
    let tag = b[pos];
    if tag == 0 {
        proof {
            assert(enc_identity(IdentityID::RoomID) =~= b@.subrange(pos as int, pos + 1));
        }
        Some((IdentityID::RoomID, pos + 1))
    } else if tag == 1 {
        if n - pos < 3 {
            return None;
        }
        let u = read_u16_le(b, pos + 1);
        proof {
            assert forall|x: SurveyIdentityID|
                (pos + enc_identity(x).len() <= b@.len() && b@.subrange(
                    pos as int,
                    pos + enc_identity(x).len(),
                ) == enc_identity(x) && x matches IdentityID::User(uu)) implies b@.subrange(
                pos + 1,
                pos + 3,
            ) == u16_le((x->User_0).0) by {
                assert(b@.subrange(pos + 1, pos + 3) =~= enc_identity(x).subrange(1, 3));
                assert(enc_identity(x).subrange(1, 3) =~= u16_le(x->User_0.0));
            }
        }
        proof {
            assert(enc_identity(IdentityID::User(UserID(u))) =~= b@.subrange(pos as int, pos + 3));
        }
        Some((IdentityID::User(UserID(u)), pos + 3))
    } else if tag == 2 {
        if n - pos < 5 {
            return None;
        }
        let m = read_u32_le(b, pos + 1);
        proof {
            assert forall|x: SurveyIdentityID|
                (pos + enc_identity(x).len() <= b@.len() && b@.subrange(
                    pos as int,
                    pos + enc_identity(x).len(),
                ) == enc_identity(x) && x matches IdentityID::Mask(mm)) implies b@.subrange(
                pos + 1,
                pos + 5,
            ) == u32_le((x->Mask_0).0) by {
                assert(b@.subrange(pos + 1, pos + 5) =~= enc_identity(x).subrange(1, 5));
                assert(enc_identity(x).subrange(1, 5) =~= u32_le(x->Mask_0.0));
            }
        }
        proof {
            assert(enc_identity(IdentityID::Mask(MaskID(m))) =~= b@.subrange(pos as int, pos + 5));
        }
        Some((IdentityID::Mask(MaskID(m)), pos + 5))
    } else if tag == 3 {
        if n - pos < 2 {
            return None;
        }
        let a = b[pos + 1];
        proof {
            assert forall|x: SurveyIdentityID|
                (pos + enc_identity(x).len() <= b@.len() && b@.subrange(
                    pos as int,
                    pos + enc_identity(x).len(),
                ) == enc_identity(x) && x matches IdentityID::Answer(aa)) implies a == (
            x->Answer_0).0 by {
                assert(b@[pos + 1] == enc_identity(x)[1]);
            }
        }
        proof {
            assert(enc_identity(IdentityID::Answer(AnswerID(a))) =~= b@.subrange(
                pos as int,
                pos + 2,
            ));
        }
        Some((IdentityID::Answer(AnswerID(a)), pos + 2))
    } else {
        None
    }
}

/// Two string lists say the same things, in the same order.
pub open spec fn strings_equiv(x: Seq<String>, y: Seq<String>) -> bool {
    x.len() == y.len() && forall|i: int| 0 <= i < x.len() ==> (#[trigger] x[i])@ == y[i]@
}

/// Every string of a list fits its length prefix.
pub open spec fn strings_wf(x: Seq<String>) -> bool {
    forall|i: int| 0 <= i < x.len() ==> utf8_of((#[trigger] x[i])@).len() <= 0xFFFF_FFFF
}

/// The encoding of a string list: a 32-bit count, then each string.
pub open spec fn enc_strings(x: Seq<String>) -> Seq<u8> {
    u32_le(x.len() as u32) + enc_strings_items(x)
}

/// The back-to-back encodings of the strings of a list.
pub open spec fn enc_strings_items(x: Seq<String>) -> Seq<u8>
    decreases x.len(),
{
    if x.len() == 0 {
        Seq::<u8>::empty()
    } else {
        enc_string(x.first()@) + enc_strings_items(x.drop_first())
    }
}

/// Append a string list.
fn push_strings(out: &mut Vec<u8>, x: &Vec<String>)
    requires
        strings_wf(x@),
        x@.len() <= 0xFFFF_FFFF,
    ensures
        final(out)@ == old(out)@ + enc_strings(x@),
{
    push_u32_le(out, x.len() as u32);
    let ghost base = out@;
    let mut i: usize = 0;
    while i < x.len()
        invariant
            i <= x@.len(),
            strings_wf(x@),
            out@ == base + enc_strings_items(x@.take(i as int)),
        decreases x@.len() - i,
    {
        push_string(out, &x[i]);
        i = i + 1;
        proof {
            lemma_enc_strings_items_take(x@, i as int);
        }
    }
    proof {
        assert(x@.take(x@.len() as int) =~= x@);
        assert(final(out)@ =~= old(out)@ + enc_strings(x@));
    }
}

/// Taking one more string appends exactly its encoding.
proof fn lemma_enc_strings_items_take(x: Seq<String>, i: int)
    requires
        0 < i <= x.len(),
    ensures
        enc_strings_items(x.take(i)) == enc_strings_items(x.take(i - 1)) + enc_string(x[i - 1]@),
    decreases i,
{
    if i == 1 {
        assert(x.take(1).first() == x[0]);
        assert(x.take(1).drop_first() =~= Seq::<String>::empty());
        assert(x.take(0) =~= Seq::<String>::empty());
        assert(enc_strings_items(x.take(1)) =~= enc_string(x[0]@));
        assert(enc_strings_items(x.take(0)) + enc_string(x[0]@) =~= enc_string(x[0]@));
    } else {
        assert(x.take(i).first() == x[0]);
        assert(x.take(i).drop_first() =~= x.drop_first().take(i - 1));
        assert(x.take(i - 1).first() == x[0]);
        assert(x.take(i - 1).drop_first() =~= x.drop_first().take(i - 2));
        lemma_enc_strings_items_take(x.drop_first(), i - 1);
        assert(x.drop_first().take(i - 1)[i - 2] == x[i - 1]);
        assert(enc_strings_items(x.take(i)) == enc_string(x[0]@) + enc_strings_items(
            x.drop_first().take(i - 1),
        ));
        assert(enc_strings_items(x.take(i - 1)) == enc_string(x[0]@) + enc_strings_items(
            x.drop_first().take(i - 2),
        ));
        assert(enc_strings_items(x.take(i)) =~= enc_strings_items(x.take(i - 1)) + enc_string(
            x[i - 1]@,
        ));
    }
}

/// Read a string list.
#[verifier::spinoff_prover]
#[verifier::rlimit(100)]
fn read_strings(b: &Vec<u8>, pos: usize) -> (r: Option<(Vec<String>, usize)>)
    requires
        pos <= b@.len(),
    ensures
        r matches Some((v, p2)) ==> pos <= p2 <= b@.len() && strings_wf(v@) && v@.len()
            <= 0xFFFF_FFFF && enc_strings(v@) == b@.subrange(pos as int, p2 as int),
        forall|x: Seq<String>|
            (strings_wf(x) && x.len() <= 0xFFFF_FFFF && pos + enc_strings(x).len() <= b@.len()
                && b@.subrange(pos as int, pos + enc_strings(x).len()) == enc_strings(x)) ==> r
                is Some && strings_equiv((r->0).0@, x) && (r->0).1 == pos + enc_strings(x).len(),
{
    let n: usize = b.len();
    if n - pos < 4 {
        proof {
            assert forall|x: Seq<String>|
                (strings_wf(x) && x.len() <= 0xFFFF_FFFF && pos + enc_strings(x).len() <= b@.len()
                    && b@.subrange(pos as int, pos + enc_strings(x).len()) == enc_strings(x))
                implies false by {
                assert(enc_strings(x).len() >= 4);
            }
        }
        return None;
    }
    let count = read_u32_le(b, pos);
    proof {
        assert forall|x: Seq<String>|
            (strings_wf(x) && x.len() <= 0xFFFF_FFFF && pos + enc_strings(x).len() <= b@.len()
                && b@.subrange(pos as int, pos + enc_strings(x).len()) == enc_strings(x)) implies (
        count == x.len() as u32) by {
            assert(b@.subrange(pos as int, pos + 4) =~= enc_strings(x).subrange(0, 4));
            assert(enc_strings(x).subrange(0, 4) =~= u32_le(x.len() as u32));
        }
    }
    let total = count as usize;
    proof {
        assert forall|x: Seq<String>|
            (strings_wf(x) && x.len() <= 0xFFFF_FFFF && pos + enc_strings(x).len() <= b@.len()
                && b@.subrange(pos as int, pos + enc_strings(x).len()) == enc_strings(x)) implies
            #[trigger] strings_equiv(x.take(0), x.take(0)) && x.len() == total by {
            assert(b@.subrange(pos as int, pos + 4) =~= enc_strings(x).subrange(0, 4));
            assert(enc_strings(x).subrange(0, 4) =~= u32_le(x.len() as u32));
        }
    }
    let mut out: Vec<String> = Vec::new();
    let mut cur: usize = pos + 4;
    let mut k: usize = 0;
    proof {
        assert(enc_strings_items(out@) =~= b@.subrange(pos + 4, cur as int));
    }
    while k < total
        invariant
            k <= total,
            n == b@.len(),
            total == count as usize,
            u32_le(count) == b@.subrange(pos as int, pos + 4),
            forall|v: u32| b@.subrange(pos as int, pos + 4) == u32_le(v) ==> count == v,
            pos + 4 <= cur <= n,
            out@.len() == k,
            strings_wf(out@),
            enc_strings_items(out@) == b@.subrange(pos + 4, cur as int),
            // The trivially true first conjunct only anchors the trigger;
            // the invariant says that any list the buffer encodes here has
            // exactly `total` entries.
            forall|x: Seq<String>|
                (strings_wf(x) && x.len() <= 0xFFFF_FFFF && pos + enc_strings(x).len() <= b@.len()
                    && b@.subrange(pos as int, pos + enc_strings(x).len()) == enc_strings(x))
                    ==> #[trigger] strings_equiv(x.take(0), x.take(0)) && x.len() == total,
            forall|x: Seq<String>|
                (strings_wf(x) && x.len() == total && pos + enc_strings(x).len() <= b@.len()
                    && b@.subrange(pos as int, pos + enc_strings(x).len()) == enc_strings(x))
                    ==> #[trigger] strings_equiv(out@, x.take(k as int)) && cur == pos + 4
                    + enc_strings_items(x.take(k as int)).len(),
        decreases total - k,
    {
        let ghost prev = out@;
        let ghost kold = k as int;
        let ghost curold = cur as int;
        match read_string(b, cur) {
            None => {
                proof {
                    assert forall|x: Seq<String>|
                        (strings_wf(x) && x.len() <= 0xFFFF_FFFF && pos + enc_strings(x).len()
                            <= b@.len() && b@.subrange(pos as int, pos + enc_strings(x).len())
                            == enc_strings(x)) implies false by {
                        assert(strings_equiv(x.take(0), x.take(0)));
                        assert(x.len() == total);
                        assert(strings_equiv(prev, x.take(kold)));
                        lemma_enc_strings_suffix(x, kold, pos as int, b@);
                    }
                }
                return None;
            },
            Some((s, p2)) => {
                out.push(s);
                cur = p2;
                k = k + 1;
                proof {
                    lemma_enc_strings_items_take(out@, k as int);
                    assert(out@.take(k as int) =~= out@);
                    assert(out@.take(k as int - 1) =~= prev);
                    assert(enc_strings_items(out@) == enc_strings_items(prev) + enc_string(s@));
                    assert(enc_strings_items(out@) =~= b@.subrange(pos + 4, cur as int));
                    assert(strings_wf(out@));
                    assert forall|x: Seq<String>|
                        (strings_wf(x) && x.len() == total && pos + enc_strings(x).len()
                            <= b@.len() && b@.subrange(pos as int, pos + enc_strings(x).len())
                            == enc_strings(x)) implies #[trigger] strings_equiv(
                        out@,
                        x.take(k as int),
                    ) && cur == pos + 4 + enc_strings_items(x.take(k as int)).len() by {
                        assert(strings_equiv(prev, x.take(kold)));
                        lemma_enc_strings_suffix(x, kold, pos as int, b@);
                        assert(s@ == x[kold]@ && p2 == curold + enc_string(x[kold]@).len());
                        lemma_enc_strings_items_take(x, kold + 1);
                        assert(x.take(k as int)[kold] == x[kold]);
                        assert forall|m: int|
                            0 <= m < out@.len() implies (#[trigger] out@[m])@ == x.take(
                            k as int,
                        )[m]@ by {
                            if m < kold {
                                assert(prev[m]@ == x.take(kold)[m]@);
                                assert(x.take(kold)[m] == x[m]);
                                assert(x.take(k as int)[m] == x[m]);
                            }
                        }
                        assert(strings_equiv(out@, x.take(k as int)));
                        assert(enc_strings_items(x.take(k as int)) == enc_strings_items(
                            x.take(kold),
                        ) + enc_string(x[kold]@));
                        assert(cur == pos + 4 + enc_strings_items(x.take(k as int)).len());
                    }
                    assert forall|x: Seq<String>|
                        (strings_wf(x) && x.len() <= 0xFFFF_FFFF && pos + enc_strings(x).len()
                            <= b@.len() && b@.subrange(pos as int, pos + enc_strings(x).len())
                            == enc_strings(x)) implies #[trigger] strings_equiv(
                        x.take(0),
                        x.take(0),
                    ) && x.len() == total by {
                        assert(b@.subrange(pos as int, pos + 4) =~= enc_strings(x).subrange(0, 4));
                        assert(enc_strings(x).subrange(0, 4) =~= u32_le(x.len() as u32));
                    }
                }
            },
        }
    }
    proof {
        assert forall|x: Seq<String>|
            (strings_wf(x) && x.len() <= 0xFFFF_FFFF && pos + enc_strings(x).len() <= b@.len()
                && b@.subrange(pos as int, pos + enc_strings(x).len()) == enc_strings(x)) implies (
        strings_equiv(out@, x) && cur == pos + enc_strings(x).len()) by {
            assert(strings_equiv(x.take(0), x.take(0)));
            assert(b@.subrange(pos as int, pos + 4) =~= enc_strings(x).subrange(0, 4));
            assert(enc_strings(x).subrange(0, 4) =~= u32_le(x.len() as u32));
            assert(x.len() == total);
            assert(strings_equiv(out@, x.take(x.len() as int)));
            assert(x.take(x.len() as int) =~= x);
            assert(strings_equiv(out@, x));
        }
    }
    proof {
        assert(u32_le(count) == b@.subrange(pos as int, pos + 4));
        assert(count == out@.len() as u32);
        assert(enc_strings(out@) =~= b@.subrange(pos as int, cur as int));
    }
    Some((out, cur))
}

/// After `k` strings, the buffer still carries the encoding of string `k`
/// at the running position.
proof fn lemma_enc_strings_suffix(x: Seq<String>, k: int, pos: int, b: Seq<u8>)
    requires
        strings_wf(x),
        0 <= k < x.len(),
        pos + enc_strings(x).len() <= b.len(),
        0 <= pos,
        b.subrange(pos, pos + enc_strings(x).len()) == enc_strings(x),
    ensures
        ({
            let cur = pos + 4 + enc_strings_items(x.take(k)).len();
            &&& utf8_of(x[k]@).len() <= 0xFFFF_FFFF
            &&& cur + enc_string(x[k]@).len() <= b.len()
            &&& b.subrange(cur, cur + enc_string(x[k]@).len()) == enc_string(x[k]@)
        }),
    decreases x.len(),
{
    lemma_enc_strings_items_take(x, k + 1);
    lemma_items_prefix(x, k + 1);
    let tk = enc_strings_items(x.take(k)).len() as int;
    let ex = enc_string(x[k]@);
    let cur = pos + 4 + tk;
    assert(enc_strings_items(x.take(k + 1)) == enc_strings_items(x.take(k)) + ex);
    assert(enc_strings_items(x.take(k + 1)).len() == tk + ex.len());
    assert(enc_strings_items(x).subrange(0, tk + ex.len()) == enc_strings_items(x.take(k + 1)));
    assert(tk + ex.len() <= enc_strings_items(x).len());
    assert forall|m: int| 0 <= m < ex.len() implies b[cur + m] == ex[m] by {
        assert(enc_strings_items(x).subrange(0, tk + ex.len())[tk + m] == enc_strings_items(
            x,
        )[tk + m]);
        assert(enc_strings_items(x.take(k + 1))[tk + m] == ex[m]);
        assert(enc_strings(x)[4 + tk + m] == enc_strings_items(x)[tk + m]);
        assert(b.subrange(pos, pos + enc_strings(x).len())[4 + tk + m] == enc_strings(x)[4 + tk
            + m]);
        assert(b[pos + 4 + tk + m] == enc_strings(x)[4 + tk + m]);
    }
    assert(b.subrange(cur, cur + ex.len()) =~= ex);
}

/// A transaction of a survey chain: the chain it belongs to, its author,
/// its events and the author's running nonce. Carried on the wire inside
/// [`crate::schnorr::Signed`].
#[derive(Clone, Debug, PartialEq, Eq)]
pub struct SurveyTransaction {
    pub chain: QuestionID,
    pub from: SurveyIdentityID,
    pub events: Vec<crate::survey::SurveyEvent>,
    pub nonce: Nonce,
}

/// The encoding of a scalar list: each 32-byte block back to back.
pub open spec fn enc_bins(x: Seq<Bin>) -> Seq<u8>
    decreases x.len(),
{
    if x.len() == 0 {
        Seq::<u8>::empty()
    } else {
        x.first()@ + enc_bins(x.drop_first())
    }
}

/// Taking one more block appends exactly its bytes.
proof fn lemma_enc_bins_take(x: Seq<Bin>, i: int)
    requires
        0 < i <= x.len(),
    ensures
        enc_bins(x.take(i)) == enc_bins(x.take(i - 1)) + x[i - 1]@,
    decreases i,
{
    if i == 1 {
        assert(x.take(1).first() == x[0]);
        assert(x.take(1).drop_first() =~= Seq::<Bin>::empty());
        assert(x.take(0) =~= Seq::<Bin>::empty());
        assert(enc_bins(x.take(1)) == x.take(1).first()@ + enc_bins(x.take(1).drop_first()));
        assert(enc_bins(Seq::<Bin>::empty()) =~= Seq::<u8>::empty());
        assert(enc_bins(x.take(1)) =~= x[0]@);
        assert(enc_bins(x.take(0)) + x[0]@ =~= x[0]@);
    } else {
        assert(x.take(i).first() == x[0]);
        assert(x.take(i).drop_first() =~= x.drop_first().take(i - 1));
        assert(x.take(i - 1).first() == x[0]);
        assert(x.take(i - 1).drop_first() =~= x.drop_first().take(i - 2));
        lemma_enc_bins_take(x.drop_first(), i - 1);
        assert(x.drop_first().take(i - 1)[i - 2] == x[i - 1]);
        assert(enc_bins(x.take(i)) =~= enc_bins(x.take(i - 1)) + x[i - 1]@);
    }
}

/// The encoding of a scalar list is 32 bytes per entry.
proof fn lemma_enc_bins_len(x: Seq<Bin>)
    ensures
        enc_bins(x).len() == 32 * x.len(),
    decreases x.len(),
{
    if x.len() > 0 {
        lemma_enc_bins_len(x.drop_first());
    }
}

/// The encoded blocks of a prefix are a prefix of the encoded blocks.
proof fn lemma_bins_prefix(x: Seq<Bin>, j: int)
    requires
        0 <= j <= x.len(),
    ensures
        enc_bins(x.take(j)).len() <= enc_bins(x).len(),
        enc_bins(x).subrange(0, enc_bins(x.take(j)).len() as int) == enc_bins(x.take(j)),
    decreases x.len() - j,
{
    if j == x.len() {
        assert(x.take(j) =~= x);
        assert(enc_bins(x).subrange(0, enc_bins(x).len() as int) =~= enc_bins(x));
    } else {
        lemma_bins_prefix(x, j + 1);
        lemma_enc_bins_take(x, j + 1);
        assert(enc_bins(x).subrange(0, enc_bins(x.take(j)).len() as int) =~= enc_bins(x.take(j)));
    }
}

/// After `k` blocks, the buffer still carries block `k` at the running
/// position.
proof fn lemma_enc_bins_suffix(x: Seq<Bin>, k: int, pos: int, b: Seq<u8>)
    requires
        0 <= k < x.len(),
        0 <= pos,
        pos + enc_bins(x).len() <= b.len(),
        b.subrange(pos, pos + enc_bins(x).len()) == enc_bins(x),
    ensures
        ({
            let cur = pos + enc_bins(x.take(k)).len();
            cur + 32 <= b.len() && b.subrange(cur, cur + 32) == x[k]@
        }),
{
    lemma_enc_bins_take(x, k + 1);
    lemma_bins_prefix(x, k + 1);
    let tk = enc_bins(x.take(k)).len() as int;
    let cur = pos + tk;
    assert(enc_bins(x.take(k + 1)) == enc_bins(x.take(k)) + x[k]@);
    assert(enc_bins(x).subrange(0, tk + 32) == enc_bins(x.take(k + 1)));
    assert forall|m: int| 0 <= m < 32 implies b[cur + m] == x[k]@[m] by {
        assert(enc_bins(x).subrange(0, tk + 32)[tk + m] == enc_bins(x)[tk + m]);
        assert(enc_bins(x.take(k + 1))[tk + m] == x[k]@[m]);
        assert(b.subrange(pos, pos + enc_bins(x).len())[tk + m] == enc_bins(x)[tk + m]);
        assert(b[pos + tk + m] == enc_bins(x)[tk + m]);
    }
    assert(b.subrange(cur, cur + 32) =~= x[k]@);
}

/// Append a scalar list, without a count.
fn push_bins(out: &mut Vec<u8>, x: &Vec<Bin>)
    ensures
        final(out)@ == old(out)@ + enc_bins(x@),
{
    let ghost base = out@;
    let mut i: usize = 0;
    while i < x.len()
        invariant
            i <= x@.len(),
            out@ == base + enc_bins(x@.take(i as int)),
        decreases x@.len() - i,
    {
        push_slice(out, &x[i]);
        i = i + 1;
        proof {
            lemma_enc_bins_take(x@, i as int);
        }
    }
    proof {
        assert(x@.take(x@.len() as int) =~= x@);
    }
}

/// Read `count` scalar blocks, all canonically reduced.
fn read_scalars(b: &Vec<u8>, pos: usize, count: usize) -> (r: Option<(Vec<Bin>, usize)>)
    requires
        pos <= b@.len(),
    ensures
        r matches Some((v, p2)) ==> {
            &&& pos <= p2 <= b@.len()
            &&& v@.len() == count
            &&& (forall|j: int| 0 <= j < v@.len() ==> scalar_valid((#[trigger] v@[j])@))
            &&& enc_bins(v@) == b@.subrange(pos as int, p2 as int)
        },
        forall|x: Seq<Bin>|
            ((forall|j: int| 0 <= j < x.len() ==> scalar_valid((#[trigger] x[j])@)) && x.len()
                == count && pos + enc_bins(x).len() <= b@.len() && b@.subrange(
                pos as int,
                pos + enc_bins(x).len(),
            ) == enc_bins(x)) ==> r is Some && (r->0).0@ == x && (r->0).1 == pos + enc_bins(
                x,
            ).len(),
{
    let n: usize = b.len();
    let mut out: Vec<Bin> = Vec::new();
    let mut cur: usize = pos;
    let mut k: usize = 0;
    proof {
        assert(enc_bins(out@) =~= b@.subrange(pos as int, cur as int));
    }
    while k < count
        invariant
            k <= count,
            n == b@.len(),
            pos <= cur <= n,
            out@.len() == k,
            forall|j: int| 0 <= j < k ==> scalar_valid((#[trigger] out@[j])@),
            enc_bins(out@) == b@.subrange(pos as int, cur as int),
            forall|x: Seq<Bin>|
                ((forall|j: int| 0 <= j < x.len() ==> scalar_valid((#[trigger] x[j])@)) && x.len()
                    == count && pos + enc_bins(x).len() <= b@.len() && b@.subrange(
                    pos as int,
                    pos + enc_bins(x).len(),
                ) == enc_bins(x)) ==> #[trigger] x.take(k as int) == out@ && cur == pos + enc_bins(
                    x.take(k as int),
                ).len(),
        decreases count - k,
    {
        let ghost kold = k as int;
        let ghost curold = cur as int;
        let ghost prev = out@;
        proof {
            assert forall|x: Seq<Bin>|
                ((forall|j: int| 0 <= j < x.len() ==> scalar_valid((#[trigger] x[j])@)) && x.len()
                    == count && pos + enc_bins(x).len() <= b@.len() && b@.subrange(
                    pos as int,
                    pos + enc_bins(x).len(),
                ) == enc_bins(x)) implies curold + 32 <= b@.len() && b@.subrange(
                curold,
                curold + 32,
            ) == x[kold]@ && scalar_valid(x[kold]@) by {
                assert(x.take(kold) == out@);
                lemma_enc_bins_suffix(x, kold, pos as int, b@);
            }
        }
        if n - cur < 32 {
            return None;
        }
        let blk = read_bin(b, cur);
        if !crate::group::scalar_check(&blk) {
            return None;
        }
        out.push(blk);
        cur = cur + 32;
        k = k + 1;
        proof {
            lemma_enc_bins_take(out@, k as int);
            assert(out@.take(k as int) =~= out@);
            assert(out@.take(k as int - 1) =~= prev);
            assert(enc_bins(out@) =~= b@.subrange(pos as int, cur as int));
            assert forall|x: Seq<Bin>|
                ((forall|j: int| 0 <= j < x.len() ==> scalar_valid((#[trigger] x[j])@)) && x.len()
                    == count && pos + enc_bins(x).len() <= b@.len() && b@.subrange(
                    pos as int,
                    pos + enc_bins(x).len(),
                ) == enc_bins(x)) implies #[trigger] x.take(k as int) == out@ && cur == pos
                + enc_bins(x.take(k as int)).len() by {
                assert(x.take(kold) == prev);
                lemma_enc_bins_suffix(x, kold, pos as int, b@);
                assert(blk == x[kold]);
                lemma_enc_bins_take(x, k as int);
                assert(x.take(k as int).drop_last() =~= x.take(kold));
                assert(x.take(k as int).last() == x[kold]);
                assert(x.take(k as int) =~= prev.push(blk));
                assert(x.take(k as int) == out@);
            }
        }
    }
    proof {
        assert forall|x: Seq<Bin>|
            ((forall|j: int| 0 <= j < x.len() ==> scalar_valid((#[trigger] x[j])@)) && x.len()
                == count && pos + enc_bins(x).len() <= b@.len() && b@.subrange(
                pos as int,
                pos + enc_bins(x).len(),
            ) == enc_bins(x)) implies out@ == x && cur == pos + enc_bins(x).len() by {
            assert(x.take(count as int) == out@);
            assert(x.take(count as int) =~= x);
        }
    }
    Some((out, cur))
}

/// The encoding of a Schnorr signature: its two scalars.
pub open spec fn enc_sig(s: Sig) -> Seq<u8> {
    s.c@ + s.a@
}

/// Append a Schnorr signature.
fn push_sig(out: &mut Vec<u8>, s: &Sig)
    ensures
        final(out)@ == old(out)@ + enc_sig(*s),
{
    push_slice(out, &s.c);
    push_slice(out, &s.a);
    proof {
        assert(final(out)@ =~= old(out)@ + enc_sig(*s));
    }
}

/// Read a Schnorr signature, both scalars canonically reduced; the
/// encoding of any well-formed signature decodes back to it.
fn read_sig(b: &Vec<u8>, pos: usize) -> (r: Option<(Sig, usize)>)
    requires
        pos <= b@.len(),
    ensures
        r matches Some((v, p2)) ==> pos <= p2 <= b@.len() && v.wf() && enc_sig(v) == b@.subrange(
            pos as int,
            p2 as int,
        ),
        forall|x: Sig|
            (x.wf() && pos + 64 <= b@.len() && b@.subrange(pos as int, pos + 64) == enc_sig(x))
                ==> r is Some && (r->0).0 == x && (r->0).1 == pos + 64,
{
    let n: usize = b.len();
    if n - pos < 64 {
        return None;
    }
    let c = read_bin(b, pos);
    let a = read_bin(b, pos + 32);
    proof {
        assert forall|x: Sig|
            (x.wf() && pos + 64 <= b@.len() && b@.subrange(pos as int, pos + 64) == enc_sig(x))
            implies c == x.c && a == x.a by {
            assert(c@ =~= enc_sig(x).subrange(0, 32));
            assert(enc_sig(x).subrange(0, 32) =~= x.c@);
            assert(a@ =~= enc_sig(x).subrange(32, 64));
            assert(enc_sig(x).subrange(32, 64) =~= x.a@);
            assert(c =~= x.c);
            assert(a =~= x.a);
        }
    }
    if !crate::group::scalar_check(&c) || !crate::group::scalar_check(&a) {
        return None;
    }
    let v = Sig { c, a };
    proof {
        assert(enc_sig(v) =~= b@.subrange(pos as int, pos + 64));
    }
    Some((v, pos + 64))
}

/// Read a public key: 32 bytes that must be a canonical encoding; the
/// bytes of any well-formed key decode back to it.
fn read_pubkey(b: &Vec<u8>, pos: usize) -> (r: Option<(PublicKey, usize)>)
    requires
        pos <= b@.len(),
    ensures
        r matches Some((v, p2)) ==> pos <= p2 <= b@.len() && v.wf() && v.bytes@ == b@.subrange(
            pos as int,
            p2 as int,
        ),
        forall|x: PublicKey|
            (x.wf() && pos + 32 <= b@.len() && b@.subrange(pos as int, pos + 32) == x.bytes@)
                ==> r is Some && (r->0).0 == x && (r->0).1 == pos + 32,
{
    let n: usize = b.len();
    if n - pos < 32 {
        return None;
    }
    let k = read_bin(b, pos);
    proof {
        assert forall|x: PublicKey|
            (x.wf() && pos + 32 <= b@.len() && b@.subrange(pos as int, pos + 32) == x.bytes@)
            implies k == x.bytes by {
            assert(k =~= x.bytes);
        }
    }
    if !crate::group::point_check(&k) {
        return None;
    }
    Some((PublicKey { bytes: k }, pos + 32))
}

/// The encoding of a ring signature: the line point, the slot count, the
/// challenges, the answers.
pub open spec fn enc_ringsig(rs: RingSig) -> Seq<u8> {
    rs.a1@ + u32_le(rs.c@.len() as u32) + enc_bins(rs.c@) + enc_bins(rs.z@)
}

/// A ring signature the codec can frame: one pair per slot, counted by a
/// 32-bit integer.
pub open spec fn ringsig_cwf(rs: RingSig) -> bool {
    rs.c@.len() == rs.z@.len() && rs.c@.len() <= 0xFFFF_FFFF
}

/// Append a ring signature.
fn push_ringsig(out: &mut Vec<u8>, rs: &RingSig)
    requires
        ringsig_cwf(*rs),
    ensures
        final(out)@ == old(out)@ + enc_ringsig(*rs),
{
    push_slice(out, &rs.a1);
    push_u32_le(out, rs.c.len() as u32);
    push_bins(out, &rs.c);
    push_bins(out, &rs.z);
    proof {
        assert(final(out)@ =~= old(out)@ + enc_ringsig(*rs));
    }
}

/// The completeness hypothesis of the ring-signature decoder: the buffer
/// carries the encoding of the well-formed `x` at `pos`.
pub open spec fn ringsig_at(x: RingSig, b: Seq<u8>, pos: int) -> bool {
    &&& x.wf()
    &&& ringsig_cwf(x)
    &&& 0 <= pos
    &&& pos + enc_ringsig(x).len() <= b.len()
    &&& b.subrange(pos, pos + enc_ringsig(x).len()) == enc_ringsig(x)
}

/// Read a ring signature; its scalars must be canonically reduced. The
/// encoding of any well-formed, framable signature decodes back to one
/// carrying the same data.
fn read_ringsig(b: &Vec<u8>, pos: usize) -> (r: Option<(RingSig, usize)>)
    requires
        pos <= b@.len(),
    ensures
        r matches Some((v, p2)) ==> {
            &&& pos <= p2 <= b@.len()
            &&& v.wf()
            &&& ringsig_cwf(v)
            &&& enc_ringsig(v) == b@.subrange(pos as int, p2 as int)
        },
        forall|x: RingSig|
            #[trigger] ringsig_at(x, b@, pos as int) ==> r is Some && ringsig_equiv((r->0).0, x)
                && (r->0).1 == pos + enc_ringsig(x).len(),
{
    let n: usize = b.len();
    if n - pos < 36 {
        proof {
            assert forall|x: RingSig| ringsig_at(x, b@, pos as int) implies false by {
                lemma_enc_bins_len(x.c@);
                lemma_enc_bins_len(x.z@);
            }
        }
        return None;
    }
    let a1 = read_bin(b, pos);
    let count = read_u32_le(b, pos + 32);
    proof {
        assert forall|x: RingSig| ringsig_at(x, b@, pos as int) implies {
            let nc = x.c@.len() as int;
            &&& a1 == x.a1
            &&& count == x.c@.len() as u32
            &&& pos + 36 + enc_bins(x.c@).len() <= b@.len()
            &&& b@.subrange(pos + 36, pos + 36 + enc_bins(x.c@).len()) == enc_bins(x.c@)
            &&& b@.subrange(
                pos + 36 + enc_bins(x.c@).len(),
                pos + 36 + enc_bins(x.c@).len() + enc_bins(x.z@).len(),
            ) == enc_bins(x.z@)
        } by {
            lemma_enc_bins_len(x.c@);
            lemma_enc_bins_len(x.z@);
            assert(a1@ =~= enc_ringsig(x).subrange(0, 32));
            assert(enc_ringsig(x).subrange(0, 32) =~= x.a1@);
            assert(a1 =~= x.a1);
            assert(b@.subrange(pos + 32, pos + 36) =~= enc_ringsig(x).subrange(32, 36));
            assert(enc_ringsig(x).subrange(32, 36) =~= u32_le(x.c@.len() as u32));
            let lc = enc_bins(x.c@).len() as int;
            let lz = enc_bins(x.z@).len() as int;
            assert forall|m: int| 0 <= m < lc implies b@[pos + 36 + m] == enc_bins(x.c@)[m] by {
                assert(b@.subrange(pos as int, pos + enc_ringsig(x).len())[36 + m]
                    == enc_ringsig(x)[36 + m]);
                assert(enc_ringsig(x)[36 + m] == enc_bins(x.c@)[m]);
            }
            assert(b@.subrange(pos + 36, pos + 36 + lc) =~= enc_bins(x.c@));
            assert forall|m: int| 0 <= m < lz implies b@[pos + 36 + lc + m] == enc_bins(x.z@)[m] by {
                assert(b@.subrange(pos as int, pos + enc_ringsig(x).len())[36 + lc + m]
                    == enc_ringsig(x)[36 + lc + m]);
                assert(enc_ringsig(x)[36 + lc + m] == enc_bins(x.z@)[m]);
            }
            assert(b@.subrange(pos + 36 + lc, pos + 36 + lc + lz) =~= enc_bins(x.z@));
        }
    }
    let c = match read_scalars(b, pos + 36, count as usize) {
        Some((c, p)) => (c, p),
        None => {
            return None;
        },
    };
    let (cv, pc) = c;
    let z = match read_scalars(b, pc, count as usize) {
        Some((z, p)) => (z, p),
        None => {
            return None;
        },
    };
    let (zv, pz) = z;
    let v = RingSig { a1, c: cv, z: zv };
    proof {
        assert(enc_ringsig(v) =~= b@.subrange(pos as int, pz as int));
    }
    Some((v, pz))
}

/// The encoding of a sealed answer.
pub open spec fn enc_answer(a: Answer) -> Seq<u8> {
    a.sign_key.bytes@ + a.encrypt_key.bytes@ + u64_le(a.iteration) + a.answer@ + enc_ringsig(
        a.ring_sig,
    ) + enc_sig(a.sig)
}

/// An answer the codec can frame: well-formed, with a framable ring
/// signature.
pub open spec fn answer_cwf(a: Answer) -> bool {
    a.wf() && ringsig_cwf(a.ring_sig)
}

/// Append a sealed answer.
fn push_answer(out: &mut Vec<u8>, a: &Answer)
    requires
        answer_cwf(*a),
    ensures
        final(out)@ == old(out)@ + enc_answer(*a),
{
    push_slice(out, &a.sign_key.bytes);
    push_slice(out, &a.encrypt_key.bytes);
    push_u64_le(out, a.iteration);
    push_slice(out, a.answer.as_slice());
    push_ringsig(out, &a.ring_sig);
    push_sig(out, &a.sig);
    proof {
        assert(final(out)@ =~= old(out)@ + enc_answer(*a));
    }
}

/// The completeness hypothesis of the answer decoder: the buffer carries
/// the encoding of the well-formed, framable `x` at `pos`.
pub open spec fn answer_at(x: Answer, b: Seq<u8>, pos: int) -> bool {
    &&& answer_cwf(x)
    &&& 0 <= pos
    &&& pos + enc_answer(x).len() <= b.len()
    &&& b.subrange(pos, pos + enc_answer(x).len()) == enc_answer(x)
}

/// The field layout of an encoded answer: where each of its six parts
/// stands in the buffer.
proof fn lemma_answer_fields(x: Answer, b: Seq<u8>, pos: int)
    requires
        answer_at(x, b, pos),
    ensures
        ({
            let lrs = enc_ringsig(x.ring_sig).len() as int;
            &&& enc_answer(x).len() == 436 + lrs
            &&& lrs >= 36
            &&& b.subrange(pos, pos + 32) == x.sign_key.bytes@
            &&& b.subrange(pos + 32, pos + 64) == x.encrypt_key.bytes@
            &&& b.subrange(pos + 64, pos + 72) == u64_le(x.iteration)
            &&& b.subrange(pos + 72, pos + 372) == x.answer@
            &&& ringsig_at(x.ring_sig, b, pos + 372)
            &&& b.subrange(pos + 372 + lrs, pos + 436 + lrs) == enc_sig(x.sig)
        }),
{
    lemma_enc_bins_len(x.ring_sig.c@);
    lemma_enc_bins_len(x.ring_sig.z@);
    let lrs = enc_ringsig(x.ring_sig).len() as int;
    let ex = enc_answer(x);
    assert forall|m: int| 0 <= m < 32 implies b[pos + m] == x.sign_key.bytes@[m] by {
        assert(b.subrange(pos, pos + ex.len())[m] == ex[m]);
        assert(ex[m] == x.sign_key.bytes@[m]);
    }
    assert(b.subrange(pos, pos + 32) =~= x.sign_key.bytes@);
    assert forall|m: int| 0 <= m < 32 implies b[pos + 32 + m] == x.encrypt_key.bytes@[m] by {
        assert(b.subrange(pos, pos + ex.len())[32 + m] == ex[32 + m]);
        assert(ex[32 + m] == x.encrypt_key.bytes@[m]);
    }
    assert(b.subrange(pos + 32, pos + 64) =~= x.encrypt_key.bytes@);
    assert forall|m: int| 0 <= m < 8 implies b[pos + 64 + m] == u64_le(x.iteration)[m] by {
        assert(b.subrange(pos, pos + ex.len())[64 + m] == ex[64 + m]);
        assert(ex[64 + m] == u64_le(x.iteration)[m]);
    }
    assert(b.subrange(pos + 64, pos + 72) =~= u64_le(x.iteration));
    assert forall|m: int| 0 <= m < 300 implies b[pos + 72 + m] == x.answer@[m] by {
        assert(b.subrange(pos, pos + ex.len())[72 + m] == ex[72 + m]);
        assert(ex[72 + m] == x.answer@[m]);
    }
    assert(b.subrange(pos + 72, pos + 372) =~= x.answer@);
    assert forall|m: int| 0 <= m < lrs implies b[pos + 372 + m] == enc_ringsig(x.ring_sig)[m] by {
        assert(b.subrange(pos, pos + ex.len())[372 + m] == ex[372 + m]);
        assert(ex[372 + m] == enc_ringsig(x.ring_sig)[m]);
    }
    assert(b.subrange(pos + 372, pos + 372 + lrs) =~= enc_ringsig(x.ring_sig));
    assert forall|m: int| 0 <= m < 64 implies b[pos + 372 + lrs + m] == enc_sig(x.sig)[m] by {
        assert(b.subrange(pos, pos + ex.len())[372 + lrs + m] == ex[372 + lrs + m]);
        assert(ex[372 + lrs + m] == enc_sig(x.sig)[m]);
    }
    assert(b.subrange(pos + 372 + lrs, pos + 436 + lrs) =~= enc_sig(x.sig));
}

/// Read a sealed answer; every cryptographic field must be canonical and
/// the box exactly sized. The encoding of any well-formed, framable answer
/// decodes back to one carrying the same data.
fn read_answer(b: &Vec<u8>, pos: usize) -> (r: Option<(Answer, usize)>)
    requires
        pos <= b@.len(),
    ensures
        r matches Some((v, p2)) ==> {
            &&& pos <= p2 <= b@.len()
            &&& answer_cwf(v)
            &&& enc_answer(v) == b@.subrange(pos as int, p2 as int)
        },
        forall|x: Answer|
            #[trigger] answer_at(x, b@, pos as int) ==> r is Some && crate::survey::answer_equiv(
                (r->0).0,
                x,
            ) && (r->0).1 == pos + enc_answer(x).len(),
{
    let n: usize = b.len();
    proof {
        assert forall|x: Answer| answer_at(x, b@, pos as int) implies {
            &&& pos + 32 <= b@.len()
            &&& b@.subrange(pos as int, pos + 32) == x.sign_key.bytes@
            &&& x.sign_key.wf()
        } by {
            lemma_answer_fields(x, b@, pos as int);
        }
    }
    let (sign_key, p1) = match read_pubkey(b, pos) {
        Some(x) => x,
        None => {
            return None;
        },
    };
    proof {
        assert forall|x: Answer| answer_at(x, b@, pos as int) implies {
            &&& sign_key == x.sign_key
            &&& p1 == pos + 32
            &&& p1 + 32 <= b@.len()
            &&& b@.subrange(p1 as int, p1 + 32) == x.encrypt_key.bytes@
            &&& x.encrypt_key.wf()
        } by {
            lemma_answer_fields(x, b@, pos as int);
        }
    }
    let (encrypt_key, p2) = match read_pubkey(b, p1) {
        Some(x) => x,
        None => {
            return None;
        },
    };
    proof {
        assert forall|x: Answer| answer_at(x, b@, pos as int) implies {
            &&& encrypt_key == x.encrypt_key
            &&& p2 == pos + 64
            &&& p2 + 8 <= b@.len()
            &&& b@.subrange(p2 as int, p2 + 8) == u64_le(x.iteration)
        } by {
            lemma_answer_fields(x, b@, pos as int);
        }
    }
    if n - p2 < 8 {
        proof {
            assert forall|x: Answer| answer_at(x, b@, pos as int) implies false by {
                lemma_answer_fields(x, b@, pos as int);
            }
        }
        return None;
    }
    let iteration = read_u64_le(b, p2);
    let p3 = p2 + 8;
    if n - p3 < 300 {
        proof {
            assert forall|x: Answer| answer_at(x, b@, pos as int) implies false by {
                lemma_answer_fields(x, b@, pos as int);
            }
        }
        return None;
    }
    let mut sealed: Vec<u8> = Vec::new();
    let mut i: usize = 0;
    while i < 300
        invariant
            i <= 300,
            n == b@.len(),
            p3 + 300 <= n,
            sealed@ == b@.subrange(p3 as int, p3 + i as int),
        decreases 300 - i,
    {
        sealed.push(b[p3 + i]);
        i = i + 1;
        proof {
            assert(sealed@ =~= b@.subrange(p3 as int, p3 + i as int));
        }
    }
    let p4 = p3 + 300;
    proof {
        assert forall|x: Answer| answer_at(x, b@, pos as int) implies {
            &&& iteration == x.iteration
            &&& sealed@ == x.answer@
            &&& p4 == pos + 372
            &&& ringsig_at(x.ring_sig, b@, p4 as int)
        } by {
            lemma_answer_fields(x, b@, pos as int);
            assert(sealed@ =~= x.answer@);
        }
    }
    let (ring_sig, p5) = match read_ringsig(b, p4) {
        Some(x) => x,
        None => {
            return None;
        },
    };
    proof {
        assert forall|x: Answer| answer_at(x, b@, pos as int) implies {
            &&& crate::survey::ringsig_equiv(ring_sig, x.ring_sig)
            &&& p5 == pos + 372 + enc_ringsig(x.ring_sig).len()
            &&& p5 + 64 <= b@.len()
            &&& b@.subrange(p5 as int, p5 + 64) == enc_sig(x.sig)
            &&& x.sig.wf()
        } by {
            lemma_answer_fields(x, b@, pos as int);
        }
    }
    let (sig, p6) = match read_sig(b, p5) {
        Some(x) => x,
        None => {
            return None;
        },
    };
    let v = Answer { sign_key, encrypt_key, iteration, answer: sealed, ring_sig, sig };
    proof {
        assert(enc_answer(v) =~= b@.subrange(pos as int, p6 as int));
        assert forall|x: Answer| answer_at(x, b@, pos as int) implies crate::survey::answer_equiv(
            v,
            x,
        ) && p6 == pos + enc_answer(x).len() by {
            lemma_answer_fields(x, b@, pos as int);
        }
    }
    Some((v, p6))
}

/// A room-chain identity seen through the survey vocabulary; the codec
/// frames a question's author this way.
pub open spec fn widen_identity(id: crate::identity::RoomIdentityID) -> SurveyIdentityID {
    match id {
        IdentityID::RoomID => IdentityID::RoomID,
        IdentityID::User(u) => IdentityID::User(u),
        IdentityID::Mask(m) => IdentityID::Mask(m),
        IdentityID::Answer(_) => IdentityID::RoomID,
    }
}

/// The encoding of a question's kind.
pub open spec fn enc_kind(k: crate::question::QuestionKind) -> Seq<u8> {
    match k {
        crate::question::QuestionKind::Open => seq![0u8],
        crate::question::QuestionKind::Closed => seq![1u8],
        crate::question::QuestionKind::Poll(opts) => seq![2u8] + enc_strings(opts@),
    }
}

/// A kind the codec can frame.
pub open spec fn kind_cwf(k: crate::question::QuestionKind) -> bool {
    match k {
        crate::question::QuestionKind::Poll(opts) => strings_wf(opts@) && opts@.len()
            <= 0xFFFF_FFFF,
        _ => true,
    }
}

/// The encoding of a question.
pub open spec fn enc_question(q: crate::question::Question) -> Seq<u8> {
    u16_le(q.id.0) + enc_identity(widen_identity(q.from)) + enc_kind(q.kind) + enc_string(
        q.question@,
    ) + enc_strings(q.clarifications@)
}

/// A question the codec can frame: its author is never an answer slot and
/// its strings fit their prefixes.
pub open spec fn question_cwf(q: crate::question::Question) -> bool {
    &&& !(q.from matches IdentityID::Answer(_))
    &&& kind_cwf(q.kind)
    &&& utf8_of(q.question@).len() <= 0xFFFF_FFFF
    &&& strings_wf(q.clarifications@)
    &&& q.clarifications@.len() <= 0xFFFF_FFFF
}

/// Append a question's kind.
fn push_kind(out: &mut Vec<u8>, k: &crate::question::QuestionKind)
    requires
        kind_cwf(*k),
    ensures
        final(out)@ == old(out)@ + enc_kind(*k),
{
    match k {
        crate::question::QuestionKind::Open => {
            out.push(0u8);
        },
        crate::question::QuestionKind::Closed => {
            out.push(1u8);
        },
        crate::question::QuestionKind::Poll(opts) => {
            out.push(2u8);
            push_strings(out, opts);
        },
    }
    proof {
        assert(final(out)@ =~= old(out)@ + enc_kind(*k));
    }
}

/// Two question kinds say the same thing.
pub open spec fn kind_equiv(a: crate::question::QuestionKind, b: crate::question::QuestionKind) -> bool {
    match (a, b) {
        (crate::question::QuestionKind::Open, crate::question::QuestionKind::Open) => true,
        (crate::question::QuestionKind::Closed, crate::question::QuestionKind::Closed) => true,
        (crate::question::QuestionKind::Poll(o1), crate::question::QuestionKind::Poll(o2)) => strings_equiv(
            o1@,
            o2@,
        ),
        _ => false,
    }
}

/// The completeness hypothesis of the kind decoder.
pub open spec fn kind_at(x: crate::question::QuestionKind, b: Seq<u8>, pos: int) -> bool {
    &&& kind_cwf(x)
    &&& 0 <= pos
    &&& pos + enc_kind(x).len() <= b.len()
    &&& b.subrange(pos, pos + enc_kind(x).len()) == enc_kind(x)
}

/// Read a question's kind; the encoding of any framable kind decodes back
/// to one saying the same thing.
fn read_kind(b: &Vec<u8>, pos: usize) -> (r: Option<(crate::question::QuestionKind, usize)>)
    requires
        pos <= b@.len(),
    ensures
        r matches Some((v, p2)) ==> {
            &&& pos <= p2 <= b@.len()
            &&& kind_cwf(v)
            &&& enc_kind(v) == b@.subrange(pos as int, p2 as int)
        },
        forall|x: crate::question::QuestionKind|
            #[trigger] kind_at(x, b@, pos as int) ==> r is Some && kind_equiv((r->0).0, x) && (
            r->0).1 == pos + enc_kind(x).len(),
{
    let n: usize = b.len();
    if pos >= n {
        return None;
    }
    let tag = b[pos];
    proof {
        assert forall|x: crate::question::QuestionKind|
            kind_at(x, b@, pos as int) implies tag == enc_kind(x)[0] && (x matches
        crate::question::QuestionKind::Poll(opts) ==> {
            &&& strings_wf(opts@)
            &&& opts@.len() <= 0xFFFF_FFFF
            &&& pos + 1 + enc_strings(opts@).len() <= b@.len()
            &&& b@.subrange(pos + 1, pos + 1 + enc_strings(opts@).len()) == enc_strings(opts@)
        }) by {
            assert(b@.subrange(pos as int, pos + enc_kind(x).len())[0] == enc_kind(x)[0]);
            match x {
                crate::question::QuestionKind::Poll(opts) => {
                    let ls = enc_strings(opts@).len() as int;
                    assert forall|m: int| 0 <= m < ls implies b@[pos + 1 + m] == enc_strings(
                        opts@,
                    )[m] by {
                        assert(b@.subrange(pos as int, pos + enc_kind(x).len())[1 + m]
                            == enc_kind(x)[1 + m]);
                        assert(enc_kind(x)[1 + m] == enc_strings(opts@)[m]);
                    }
                    assert(b@.subrange(pos + 1, pos + 1 + ls) =~= enc_strings(opts@));
                },
                _ => {},
            }
        }
    }
    if tag == 0 {
        proof {
            assert(enc_kind(crate::question::QuestionKind::Open) =~= b@.subrange(
                pos as int,
                pos + 1,
            ));
        }
        Some((crate::question::QuestionKind::Open, pos + 1))
    } else if tag == 1 {
        proof {
            assert(enc_kind(crate::question::QuestionKind::Closed) =~= b@.subrange(
                pos as int,
                pos + 1,
            ));
        }
        Some((crate::question::QuestionKind::Closed, pos + 1))
    } else if tag == 2 {
        match read_strings(b, pos + 1) {
            Some((opts, p2)) => {
                let v = crate::question::QuestionKind::Poll(opts);
                proof {
                    assert(enc_kind(v) =~= b@.subrange(pos as int, p2 as int));
                }
                Some((v, p2))
            },
            None => None,
        }
    } else {
        None
    }
}

/// Append a question.
fn push_question(out: &mut Vec<u8>, q: &crate::question::Question)
    requires
        question_cwf(*q),
    ensures
        final(out)@ == old(out)@ + enc_question(*q),
{
    push_u16_le(out, q.id.0);
    let wid = match q.from {
        IdentityID::RoomID => IdentityID::RoomID,
        IdentityID::User(u) => IdentityID::User(u),
        IdentityID::Mask(m) => IdentityID::Mask(m),
        IdentityID::Answer(_) => IdentityID::RoomID,
    };
    push_identity(out, wid);
    push_kind(out, &q.kind);
    push_string(out, &q.question);
    push_strings(out, &q.clarifications);
    proof {
        assert(final(out)@ =~= old(out)@ + enc_question(*q));
    }
}

/// Two questions say the same thing.
pub open spec fn question_equiv(a: crate::question::Question, b: crate::question::Question) -> bool {
    &&& a.id == b.id
    &&& a.from == b.from
    &&& kind_equiv(a.kind, b.kind)
    &&& a.question@ == b.question@
    &&& strings_equiv(a.clarifications@, b.clarifications@)
}

/// The completeness hypothesis of the question decoder.
pub open spec fn question_at(x: crate::question::Question, b: Seq<u8>, pos: int) -> bool {
    &&& question_cwf(x)
    &&& 0 <= pos
    &&& pos + enc_question(x).len() <= b.len()
    &&& b.subrange(pos, pos + enc_question(x).len()) == enc_question(x)
}

/// The field layout of an encoded question: where each of its five parts
/// stands in the buffer.
proof fn lemma_question_fields(x: crate::question::Question, b: Seq<u8>, pos: int)
    requires
        question_at(x, b, pos),
    ensures
        ({
            let li = enc_identity(widen_identity(x.from)).len() as int;
            let lk = enc_kind(x.kind).len() as int;
            let lq = enc_string(x.question@).len() as int;
            let lc = enc_strings(x.clarifications@).len() as int;
            &&& enc_question(x).len() == 2 + li + lk + lq + lc
            &&& b.subrange(pos, pos + 2) == u16_le(x.id.0)
            &&& b.subrange(pos + 2, pos + 2 + li) == enc_identity(widen_identity(x.from))
            &&& b.subrange(pos + 2 + li, pos + 2 + li + lk) == enc_kind(x.kind)
            &&& b.subrange(pos + 2 + li + lk, pos + 2 + li + lk + lq) == enc_string(x.question@)
            &&& b.subrange(pos + 2 + li + lk + lq, pos + 2 + li + lk + lq + lc) == enc_strings(
                x.clarifications@,
            )
        }),
{
    let li = enc_identity(widen_identity(x.from)).len() as int;
    let lk = enc_kind(x.kind).len() as int;
    let lq = enc_string(x.question@).len() as int;
    let lc = enc_strings(x.clarifications@).len() as int;
    let ex = enc_question(x);
    assert forall|m: int| 0 <= m < 2 implies b[pos + m] == u16_le(x.id.0)[m] by {
        assert(b.subrange(pos, pos + ex.len())[m] == ex[m]);
        assert(ex[m] == u16_le(x.id.0)[m]);
    }
    assert(b.subrange(pos, pos + 2) =~= u16_le(x.id.0));
    assert forall|m: int|
        0 <= m < li implies b[pos + 2 + m] == enc_identity(widen_identity(x.from))[m] by {
        assert(b.subrange(pos, pos + ex.len())[2 + m] == ex[2 + m]);
        assert(ex[2 + m] == enc_identity(widen_identity(x.from))[m]);
    }
    assert(b.subrange(pos + 2, pos + 2 + li) =~= enc_identity(widen_identity(x.from)));
    assert forall|m: int| 0 <= m < lk implies b[pos + 2 + li + m] == enc_kind(x.kind)[m] by {
        assert(b.subrange(pos, pos + ex.len())[2 + li + m] == ex[2 + li + m]);
        assert(ex[2 + li + m] == enc_kind(x.kind)[m]);
    }
    assert(b.subrange(pos + 2 + li, pos + 2 + li + lk) =~= enc_kind(x.kind));
    assert forall|m: int|
        0 <= m < lq implies b[pos + 2 + li + lk + m] == enc_string(x.question@)[m] by {
        assert(b.subrange(pos, pos + ex.len())[2 + li + lk + m] == ex[2 + li + lk + m]);
        assert(ex[2 + li + lk + m] == enc_string(x.question@)[m]);
    }
    assert(b.subrange(pos + 2 + li + lk, pos + 2 + li + lk + lq) =~= enc_string(x.question@));
    assert forall|m: int|
        0 <= m < lc implies b[pos + 2 + li + lk + lq + m] == enc_strings(x.clarifications@)[m] by {
        assert(b.subrange(pos, pos + ex.len())[2 + li + lk + lq + m] == ex[2 + li + lk + lq + m]);
        assert(ex[2 + li + lk + lq + m] == enc_strings(x.clarifications@)[m]);
    }
    assert(b.subrange(pos + 2 + li + lk + lq, pos + 2 + li + lk + lq + lc) =~= enc_strings(
        x.clarifications@,
    ));
}

/// Read a question; an answer-slot author is rejected. The encoding of any
/// framable question decodes back to one saying the same thing.
#[verifier::rlimit(100)]
fn read_question(b: &Vec<u8>, pos: usize) -> (r: Option<(crate::question::Question, usize)>)
    requires
        pos <= b@.len(),
    ensures
        r matches Some((v, p2)) ==> {
            &&& pos <= p2 <= b@.len()
            &&& question_cwf(v)
            &&& enc_question(v) == b@.subrange(pos as int, p2 as int)
        },
        forall|x: crate::question::Question|
            #[trigger] question_at(x, b@, pos as int) ==> r is Some && question_equiv((r->0).0, x)
                && (r->0).1 == pos + enc_question(x).len(),
{
    let n: usize = b.len();
    proof {
        assert forall|x: crate::question::Question|
            question_at(x, b@, pos as int) implies pos + 2 <= b@.len() && b@.subrange(
            pos as int,
            pos + 2,
        ) == u16_le(x.id.0) by {
            lemma_question_fields(x, b@, pos as int);
        }
    }
    if n - pos < 2 {
        proof {
            assert forall|x: crate::question::Question|
                question_at(x, b@, pos as int) implies false by {
                lemma_question_fields(x, b@, pos as int);
            }
        }
        return None;
    }
    let id = read_u16_le(b, pos);
    proof {
        assert forall|x: crate::question::Question|
            question_at(x, b@, pos as int) implies id == x.id.0 && pos + 2 + enc_identity(
            widen_identity(x.from),
        ).len() <= b@.len() && b@.subrange(
            pos + 2,
            pos + 2 + enc_identity(widen_identity(x.from)).len(),
        ) == enc_identity(widen_identity(x.from)) by {
            lemma_question_fields(x, b@, pos as int);
        }
    }
    let (fromw, p1) = match read_identity(b, pos + 2) {
        Some(x) => x,
        None => {
            return None;
        },
    };
    proof {
        assert forall|x: crate::question::Question|
            question_at(x, b@, pos as int) implies fromw == widen_identity(x.from) && !(fromw
        matches IdentityID::Answer(_)) && p1 == pos + 2 + enc_identity(widen_identity(x.from)).len()
            && kind_at(x.kind, b@, p1 as int) by {
            lemma_question_fields(x, b@, pos as int);
        }
    }
    let from = match fromw {
        IdentityID::RoomID => IdentityID::RoomID,
        IdentityID::User(u) => IdentityID::User(u),
        IdentityID::Mask(m) => IdentityID::Mask(m),
        IdentityID::Answer(_) => {
            return None;
        },
    };
    let (kind, p2) = match read_kind(b, p1) {
        Some(x) => x,
        None => {
            return None;
        },
    };
    proof {
        assert forall|x: crate::question::Question|
            question_at(x, b@, pos as int) implies from == x.from && kind_equiv(kind, x.kind) && p2
            == pos + 2 + enc_identity(widen_identity(x.from)).len() + enc_kind(x.kind).len() && (
        utf8_of(x.question@).len() <= 0xFFFF_FFFF && p2 + enc_string(x.question@).len() <= b@.len()
            && b@.subrange(p2 as int, p2 + enc_string(x.question@).len()) == enc_string(
            x.question@,
        )) by {
            lemma_question_fields(x, b@, pos as int);
        }
    }
    let (question, p3) = match read_string(b, p2) {
        Some(x) => x,
        None => {
            return None;
        },
    };
    proof {
        assert forall|x: crate::question::Question|
            question_at(x, b@, pos as int) implies question@ == x.question@ && (strings_wf(
            x.clarifications@,
        ) && x.clarifications@.len() <= 0xFFFF_FFFF && p3 + enc_strings(x.clarifications@).len()
            <= b@.len() && b@.subrange(p3 as int, p3 + enc_strings(x.clarifications@).len())
            == enc_strings(x.clarifications@)) by {
            lemma_question_fields(x, b@, pos as int);
        }
    }
    let (clarifications, p4) = match read_strings(b, p3) {
        Some(x) => x,
        None => {
            return None;
        },
    };
    let v = crate::question::Question { id: QuestionID(id), from, kind, question, clarifications };
    proof {
        assert(widen_identity(v.from) == fromw);
        assert(enc_question(v) =~= b@.subrange(pos as int, p4 as int));
        assert forall|x: crate::question::Question|
            question_at(x, b@, pos as int) implies question_equiv(v, x) && p4 == pos + enc_question(
            x,
        ).len() by {
            lemma_question_fields(x, b@, pos as int);
        }
    }
    Some((v, p4))
}

/// The encoding of one survey event: a tag byte, then its payload.
pub open spec fn enc_event(e: crate::survey::SurveyEvent) -> Seq<u8> {
    match e {
        crate::survey::SurveyEvent::CreateSurvey(q) => seq![0u8] + enc_question(q),
        crate::survey::SurveyEvent::Join => seq![1u8],
        crate::survey::SurveyEvent::Leave => seq![2u8],
        crate::survey::SurveyEvent::Connected(u) => seq![3u8] + u16_le(u.0),
        crate::survey::SurveyEvent::Disconnected(u) => seq![4u8] + u16_le(u.0),
        crate::survey::SurveyEvent::Kick(u) => seq![5u8] + u16_le(u.0),
        crate::survey::SurveyEvent::Unkick(u) => seq![6u8] + u16_le(u.0),
        crate::survey::SurveyEvent::SetJoinability(x) => seq![
            7u8,
            if x {
                1u8
            } else {
                0u8
            },
        ],
        crate::survey::SurveyEvent::SetCollectability(x) => seq![
            8u8,
            if x {
                1u8
            } else {
                0u8
            },
        ],
        crate::survey::SurveyEvent::Go => seq![9u8],
        crate::survey::SurveyEvent::Ready => seq![10u8],
        crate::survey::SurveyEvent::PublicPartialKey { public_key, challenge } => seq![11u8]
            + public_key.bytes@ + enc_sig(challenge),
        crate::survey::SurveyEvent::NewAnswer(a) => seq![12u8] + enc_answer(a),
        crate::survey::SurveyEvent::PrivatePartialKey(sk) => seq![13u8] + sk.bytes@,
        crate::survey::SurveyEvent::Message(m) => seq![14u8] + enc_string(m@),
        crate::survey::SurveyEvent::SetMessageLevel(l) => seq![
            15u8,
            match l {
                crate::roles::AllowLevel::Anonymous => 0u8,
                crate::roles::AllowLevel::Regular => 1u8,
                crate::roles::AllowLevel::Duty => 2u8,
            },
        ],
    }
}

/// An event the codec can frame.
pub open spec fn event_cwf(e: crate::survey::SurveyEvent) -> bool {
    match e {
        crate::survey::SurveyEvent::CreateSurvey(q) => question_cwf(q),
        crate::survey::SurveyEvent::NewAnswer(a) => answer_cwf(a),
        crate::survey::SurveyEvent::Message(m) => utf8_of(m@).len() <= 0xFFFF_FFFF,
        _ => true,
    }
}

/// Append one survey event.
fn push_event(out: &mut Vec<u8>, e: &crate::survey::SurveyEvent)
    requires
        event_cwf(*e),
    ensures
        final(out)@ == old(out)@ + enc_event(*e),
{
    match e {
        crate::survey::SurveyEvent::CreateSurvey(q) => {
            out.push(0u8);
            push_question(out, q);
        },
        crate::survey::SurveyEvent::Join => {
            out.push(1u8);
        },
        crate::survey::SurveyEvent::Leave => {
            out.push(2u8);
        },
        crate::survey::SurveyEvent::Connected(u) => {
            out.push(3u8);
            push_u16_le(out, u.0);
        },
        crate::survey::SurveyEvent::Disconnected(u) => {
            out.push(4u8);
            push_u16_le(out, u.0);
        },
        crate::survey::SurveyEvent::Kick(u) => {
            out.push(5u8);
            push_u16_le(out, u.0);
        },
        crate::survey::SurveyEvent::Unkick(u) => {
            out.push(6u8);
            push_u16_le(out, u.0);
        },
        crate::survey::SurveyEvent::SetJoinability(x) => {
            out.push(7u8);
            out.push(
                if *x {
                    1u8
                } else {
                    0u8
                },
            );
        },
        crate::survey::SurveyEvent::SetCollectability(x) => {
            out.push(8u8);
            out.push(
                if *x {
                    1u8
                } else {
                    0u8
                },
            );
        },
        crate::survey::SurveyEvent::Go => {
            out.push(9u8);
        },
        crate::survey::SurveyEvent::Ready => {
            out.push(10u8);
        },
        crate::survey::SurveyEvent::PublicPartialKey { public_key, challenge } => {
            out.push(11u8);
            push_slice(out, &public_key.bytes);
            push_sig(out, challenge);
        },
        crate::survey::SurveyEvent::NewAnswer(a) => {
            out.push(12u8);
            push_answer(out, a);
        },
        crate::survey::SurveyEvent::PrivatePartialKey(sk) => {
            out.push(13u8);
            push_slice(out, &sk.bytes);
        },
        crate::survey::SurveyEvent::Message(m) => {
            out.push(14u8);
            push_string(out, m);
        },
        crate::survey::SurveyEvent::SetMessageLevel(l) => {
            out.push(15u8);
            out.push(
                match l {
                    crate::roles::AllowLevel::Anonymous => 0u8,
                    crate::roles::AllowLevel::Regular => 1u8,
                    crate::roles::AllowLevel::Duty => 2u8,
                },
            );
        },
    }
    proof {
        assert(final(out)@ =~= old(out)@ + enc_event(*e));
    }
}

/// Two survey events say the same thing.
pub open spec fn event_equiv(a: crate::survey::SurveyEvent, b: crate::survey::SurveyEvent) -> bool {
    match (a, b) {
        (
            crate::survey::SurveyEvent::CreateSurvey(q1),
            crate::survey::SurveyEvent::CreateSurvey(q2),
        ) => question_equiv(q1, q2),
        (crate::survey::SurveyEvent::Join, crate::survey::SurveyEvent::Join) => true,
        (crate::survey::SurveyEvent::Leave, crate::survey::SurveyEvent::Leave) => true,
        (
            crate::survey::SurveyEvent::Connected(u1),
            crate::survey::SurveyEvent::Connected(u2),
        ) => u1 == u2,
        (
            crate::survey::SurveyEvent::Disconnected(u1),
            crate::survey::SurveyEvent::Disconnected(u2),
        ) => u1 == u2,
        (crate::survey::SurveyEvent::Kick(u1), crate::survey::SurveyEvent::Kick(u2)) => u1 == u2,
        (crate::survey::SurveyEvent::Unkick(u1), crate::survey::SurveyEvent::Unkick(u2)) => u1
            == u2,
        (
            crate::survey::SurveyEvent::SetJoinability(x1),
            crate::survey::SurveyEvent::SetJoinability(x2),
        ) => x1 == x2,
        (
            crate::survey::SurveyEvent::SetCollectability(x1),
            crate::survey::SurveyEvent::SetCollectability(x2),
        ) => x1 == x2,
        (crate::survey::SurveyEvent::Go, crate::survey::SurveyEvent::Go) => true,
        (crate::survey::SurveyEvent::Ready, crate::survey::SurveyEvent::Ready) => true,
        (
            crate::survey::SurveyEvent::PublicPartialKey { public_key: k1, challenge: c1 },
            crate::survey::SurveyEvent::PublicPartialKey { public_key: k2, challenge: c2 },
        ) => k1 == k2 && c1 == c2,
        (
            crate::survey::SurveyEvent::NewAnswer(a1),
            crate::survey::SurveyEvent::NewAnswer(a2),
        ) => crate::survey::answer_equiv(a1, a2),
        (
            crate::survey::SurveyEvent::PrivatePartialKey(s1),
            crate::survey::SurveyEvent::PrivatePartialKey(s2),
        ) => s1 == s2,
        (
            crate::survey::SurveyEvent::Message(m1),
            crate::survey::SurveyEvent::Message(m2),
        ) => m1@ == m2@,
        (
            crate::survey::SurveyEvent::SetMessageLevel(l1),
            crate::survey::SurveyEvent::SetMessageLevel(l2),
        ) => l1 == l2,
        _ => false,
    }
}

/// The completeness hypothesis of the event decoder.
pub open spec fn event_at(x: crate::survey::SurveyEvent, b: Seq<u8>, pos: int) -> bool {
    &&& event_cwf(x)
    &&& crate::survey::event_wf(x)
    &&& 0 <= pos
    &&& pos + enc_event(x).len() <= b.len()
    &&& b.subrange(pos, pos + enc_event(x).len()) == enc_event(x)
}

/// An encoded event's payload stands right after its tag byte.
proof fn lemma_event_payload(x: crate::survey::SurveyEvent, b: Seq<u8>, pos: int)
    requires
        event_at(x, b, pos),
    ensures
        b[pos] == enc_event(x)[0],
        pos + 1 + (enc_event(x).len() - 1) <= b.len(),
        b.subrange(pos + 1, pos + enc_event(x).len()) == enc_event(x).subrange(
            1,
            enc_event(x).len() as int,
        ),
{
    let ex = enc_event(x);
    assert(b.subrange(pos, pos + ex.len())[0] == ex[0]);
    assert forall|m: int| 1 <= m < ex.len() implies b[pos + m] == #[trigger] ex[m] by {
        assert(b.subrange(pos, pos + ex.len())[m] == ex[m]);
    }
    assert(b.subrange(pos + 1, pos + ex.len()) =~= ex.subrange(1, ex.len() as int));
}

/// Read one survey event; its cryptographic material must be canonical.
/// The encoding of any well-formed, framable event decodes back to one
/// saying the same thing.
#[verifier::spinoff_prover]
#[verifier::rlimit(100)]
fn read_event(b: &Vec<u8>, pos: usize) -> (r: Option<(crate::survey::SurveyEvent, usize)>)
    requires
        pos <= b@.len(),
    ensures
        r matches Some((v, p2)) ==> {
            &&& pos <= p2 <= b@.len()
            &&& event_cwf(v)
            &&& crate::survey::event_wf(v)
            &&& enc_event(v) == b@.subrange(pos as int, p2 as int)
        },
        forall|x: crate::survey::SurveyEvent|
            #[trigger] event_at(x, b@, pos as int) ==> r is Some && event_equiv((r->0).0, x) && (
            r->0).1 == pos + enc_event(x).len(),
{
    let n: usize = b.len();
    if pos >= n {
        proof {
            assert forall|x: crate::survey::SurveyEvent|
                event_at(x, b@, pos as int) implies false by {
                lemma_event_payload(x, b@, pos as int);
            }
        }
        return None;
    }
    let tag = b[pos];
    let p0 = pos + 1;
    proof {
        assert forall|x: crate::survey::SurveyEvent| event_at(x, b@, pos as int) implies {
            &&& tag == enc_event(x)[0]
            &&& match x {
                crate::survey::SurveyEvent::CreateSurvey(q) => question_at(q, b@, p0 as int),
                crate::survey::SurveyEvent::Connected(u) => p0 + 2 <= b@.len() && b@.subrange(
                    p0 as int,
                    p0 + 2,
                ) == u16_le(u.0),
                crate::survey::SurveyEvent::Disconnected(u) => p0 + 2 <= b@.len() && b@.subrange(
                    p0 as int,
                    p0 + 2,
                ) == u16_le(u.0),
                crate::survey::SurveyEvent::Kick(u) => p0 + 2 <= b@.len() && b@.subrange(
                    p0 as int,
                    p0 + 2,
                ) == u16_le(u.0),
                crate::survey::SurveyEvent::Unkick(u) => p0 + 2 <= b@.len() && b@.subrange(
                    p0 as int,
                    p0 + 2,
                ) == u16_le(u.0),
                crate::survey::SurveyEvent::SetJoinability(v) => p0 + 1 <= b@.len() && b@[p0 as int]
                    == (if v {
                    1u8
                } else {
                    0u8
                }),
                crate::survey::SurveyEvent::SetCollectability(v) => p0 + 1 <= b@.len() && b@[
                    p0 as int] == (if v {
                    1u8
                } else {
                    0u8
                }),
                crate::survey::SurveyEvent::PublicPartialKey { public_key, challenge } => p0 + 96
                    <= b@.len() && b@.subrange(p0 as int, p0 + 32) == public_key.bytes@
                    && b@.subrange(p0 + 32, p0 + 96) == enc_sig(challenge),
                crate::survey::SurveyEvent::NewAnswer(a) => answer_at(a, b@, p0 as int),
                crate::survey::SurveyEvent::PrivatePartialKey(sk) => p0 + 32 <= b@.len()
                    && b@.subrange(p0 as int, p0 + 32) == sk.bytes@,
                crate::survey::SurveyEvent::Message(m) => utf8_of(m@).len() <= 0xFFFF_FFFF && p0
                    + enc_string(m@).len() <= b@.len() && b@.subrange(
                    p0 as int,
                    p0 + enc_string(m@).len(),
                ) == enc_string(m@),
                crate::survey::SurveyEvent::SetMessageLevel(l) => p0 + 1 <= b@.len() && b@[
                    p0 as int] == (match l {
                    crate::roles::AllowLevel::Anonymous => 0u8,
                    crate::roles::AllowLevel::Regular => 1u8,
                    crate::roles::AllowLevel::Duty => 2u8,
                }),
                _ => true,
            }
        } by {
            lemma_event_payload(x, b@, pos as int);
            let ex = enc_event(x);
            match x {
                crate::survey::SurveyEvent::CreateSurvey(q) => {
                    assert(b@.subrange(p0 as int, p0 + enc_question(q).len()) =~= enc_question(q));
                },
                crate::survey::SurveyEvent::Connected(u) => {
                    assert(b@.subrange(p0 as int, p0 + 2) =~= u16_le(u.0));
                },
                crate::survey::SurveyEvent::Disconnected(u) => {
                    assert(b@.subrange(p0 as int, p0 + 2) =~= u16_le(u.0));
                },
                crate::survey::SurveyEvent::Kick(u) => {
                    assert(b@.subrange(p0 as int, p0 + 2) =~= u16_le(u.0));
                },
                crate::survey::SurveyEvent::Unkick(u) => {
                    assert(b@.subrange(p0 as int, p0 + 2) =~= u16_le(u.0));
                },
                crate::survey::SurveyEvent::SetJoinability(v) => {
                    assert(b@[p0 as int] == ex[1]);
                },
                crate::survey::SurveyEvent::SetCollectability(v) => {
                    assert(b@[p0 as int] == ex[1]);
                },
                crate::survey::SurveyEvent::PublicPartialKey { public_key, challenge } => {
                    assert forall|m: int|
                        0 <= m < 32 implies b@[p0 + m] == public_key.bytes@[m] by {
                        assert(b@[pos as int + (1 + m)] == ex[1 + m]);
                        assert(ex[1 + m] == public_key.bytes@[m]);
                    }
                    assert(b@.subrange(p0 as int, p0 + 32) =~= public_key.bytes@);
                    assert forall|m: int|
                        0 <= m < 64 implies b@[p0 + 32 + m] == enc_sig(challenge)[m] by {
                        assert(b@[pos as int + (33 + m)] == ex[33 + m]);
                        assert(ex[33 + m] == enc_sig(challenge)[m]);
                    }
                    assert(b@.subrange(p0 + 32, p0 + 96) =~= enc_sig(challenge));
                },
                crate::survey::SurveyEvent::NewAnswer(a) => {
                    assert(b@.subrange(p0 as int, p0 + enc_answer(a).len()) =~= enc_answer(a));
                },
                crate::survey::SurveyEvent::PrivatePartialKey(sk) => {
                    assert(b@.subrange(p0 as int, p0 + 32) =~= sk.bytes@);
                },
                crate::survey::SurveyEvent::Message(m) => {
                    assert(b@.subrange(p0 as int, p0 + enc_string(m@).len()) =~= enc_string(m@));
                },
                crate::survey::SurveyEvent::SetMessageLevel(l) => {
                    assert(b@[p0 as int] == ex[1]);
                },
                _ => {},
            }
        }
    }
    if tag == 0 {
        match read_question(b, p0) {
            Some((q, p2)) => {
                let v = crate::survey::SurveyEvent::CreateSurvey(q);
                proof {
                    assert(enc_event(v) =~= b@.subrange(pos as int, p2 as int));
                }
                Some((v, p2))
            },
            None => None,
        }
    } else if tag == 1 {
        proof {
            assert(enc_event(crate::survey::SurveyEvent::Join) =~= b@.subrange(pos as int, p0 as int));
        }
        Some((crate::survey::SurveyEvent::Join, p0))
    } else if tag == 2 {
        proof {
            assert(enc_event(crate::survey::SurveyEvent::Leave) =~= b@.subrange(
                pos as int,
                p0 as int,
            ));
        }
        Some((crate::survey::SurveyEvent::Leave, p0))
    } else if tag == 3 || tag == 4 || tag == 5 || tag == 6 {
        if n - p0 < 2 {
            return None;
        }
        let u = UserID(read_u16_le(b, p0));
        let v = if tag == 3 {
            crate::survey::SurveyEvent::Connected(u)
        } else if tag == 4 {
            crate::survey::SurveyEvent::Disconnected(u)
        } else if tag == 5 {
            crate::survey::SurveyEvent::Kick(u)
        } else {
            crate::survey::SurveyEvent::Unkick(u)
        };
        proof {
            assert(enc_event(v) =~= b@.subrange(pos as int, p0 + 2));
        }
        Some((v, p0 + 2))
    } else if tag == 7 || tag == 8 {
        if n - p0 < 1 {
            return None;
        }
        let byte = b[p0];
        if byte != 0 && byte != 1 {
            return None;
        }
        let x = byte == 1;
        let v = if tag == 7 {
            crate::survey::SurveyEvent::SetJoinability(x)
        } else {
            crate::survey::SurveyEvent::SetCollectability(x)
        };
        proof {
            assert(enc_event(v) =~= b@.subrange(pos as int, p0 + 1));
        }
        Some((v, p0 + 1))
    } else if tag == 9 {
        proof {
            assert(enc_event(crate::survey::SurveyEvent::Go) =~= b@.subrange(pos as int, p0 as int));
        }
        Some((crate::survey::SurveyEvent::Go, p0))
    } else if tag == 10 {
        proof {
            assert(enc_event(crate::survey::SurveyEvent::Ready) =~= b@.subrange(
                pos as int,
                p0 as int,
            ));
        }
        Some((crate::survey::SurveyEvent::Ready, p0))
    } else if tag == 11 {
        let (public_key, p1) = match read_pubkey(b, p0) {
            Some(x) => x,
            None => {
                return None;
            },
        };
        let (challenge, p2) = match read_sig(b, p1) {
            Some(x) => x,
            None => {
                return None;
            },
        };
        let v = crate::survey::SurveyEvent::PublicPartialKey { public_key, challenge };
        proof {
            assert(enc_event(v) =~= b@.subrange(pos as int, p2 as int));
        }
        Some((v, p2))
    } else if tag == 12 {
        match read_answer(b, p0) {
            Some((a, p2)) => {
                let v = crate::survey::SurveyEvent::NewAnswer(a);
                proof {
                    assert(enc_event(v) =~= b@.subrange(pos as int, p2 as int));
                }
                Some((v, p2))
            },
            None => None,
        }
    } else if tag == 13 {
        if n - p0 < 32 {
            return None;
        }
        let k = read_bin(b, p0);
        proof {
            assert forall|x: crate::survey::SurveyEvent|
                event_at(x, b@, pos as int) implies (x matches
            crate::survey::SurveyEvent::PrivatePartialKey(sk) ==> k == (
            x->PrivatePartialKey_0).bytes) by {
                match x {
                    crate::survey::SurveyEvent::PrivatePartialKey(sk) => {
                        assert(k =~= sk.bytes);
                    },
                    _ => {},
                }
            }
        }
        if !crate::group::scalar_check(&k) {
            return None;
        }
        let v = crate::survey::SurveyEvent::PrivatePartialKey(SecretKey { bytes: k });
        proof {
            assert(enc_event(v) =~= b@.subrange(pos as int, p0 + 32));
        }
        Some((v, p0 + 32))
    } else if tag == 14 {
        match read_string(b, p0) {
            Some((m, p2)) => {
                let v = crate::survey::SurveyEvent::Message(m);
                proof {
                    assert(enc_event(v) =~= b@.subrange(pos as int, p2 as int));
                }
                Some((v, p2))
            },
            None => None,
        }
    } else if tag == 15 {
        if n - p0 < 1 {
            return None;
        }
        let byte = b[p0];
        let l = if byte == 0 {
            crate::roles::AllowLevel::Anonymous
        } else if byte == 1 {
            crate::roles::AllowLevel::Regular
        } else if byte == 2 {
            crate::roles::AllowLevel::Duty
        } else {
            return None;
        };
        let v = crate::survey::SurveyEvent::SetMessageLevel(l);
        proof {
            assert(enc_event(v) =~= b@.subrange(pos as int, p0 + 1));
        }
        Some((v, p0 + 1))
    } else {
        proof {
            assert forall|x: crate::survey::SurveyEvent|
                event_at(x, b@, pos as int) implies false by {
                lemma_event_payload(x, b@, pos as int);
                match x {
                    crate::survey::SurveyEvent::CreateSurvey(_) => {
                        assert(enc_event(x)[0] == 0);
                    },
                    crate::survey::SurveyEvent::Join => {
                        assert(enc_event(x)[0] == 1);
                    },
                    crate::survey::SurveyEvent::Leave => {
                        assert(enc_event(x)[0] == 2);
                    },
                    crate::survey::SurveyEvent::Connected(_) => {
                        assert(enc_event(x)[0] == 3);
                    },
                    crate::survey::SurveyEvent::Disconnected(_) => {
                        assert(enc_event(x)[0] == 4);
                    },
                    crate::survey::SurveyEvent::Kick(_) => {
                        assert(enc_event(x)[0] == 5);
                    },
                    crate::survey::SurveyEvent::Unkick(_) => {
                        assert(enc_event(x)[0] == 6);
                    },
                    crate::survey::SurveyEvent::SetJoinability(_) => {
                        assert(enc_event(x)[0] == 7);
                    },
                    crate::survey::SurveyEvent::SetCollectability(_) => {
                        assert(enc_event(x)[0] == 8);
                    },
                    crate::survey::SurveyEvent::Go => {
                        assert(enc_event(x)[0] == 9);
                    },
                    crate::survey::SurveyEvent::Ready => {
                        assert(enc_event(x)[0] == 10);
                    },
                    crate::survey::SurveyEvent::PublicPartialKey { .. } => {
                        assert(enc_event(x)[0] == 11);
                    },
                    crate::survey::SurveyEvent::NewAnswer(_) => {
                        assert(enc_event(x)[0] == 12);
                    },
                    crate::survey::SurveyEvent::PrivatePartialKey(_) => {
                        assert(enc_event(x)[0] == 13);
                    },
                    crate::survey::SurveyEvent::Message(_) => {
                        assert(enc_event(x)[0] == 14);
                    },
                    crate::survey::SurveyEvent::SetMessageLevel(_) => {
                        assert(enc_event(x)[0] == 15);
                    },
                }
            }
        }
        None
    }
}

/// The back-to-back encodings of an event list.
pub open spec fn enc_events(x: Seq<crate::survey::SurveyEvent>) -> Seq<u8>
    decreases x.len(),
{
    if x.len() == 0 {
        Seq::<u8>::empty()
    } else {
        enc_event(x.first()) + enc_events(x.drop_first())
    }
}

/// Taking one more event appends exactly its encoding.
proof fn lemma_enc_events_take(x: Seq<crate::survey::SurveyEvent>, i: int)
    requires
        0 < i <= x.len(),
    ensures
        enc_events(x.take(i)) == enc_events(x.take(i - 1)) + enc_event(x[i - 1]),
    decreases i,
{
    if i == 1 {
        assert(x.take(1).first() == x[0]);
        assert(x.take(1).drop_first() =~= Seq::<crate::survey::SurveyEvent>::empty());
        assert(x.take(0) =~= Seq::<crate::survey::SurveyEvent>::empty());
        assert(enc_events(x.take(1)) =~= enc_event(x[0]));
        assert(enc_events(x.take(0)) + enc_event(x[0]) =~= enc_event(x[0]));
    } else {
        assert(x.take(i).first() == x[0]);
        assert(x.take(i).drop_first() =~= x.drop_first().take(i - 1));
        assert(x.take(i - 1).first() == x[0]);
        assert(x.take(i - 1).drop_first() =~= x.drop_first().take(i - 2));
        lemma_enc_events_take(x.drop_first(), i - 1);
        assert(x.drop_first().take(i - 1)[i - 2] == x[i - 1]);
        assert(enc_events(x.take(i)) =~= enc_events(x.take(i - 1)) + enc_event(x[i - 1]));
    }
}

/// The encoded events of a prefix are a prefix of the encoded events.
proof fn lemma_events_prefix(x: Seq<crate::survey::SurveyEvent>, j: int)
    requires
        0 <= j <= x.len(),
    ensures
        enc_events(x.take(j)).len() <= enc_events(x).len(),
        enc_events(x).subrange(0, enc_events(x.take(j)).len() as int) == enc_events(x.take(j)),
    decreases x.len() - j,
{
    if j == x.len() {
        assert(x.take(j) =~= x);
        assert(enc_events(x).subrange(0, enc_events(x).len() as int) =~= enc_events(x));
    } else {
        lemma_events_prefix(x, j + 1);
        lemma_enc_events_take(x, j + 1);
        assert(enc_events(x).subrange(0, enc_events(x.take(j)).len() as int) =~= enc_events(
            x.take(j),
        ));
    }
}

/// After `k` events, the buffer still carries the encoding of event `k` at
/// the running position.
proof fn lemma_enc_events_suffix(
    x: Seq<crate::survey::SurveyEvent>,
    k: int,
    pos: int,
    b: Seq<u8>,
)
    requires
        0 <= k < x.len(),
        0 <= pos,
        pos + enc_events(x).len() <= b.len(),
        b.subrange(pos, pos + enc_events(x).len()) == enc_events(x),
    ensures
        ({
            let cur = pos + enc_events(x.take(k)).len();
            &&& cur + enc_event(x[k]).len() <= b.len()
            &&& b.subrange(cur, cur + enc_event(x[k]).len()) == enc_event(x[k])
        }),
{
    lemma_enc_events_take(x, k + 1);
    lemma_events_prefix(x, k + 1);
    let tk = enc_events(x.take(k)).len() as int;
    let le = enc_event(x[k]).len() as int;
    let cur = pos + tk;
    assert(enc_events(x.take(k + 1)) == enc_events(x.take(k)) + enc_event(x[k]));
    assert(enc_events(x).subrange(0, tk + le) == enc_events(x.take(k + 1)));
    assert forall|m: int| 0 <= m < le implies b[cur + m] == enc_event(x[k])[m] by {
        assert(enc_events(x).subrange(0, tk + le)[tk + m] == enc_events(x)[tk + m]);
        assert(enc_events(x.take(k + 1))[tk + m] == enc_event(x[k])[m]);
        assert(b.subrange(pos, pos + enc_events(x).len())[tk + m] == enc_events(x)[tk + m]);
        assert(b[pos + tk + m] == enc_events(x)[tk + m]);
    }
    assert(b.subrange(cur, cur + le) =~= enc_event(x[k]));
}

/// Two event lists say the same things, in the same order.
pub open spec fn events_equiv(
    x: Seq<crate::survey::SurveyEvent>,
    y: Seq<crate::survey::SurveyEvent>,
) -> bool {
    x.len() == y.len() && forall|i: int| 0 <= i < x.len() ==> event_equiv(#[trigger] x[i], y[i])
}

/// The encoding of a survey transaction.
pub open spec fn enc_transaction(t: SurveyTransaction) -> Seq<u8> {
    u16_le(t.chain.0) + enc_identity(t.from) + u32_le(t.events@.len() as u32) + enc_events(
        t.events@,
    ) + u64_le(t.nonce.0)
}

/// A transaction the codec can frame.
pub open spec fn transaction_cwf(t: SurveyTransaction) -> bool {
    t.events@.len() <= 0xFFFF_FFFF && forall|i: int|
        0 <= i < t.events@.len() ==> event_cwf(#[trigger] t.events@[i])
}

/// The encoding of a signed survey transaction: the transaction, then the
/// author's signature.
pub open spec fn enc_signed_transaction(t: crate::schnorr::Signed<SurveyTransaction>) -> Seq<u8> {
    enc_transaction(t.value) + enc_sig(t.signature)
}

/// A signed transaction the codec can frame: events well formed and
/// counted by a 32-bit integer, the signature's scalars reduced.
pub open spec fn signed_cwf(t: crate::schnorr::Signed<SurveyTransaction>) -> bool {
    &&& transaction_cwf(t.value)
    &&& crate::survey::events_wf(t.value.events@)
    &&& t.signature.wf()
}

/// Two signed transactions say the same thing.
pub open spec fn signed_equiv(
    a: crate::schnorr::Signed<SurveyTransaction>,
    b: crate::schnorr::Signed<SurveyTransaction>,
) -> bool {
    &&& a.value.chain == b.value.chain
    &&& a.value.from == b.value.from
    &&& a.value.nonce == b.value.nonce
    &&& events_equiv(a.value.events@, b.value.events@)
    &&& a.signature == b.signature
}

/// The field layout of an encoded signed transaction: where each of its
/// six parts stands in the buffer.
proof fn lemma_signed_fields(t: crate::schnorr::Signed<SurveyTransaction>, b: Seq<u8>)
    requires
        signed_cwf(t),
        b == enc_signed_transaction(t),
    ensures
        ({
            let li = enc_identity(t.value.from).len() as int;
            let lev = enc_events(t.value.events@).len() as int;
            &&& b.len() == 14 + li + lev + 64
            &&& b.subrange(0, 2) == u16_le(t.value.chain.0)
            &&& b.subrange(2, 2 + li) == enc_identity(t.value.from)
            &&& b.subrange(2 + li, 6 + li) == u32_le(t.value.events@.len() as u32)
            &&& b.subrange(6 + li, 6 + li + lev) == enc_events(t.value.events@)
            &&& b.subrange(6 + li + lev, 14 + li + lev) == u64_le(t.value.nonce.0)
            &&& b.subrange(14 + li + lev, 14 + li + lev + 64) == enc_sig(t.signature)
        }),
{
    let li = enc_identity(t.value.from).len() as int;
    let lev = enc_events(t.value.events@).len() as int;
    assert forall|m: int| 0 <= m < 2 implies b[m] == u16_le(t.value.chain.0)[m] by {
        assert(b[m] == enc_signed_transaction(t)[m]);
    }
    assert(b.subrange(0, 2) =~= u16_le(t.value.chain.0));
    assert forall|m: int| 0 <= m < li implies b[2 + m] == enc_identity(t.value.from)[m] by {
        assert(b[2 + m] == enc_signed_transaction(t)[2 + m]);
        assert(enc_signed_transaction(t)[2 + m] == enc_identity(t.value.from)[m]);
    }
    assert(b.subrange(2, 2 + li) =~= enc_identity(t.value.from));
    assert forall|m: int|
        0 <= m < 4 implies b[2 + li + m] == #[trigger] u32_le(t.value.events@.len() as u32)[m] by {
        assert(b[2 + li + m] == enc_signed_transaction(t)[2 + li + m]);
        assert(enc_signed_transaction(t)[2 + li + m] == u32_le(t.value.events@.len() as u32)[m]);
    }
    assert(b.subrange(2 + li, 6 + li) =~= u32_le(t.value.events@.len() as u32));
    assert forall|m: int|
        0 <= m < lev implies b[6 + li + m] == #[trigger] enc_events(t.value.events@)[m] by {
        assert(b[6 + li + m] == enc_signed_transaction(t)[6 + li + m]);
        assert(enc_signed_transaction(t)[6 + li + m] == enc_events(t.value.events@)[m]);
    }
    assert(b.subrange(6 + li, 6 + li + lev) =~= enc_events(t.value.events@));
    assert forall|m: int|
        0 <= m < 8 implies b[6 + li + lev + m] == #[trigger] u64_le(t.value.nonce.0)[m] by {
        assert(b[6 + li + lev + m] == enc_signed_transaction(t)[6 + li + lev + m]);
        assert(enc_signed_transaction(t)[6 + li + lev + m] == u64_le(t.value.nonce.0)[m]);
    }
    assert(b.subrange(6 + li + lev, 14 + li + lev) =~= u64_le(t.value.nonce.0));
    assert forall|m: int|
        0 <= m < 64 implies b[14 + li + lev + m] == #[trigger] enc_sig(t.signature)[m] by {
        assert(b[14 + li + lev + m] == enc_signed_transaction(t)[14 + li + lev + m]);
        assert(enc_signed_transaction(t)[14 + li + lev + m] == enc_sig(t.signature)[m]);
    }
    assert(b.subrange(14 + li + lev, 14 + li + lev + 64) =~= enc_sig(t.signature));
}

/// Serialize a signed survey transaction.
pub fn encode_signed_transaction(t: &crate::schnorr::Signed<SurveyTransaction>) -> (r: Vec<u8>)
    requires
        transaction_cwf(t.value),
    ensures
        r@ == enc_signed_transaction(*t),
{
    let mut out: Vec<u8> = Vec::new();
    push_u16_le(&mut out, t.value.chain.0);
    push_identity(&mut out, t.value.from);
    push_u32_le(&mut out, t.value.events.len() as u32);
    let ghost base = out@;
    let mut i: usize = 0;
    while i < t.value.events.len()
        invariant
            i <= t.value.events@.len(),
            transaction_cwf(t.value),
            out@ == base + enc_events(t.value.events@.take(i as int)),
        decreases t.value.events@.len() - i,
    {
        push_event(&mut out, &t.value.events[i]);
        i = i + 1;
        proof {
            lemma_enc_events_take(t.value.events@, i as int);
        }
    }
    proof {
        assert(t.value.events@.take(t.value.events@.len() as int) =~= t.value.events@);
    }
    push_u64_le(&mut out, t.value.nonce.0);
    push_sig(&mut out, &t.signature);
    proof {
        assert(out@ =~= enc_signed_transaction(*t));
    }
    out
}

/// Deserialize a signed survey transaction: the whole buffer must be one
/// encoding, and re-encoding the result reproduces the buffer byte for
/// byte.
#[verifier::spinoff_prover]
#[verifier::rlimit(100)]
pub fn decode_signed_transaction(b: &Vec<u8>) -> (r: Option<
    crate::schnorr::Signed<SurveyTransaction>,
>)
    ensures
        r matches Some(t) ==> {
            &&& transaction_cwf(t.value)
            &&& crate::survey::events_wf(t.value.events@)
            &&& t.signature.wf()
            &&& enc_signed_transaction(t) == b@
        },
        forall|t: crate::schnorr::Signed<SurveyTransaction>|
            (#[trigger] signed_cwf(t) && b@ == enc_signed_transaction(t)) ==> r is Some
                && signed_equiv(r->0, t),
{
    let n: usize = b.len();
    if n < 2 {
        proof {
            assert forall|t: crate::schnorr::Signed<SurveyTransaction>|
                (signed_cwf(t) && b@ == enc_signed_transaction(t)) implies false by {
                lemma_signed_fields(t, b@);
            }
        }
        return None;
    }
    let chain = QuestionID(read_u16_le(b, 0));
    proof {
        assert forall|t: crate::schnorr::Signed<SurveyTransaction>|
            (signed_cwf(t) && b@ == enc_signed_transaction(t)) implies chain.0 == t.value.chain.0
            && 2 + enc_identity(t.value.from).len() <= b@.len() && b@.subrange(
            2,
            2 + enc_identity(t.value.from).len() as int,
        ) == enc_identity(t.value.from) by {
            lemma_signed_fields(t, b@);
        }
    }
    let (from, p1) = match read_identity(b, 2) {
        Some(x) => x,
        None => {
            return None;
        },
    };
    proof {
        assert forall|t: crate::schnorr::Signed<SurveyTransaction>|
            (signed_cwf(t) && b@ == enc_signed_transaction(t)) implies from == t.value.from && p1
            == 2 + enc_identity(t.value.from).len() && p1 + 4 <= b@.len() && b@.subrange(
            p1 as int,
            p1 + 4,
        ) == u32_le(t.value.events@.len() as u32) by {
            lemma_signed_fields(t, b@);
        }
    }
    if n - p1 < 4 {
        return None;
    }
    let count = read_u32_le(b, p1);
    let p2 = p1 + 4;
    let total = count as usize;
    proof {
        assert forall|t: crate::schnorr::Signed<SurveyTransaction>|
            (signed_cwf(t) && b@ == enc_signed_transaction(t)) implies t.value.events@.len()
            == total && p2 + enc_events(t.value.events@).len() <= b@.len() && b@.subrange(
            p2 as int,
            p2 + enc_events(t.value.events@).len(),
        ) == enc_events(t.value.events@) by {
            lemma_signed_fields(t, b@);
        }
    }
    let mut events: Vec<crate::survey::SurveyEvent> = Vec::new();
    let mut cur: usize = p2;
    let mut k: usize = 0;
    proof {
        assert(enc_events(events@) =~= b@.subrange(p2 as int, cur as int));
    }
    while k < total
        invariant
            k <= total,
            n == b@.len(),
            p2 <= cur <= n,
            events@.len() == k,
            total <= 0xFFFF_FFFF,
            forall|j: int| 0 <= j < k ==> event_cwf(#[trigger] events@[j]),
            forall|j: int| 0 <= j < k ==> crate::survey::event_wf(#[trigger] events@[j]),
            enc_events(events@) == b@.subrange(p2 as int, cur as int),
            forall|t: crate::schnorr::Signed<SurveyTransaction>|
                (#[trigger] signed_cwf(t) && b@ == enc_signed_transaction(t))
                    ==> t.value.events@.len() == total && p2 + enc_events(t.value.events@).len()
                    <= b@.len() && b@.subrange(p2 as int, p2 + enc_events(t.value.events@).len())
                    == enc_events(t.value.events@) && events_equiv(
                    events@,
                    t.value.events@.take(k as int),
                ) && cur == p2 + enc_events(t.value.events@.take(k as int)).len(),
        decreases total - k,
    {
        let ghost kold = k as int;
        let ghost curold = cur as int;
        let ghost prev = events@;
        proof {
            assert forall|t: crate::schnorr::Signed<SurveyTransaction>|
                (signed_cwf(t) && b@ == enc_signed_transaction(t)) implies event_at(
                t.value.events@[kold],
                b@,
                curold,
            ) by {
                lemma_enc_events_suffix(t.value.events@, kold, p2 as int, b@);
            }
        }
        let (e, p3) = match read_event(b, cur) {
            Some(x) => x,
            None => {
                return None;
            },
        };
        events.push(e);
        cur = p3;
        k = k + 1;
        proof {
            lemma_enc_events_take(events@, k as int);
            assert(events@.take(k as int) =~= events@);
            assert(events@.take(k as int - 1) =~= prev);
            assert(enc_events(events@) =~= b@.subrange(p2 as int, cur as int));
            assert forall|t: crate::schnorr::Signed<SurveyTransaction>|
                (signed_cwf(t) && b@ == enc_signed_transaction(t)) implies events_equiv(
                events@,
                t.value.events@.take(k as int),
            ) && cur == p2 + enc_events(t.value.events@.take(k as int)).len() by {
                lemma_enc_events_suffix(t.value.events@, kold, p2 as int, b@);
                assert(event_equiv(e, t.value.events@[kold]));
                lemma_enc_events_take(t.value.events@, k as int);
                assert(t.value.events@.take(k as int)[kold] == t.value.events@[kold]);
                assert forall|m: int|
                    0 <= m < events@.len() implies event_equiv(
                    #[trigger] events@[m],
                    t.value.events@.take(k as int)[m],
                ) by {
                    if m < kold {
                        assert(event_equiv(prev[m], t.value.events@.take(kold)[m]));
                        assert(t.value.events@.take(kold)[m] == t.value.events@[m]);
                        assert(t.value.events@.take(k as int)[m] == t.value.events@[m]);
                    }
                }
                assert(events_equiv(events@, t.value.events@.take(k as int)));
            }
        }
    }
    proof {
        assert forall|t: crate::schnorr::Signed<SurveyTransaction>|
            (signed_cwf(t) && b@ == enc_signed_transaction(t)) implies events_equiv(
            events@,
            t.value.events@,
        ) && cur == p2 + enc_events(t.value.events@).len() && cur + 8 <= b@.len() && b@.subrange(
            cur as int,
            cur + 8,
        ) == u64_le(t.value.nonce.0) && cur + 8 + 64 == b@.len() && b@.subrange(
            cur + 8,
            cur + 8 + 64,
        ) == enc_sig(t.signature) by {
            lemma_signed_fields(t, b@);
            assert(t.value.events@.take(total as int) =~= t.value.events@);
        }
    }
    if n - cur < 8 {
        return None;
    }
    let nonce = Nonce(read_u64_le(b, cur));
    let p4 = cur + 8;
    let (signature, p5) = match read_sig(b, p4) {
        Some(x) => x,
        None => {
            return None;
        },
    };
    if p5 != n {
        return None;
    }
    let t = crate::schnorr::Signed {
        value: SurveyTransaction { chain, from, events, nonce },
        signature,
    };
    proof {
        assert(count == total as u32);
        assert(t.value.events@.len() == total);
        assert(u32_le(count) == b@.subrange(p1 as int, p1 + 4));
        assert(enc_signed_transaction(t) =~= b@);
        assert(b@.subrange(0, b@.len() as int) =~= b@);
    }
    Some(t)
}

/// The encoded items of a prefix are a prefix of the encoded items.
proof fn lemma_items_prefix(x: Seq<String>, j: int)
    requires
        0 <= j <= x.len(),
    ensures
        enc_strings_items(x.take(j)).len() <= enc_strings_items(x).len(),
        enc_strings_items(x).subrange(0, enc_strings_items(x.take(j)).len() as int)
            == enc_strings_items(x.take(j)),
    decreases x.len() - j,
{
    if j == x.len() {
        assert(x.take(j) =~= x);
        assert(enc_strings_items(x).subrange(0, enc_strings_items(x).len() as int)
            =~= enc_strings_items(x));
    } else {
        lemma_items_prefix(x, j + 1);
        lemma_enc_strings_items_take(x, j + 1);
        assert(enc_strings_items(x).subrange(0, enc_strings_items(x.take(j)).len() as int)
            =~= enc_strings_items(x.take(j)));
    }
}

} // verus!
