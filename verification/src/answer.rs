//! Answers: sealed on submission, clear after decryption.
//!
//! An answer body is sealed into a fixed 300-byte box: a 268-byte padded
//! encoding of the body, masked with a key stream drawn from the extendable
//! hash of the shared secret and the iteration, followed by a 32-byte
//! binding tag over the masked bytes. The submitter derives the shared
//! secret from its ephemeral secret key and the survey's joint key; after
//! the survey reconstructs the joint secret, the same shared secret is
//! derived from the joint secret and the answer's ephemeral encryption key.

use vstd::prelude::*;

use crate::bytes::push_slice;
use crate::bytes::push_u16_le;
use crate::bytes::push_u64_le;
use crate::bytes::read_u16_le;
use crate::bytes::lemma_xor_involution;
use crate::bytes::u16_le;
use crate::bytes::u64_le;
use crate::bytes::xor_bytes;
use crate::bytes::xor_seq;
use crate::group::Bin;
use crate::group::point_mul;
use crate::group::point_mul_exec;
use crate::group::point_valid;
use crate::group::scalar_valid;
use crate::group::xof;
use crate::group::xof_bytes;
use crate::ring::RingSig;
use crate::schnorr::PublicKey;
use crate::schnorr::SecretKey;
use crate::schnorr::Sig;

verus! {

/// The fixed size of a sealed answer.
pub const ANSWER_SIZE: usize = 300;

/// The size of the padded clear encoding inside the box.
pub const ANSWER_PLAIN_SIZE: usize = 268;

/// The longest free-text answer the padded encoding can carry.
pub const ANSWER_TEXT_MAX: usize = 265;

/// A member's sealed contribution to a survey.
#[derive(Clone, Debug, PartialEq, Eq)]
pub struct Answer {
    /// The ephemeral key this answer is Schnorr-signed with.
    pub sign_key: PublicKey,
    /// The ephemeral key the box's shared secret was derived from.
    pub encrypt_key: PublicKey,
    /// The iteration the answer is bound to.
    pub iteration: u64,
    /// The sealed box, always `ANSWER_SIZE` bytes.
    pub answer: Vec<u8>,
    /// The ring signature binding the answer to the member set.
    pub ring_sig: RingSig,
    /// The Schnorr signature by `sign_key`.
    pub sig: Sig,
}

impl Answer {
    /// Keys canonical, scalars reduced, box sized.
    pub open spec fn wf(self) -> bool {
        &&& self.sign_key.wf()
        &&& self.encrypt_key.wf()
        &&& self.answer@.len() == 300
        &&& self.ring_sig.wf()
        &&& self.sig.wf()
    }

    /// Open this answer's box with the reconstructed joint secret: the
    /// shared secret is `s · encrypt_key`.
    pub fn decrypt(&self, secret: &SecretKey) -> (r: Option<ClearAnswer>)
        requires
            self.wf(),
            secret.wf(),
        ensures
            r matches Some(ca) ==> {
                &&& ca.sign_key == self.sign_key
                &&& ca.encrypt_key == self.encrypt_key
                &&& body_wf(ca.answer)
            },
            forall|b: ClearAnswerBody|
                body_wf(b) && self.answer@ == seal_spec(
                    point_mul(secret.bytes@, self.encrypt_key.bytes@),
                    self.iteration,
                    b,
                ) ==> r is Some && body_view(r->0.answer) == body_view(b),
    {
        let shared = point_mul_exec(&secret.bytes, &self.encrypt_key.bytes);
        match open_box(&shared, self.iteration, &self.answer) {
            Some(body) => Some(
                ClearAnswer {
                    sign_key: self.sign_key,
                    encrypt_key: self.encrypt_key,
                    answer: body,
                },
            ),
            None => None,
        }
    }
}

/// An answer after decryption.
#[derive(Clone, Debug, PartialEq, Eq)]
pub struct ClearAnswer {
    pub sign_key: PublicKey,
    pub encrypt_key: PublicKey,
    pub answer: ClearAnswerBody,
}

/// The clear content of an answer.
#[derive(Clone, Debug, PartialEq, Eq)]
pub enum ClearAnswerBody {
    /// A bounded free-text answer, as UTF-8 bytes.
    Open(Vec<u8>),
    /// A yes/no answer.
    Closed(bool),
    /// The selected option of a poll.
    Poll(u8),
}

/// The kind byte of a body.
pub open spec fn body_kind(b: ClearAnswerBody) -> u8 {
    match b {
        ClearAnswerBody::Open(_) => 0,
        ClearAnswerBody::Closed(_) => 1,
        ClearAnswerBody::Poll(_) => 2,
    }
}

/// The payload bytes of a body.
pub open spec fn body_payload(b: ClearAnswerBody) -> Seq<u8> {
    match b {
        ClearAnswerBody::Open(v) => v@,
        ClearAnswerBody::Closed(x) => seq![
            if x {
                1u8
            } else {
                0u8
            },
        ],
        ClearAnswerBody::Poll(k) => seq![k],
    }
}

/// Whether a body fits the padded encoding.
pub open spec fn body_wf(b: ClearAnswerBody) -> bool {
    body_payload(b).len() <= 265
}

/// What a body says, up to representation: its kind and its payload.
pub open spec fn body_view(b: ClearAnswerBody) -> (u8, Seq<u8>) {
    (body_kind(b), body_payload(b))
}

/// The padded 268-byte encoding of a body: kind, payload length, payload,
/// zero padding.
pub open spec fn body_enc(b: ClearAnswerBody) -> Seq<u8> {
    seq![body_kind(b)] + u16_le(body_payload(b).len() as u16) + body_payload(b) + Seq::new(
        (265 - body_payload(b).len()) as nat,
        |i: int| 0u8,
    )
}

/// The domain prefix of the key stream: the bytes of `"seal"`.
pub open spec fn seal_domain() -> Seq<u8> {
    seq![115u8, 101u8, 97u8, 108u8]
}

/// The domain prefix of the binding tag: the bytes of `"bind"`.
pub open spec fn bind_domain() -> Seq<u8> {
    seq![98u8, 105u8, 110u8, 100u8]
}

/// The 268-byte key stream of a shared secret and an iteration.
pub open spec fn box_stream(shared: Seq<u8>, iteration: u64) -> Seq<u8> {
    xof_bytes(seal_domain() + shared + u64_le(iteration), 268)
}

/// The 32-byte binding tag over the masked bytes.
pub open spec fn box_tag(shared: Seq<u8>, iteration: u64, cipher: Seq<u8>) -> Seq<u8> {
    xof_bytes(bind_domain() + shared + u64_le(iteration) + cipher, 32)
}

/// The sealed 300-byte box of a body.
pub open spec fn seal_spec(shared: Seq<u8>, iteration: u64, b: ClearAnswerBody) -> Seq<u8> {
    let cipher = xor_seq(body_enc(b), box_stream(shared, iteration));
    cipher + box_tag(shared, iteration, cipher)
}

/// Encode a body into its padded 268-byte form.
fn encode_body(b: &ClearAnswerBody) -> (r: Vec<u8>)
    requires
        body_wf(*b),
    ensures
        r@ == body_enc(*b),
        r@.len() == 268,
{
    let mut out: Vec<u8> = Vec::new();
    let mut payload: Vec<u8> = Vec::new();
    match b {
        ClearAnswerBody::Open(v) => {
            push_slice(&mut payload, v.as_slice());
        },
        ClearAnswerBody::Closed(x) => {
            payload.push(if *x {
                1u8
            } else {
                0u8
            });
        },
        ClearAnswerBody::Poll(k) => {
            payload.push(*k);
        },
    }
    proof {
        assert(payload@ =~= body_payload(*b));
    }
    out.push(match b {
        ClearAnswerBody::Open(_) => 0u8,
        ClearAnswerBody::Closed(_) => 1u8,
        ClearAnswerBody::Poll(_) => 2u8,
    });
    push_u16_le(&mut out, payload.len() as u16);
    push_slice(&mut out, payload.as_slice());
    let pad: usize = 265 - payload.len();
    let mut i: usize = 0;
    let ghost mid = out@;
    while i < pad
        invariant
            i <= pad,
            out@ == mid + Seq::new(i as nat, |j: int| 0u8),
        decreases pad - i,
    {
        out.push(0u8);
        i = i + 1;
        proof {
            assert(out@ =~= mid + Seq::new(i as nat, |j: int| 0u8));
        }
    }
    proof {
        assert(out@ =~= body_enc(*b));
    }
    out
}

/// Decode a padded 268-byte form back into the body it encodes, if any.
fn parse_body(plain: &Vec<u8>) -> (r: Option<ClearAnswerBody>)
    requires
        plain@.len() == 268,
    ensures
        forall|b: ClearAnswerBody|
            body_wf(b) && plain@ == body_enc(b) ==> r is Some && body_view(r->0) == body_view(b),
        r matches Some(b2) ==> body_wf(b2),
{
    let kind = plain[0];
    let len = read_u16_le(plain, 1);
    proof {
        assert forall|b: ClearAnswerBody| body_wf(b) && plain@ == body_enc(b) implies plain@[0]
            == body_kind(b) && plain@.subrange(1, 3) == u16_le(body_payload(b).len() as u16)
            && plain@.subrange(3, 3 + body_payload(b).len() as int) == body_payload(b) by {
            assert(plain@.subrange(1, 3) =~= u16_le(body_payload(b).len() as u16));
            assert(plain@.subrange(3, 3 + body_payload(b).len() as int) =~= body_payload(b));
        }
    }
    if len > 265 {
        return None;
    }
    let l: usize = len as usize;
    if kind == 0 {
        let mut payload: Vec<u8> = Vec::new();
        let mut i: usize = 0;
        while i < l
            invariant
                i <= l,
                l <= 265,
                l + 3 <= plain@.len(),
                payload@ == plain@.subrange(3, 3 + i as int),
            decreases l - i,
        {
            payload.push(plain[3 + i]);
            i = i + 1;
            proof {
                assert(payload@ =~= plain@.subrange(3, 3 + i as int));
            }
        }
        Some(ClearAnswerBody::Open(payload))
    } else if kind == 1 {
        if l != 1 {
            return None;
        }
        Some(ClearAnswerBody::Closed(plain[3] != 0))
    } else if kind == 2 {
        if l != 1 {
            return None;
        }
        Some(ClearAnswerBody::Poll(plain[3]))
    } else {
        None
    }
}

/// Seal a body under a shared secret and an iteration.
pub fn seal_box(shared: &Bin, iteration: u64, body: &ClearAnswerBody) -> (r: Vec<u8>)
    requires
        body_wf(*body),
    ensures
        r@ == seal_spec(shared@, iteration, *body),
        r@.len() == 300,
{
    let plain = encode_body(body);
    let mut key_input: Vec<u8> = Vec::new();
    push_slice(&mut key_input, &[115u8, 101u8, 97u8, 108u8]);
    push_slice(&mut key_input, shared);
    push_u64_le(&mut key_input, iteration);
    proof {
        assert(key_input@ =~= seal_domain() + shared@ + u64_le(iteration));
    }
    let stream = xof(key_input.as_slice(), 268);
    let cipher = xor_bytes(plain.as_slice(), stream.as_slice());

    let mut tag_input: Vec<u8> = Vec::new();
    push_slice(&mut tag_input, &[98u8, 105u8, 110u8, 100u8]);
    push_slice(&mut tag_input, shared);
    push_u64_le(&mut tag_input, iteration);
    push_slice(&mut tag_input, cipher.as_slice());
    proof {
        assert(tag_input@ =~= bind_domain() + shared@ + u64_le(iteration) + cipher@);
    }
    let tag = xof(tag_input.as_slice(), 32);

    let mut out: Vec<u8> = Vec::new();
    push_slice(&mut out, cipher.as_slice());
    push_slice(&mut out, tag.as_slice());
    proof {
        assert(out@ =~= seal_spec(shared@, iteration, *body));
    }
    out
}

/// Open a sealed box: check the binding tag, unmask, decode.
///
/// A box sealed under the same shared secret and iteration always opens to
/// its body; a box that opens always carries the matching binding tag.
pub fn open_box(shared: &Bin, iteration: u64, sealed: &Vec<u8>) -> (r: Option<ClearAnswerBody>)
    requires
        sealed@.len() == 300,
    ensures
        forall|b: ClearAnswerBody|
            body_wf(b) && sealed@ == seal_spec(shared@, iteration, b) ==> r is Some && body_view(
                r->0,
            ) == body_view(b),
        r is Some ==> sealed@.subrange(268, 300) == box_tag(
            shared@,
            iteration,
            sealed@.subrange(0, 268),
        ),
        r matches Some(b2) ==> body_wf(b2),
{
    let mut cipher: Vec<u8> = Vec::new();
    let mut i: usize = 0;
    while i < 268
        invariant
            i <= 268,
            sealed@.len() == 300,
            cipher@ == sealed@.subrange(0, i as int),
        decreases 268 - i,
    {
        cipher.push(sealed[i]);
        i = i + 1;
        proof {
            assert(cipher@ =~= sealed@.subrange(0, i as int));
        }
    }

    let mut tag_input: Vec<u8> = Vec::new();
    push_slice(&mut tag_input, &[98u8, 105u8, 110u8, 100u8]);
    push_slice(&mut tag_input, shared);
    push_u64_le(&mut tag_input, iteration);
    push_slice(&mut tag_input, cipher.as_slice());
    proof {
        assert(tag_input@ =~= bind_domain() + shared@ + u64_le(iteration) + cipher@);
    }
    let expected_tag = xof(tag_input.as_slice(), 32);

    let mut actual_tag: Vec<u8> = Vec::new();
    let mut i: usize = 268;
    while i < 300
        invariant
            268 <= i <= 300,
            sealed@.len() == 300,
            actual_tag@ == sealed@.subrange(268, i as int),
        decreases 300 - i,
    {
        actual_tag.push(sealed[i]);
        i = i + 1;
        proof {
            assert(actual_tag@ =~= sealed@.subrange(268, i as int));
        }
    }

    if !crate::group::ct_eq(actual_tag.as_slice(), expected_tag.as_slice()) {
        proof {
            assert forall|b: ClearAnswerBody|
                body_wf(b) && sealed@ == seal_spec(shared@, iteration, b) implies false by {
                assert(sealed@.subrange(0, 268) =~= xor_seq(
                    body_enc(b),
                    box_stream(shared@, iteration),
                ));
                assert(sealed@.subrange(268, 300) =~= box_tag(
                    shared@,
                    iteration,
                    sealed@.subrange(0, 268),
                ));
            }
        }
        return None;
    }

    let mut key_input: Vec<u8> = Vec::new();
    push_slice(&mut key_input, &[115u8, 101u8, 97u8, 108u8]);
    push_slice(&mut key_input, shared);
    push_u64_le(&mut key_input, iteration);
    proof {
        assert(key_input@ =~= seal_domain() + shared@ + u64_le(iteration));
    }
    let stream = xof(key_input.as_slice(), 268);
    let plain = xor_bytes(cipher.as_slice(), stream.as_slice());
    proof {
        assert forall|b: ClearAnswerBody|
            body_wf(b) && sealed@ == seal_spec(shared@, iteration, b) implies plain@ == body_enc(
            b,
        ) by {
            assert(cipher@ =~= xor_seq(body_enc(b), box_stream(shared@, iteration)));
            lemma_xor_involution(body_enc(b), box_stream(shared@, iteration));
        }
    }
    parse_body(&plain)
}

} // verus!
