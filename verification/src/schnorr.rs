//! Key pairs and Schnorr signatures over the group.
//!
//! Signing draws a fresh scalar `r`, commits to `R = r·B`, derives the
//! challenge `c` from a domain-separated hash of `R` and the message, and
//! answers with `a = r − c·sk`. Verification recomputes `R' = a·B + c·P` and
//! accepts exactly when the challenge matches.

use vstd::prelude::*;

use crate::bytes::push_slice;
use crate::group::Bin;
use crate::group::point_add;
use crate::group::point_add_exec;
use crate::group::point_check;
use crate::group::point_mul;
use crate::group::point_mul_base;
use crate::group::point_mul_base_exec;
use crate::group::point_mul_exec;
use crate::group::point_valid;
use crate::group::scalar_mul;
use crate::group::scalar_mul_exec;
use crate::group::scalar_random;
use crate::group::scalar_reduce;
use crate::group::scalar_reduce_exec;
use crate::group::scalar_sub;
use crate::group::scalar_sub_exec;
use crate::group::scalar_valid;
use crate::group::xof;
use crate::group::xof_bytes;

verus! {

/// The domain-separation prefix of the signature hash: the bytes of `"sig"`.
pub open spec fn sig_domain() -> Seq<u8> {
    seq![115u8, 105u8, 103u8]
}

/// A 32-byte compressed group element standing for a public key.
///
/// Well-formed values hold a canonical encoding, so byte equality of two
/// well-formed keys coincides with equality of the points they decode to.
#[derive(Clone, Copy, Debug, PartialEq, Eq, Hash)]
pub struct PublicKey {
    pub bytes: Bin,
}

impl PublicKey {
    /// The key's encoding is canonical.
    pub open spec fn wf(self) -> bool {
        point_valid(self.bytes@)
    }

    /// The serialized form of the key.
    pub fn to_bytes(&self) -> (r: Bin)
        ensures
            r == self.bytes,
    {
        self.bytes
    }

    /// Accept 32 bytes as a key exactly when they are a canonical encoding.
    pub fn from_bytes(b: &Bin) -> (r: Option<PublicKey>)
        ensures
            r is Some <==> point_valid(b@),
            r matches Some(pk) ==> pk.bytes == b && pk.wf(),
    {
        if point_check(b) {
            Some(PublicKey { bytes: *b })
        } else {
            None
        }
    }

    /// Whether `sig` is a valid signature on `message` under this key.
    pub fn verify(&self, message: &[u8], sig: &Sig) -> (r: bool)
        requires
            self.wf(),
            sig.wf(),
        ensures
            r == schnorr_verify(self.bytes@, message@, *sig),
    {
        let rp = point_add_exec(&point_mul_base_exec(&sig.a), &point_mul_exec(&sig.c, &self.bytes));
        let c2 = schnorr_challenge_exec(&rp, message);
        crate::group::ct_eq(&sig.c, &c2)
    }
}

/// A 32-byte canonically reduced scalar standing for a secret key.
#[derive(Clone, Copy, Debug, PartialEq, Eq, Hash)]
pub struct SecretKey {
    pub bytes: Bin,
}

impl SecretKey {
    /// The scalar's encoding is canonically reduced.
    pub open spec fn wf(self) -> bool {
        scalar_valid(self.bytes@)
    }

    /// Draw a fresh uniformly random secret key.
    pub fn random() -> (r: SecretKey)
        ensures
            r.wf(),
    {
        SecretKey { bytes: scalar_random() }
    }

    /// The serialized form of the key.
    pub fn to_bytes(&self) -> (r: Bin)
        ensures
            r == self.bytes,
    {
        self.bytes
    }

    /// Accept 32 bytes as a secret key exactly when canonically reduced.
    pub fn from_bytes(b: &Bin) -> (r: Option<SecretKey>)
        ensures
            r is Some <==> scalar_valid(b@),
            r matches Some(sk) ==> sk.bytes == b && sk.wf(),
    {
        if crate::group::scalar_check(b) {
            Some(SecretKey { bytes: *b })
        } else {
            None
        }
    }

    /// The public key `sk·B` of this secret key.
    pub fn public_key(&self) -> (r: PublicKey)
        requires
            self.wf(),
        ensures
            r.bytes@ == point_mul_base(self.bytes@),
            r.wf(),
    {
        PublicKey { bytes: point_mul_base_exec(&self.bytes) }
    }

    /// Sign a message: some fresh scalar `r` was drawn, and the signature is
    /// `(c, a)` with `c` the challenge of `r·B` and `a = r − c·sk`.
    pub fn sign(&self, message: &[u8]) -> (sig: Sig)
        requires
            self.wf(),
        ensures
            sig.wf(),
            exists|rnd: Seq<u8>|
                #[trigger] scalar_valid(rnd) && sig.c@ == schnorr_challenge(
                    point_mul_base(rnd),
                    message@,
                ) && sig.a@ == scalar_sub(rnd, scalar_mul(sig.c@, self.bytes@)),
    {
        let rnd = scalar_random();
        let rp = point_mul_base_exec(&rnd);
        let c = schnorr_challenge_exec(&rp, message);
        let a = scalar_sub_exec(&rnd, &scalar_mul_exec(&c, &self.bytes));
        let sig = Sig { c, a };
        proof {
            assert(scalar_valid(rnd@) && sig.c@ == schnorr_challenge(point_mul_base(rnd@), message@)
                && sig.a@ == scalar_sub(rnd@, scalar_mul(sig.c@, self.bytes@)));
        }
        sig
    }
}

/// A Schnorr signature `(c, a)`, two canonically reduced scalars.
#[derive(Clone, Copy, Debug, PartialEq, Eq, Hash)]
pub struct Sig {
    pub c: Bin,
    pub a: Bin,
}

impl Sig {
    /// Both scalars are canonically reduced.
    pub open spec fn wf(self) -> bool {
        scalar_valid(self.c@) && scalar_valid(self.a@)
    }
}

/// The challenge scalar: the hash of the domain, the commitment point and
/// the message, reduced into the scalar field.
pub open spec fn schnorr_challenge(rpoint: Seq<u8>, message: Seq<u8>) -> Seq<u8> {
    scalar_reduce(xof_bytes(sig_domain() + rpoint + message, 32))
}

/// Whether `(c, a)` passes verification on `message` under the key `pk`:
/// the challenge recomputed at `a·B + c·P` equals `c`.
pub open spec fn schnorr_verify(pk: Seq<u8>, message: Seq<u8>, sig: Sig) -> bool {
    sig.c@ == schnorr_challenge(point_add(point_mul_base(sig.a@), point_mul(sig.c@, pk)), message)
}

/// Compute the challenge scalar of a commitment point and a message.
fn schnorr_challenge_exec(rpoint: &Bin, message: &[u8]) -> (r: Bin)
    ensures
        r@ == schnorr_challenge(rpoint@, message@),
        scalar_valid(r@),
{
    let mut buf: Vec<u8> = Vec::new();
    push_slice(&mut buf, &[115u8, 105u8, 103u8]);
    push_slice(&mut buf, rpoint);
    push_slice(&mut buf, message);
    proof {
        assert(buf@ =~= sig_domain() + rpoint@ + message@);
    }
    let h = xof(buf.as_slice(), 32);
    let mut arr: Bin = [0u8; 32];
    let mut i: usize = 0;
    while i < 32
        invariant
            i <= 32,
            h@.len() == 32,
            arr@.len() == 32,
            forall|j: int| 0 <= j < i ==> arr@[j] == h@[j],
        decreases 32 - i,
    {
        arr[i] = h[i];
        i = i + 1;
    }
    proof {
        assert(arr@ =~= h@);
    }
    scalar_reduce_exec(&arr)
}

/// A value together with the signature that vouches for it.
#[derive(Clone, Copy, Debug, PartialEq, Eq, Hash)]
pub struct Signed<A> {
    pub value: A,
    pub signature: Sig,
}

/// The pair of public keys a non-ephemeral identity carries: its signing key
/// and its encryption key, the latter signed.
#[derive(Clone, Copy, Debug, PartialEq, Eq, Hash)]
pub struct CryptoID {
    pub sign_key: PublicKey,
    pub encrypt_key: Signed<PublicKey>,
}

impl CryptoID {
    /// Both keys hold canonical encodings and the vouching signature holds
    /// reduced scalars.
    pub open spec fn wf(self) -> bool {
        self.sign_key.wf() && self.encrypt_key.value.wf() && self.encrypt_key.signature.wf()
    }
}

/// Which of an identity's two keys a public key is.
#[derive(Clone, Copy, Debug, PartialEq, Eq, Structural, Hash)]
pub enum PublicKeyType {
    Sign,
    Encrypt,
}

} // verus!
