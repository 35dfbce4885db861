//! The linkable ring signature.
//!
//! For a domain-separating tag, an ordered ring of public keys and a
//! message, a member signs without revealing which slot is theirs, yet two
//! signatures produced with the same secret key share the same value at the
//! signer's slot, which is how contributing twice is detected and proved.
//!
//! The construction: `H_R` is a point derived from the tag and the ring
//! only; `A0` is a point bound to the message as well; the signer's slot
//! value is `σ_i = sk_i·H_R`, and `A1 = (i+1)⁻¹·(σ_i − A0)` extends it to a
//! line `σ_j = A0 + (j+1)·A1` through every slot. The challenge of the ring
//! equation closes over simulated commitments for every other slot.

use vstd::prelude::*;

use crate::bytes::push_slice;
use crate::errors::CryptoError;
use crate::group::Bin;
use crate::group::point_add;
use crate::group::point_add_exec;
use crate::group::point_check;
use crate::group::point_from_uniform;
use crate::group::point_from_uniform_exec;
use crate::group::point_mul;
use crate::group::point_mul_base;
use crate::group::point_mul_base_exec;
use crate::group::point_mul_exec;
use crate::group::point_sub;
use crate::group::point_sub_exec;
use crate::group::point_valid;
use crate::group::scalar_add;
use crate::group::scalar_add_exec;
use crate::group::scalar_from_u64;
use crate::group::scalar_from_u64_exec;
use crate::group::scalar_invert;
use crate::group::scalar_invert_exec;
use crate::group::scalar_mul;
use crate::group::scalar_mul_exec;
use crate::group::scalar_random;
use crate::group::scalar_reduce;
use crate::group::scalar_reduce_exec;
use crate::group::scalar_sub;
use crate::group::scalar_sub_exec;
use crate::group::scalar_valid;
use crate::group::xof;
use crate::group::xof_bytes;
use crate::schnorr::PublicKey;
use crate::schnorr::SecretKey;

verus! {

/// A ring signature: the line point `A1` and one `(c_j, z_j)` pair per slot.
#[derive(Clone, Debug, PartialEq, Eq)]
pub struct RingSig {
    pub a1: Bin,
    pub c: Vec<Bin>,
    pub z: Vec<Bin>,
}

/// What linking two ring signatures under the same tag and ring reveals.
#[derive(Clone, Copy, Debug, PartialEq, Eq, Structural)]
pub enum RingSigLink {
    /// Different signers (or at least no slot provably shared).
    Independent,
    /// The same member signed both, at the given slot.
    SamePublicKey(usize),
    /// The same member signed the same message twice.
    SameMessage,
}

impl RingSig {
    /// Every `c_j` and `z_j` is a canonically reduced scalar.
    pub open spec fn wf(self) -> bool {
        &&& forall|j: int| 0 <= j < self.c@.len() ==> scalar_valid(#[trigger] self.c@[j]@)
        &&& forall|j: int| 0 <= j < self.z@.len() ==> scalar_valid(#[trigger] self.z@[j]@)
    }
}

/// Every key of the ring holds a canonical encoding.
pub open spec fn ring_wf(keys: Seq<PublicKey>) -> bool {
    forall|j: int| 0 <= j < keys.len() ==> (#[trigger] keys[j]).wf()
}

/// The concatenation of the serialized keys of the ring, in ring order.
pub open spec fn keys_bytes(keys: Seq<PublicKey>) -> Seq<u8>
    decreases keys.len(),
{
    if keys.len() == 0 {
        Seq::<u8>::empty()
    } else {
        keys_bytes(keys.drop_last()) + keys.last().bytes@
    }
}

/// The concatenation of a list of byte strings.
pub open spec fn seqs_concat(s: Seq<Seq<u8>>) -> Seq<u8>
    decreases s.len(),
{
    if s.len() == 0 {
        Seq::<u8>::empty()
    } else {
        seqs_concat(s.drop_last()) + s.last()
    }
}

/// The sum of a list of scalars, folded left from zero.
pub open spec fn scalars_sum(s: Seq<Bin>) -> Seq<u8>
    decreases s.len(),
{
    if s.len() == 0 {
        scalar_from_u64(0)
    } else {
        scalar_add(scalars_sum(s.drop_last()), s.last()@)
    }
}

/// The domain prefix of the ring point hash: the bytes of `"h"`.
pub open spec fn h_domain() -> Seq<u8> {
    seq![104u8]
}

/// The domain prefix of the message point hash: the bytes of `"a0"`.
pub open spec fn a0_domain() -> Seq<u8> {
    seq![97u8, 48u8]
}

/// The domain prefix of the challenge hash: the bytes of `"c"`.
pub open spec fn c_domain() -> Seq<u8> {
    seq![99u8]
}

/// `H_R`: the point derived from the tag and the ring, the same for every
/// message.
pub open spec fn ring_h(tag: Seq<u8>, keys: Seq<PublicKey>) -> Seq<u8> {
    point_from_uniform(xof_bytes(h_domain() + tag + keys_bytes(keys), 64))
}

/// `A0`: the point bound to the tag, the ring and the message.
pub open spec fn ring_a0(tag: Seq<u8>, keys: Seq<PublicKey>, message: Seq<u8>) -> Seq<u8> {
    point_from_uniform(xof_bytes(a0_domain() + tag + keys_bytes(keys) + message, 64))
}

/// `σ_j = A0 + (j+1)·A1`: the line value at slot `j`.
pub open spec fn sigma_at(a0: Seq<u8>, a1: Seq<u8>, j: int) -> Seq<u8> {
    point_add(a0, point_mul(scalar_from_u64((j + 1) as u64), a1))
}

/// `A1` as the signer computes it: `(i+1)⁻¹·(sk·H_R − A0)`. It depends on
/// the tag, ring, message, secret key and slot alone, never on the random
/// draws, so two signatures by the same member on the same message share it.
pub open spec fn ring_a1(
    tag: Seq<u8>,
    keys: Seq<PublicKey>,
    message: Seq<u8>,
    sk: Seq<u8>,
    i: int,
) -> Seq<u8> {
    point_mul(
        scalar_invert(scalar_from_u64((i + 1) as u64)),
        point_sub(point_mul(sk, ring_h(tag, keys)), ring_a0(tag, keys, message)),
    )
}

/// The challenge scalar closing the ring equation.
pub open spec fn ring_challenge(
    tag: Seq<u8>,
    keys: Seq<PublicKey>,
    a0: Seq<u8>,
    a1: Seq<u8>,
    abytes: Seq<u8>,
    bbytes: Seq<u8>,
) -> Seq<u8> {
    scalar_reduce(
        xof_bytes(c_domain() + tag + keys_bytes(keys) + a0 + a1 + abytes + bbytes, 32),
    )
}

/// The commitment `a_j = z_j·B + c_j·P_j` a verifier recomputes at slot `j`.
pub open spec fn verify_a_at(keys: Seq<PublicKey>, sig: RingSig, j: int) -> Seq<u8> {
    point_add(point_mul_base(sig.z@[j]@), point_mul(sig.c@[j]@, keys[j].bytes@))
}

/// The commitment `b_j = z_j·H_R + c_j·σ_j` a verifier recomputes at slot
/// `j`.
pub open spec fn verify_b_at(
    tag: Seq<u8>,
    keys: Seq<PublicKey>,
    message: Seq<u8>,
    sig: RingSig,
    j: int,
) -> Seq<u8> {
    point_add(
        point_mul(sig.z@[j]@, ring_h(tag, keys)),
        point_mul(sig.c@[j]@, sigma_at(ring_a0(tag, keys, message), sig.a1@, j)),
    )
}

/// All recomputed `a_j`, in slot order.
pub open spec fn verify_a_views(keys: Seq<PublicKey>, sig: RingSig) -> Seq<Seq<u8>> {
    Seq::new(keys.len(), |j: int| verify_a_at(keys, sig, j))
}

/// All recomputed `b_j`, in slot order.
pub open spec fn verify_b_views(
    tag: Seq<u8>,
    keys: Seq<PublicKey>,
    message: Seq<u8>,
    sig: RingSig,
) -> Seq<Seq<u8>> {
    Seq::new(keys.len(), |j: int| verify_b_at(tag, keys, message, sig, j))
}

/// Whether a well-sized signature with a canonical `A1` passes verification:
/// the challenge recomputed over all simulated commitments equals the sum of
/// the `c_j`.
pub open spec fn ring_verify_ok(
    tag: Seq<u8>,
    keys: Seq<PublicKey>,
    message: Seq<u8>,
    sig: RingSig,
) -> bool {
    ring_challenge(
        tag,
        keys,
        ring_a0(tag, keys, message),
        sig.a1@,
        seqs_concat(verify_a_views(keys, sig)),
        seqs_concat(verify_b_views(tag, keys, message, sig)),
    ) == scalars_sum(sig.c@)
}

/// Append the serialized keys of the ring to a buffer.
fn push_keys(out: &mut Vec<u8>, keys: &Vec<PublicKey>)
    ensures
        final(out)@ == old(out)@ + keys_bytes(keys@),
{
    let mut j: usize = 0;
    while j < keys.len()
        invariant
            j <= keys@.len(),
            out@ == old(out)@ + keys_bytes(keys@.subrange(0, j as int)),
        decreases keys@.len() - j,
    {
        push_slice(out, &keys[j].bytes);
        j = j + 1;
        proof {
            let pre = keys@.subrange(0, j as int);
            assert(pre.drop_last() =~= keys@.subrange(0, j - 1));
            assert(out@ =~= old(out)@ + keys_bytes(pre));
        }
    }
    proof {
        assert(keys@.subrange(0, keys@.len() as int) =~= keys@);
    }
}

/// Compute `H_R` for a tag and a ring.
fn ring_h_exec(tag: &[u8], keys: &Vec<PublicKey>) -> (r: Bin)
    ensures
        r@ == ring_h(tag@, keys@),
        point_valid(r@),
{
    let mut buf: Vec<u8> = Vec::new();
    push_slice(&mut buf, &[104u8]);
    push_keys_tagged(&mut buf, tag, keys);
    proof {
        assert(buf@ =~= h_domain() + tag@ + keys_bytes(keys@));
    }
    let h = xof(buf.as_slice(), 64);
    point_from_uniform_exec(h.as_slice())
}

/// Compute `A0` for a tag, a ring and a message.
fn ring_a0_exec(tag: &[u8], keys: &Vec<PublicKey>, message: &[u8]) -> (r: Bin)
    ensures
        r@ == ring_a0(tag@, keys@, message@),
        point_valid(r@),
{
    let mut buf: Vec<u8> = Vec::new();
    push_slice(&mut buf, &[97u8, 48u8]);
    push_keys_tagged(&mut buf, tag, keys);
    push_slice(&mut buf, message);
    proof {
        assert(buf@ =~= a0_domain() + tag@ + keys_bytes(keys@) + message@);
    }
    let h = xof(buf.as_slice(), 64);
    point_from_uniform_exec(h.as_slice())
}

/// Append the tag, then the serialized ring, to a buffer.
fn push_keys_tagged(out: &mut Vec<u8>, tag: &[u8], keys: &Vec<PublicKey>)
    ensures
        final(out)@ == old(out)@ + tag@ + keys_bytes(keys@),
{
    push_slice(out, tag);
    push_keys(out, keys);
}

/// Append each 32-byte entry of a list to a buffer, in order, and relate the
/// result to the concatenation of the given views.
fn push_bins(out: &mut Vec<u8>, bins: &Vec<Bin>, Ghost(views): Ghost<Seq<Seq<u8>>>)
    requires
        views.len() == bins@.len(),
        forall|j: int| 0 <= j < views.len() ==> views[j] == #[trigger] bins@[j]@,
    ensures
        final(out)@ == old(out)@ + seqs_concat(views),
{
    let mut j: usize = 0;
    while j < bins.len()
        invariant
            j <= bins@.len(),
            views.len() == bins@.len(),
            forall|k: int| 0 <= k < views.len() ==> views[k] == #[trigger] bins@[k]@,
            out@ == old(out)@ + seqs_concat(views.subrange(0, j as int)),
        decreases bins@.len() - j,
    {
        push_slice(out, &bins[j]);
        j = j + 1;
        proof {
            let pre = views.subrange(0, j as int);
            assert(pre.drop_last() =~= views.subrange(0, j - 1));
            assert(out@ =~= old(out)@ + seqs_concat(pre));
        }
    }
    proof {
        assert(views.subrange(0, views.len() as int) =~= views);
    }
}

/// Compute the challenge scalar from the tag, ring, `A0`, `A1` and the two
/// commitment lists.
fn ring_challenge_exec(
    tag: &[u8],
    keys: &Vec<PublicKey>,
    a0: &Bin,
    a1: &Bin,
    av: &Vec<Bin>,
    bv: &Vec<Bin>,
    Ghost(aviews): Ghost<Seq<Seq<u8>>>,
    Ghost(bviews): Ghost<Seq<Seq<u8>>>,
) -> (r: Bin)
    requires
        aviews.len() == av@.len(),
        forall|j: int| 0 <= j < aviews.len() ==> aviews[j] == #[trigger] av@[j]@,
        bviews.len() == bv@.len(),
        forall|j: int| 0 <= j < bviews.len() ==> bviews[j] == #[trigger] bv@[j]@,
    ensures
        r@ == ring_challenge(tag@, keys@, a0@, a1@, seqs_concat(aviews), seqs_concat(bviews)),
        scalar_valid(r@),
{
    let mut buf: Vec<u8> = Vec::new();
    push_slice(&mut buf, &[99u8]);
    push_keys_tagged(&mut buf, tag, keys);
    push_slice(&mut buf, a0);
    push_slice(&mut buf, a1);
    push_bins(&mut buf, av, Ghost(aviews));
    push_bins(&mut buf, bv, Ghost(bviews));
    proof {
        assert(buf@ =~= c_domain() + tag@ + keys_bytes(keys@) + a0@ + a1@ + seqs_concat(aviews)
            + seqs_concat(bviews));
    }
    let h = xof(buf.as_slice(), 32);
    let mut arr: Bin = [0u8; 32];
    let mut i: usize = 0;
    while i < 32
        invariant
            i <= 32,
            h@.len() == 32,
            arr@.len() == 32,
            forall|j: int| 0 <= j < i ==> arr@[j] == h@[j],
        decreases 32 - i,
    {
        arr[i] = h[i];
        i = i + 1;
    }
    proof {
        assert(arr@ =~= h@);
    }
    scalar_reduce_exec(&arr)
}

/// Sum a list of canonically reduced scalars.
fn scalars_sum_exec(v: &Vec<Bin>) -> (r: Bin)
    requires
        forall|j: int| 0 <= j < v@.len() ==> scalar_valid(#[trigger] v@[j]@),
    ensures
        r@ == scalars_sum(v@),
        scalar_valid(r@),
{
    let mut acc = scalar_from_u64_exec(0);
    let mut j: usize = 0;
    proof {
        assert(v@.subrange(0, 0) =~= Seq::<Bin>::empty());
    }
    while j < v.len()
        invariant
            j <= v@.len(),
            forall|k: int| 0 <= k < v@.len() ==> scalar_valid(#[trigger] v@[k]@),
            acc@ == scalars_sum(v@.subrange(0, j as int)),
            scalar_valid(acc@),
        decreases v@.len() - j,
    {
        acc = scalar_add_exec(&acc, &v[j]);
        j = j + 1;
        proof {
            let pre = v@.subrange(0, j as int);
            assert(pre.drop_last() =~= v@.subrange(0, j - 1));
        }
    }
    proof {
        assert(v@.subrange(0, v@.len() as int) =~= v@);
    }
    acc
}

impl RingSig {
    /// Sign `message` under `tag` for the ordered ring `public_keys`, as the
    /// member at `index` owning `secret`.
    ///
    /// Fails with `LengthMismatch` exactly when `index` is outside the ring,
    /// and with `BadSignature` exactly when `secret` does not own the key at
    /// `index`. On success the signature has one `(c, z)` pair per slot, all
    /// scalars reduced, and its `A1` is the deterministic line point of this
    /// tag, ring, message, key and slot.
    pub fn sign(
        tag: &[u8],
        public_keys: &Vec<PublicKey>,
        message: &[u8],
        secret: &SecretKey,
        index: usize,
    ) -> (r: Result<RingSig, CryptoError>)
        requires
            secret.wf(),
            ring_wf(public_keys@),
        ensures
            r is Err ==> r == Err::<RingSig, CryptoError>(CryptoError::LengthMismatch) || r
                == Err::<RingSig, CryptoError>(CryptoError::BadSignature),
            r == Err::<RingSig, CryptoError>(CryptoError::LengthMismatch) <==> index
                >= public_keys@.len(),
            r == Err::<RingSig, CryptoError>(CryptoError::BadSignature) <==> (index
                < public_keys@.len() && point_mul_base(secret.bytes@)
                != public_keys@[index as int].bytes@),
            r matches Ok(sig) ==> {
                &&& index < public_keys@.len()
                &&& point_mul_base(secret.bytes@) == public_keys@[index as int].bytes@
                &&& sig.c@.len() == public_keys@.len()
                &&& sig.z@.len() == public_keys@.len()
                &&& sig.wf()
                &&& point_valid(sig.a1@)
                &&& sig.a1@ == ring_a1(tag@, public_keys@, message@, secret.bytes@, index as int)
            },
    {
        let nb_keys = public_keys.len();
        if index >= nb_keys {
            return Err(CryptoError::LengthMismatch);
        }
        let own_pk = point_mul_base_exec(&secret.bytes);
        if !crate::group::ct_eq(&own_pk, &public_keys[index].bytes) {
            return Err(CryptoError::BadSignature);
        }

        let h = ring_h_exec(tag, public_keys);
        let sigma_i = point_mul_exec(&secret.bytes, &h);
        let big_a0 = ring_a0_exec(tag, public_keys, message);
        let inv = scalar_invert_exec(&scalar_from_u64_exec(index as u64 + 1));
        let big_a1 = point_mul_exec(&inv, &point_sub_exec(&sigma_i, &big_a0));

        let mut sigmas: Vec<Bin> = Vec::new();
        let mut j: usize = 0;
        while j < nb_keys
            invariant
                j <= nb_keys,
                nb_keys == public_keys@.len(),
                sigmas@.len() == j,
                point_valid(big_a0@),
                point_valid(big_a1@),
                point_valid(sigma_i@),
                forall|k: int| 0 <= k < j ==> point_valid(#[trigger] sigmas@[k]@),
            decreases nb_keys - j,
        {
            if j == index {
                sigmas.push(sigma_i);
            } else {
                let factor = scalar_from_u64_exec(j as u64 + 1);
                sigmas.push(point_add_exec(&big_a0, &point_mul_exec(&factor, &big_a1)));
            }
            j = j + 1;
        }

        let mut av: Vec<Bin> = Vec::new();
        let mut bv: Vec<Bin> = Vec::new();
        let mut cv: Vec<Bin> = Vec::new();
        let mut zv: Vec<Bin> = Vec::new();
        let mut other_c = scalar_from_u64_exec(0);
        let wi = scalar_random();
        let mut j: usize = 0;
        while j < nb_keys
            invariant
                j <= nb_keys,
                nb_keys == public_keys@.len(),
                ring_wf(public_keys@),
                sigmas@.len() == nb_keys,
                forall|k: int| 0 <= k < nb_keys ==> point_valid(#[trigger] sigmas@[k]@),
                point_valid(h@),
                scalar_valid(wi@),
                scalar_valid(other_c@),
                av@.len() == j,
                bv@.len() == j,
                cv@.len() == j,
                zv@.len() == j,
                forall|k: int| 0 <= k < j ==> scalar_valid(#[trigger] cv@[k]@),
                forall|k: int| 0 <= k < j ==> scalar_valid(#[trigger] zv@[k]@),
            decreases nb_keys - j,
        {
            if j != index {
                let zj = scalar_random();
                let cj = scalar_random();
                other_c = scalar_add_exec(&other_c, &cj);
                av.push(point_add_exec(
                    &point_mul_base_exec(&zj),
                    &point_mul_exec(&cj, &public_keys[j].bytes),
                ));
                bv.push(point_add_exec(
                    &point_mul_exec(&zj, &h),
                    &point_mul_exec(&cj, &sigmas[j]),
                ));
                cv.push(cj);
                zv.push(zj);
            } else {
                av.push(point_mul_base_exec(&wi));
                bv.push(point_mul_exec(&wi, &h));
                cv.push(scalar_from_u64_exec(0));
                zv.push(scalar_from_u64_exec(0));
            }
            j = j + 1;
        }

        let ghost aviews = Seq::new(av@.len(), |k: int| av@[k]@);
        let ghost bviews = Seq::new(bv@.len(), |k: int| bv@[k]@);
        let c_all = ring_challenge_exec(
            tag,
            public_keys,
            &big_a0,
            &big_a1,
            &av,
            &bv,
            Ghost(aviews),
            Ghost(bviews),
        );
        let ci = scalar_sub_exec(&c_all, &other_c);
        let zi = scalar_sub_exec(&wi, &scalar_mul_exec(&ci, &secret.bytes));
        cv.set(index, ci);
        zv.set(index, zi);

        Ok(RingSig { a1: big_a1, c: cv, z: zv })
    }

    /// Verify this signature on `message` under `tag` for the ordered ring.
    ///
    /// Fails with `LengthMismatch` exactly when the signature does not carry
    /// one `(c, z)` pair per slot, and with `NonCanonicalPoint` exactly when
    /// its `A1` is not a canonical encoding. Otherwise it returns whether
    /// the ring equation closes.
    pub fn verify(
        &self,
        tag: &[u8],
        public_keys: &Vec<PublicKey>,
        message: &[u8],
    ) -> (r: Result<bool, CryptoError>)
        requires
            self.wf(),
            ring_wf(public_keys@),
        ensures
            r == Err::<bool, CryptoError>(CryptoError::LengthMismatch) <==> (self.c@.len()
                != public_keys@.len() || self.z@.len() != public_keys@.len()),
            r == Err::<bool, CryptoError>(CryptoError::NonCanonicalPoint) <==> (self.c@.len()
                == public_keys@.len() && self.z@.len() == public_keys@.len() && !point_valid(
                self.a1@,
            )),
            r matches Ok(ok) ==> ok == ring_verify_ok(tag@, public_keys@, message@, *self),
            r is Ok <==> (self.c@.len() == public_keys@.len() && self.z@.len()
                == public_keys@.len() && point_valid(self.a1@)),
    {
        let nb_keys = public_keys.len();
        if self.c.len() != nb_keys {
            return Err(CryptoError::LengthMismatch);
        }
        if self.z.len() != nb_keys {
            return Err(CryptoError::LengthMismatch);
        }
        if !point_check(&self.a1) {
            return Err(CryptoError::NonCanonicalPoint);
        }
        let big_a0 = ring_a0_exec(tag, public_keys, message);
        let h = ring_h_exec(tag, public_keys);

        let mut av: Vec<Bin> = Vec::new();
        let mut bv: Vec<Bin> = Vec::new();
        let mut j: usize = 0;
        while j < nb_keys
            invariant
                j <= nb_keys,
                nb_keys == public_keys@.len(),
                ring_wf(public_keys@),
                self.wf(),
                self.c@.len() == nb_keys,
                self.z@.len() == nb_keys,
                point_valid(self.a1@),
                big_a0@ == ring_a0(tag@, public_keys@, message@),
                point_valid(big_a0@),
                h@ == ring_h(tag@, public_keys@),
                point_valid(h@),
                av@.len() == j,
                bv@.len() == j,
                forall|k: int| 0 <= k < j ==> #[trigger] av@[k]@ == verify_a_at(
                    public_keys@,
                    *self,
                    k,
                ),
                forall|k: int| 0 <= k < j ==> #[trigger] bv@[k]@ == verify_b_at(
                    tag@,
                    public_keys@,
                    message@,
                    *self,
                    k,
                ),
            decreases nb_keys - j,
        {
            av.push(point_add_exec(
                &point_mul_base_exec(&self.z[j]),
                &point_mul_exec(&self.c[j], &public_keys[j].bytes),
            ));
            let factor = scalar_from_u64_exec(j as u64 + 1);
            let sigma = point_add_exec(&big_a0, &point_mul_exec(&factor, &self.a1));
            bv.push(point_add_exec(
                &point_mul_exec(&self.z[j], &h),
                &point_mul_exec(&self.c[j], &sigma),
            ));
            j = j + 1;
        }

        let ghost aviews = verify_a_views(public_keys@, *self);
        let ghost bviews = verify_b_views(tag@, public_keys@, message@, *self);
        let c_all = ring_challenge_exec(
            tag,
            public_keys,
            &big_a0,
            &self.a1,
            &av,
            &bv,
            Ghost(aviews),
            Ghost(bviews),
        );
        let expected = scalars_sum_exec(&self.c);
        Ok(crate::group::ct_eq(&c_all, &expected))
    }
}

/// Whether the lines of two signatures coincide at slot `j`.
pub open spec fn sigma_eq_at(
    a0_1: Seq<u8>,
    a1_1: Seq<u8>,
    a0_2: Seq<u8>,
    a1_2: Seq<u8>,
    j: int,
) -> bool {
    sigma_at(a0_1, a1_1, j) == sigma_at(a0_2, a1_2, j)
}

/// How many slots below `j` the two lines coincide at.
pub open spec fn nb_eq_upto(
    a0_1: Seq<u8>,
    a1_1: Seq<u8>,
    a0_2: Seq<u8>,
    a1_2: Seq<u8>,
    j: int,
) -> int
    decreases j,
{
    if j <= 0 {
        0
    } else {
        nb_eq_upto(a0_1, a1_1, a0_2, a1_2, j - 1) + if sigma_eq_at(a0_1, a1_1, a0_2, a1_2, j - 1) {
            1int
        } else {
            0int
        }
    }
}

/// The highest slot below `j` the two lines coincide at (0 when none).
pub open spec fn last_eq_upto(
    a0_1: Seq<u8>,
    a1_1: Seq<u8>,
    a0_2: Seq<u8>,
    a1_2: Seq<u8>,
    j: int,
) -> int
    decreases j,
{
    if j <= 0 {
        0
    } else if sigma_eq_at(a0_1, a1_1, a0_2, a1_2, j - 1) {
        j - 1
    } else {
        last_eq_upto(a0_1, a1_1, a0_2, a1_2, j - 1)
    }
}

/// What linking reveals for a ring of at least two slots: the lines
/// coincide everywhere (the same message twice), at exactly one slot (the
/// same member twice — the coinciding slot is the signer's), or neither.
pub open spec fn link_outcome(
    tag: Seq<u8>,
    keys: Seq<PublicKey>,
    m1: Seq<u8>,
    a1_1: Seq<u8>,
    m2: Seq<u8>,
    a1_2: Seq<u8>,
) -> RingSigLink {
    let n = keys.len() as int;
    let a0_1 = ring_a0(tag, keys, m1);
    let a0_2 = ring_a0(tag, keys, m2);
    if nb_eq_upto(a0_1, a1_1, a0_2, a1_2, n) == n {
        RingSigLink::SameMessage
    } else if nb_eq_upto(a0_1, a1_1, a0_2, a1_2, n) == 1 {
        RingSigLink::SamePublicKey(last_eq_upto(a0_1, a1_1, a0_2, a1_2, n) as usize)
    } else {
        RingSigLink::Independent
    }
}

/// The coincidence count never falls and grows by at most one per slot.
proof fn lemma_nb_eq_bounds(
    a0_1: Seq<u8>,
    a1_1: Seq<u8>,
    a0_2: Seq<u8>,
    a1_2: Seq<u8>,
    i: int,
    j: int,
)
    requires
        0 <= i <= j,
    ensures
        nb_eq_upto(a0_1, a1_1, a0_2, a1_2, i) <= nb_eq_upto(a0_1, a1_1, a0_2, a1_2, j),
        nb_eq_upto(a0_1, a1_1, a0_2, a1_2, j) - nb_eq_upto(a0_1, a1_1, a0_2, a1_2, i) <= j - i,
    decreases j - i,
{
    if i < j {
        lemma_nb_eq_bounds(a0_1, a1_1, a0_2, a1_2, i, j - 1);
    }
}

/// When the two lines are the same line, they coincide at every slot.
proof fn lemma_nb_eq_all(a0: Seq<u8>, a1: Seq<u8>, j: int)
    requires
        j >= 0,
    ensures
        nb_eq_upto(a0, a1, a0, a1, j) == j,
    decreases j,
{
    if j > 0 {
        lemma_nb_eq_all(a0, a1, j - 1);
    }
}

/// Two ring signatures by the same member on the same message always link
/// as `SameMessage`: `A1` depends only on the tag, ring, message, key and
/// slot (see `RingSig::sign`), so the two signatures carry the same line,
/// which coincides at every slot.
///
/// A ring of a single slot is left out: there, linking reports
/// `SamePublicKey(0)` before any line is compared.
pub proof fn lemma_link_same_message(
    tag: Seq<u8>,
    keys: Seq<PublicKey>,
    message: Seq<u8>,
    sk: Seq<u8>,
    i: int,
    sig1: RingSig,
    sig2: RingSig,
)
    requires
        keys.len() >= 2,
        sig1.a1@ == ring_a1(tag, keys, message, sk, i),
        sig2.a1@ == ring_a1(tag, keys, message, sk, i),
    ensures
        link_outcome(tag, keys, message, sig1.a1@, message, sig2.a1@) == RingSigLink::SameMessage,
{
    let a0 = ring_a0(tag, keys, message);
    lemma_nb_eq_all(a0, sig1.a1@, keys.len() as int);
}

impl RingSig {
    /// Decide whether two valid signatures under the same tag and ring
    /// share a signer, a message, or neither.
    ///
    /// Fails with `LengthMismatch` exactly when the ring is empty or either
    /// signature is not sized to the ring; a ring of one slot always traces
    /// to `SamePublicKey(0)`; otherwise a non-canonical `A1` fails with
    /// `NonCanonicalPoint`, and the outcome is `link_outcome`.
    pub fn link(
        tag: &[u8],
        public_keys: &Vec<PublicKey>,
        message1: &[u8],
        sig1: &RingSig,
        message2: &[u8],
        sig2: &RingSig,
    ) -> (r: Result<RingSigLink, CryptoError>)
        ensures
            r == Err::<RingSigLink, CryptoError>(CryptoError::LengthMismatch) <==> (
            public_keys@.len() == 0 || sig1.c@.len() != public_keys@.len() || sig1.z@.len()
                != public_keys@.len() || sig2.c@.len() != public_keys@.len() || sig2.z@.len()
                != public_keys@.len()),
            (public_keys@.len() == 1 && sig1.c@.len() == 1 && sig1.z@.len() == 1 && sig2.c@.len()
                == 1 && sig2.z@.len() == 1) ==> r == Ok::<RingSigLink, CryptoError>(
                RingSigLink::SamePublicKey(0),
            ),
            r == Err::<RingSigLink, CryptoError>(CryptoError::NonCanonicalPoint) <==> (
            public_keys@.len() >= 2 && sig1.c@.len() == public_keys@.len() && sig1.z@.len()
                == public_keys@.len() && sig2.c@.len() == public_keys@.len() && sig2.z@.len()
                == public_keys@.len() && (!point_valid(sig1.a1@) || !point_valid(sig2.a1@))),
            (public_keys@.len() >= 2 && sig1.c@.len() == public_keys@.len() && sig1.z@.len()
                == public_keys@.len() && sig2.c@.len() == public_keys@.len() && sig2.z@.len()
                == public_keys@.len() && point_valid(sig1.a1@) && point_valid(sig2.a1@)) ==> r
                == Ok::<RingSigLink, CryptoError>(
                link_outcome(tag@, public_keys@, message1@, sig1.a1@, message2@, sig2.a1@),
            ),
    {
        let nb_keys = public_keys.len();
        if nb_keys == 0 {
            return Err(CryptoError::LengthMismatch);
        }
        if sig1.c.len() != nb_keys {
            return Err(CryptoError::LengthMismatch);
        }
        if sig1.z.len() != nb_keys {
            return Err(CryptoError::LengthMismatch);
        }
        if sig2.c.len() != nb_keys {
            return Err(CryptoError::LengthMismatch);
        }
        if sig2.z.len() != nb_keys {
            return Err(CryptoError::LengthMismatch);
        }
        if nb_keys == 1 {
            return Ok(RingSigLink::SamePublicKey(0));
        }
        if !point_check(&sig1.a1) {
            return Err(CryptoError::NonCanonicalPoint);
        }
        if !point_check(&sig2.a1) {
            return Err(CryptoError::NonCanonicalPoint);
        }
        let big_a0_1 = ring_a0_exec(tag, public_keys, message1);
        let big_a0_2 = ring_a0_exec(tag, public_keys, message2);
        let ghost ga0_1 = big_a0_1@;
        let ghost ga0_2 = big_a0_2@;
        let ghost ga1_1 = sig1.a1@;
        let ghost ga1_2 = sig2.a1@;

        let mut seen_diff = false;
        let mut nb_eq: usize = 0;
        let mut last_eq: usize = 0;
        let mut j: usize = 0;
        while j < nb_keys
            invariant
                j <= nb_keys,
                nb_keys == public_keys@.len(),
                nb_keys >= 2,
                sig1.c@.len() == nb_keys,
                sig1.z@.len() == nb_keys,
                sig2.c@.len() == nb_keys,
                sig2.z@.len() == nb_keys,
                nb_eq <= j,
                point_valid(ga0_1),
                point_valid(ga0_2),
                point_valid(ga1_1),
                point_valid(ga1_2),
                ga0_1 == ring_a0(tag@, public_keys@, message1@),
                ga0_2 == ring_a0(tag@, public_keys@, message2@),
                big_a0_1@ == ga0_1,
                big_a0_2@ == ga0_2,
                sig1.a1@ == ga1_1,
                sig2.a1@ == ga1_2,
                nb_eq == nb_eq_upto(ga0_1, ga1_1, ga0_2, ga1_2, j as int),
                seen_diff == (nb_eq_upto(ga0_1, ga1_1, ga0_2, ga1_2, j as int) < j),
                nb_eq > 0 ==> last_eq == last_eq_upto(ga0_1, ga1_1, ga0_2, ga1_2, j as int),
            decreases nb_keys - j,
        {
            let factor = scalar_from_u64_exec(j as u64 + 1);
            let sigma_1 = point_add_exec(&big_a0_1, &point_mul_exec(&factor, &sig1.a1));
            let sigma_2 = point_add_exec(&big_a0_2, &point_mul_exec(&factor, &sig2.a1));

            if crate::group::ct_eq(&sigma_1, &sigma_2) {
                nb_eq = nb_eq + 1;
                last_eq = j;
            } else {
                seen_diff = true;
            }
            j = j + 1;

            if seen_diff && nb_eq > 1 {
                proof {
                    assert(nb_eq == nb_eq_upto(ga0_1, ga1_1, ga0_2, ga1_2, j as int));
                    assert(nb_eq_upto(ga0_1, ga1_1, ga0_2, ga1_2, j as int) < j as int);
                    lemma_nb_eq_bounds(ga0_1, ga1_1, ga0_2, ga1_2, j as int, nb_keys as int);
                }
                return Ok(RingSigLink::Independent);
            }
        }

        proof {
            lemma_nb_eq_bounds(ga0_1, ga1_1, ga0_2, ga1_2, 0, nb_keys as int);
        }
        Ok(
            if seen_diff {
                if nb_eq == 1 {
                    RingSigLink::SamePublicKey(last_eq)
                } else {
                    RingSigLink::Independent
                }
            } else {
                RingSigLink::SameMessage
            },
        )
    }
}

} // verus!
