//! The prime-order group and the hash, behind trusted wrappers.
//!
//! Every group element and every scalar crosses this module as its canonical
//! 32-byte encoding, so the rest of the crate works on plain bytes. The
//! wrappers keep two invariants: they are called only on canonical encodings
//! (their `requires`), and they return only canonical encodings (their
//! `ensures`). Since the canonical encoding of a point is unique, byte
//! equality of the stored encodings coincides with equality of the points
//! they decode to.
//!
//! What an operation returns is named by an uninterpreted spec function: the
//! actual value is whatever the group library computes, and the names record
//! only that the same inputs give the same output.

use vstd::prelude::*;

verus! {

/// The width of every serialized group element and scalar.
pub const CRYPTO_BIN_SIZE: usize = 32;

/// A serialized group element or scalar.
pub type Bin = [u8; 32];

/// Whether 32 bytes are the canonical encoding of a group element.
pub uninterp spec fn point_valid(s: Seq<u8>) -> bool;

/// The canonical encoding of the sum of two group elements.
pub uninterp spec fn point_add(a: Seq<u8>, b: Seq<u8>) -> Seq<u8>;

/// The canonical encoding of the difference of two group elements.
pub uninterp spec fn point_sub(a: Seq<u8>, b: Seq<u8>) -> Seq<u8>;

/// The canonical encoding of a scalar times a group element.
pub uninterp spec fn point_mul(k: Seq<u8>, p: Seq<u8>) -> Seq<u8>;

/// The canonical encoding of a scalar times the conventional generator.
pub uninterp spec fn point_mul_base(k: Seq<u8>) -> Seq<u8>;

/// The group element derived uniformly from 64 bytes.
pub uninterp spec fn point_from_uniform(s: Seq<u8>) -> Seq<u8>;

/// Whether 32 bytes are the canonical (reduced) encoding of a scalar.
pub uninterp spec fn scalar_valid(s: Seq<u8>) -> bool;

/// The canonical encoding of the sum of two scalars.
pub uninterp spec fn scalar_add(a: Seq<u8>, b: Seq<u8>) -> Seq<u8>;

/// The canonical encoding of the difference of two scalars.
pub uninterp spec fn scalar_sub(a: Seq<u8>, b: Seq<u8>) -> Seq<u8>;

/// The canonical encoding of the product of two scalars.
pub uninterp spec fn scalar_mul(a: Seq<u8>, b: Seq<u8>) -> Seq<u8>;

/// The canonical encoding of the multiplicative inverse of a scalar.
pub uninterp spec fn scalar_invert(a: Seq<u8>) -> Seq<u8>;

/// The canonical encoding of the scalar with the given small value.
pub uninterp spec fn scalar_from_u64(x: u64) -> Seq<u8>;

/// The canonical encoding of 32 bytes reduced modulo the group order.
pub uninterp spec fn scalar_reduce(s: Seq<u8>) -> Seq<u8>;

/// The first `n` bytes of the extendable hash output of `data`.
pub uninterp spec fn xof_bytes(data: Seq<u8>, n: int) -> Seq<u8>;

/// Relies on `curve25519_dalek`'s `CompressedRistretto::decompress`, which
/// returns `Some` exactly when the 32 bytes are the canonical encoding of a
/// point.
#[verifier::external_body]
pub(crate) fn point_check(b: &Bin) -> (r: bool)
    ensures
        r == point_valid(b@),
{
    curve25519_dalek::ristretto::CompressedRistretto(*b).decompress().is_some()
}

/// Relies on `RistrettoPoint`'s addition and on `compress`, which yields the
/// canonical encoding.
#[verifier::external_body]
pub(crate) fn point_add_exec(a: &Bin, b: &Bin) -> (r: Bin)
    requires
        point_valid(a@),
        point_valid(b@),
    ensures
        r@ == point_add(a@, b@),
        point_valid(r@),
{
    let pa = curve25519_dalek::ristretto::CompressedRistretto(*a).decompress().unwrap();
    let pb = curve25519_dalek::ristretto::CompressedRistretto(*b).decompress().unwrap();
    (pa + pb).compress().to_bytes()
}

/// Relies on `RistrettoPoint`'s subtraction and on `compress`.
#[verifier::external_body]
pub(crate) fn point_sub_exec(a: &Bin, b: &Bin) -> (r: Bin)
    requires
        point_valid(a@),
        point_valid(b@),
    ensures
        r@ == point_sub(a@, b@),
        point_valid(r@),
{
    let pa = curve25519_dalek::ristretto::CompressedRistretto(*a).decompress().unwrap();
    let pb = curve25519_dalek::ristretto::CompressedRistretto(*b).decompress().unwrap();
    (pa - pb).compress().to_bytes()
}

/// Relies on `RistrettoPoint`'s scalar multiplication and on `compress`.
/// Public because Diffie–Hellman-style share combination is part of the
/// library's surface: a submitter derives a shared secret from its
/// ephemeral secret and the joint key this way.
#[verifier::external_body]
pub fn point_mul_exec(k: &Bin, p: &Bin) -> (r: Bin)
    requires
        scalar_valid(k@),
        point_valid(p@),
    ensures
        r@ == point_mul(k@, p@),
        point_valid(r@),
{
    let s = curve25519_dalek::Scalar::from_bytes_mod_order(*k);
    let pt = curve25519_dalek::ristretto::CompressedRistretto(*p).decompress().unwrap();
    (s * pt).compress().to_bytes()
}

/// Relies on `RistrettoPoint::mul_base` and on `compress`.
#[verifier::external_body]
pub(crate) fn point_mul_base_exec(k: &Bin) -> (r: Bin)
    requires
        scalar_valid(k@),
    ensures
        r@ == point_mul_base(k@),
        point_valid(r@),
{
    let s = curve25519_dalek::Scalar::from_bytes_mod_order(*k);
    curve25519_dalek::ristretto::RistrettoPoint::mul_base(&s).compress().to_bytes()
}

/// Relies on `RistrettoPoint::from_uniform_bytes`, a uniform map from 64
/// bytes to the group, and on `compress`.
#[verifier::external_body]
pub(crate) fn point_from_uniform_exec(s: &[u8]) -> (r: Bin)
    requires
        s@.len() == 64,
    ensures
        r@ == point_from_uniform(s@),
        point_valid(r@),
{
    let arr: [u8; 64] = s.try_into().unwrap();
    curve25519_dalek::ristretto::RistrettoPoint::from_uniform_bytes(&arr).compress().to_bytes()
}

/// Relies on `RistrettoPoint::identity`, whose canonical encoding is the
/// all-zero string.
#[verifier::external_body]
pub(crate) fn point_identity() -> (r: Bin)
    ensures
        r@ == Seq::new(32, |i: int| 0u8),
        point_valid(r@),
{
    <curve25519_dalek::ristretto::RistrettoPoint as curve25519_dalek::traits::Identity>::identity()
        .compress()
        .to_bytes()
}

/// Relies on `Scalar::from_canonical_bytes`, which accepts exactly the
/// canonically reduced encodings.
#[verifier::external_body]
pub(crate) fn scalar_check(b: &Bin) -> (r: bool)
    ensures
        r == scalar_valid(b@),
{
    curve25519_dalek::Scalar::from_canonical_bytes(*b).is_some().into()
}

/// Relies on `Scalar`'s addition and on `to_bytes`, which yields the
/// canonical encoding.
#[verifier::external_body]
pub(crate) fn scalar_add_exec(a: &Bin, b: &Bin) -> (r: Bin)
    requires
        scalar_valid(a@),
        scalar_valid(b@),
    ensures
        r@ == scalar_add(a@, b@),
        scalar_valid(r@),
{
    let sa = curve25519_dalek::Scalar::from_bytes_mod_order(*a);
    let sb = curve25519_dalek::Scalar::from_bytes_mod_order(*b);
    (sa + sb).to_bytes()
}

/// Relies on `Scalar`'s subtraction and on `to_bytes`.
#[verifier::external_body]
pub(crate) fn scalar_sub_exec(a: &Bin, b: &Bin) -> (r: Bin)
    requires
        scalar_valid(a@),
        scalar_valid(b@),
    ensures
        r@ == scalar_sub(a@, b@),
        scalar_valid(r@),
{
    let sa = curve25519_dalek::Scalar::from_bytes_mod_order(*a);
    let sb = curve25519_dalek::Scalar::from_bytes_mod_order(*b);
    (sa - sb).to_bytes()
}

/// Relies on `Scalar`'s multiplication and on `to_bytes`.
#[verifier::external_body]
pub(crate) fn scalar_mul_exec(a: &Bin, b: &Bin) -> (r: Bin)
    requires
        scalar_valid(a@),
        scalar_valid(b@),
    ensures
        r@ == scalar_mul(a@, b@),
        scalar_valid(r@),
{
    let sa = curve25519_dalek::Scalar::from_bytes_mod_order(*a);
    let sb = curve25519_dalek::Scalar::from_bytes_mod_order(*b);
    (sa * sb).to_bytes()
}

/// Relies on `Scalar::invert` and on `to_bytes`.
#[verifier::external_body]
pub(crate) fn scalar_invert_exec(a: &Bin) -> (r: Bin)
    requires
        scalar_valid(a@),
    ensures
        r@ == scalar_invert(a@),
        scalar_valid(r@),
{
    curve25519_dalek::Scalar::from_bytes_mod_order(*a).invert().to_bytes()
}

/// Relies on `Scalar::from`, which embeds a `u64` below the group order, and
/// on `to_bytes`.
#[verifier::external_body]
pub(crate) fn scalar_from_u64_exec(x: u64) -> (r: Bin)
    ensures
        r@ == scalar_from_u64(x),
        scalar_valid(r@),
{
    curve25519_dalek::Scalar::from(x).to_bytes()
}

/// Relies on `Scalar::from_bytes_mod_order` and on `to_bytes`.
#[verifier::external_body]
pub(crate) fn scalar_reduce_exec(b: &Bin) -> (r: Bin)
    requires
        b@.len() == 32,
    ensures
        r@ == scalar_reduce(b@),
        scalar_valid(r@),
{
    curve25519_dalek::Scalar::from_bytes_mod_order(*b).to_bytes()
}

/// Relies on `Scalar::random` over the operating system's cryptographic
/// random source; nothing is promised of the value beyond canonicality.
#[verifier::external_body]
pub(crate) fn scalar_random() -> (r: Bin)
    ensures
        scalar_valid(r@),
{
    curve25519_dalek::Scalar::random(&mut rand::rngs::OsRng).to_bytes()
}

/// Relies on `blake3`'s extendable output: `Hasher::finalize_xof` followed by
/// `OutputReader::fill`, which fills the whole buffer with the first `n`
/// bytes of the output stream of the hashed data.
#[verifier::external_body]
pub(crate) fn xof(data: &[u8], n: usize) -> (r: Vec<u8>)
    ensures
        r@ == xof_bytes(data@, n as int),
        r@.len() == n,
{
    let mut hasher = blake3::Hasher::new();
    hasher.update(data);
    let mut out = vec![0u8; n];
    hasher.finalize_xof().fill(&mut out);
    out
}

/// Relies on `subtle`'s constant-time slice equality, which decides exact
/// byte equality without data-dependent timing.
#[verifier::external_body]
pub(crate) fn ct_eq(a: &[u8], b: &[u8]) -> (r: bool)
    ensures
        r == (a@ == b@),
{
    subtle::ConstantTimeEq::ct_eq(a, b).into()
}

} // verus!
