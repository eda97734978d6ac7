//! The cryptographic primitives the CLSAG core rests on, as trusted
//! wrappers over curve25519-dalek, sha3 and zeroize. Scalars and points
//! cross this boundary as their canonical 32-byte little-endian encodings;
//! each operation's result is named by an uninterpreted spec function, and
//! the stated facts go no further than the crates' documentation.

use vstd::prelude::*;

use curve25519_dalek::edwards::CompressedEdwardsY;
use curve25519_dalek::edwards::EdwardsPoint;
use curve25519_dalek::scalar::Scalar;
use curve25519_dalek::traits::IsIdentity;
use sha3::Digest;
use sha3::Keccak256;

verus! {

/// The keccak-256 digest of a byte string.
pub uninterp spec fn spec_keccak256(data: Seq<u8>) -> Seq<u8>;

/// A 32-byte string reduced to a canonical scalar modulo the ed25519 group
/// order.
pub uninterp spec fn spec_scalar_reduce(b: Seq<u8>) -> Seq<u8>;

/// Whether 32 bytes are the canonical encoding of a scalar.
pub uninterp spec fn spec_scalar_canonical(b: Seq<u8>) -> bool;

/// The canonical encoding of the sum of two scalars, each read reduced.
pub uninterp spec fn spec_scalar_add(a: Seq<u8>, b: Seq<u8>) -> Seq<u8>;

/// The canonical encoding of the difference of two scalars, each read
/// reduced.
pub uninterp spec fn spec_scalar_sub(a: Seq<u8>, b: Seq<u8>) -> Seq<u8>;

/// The canonical encoding of the product of two scalars, each read reduced.
pub uninterp spec fn spec_scalar_mul(a: Seq<u8>, b: Seq<u8>) -> Seq<u8>;

/// Whether 32 bytes decompress to a point of the ed25519 curve.
pub uninterp spec fn spec_point_valid(b: Seq<u8>) -> bool;

/// The compressed sum of two points given compressed.
pub uninterp spec fn spec_point_add(a: Seq<u8>, b: Seq<u8>) -> Seq<u8>;

/// The compressed difference of two points given compressed.
pub uninterp spec fn spec_point_sub(a: Seq<u8>, b: Seq<u8>) -> Seq<u8>;

/// The compressed product of a scalar, read reduced, and a point given
/// compressed.
pub uninterp spec fn spec_point_mul(s: Seq<u8>, p: Seq<u8>) -> Seq<u8>;

/// Whether a compressed point is the identity.
pub uninterp spec fn spec_point_is_identity(b: Seq<u8>) -> bool;

/// Whether a compressed point is torsion-free (lies in the prime-order
/// subgroup).
pub uninterp spec fn spec_point_torsion_free(b: Seq<u8>) -> bool;

/// The compressed ed25519 basepoint.
pub open spec fn spec_base_point() -> Seq<u8> {
    seq![
        88u8, 102u8, 102u8, 102u8, 102u8, 102u8, 102u8, 102u8, 102u8, 102u8, 102u8, 102u8, 102u8,
        102u8, 102u8, 102u8, 102u8, 102u8, 102u8, 102u8, 102u8, 102u8, 102u8, 102u8, 102u8,
        102u8, 102u8, 102u8, 102u8, 102u8, 102u8, 102u8,
    ]
}

/// Relies on sha3's Keccak256: the digest of the input, 32 bytes.
#[verifier::external_body]
pub(crate) fn keccak256(data: &Vec<u8>) -> (r: [u8; 32])
    ensures
        r@ == spec_keccak256(data@),
        r@.len() == 32,
{
    let d = Keccak256::digest(data.as_slice());
    let mut r = [0u8; 32];
    r.copy_from_slice(&d);
    r
}

/// Relies on curve25519-dalek's Scalar::from_bytes_mod_order: the input
/// reduced modulo the group order, re-encoded canonically.
#[verifier::external_body]
pub(crate) fn scalar_reduce(b: &[u8; 32]) -> (r: [u8; 32])
    ensures
        r@ == spec_scalar_reduce(b@),
        spec_scalar_canonical(r@),
        spec_scalar_canonical(b@) ==> r@ == b@,
{
    Scalar::from_bytes_mod_order(*b).to_bytes()
}

/// Relies on curve25519-dalek's Scalar::from_canonical_bytes: whether the
/// bytes already encode a scalar canonically.
#[verifier::external_body]
pub(crate) fn scalar_is_canonical(b: &[u8; 32]) -> (r: bool)
    ensures
        r == spec_scalar_canonical(b@),
{
    bool::from(Scalar::from_canonical_bytes(*b).is_some())
}

/// Relies on curve25519-dalek's scalar addition; results of scalar
/// arithmetic are kept reduced.
#[verifier::external_body]
pub(crate) fn scalar_add(a: &[u8; 32], b: &[u8; 32]) -> (r: [u8; 32])
    ensures
        r@ == spec_scalar_add(a@, b@),
        spec_scalar_canonical(r@),
{
    (Scalar::from_bytes_mod_order(*a) + Scalar::from_bytes_mod_order(*b)).to_bytes()
}

/// Relies on curve25519-dalek's scalar subtraction.
#[verifier::external_body]
pub(crate) fn scalar_sub(a: &[u8; 32], b: &[u8; 32]) -> (r: [u8; 32])
    ensures
        r@ == spec_scalar_sub(a@, b@),
        spec_scalar_canonical(r@),
{
    (Scalar::from_bytes_mod_order(*a) - Scalar::from_bytes_mod_order(*b)).to_bytes()
}

/// Relies on curve25519-dalek's scalar multiplication.
#[verifier::external_body]
pub(crate) fn scalar_mul(a: &[u8; 32], b: &[u8; 32]) -> (r: [u8; 32])
    ensures
        r@ == spec_scalar_mul(a@, b@),
        spec_scalar_canonical(r@),
{
    (Scalar::from_bytes_mod_order(*a) * Scalar::from_bytes_mod_order(*b)).to_bytes()
}

/// Relies on curve25519-dalek's CompressedEdwardsY::decompress: whether the
/// bytes encode a curve point.
#[verifier::external_body]
pub(crate) fn point_is_valid(b: &[u8; 32]) -> (r: bool)
    ensures
        r == spec_point_valid(b@),
{
    CompressedEdwardsY(*b).decompress().is_some()
}

/// Relies on curve25519-dalek's point addition, over decompressed inputs
/// and a compressed result.
#[verifier::external_body]
pub(crate) fn point_add(a: &[u8; 32], b: &[u8; 32]) -> (r: [u8; 32])
    requires
        spec_point_valid(a@),
        spec_point_valid(b@),
    ensures
        r@ == spec_point_add(a@, b@),
        spec_point_valid(r@),
{
    let pa = CompressedEdwardsY(*a).decompress().unwrap();
    let pb = CompressedEdwardsY(*b).decompress().unwrap();
    (pa + pb).compress().to_bytes()
}

/// Relies on curve25519-dalek's point subtraction.
#[verifier::external_body]
pub(crate) fn point_sub(a: &[u8; 32], b: &[u8; 32]) -> (r: [u8; 32])
    requires
        spec_point_valid(a@),
        spec_point_valid(b@),
    ensures
        r@ == spec_point_sub(a@, b@),
        spec_point_valid(r@),
{
    let pa = CompressedEdwardsY(*a).decompress().unwrap();
    let pb = CompressedEdwardsY(*b).decompress().unwrap();
    (pa - pb).compress().to_bytes()
}

/// Relies on curve25519-dalek's scalar-point multiplication; the scalar is
/// read reduced.
#[verifier::external_body]
pub(crate) fn point_mul(s: &[u8; 32], p: &[u8; 32]) -> (r: [u8; 32])
    requires
        spec_point_valid(p@),
    ensures
        r@ == spec_point_mul(s@, p@),
        spec_point_valid(r@),
{
    let sc = Scalar::from_bytes_mod_order(*s);
    let pt = CompressedEdwardsY(*p).decompress().unwrap();
    (sc * pt).compress().to_bytes()
}

/// Relies on curve25519-dalek's EdwardsPoint::mul_base: the scalar times
/// the basepoint, whose compressed bytes are fixed and valid.
#[verifier::external_body]
pub(crate) fn point_mul_base(s: &[u8; 32]) -> (r: [u8; 32])
    ensures
        r@ == spec_point_mul(s@, spec_base_point()),
        spec_point_valid(r@),
{
    let sc = Scalar::from_bytes_mod_order(*s);
    EdwardsPoint::mul_base(&sc).compress().to_bytes()
}

/// The compressed second generator of Monero's commitment scheme.
pub open spec fn spec_h_point() -> Seq<u8> {
    seq![
        139u8, 101u8, 89u8, 112u8, 21u8, 55u8, 153u8, 175u8, 42u8, 234u8, 220u8, 159u8, 241u8,
        173u8, 208u8, 234u8, 108u8, 114u8, 81u8, 213u8, 65u8, 84u8, 207u8, 169u8, 44u8, 23u8,
        58u8, 13u8, 211u8, 156u8, 31u8, 148u8,
    ]
}

/// The compressed second generator of Monero's commitment scheme, as
/// executable bytes.
pub fn h_point_bytes() -> (r: [u8; 32])
    ensures
        r@ == spec_h_point(),
{
    let r: [u8; 32] = [
        139u8, 101u8, 89u8, 112u8, 21u8, 55u8, 153u8, 175u8, 42u8, 234u8, 220u8, 159u8, 241u8,
        173u8, 208u8, 234u8, 108u8, 114u8, 81u8, 213u8, 65u8, 84u8, 207u8, 169u8, 44u8, 23u8,
        58u8, 13u8, 211u8, 156u8, 31u8, 148u8,
    ];
    proof {
        assert(r@ =~= spec_h_point());
    }
    r
}

/// Relies on curve25519-dalek's scalar-point multiplication, applied to the
/// fixed, valid second generator; the scalar is read reduced.
#[verifier::external_body]
pub(crate) fn point_mul_h(s: &[u8; 32]) -> (r: [u8; 32])
    ensures
        r@ == spec_point_mul(s@, spec_h_point()),
        spec_point_valid(r@),
{
    let sc = Scalar::from_bytes_mod_order(*s);
    let h = CompressedEdwardsY([
        139u8, 101u8, 89u8, 112u8, 21u8, 55u8, 153u8, 175u8, 42u8, 234u8, 220u8, 159u8, 241u8,
        173u8, 208u8, 234u8, 108u8, 114u8, 81u8, 213u8, 65u8, 84u8, 207u8, 169u8, 44u8, 23u8,
        58u8, 13u8, 211u8, 156u8, 31u8, 148u8,
    ]).decompress().unwrap();
    (sc * h).compress().to_bytes()
}

/// Relies on curve25519-dalek's EdwardsPoint::is_identity, over a
/// decompressed input.
#[verifier::external_body]
pub(crate) fn point_is_identity(b: &[u8; 32]) -> (r: bool)
    requires
        spec_point_valid(b@),
    ensures
        r == spec_point_is_identity(b@),
{
    CompressedEdwardsY(*b).decompress().unwrap().is_identity()
}

/// Relies on curve25519-dalek's EdwardsPoint::is_torsion_free, over a
/// decompressed input.
#[verifier::external_body]
pub(crate) fn point_is_torsion_free(b: &[u8; 32]) -> (r: bool)
    requires
        spec_point_valid(b@),
    ensures
        r == spec_point_torsion_free(b@),
{
    CompressedEdwardsY(*b).decompress().unwrap().is_torsion_free()
}

/// Relies on zeroize's Zeroize for Vec<u8>: the bytes are wiped and the
/// vector emptied.
#[verifier::external_body]
pub(crate) fn zeroize_bytes(v: &mut Vec<u8>)
    ensures
        final(v)@.len() == 0,
{
    zeroize::Zeroize::zeroize(v);
}

} // verus!
