//! Curve25519 in Edwards form, through curve25519-dalek.
//!
//! The Edwards group is the direct sum of the prime-order subgroup generated
//! by the basepoint and the eight-torsion subgroup, so every point is
//! determined by a pair of residues: `point_log`, its multiple of the
//! basepoint modulo the group order, and `point_torsion`, its multiple of
//! the designated eight-torsion generator modulo 8.  A scalar is determined
//! by `scalar_residue`, its value modulo the group order.  The trusted
//! wrappers state each curve operation as ordinary modular arithmetic over
//! these residues.
use vstd::prelude::*;

use curve25519_dalek::edwards::CompressedEdwardsY;
use curve25519_dalek::edwards::EdwardsPoint;
use curve25519_dalek::scalar::Scalar;

verus! {

#[verifier::external_type_specification]
#[verifier::external_body]
pub struct ExEdwardsPoint(EdwardsPoint);

#[verifier::external_type_specification]
#[verifier::external_body]
pub struct ExScalar(Scalar);

/// The prime order of the subgroup generated by the Ed25519 basepoint.
pub open spec fn group_order() -> nat {
    7237005577332262213973186563042994240857116359379907606001950938285454250989nat
}

/// The multiple of the basepoint a point holds, modulo the group order.
pub uninterp spec fn point_log(p: EdwardsPoint) -> nat;

/// The multiple of the eight-torsion generator a point holds, modulo 8.
pub uninterp spec fn point_torsion(p: EdwardsPoint) -> nat;

/// The residue a scalar holds, modulo the group order.
pub uninterp spec fn scalar_residue(s: Scalar) -> nat;

/// The abstract model of an Edwards point: `k` basepoint multiples plus `t`
/// eight-torsion generator multiples.
pub struct GroupElem {
    pub k: nat,
    pub t: nat,
}

pub open spec fn point_model(p: EdwardsPoint) -> GroupElem {
    GroupElem { k: point_log(p), t: point_torsion(p) }
}

pub open spec fn elem_valid(e: GroupElem) -> bool {
    e.k < group_order() && e.t < 8
}

pub open spec fn base_elem() -> GroupElem {
    GroupElem { k: 1, t: 0 }
}

pub open spec fn torsion_elem() -> GroupElem {
    GroupElem { k: 0, t: 1 }
}

pub open spec fn ge_add(a: GroupElem, b: GroupElem) -> GroupElem {
    GroupElem { k: (a.k + b.k) % group_order(), t: (a.t + b.t) % 8 }
}

pub open spec fn ge_sub(a: GroupElem, b: GroupElem) -> GroupElem {
    GroupElem { k: ((a.k - b.k) % group_order() as int) as nat, t: ((a.t - b.t) % 8int) as nat }
}

pub open spec fn ge_smul(s: nat, a: GroupElem) -> GroupElem {
    GroupElem { k: (s * a.k) % group_order(), t: (s * a.t) % 8 }
}

/// The canonical 32-byte compressed encoding of the point with model
/// `(k, t)`.  Distinct points have distinct encodings.
pub uninterp spec fn compress_of(k: nat, t: nat) -> Seq<u8>;

/// Whether dalek's decompression accepts a 32-byte blob: a function of the
/// bytes alone.  Every canonical encoding is accepted; a few non-canonical
/// blobs are accepted as well, matching the permissiveness of the
/// decompression routine itself.
pub uninterp spec fn decompressible(v: Seq<u8>) -> bool;

/// True if `m` is the only valid model whose encoding is `v`: what a wire
/// blob pins a decompressed point down to.
pub open spec fn encodes(v: Seq<u8>, m: GroupElem) -> bool {
    forall|e: GroupElem| elem_valid(e) && v == compress_of(e.k, e.t) ==> e == m
}

/// The little-endian integer a byte string spells.
pub open spec fn bytes_le_nat(s: Seq<u8>) -> nat
    decreases s.len(),
{
    if s.len() == 0 {
        0
    } else {
        (s[0] + 256 * bytes_le_nat(s.skip(1))) as nat
    }
}

/// Relies on dalek's Scalar::from for u64: the value is far below the group
/// order, so its residue is the value itself.
#[verifier::external_body]
pub fn scalar_from_u64(x: u64) -> (r: Scalar)
    ensures
        scalar_residue(r) == x as nat,
        scalar_residue(r) < group_order(),
{
    Scalar::from(x)
}

/// Relies on dalek's Scalar::from_bytes_mod_order_wide: the 64 bytes are
/// read as a little-endian integer and reduced modulo the group order.
#[verifier::external_body]
pub fn scalar_from_wide_bytes(b: &Vec<u8>) -> (r: Scalar)
    requires
        b@.len() == 64,
    ensures
        scalar_residue(r) == bytes_le_nat(b@) % group_order(),
        scalar_residue(r) < group_order(),
{
    let mut arr = [0u8; 64];
    arr.copy_from_slice(b.as_slice());
    Scalar::from_bytes_mod_order_wide(&arr)
}

/// A uniformly drawn scalar: 64 random bytes reduced modulo the order.
pub fn scalar_random(rng: &mut crate::rng::OtRng) -> (r: Scalar)
    ensures
        scalar_residue(r) < group_order(),
{
    let wide = rng.fill(64);
    scalar_from_wide_bytes(&wide)
}

/// Relies on dalek's Mul for Scalar: multiplication modulo the group order.
#[verifier::external_body]
pub fn scalar_mul(a: &Scalar, b: &Scalar) -> (r: Scalar)
    ensures
        scalar_residue(r) == (scalar_residue(*a) * scalar_residue(*b)) % group_order(),
        scalar_residue(r) < group_order(),
{
    a * b
}

/// Relies on dalek's EdwardsPoint::mul_base: the scalar times the
/// basepoint, which generates the prime-order subgroup.
#[verifier::external_body]
pub fn point_base_mul(a: &Scalar) -> (r: EdwardsPoint)
    ensures
        point_model(r) == ge_smul(scalar_residue(*a), base_elem()),
        elem_valid(point_model(r)),
{
    EdwardsPoint::mul_base(a)
}

/// Relies on dalek's Add for EdwardsPoint: the group operation, which acts
/// componentwise on the residues.
#[verifier::external_body]
pub fn point_add(a: &EdwardsPoint, b: &EdwardsPoint) -> (r: EdwardsPoint)
    ensures
        point_model(r) == ge_add(point_model(*a), point_model(*b)),
        elem_valid(point_model(r)),
{
    a + b
}

/// Relies on dalek's Sub for EdwardsPoint.
#[verifier::external_body]
pub fn point_sub(a: &EdwardsPoint, b: &EdwardsPoint) -> (r: EdwardsPoint)
    ensures
        point_model(r) == ge_sub(point_model(*a), point_model(*b)),
        elem_valid(point_model(r)),
{
    a - b
}

/// Relies on dalek's Mul of a Scalar and an EdwardsPoint.
#[verifier::external_body]
pub fn point_scalar_mul(a: &Scalar, p: &EdwardsPoint) -> (r: EdwardsPoint)
    ensures
        point_model(r) == ge_smul(scalar_residue(*a), point_model(*p)),
        elem_valid(point_model(r)),
{
    p * a
}

/// Relies on dalek's EdwardsPoint::mul_by_cofactor: multiplication by 8,
/// which annihilates the torsion component.
#[verifier::external_body]
pub fn point_mul_by_cofactor(p: &EdwardsPoint) -> (r: EdwardsPoint)
    ensures
        point_model(r) == ge_smul(8, point_model(*p)),
        elem_valid(point_model(r)),
{
    p.mul_by_cofactor()
}

/// Relies on dalek's constants::EIGHT_TORSION: entry 1 generates the
/// eight-torsion subgroup.
#[verifier::external_body]
pub fn eight_torsion() -> (r: EdwardsPoint)
    ensures
        point_model(r) == torsion_elem(),
        elem_valid(point_model(r)),
{
    curve25519_dalek::constants::EIGHT_TORSION[1]
}

/// Relies on dalek's EdwardsPoint::compress: the canonical 32-byte
/// encoding, a function of the point alone.
#[verifier::external_body]
pub fn point_compress(p: &EdwardsPoint) -> (r: Vec<u8>)
    ensures
        r@ == compress_of(point_log(*p), point_torsion(*p)),
        r@.len() == 32,
{
    p.compress().to_bytes().to_vec()
}

/// Relies on dalek's CompressedEdwardsY::decompress, and on compression and
/// decompression being mutually inverse on canonical encodings: a blob that
/// is the canonical encoding of some point decompresses to exactly that
/// point.
#[verifier::external_body]
pub fn point_decompress(v: &Vec<u8>) -> (r: Option<EdwardsPoint>)
    requires
        v@.len() == 32,
    ensures
        r is Some <==> decompressible(v@),
        r matches Some(p) ==> elem_valid(point_model(p)) && encodes(v@, point_model(p)),
        (exists|e: GroupElem| elem_valid(e) && v@ == compress_of(e.k, e.t)) ==> r is Some,
{
    let mut arr = [0u8; 32];
    arr.copy_from_slice(v.as_slice());
    CompressedEdwardsY(arr).decompress()
}

/// Relies on dalek's EdwardsPoint::is_torsion_free: true exactly when the
/// point lies in the prime-order subgroup.
#[verifier::external_body]
pub fn point_is_torsion_free(p: &EdwardsPoint) -> (r: bool)
    ensures
        r == (point_torsion(*p) == 0),
{
    p.is_torsion_free()
}

} // verus!
