//! The Ristretto group and its scalar field, as the rest of the library sees
//! them: every point is modelled by its discrete logarithm with respect to the
//! basepoint, every scalar by the residue it denotes.

use curve25519_dalek::constants::RISTRETTO_BASEPOINT_POINT;
use curve25519_dalek::ristretto::RistrettoPoint;
use curve25519_dalek::scalar::Scalar;
use vstd::arithmetic::power2::pow2;
use vstd::prelude::*;

verus! {

#[verifier::external_type_specification]
#[verifier::external_body]
pub struct ExRistrettoPoint(RistrettoPoint);

#[verifier::external_type_specification]
#[verifier::external_body]
pub struct ExScalar(Scalar);

/// Relies on `RistrettoPoint`'s derived `Clone`: a copy of the point.
pub assume_specification[ <RistrettoPoint as Clone>::clone ](p: &RistrettoPoint) -> (r: RistrettoPoint)
    ensures
        r == *p,
;

/// The order of the Ristretto group, `2^252 + 27742317777372353535851937790883648493`.
pub open spec fn group_order() -> int {
    pow2(252) as int + 27742317777372353535851937790883648493
}

/// A residue modulo the group order.
pub open spec fn is_residue(k: int) -> bool {
    0 <= k < group_order()
}

/// The Ristretto group is cyclic of prime order, generated by the basepoint `B`:
/// each point `p` is `k·B` for exactly one residue `k`, which this names.
pub uninterp spec fn point_log(p: RistrettoPoint) -> int;

/// The residue modulo the group order that a scalar denotes.
pub uninterp spec fn scalar_val(s: Scalar) -> int;

/// Relies on `RISTRETTO_BASEPOINT_POINT`: the generator `B` of the group.
#[verifier::external_body]
pub(crate) fn basepoint() -> (r: RistrettoPoint)
    ensures
        point_log(r) == 1,
{
    RISTRETTO_BASEPOINT_POINT
}

/// Relies on `Scalar::from(u64)`: the scalar whose value is the integer.
#[verifier::external_body]
pub(crate) fn scalar_from_u64(v: u64) -> (r: Scalar)
    ensures
        scalar_val(r) == v as int,
{
    Scalar::from(v)
}

/// Relies on `&RistrettoPoint + &RistrettoPoint`: the group operation.
#[verifier::external_body]
pub(crate) fn point_add(a: &RistrettoPoint, b: &RistrettoPoint) -> (r: RistrettoPoint)
    ensures
        point_log(r) == (point_log(*a) + point_log(*b)) % group_order(),
{
    a + b
}

/// Relies on `&RistrettoPoint * &Scalar`: scalar multiplication.
#[verifier::external_body]
pub(crate) fn point_mul(p: &RistrettoPoint, s: &Scalar) -> (r: RistrettoPoint)
    ensures
        point_log(r) == (point_log(*p) * scalar_val(*s)) % group_order(),
{
    p * s
}

/// Relies on `RistrettoPoint`'s `PartialEq`: equality of group elements.
#[verifier::external_body]
pub(crate) fn points_equal(a: &RistrettoPoint, b: &RistrettoPoint) -> (r: bool)
    ensures
        r == (point_log(*a) == point_log(*b)),
{
    a == b
}

/// The integer that a little-endian byte string denotes.
pub open spec fn le_value(b: Seq<u8>) -> int
    decreases b.len(),
{
    if b.len() == 0 {
        0
    } else {
        b[0] as int + 256 * le_value(b.drop_first())
    }
}

/// The canonical 32-byte Ristretto encoding of the group element `k·B`.
pub uninterp spec fn ristretto_encoding(k: int) -> Seq<u8>;

/// The residue `k` of the point `k·B` that the Ristretto-flavoured Elligator
/// map sends 64 uniform bytes to.
pub uninterp spec fn uniform_point_log(b: Seq<u8>) -> int;

/// Relies on `Scalar::from_bytes_mod_order`: a 256-bit little-endian integer
/// reduced modulo the group order.
#[verifier::external_body]
pub(crate) fn scalar_from_bytes_mod_order(b: [u8; 32]) -> (r: Scalar)
    ensures
        scalar_val(r) == le_value(b@) % group_order(),
{
    Scalar::from_bytes_mod_order(b)
}

/// Relies on `RistrettoPoint::compress`: the canonical encoding of the point,
/// 32 bytes.
#[verifier::external_body]
pub(crate) fn compressed_bytes(p: &RistrettoPoint) -> (r: Vec<u8>)
    ensures
        r@ == ristretto_encoding(point_log(*p)),
        r@.len() == 32,
{
    p.compress().as_bytes().to_vec()
}

/// Relies on `RistrettoPoint::from_uniform_bytes`: a deterministic map from 64
/// bytes to a point of the group.
#[verifier::external_body]
pub(crate) fn point_from_uniform_bytes(b: &[u8; 64]) -> (r: RistrettoPoint)
    ensures
        point_log(r) == uniform_point_log(b@),
        is_residue(point_log(r)),
{
    RistrettoPoint::from_uniform_bytes(b)
}

} // verus!
