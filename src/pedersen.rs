//! Pedersen commitments `v·G + r·H` over the Ristretto group.

use crate::group::{
    basepoint, group_order, is_residue, le_value, point_add, point_from_uniform_bytes, point_log, point_mul,
    points_equal, scalar_from_bytes_mod_order, scalar_from_u64, scalar_val, uniform_point_log,
};
use crate::hashing::{sha512, sha512_of};
use curve25519_dalek::ristretto::RistrettoPoint;
use curve25519_dalek::scalar::Scalar;
use rand_core::{OsError, OsRng, TryRngCore};
use vstd::arithmetic::div_mod::{
    lemma_add_mod_noop, lemma_add_mod_noop_right, lemma_mod_add_multiples_vanish,
    lemma_mul_mod_noop_left, lemma_small_mod, lemma_sub_mod_noop,
};
use vstd::prelude::*;

verus! {

#[verifier::external_type_specification]
#[verifier::external_body]
pub struct ExOsError(OsError);

/// Relies on `OsRng::try_fill_bytes`: 32 bytes from the operating system's
/// random source, or the source's error.
#[verifier::external_body]
pub(crate) fn os_random_bytes() -> (r: Result<[u8; 32], OsError>) {
    let mut bytes = [0u8; 32];
    match OsRng.try_fill_bytes(&mut bytes) {
        Ok(()) => Ok(bytes),
        Err(e) => Err(e),
    }
}

/// Why no blinding factor could be drawn.
#[derive(Debug, Clone, Copy, PartialEq, Eq, Structural)]
pub enum BlindingError {
    /// The operating system's random source failed.
    EntropyUnavailable,
}

/// The residue of `v·G + r·H` when `G` and `H` have residues `g` and `h`.
pub open spec fn commit_log(v: int, r: int, g: int, h: int) -> int {
    (g * v + h * r) % group_order()
}

/// The domain-separation string that the second generator is derived from.
pub open spec fn generator_domain() -> Seq<u8> {
    seq![
        80u8, 101, 100, 101, 114, 115, 101, 110, 32, 67, 111, 109, 109, 105, 116, 109, 101, 110,
        116, 32, 71, 101, 110, 101, 114, 97, 116, 111, 114, 32, 72,
    ]
}

/// The residue of the second generator: the SHA-512 digest of the domain
/// string, mapped onto the group.
pub open spec fn derived_h_log() -> int {
    uniform_point_log(sha512_of(generator_domain()))
}

/// The bytes of `generator_domain`.
fn generator_domain_bytes() -> (r: Vec<u8>)
    ensures
        r@ == generator_domain(),
{
    let r = vec![
        80u8, 101, 100, 101, 114, 115, 101, 110, 32, 67, 111, 109, 109, 105, 116, 109, 101, 110,
        116, 32, 71, 101, 110, 101, 114, 97, 116, 111, 114, 32, 72,
    ];
    assert(r@ =~= generator_domain());
    r
}

/// The blinding factor that 32 bytes stand for: their little-endian value
/// reduced modulo the group order.
pub fn blinding_from_bytes(b: [u8; 32]) -> (r: Scalar)
    ensures
        scalar_val(r) == le_value(b@) % group_order(),
        is_residue(scalar_val(r)),
{
    scalar_from_bytes_mod_order(b)
}

/// A commitment engine: the generator pair `(G, H)`.
pub struct PedersenCommitment {
    g: RistrettoPoint,
    h: RistrettoPoint,
}

impl PedersenCommitment {
    /// The residue of `G`.
    pub closed spec fn g_log(&self) -> int {
        point_log(self.g)
    }

    /// The residue of `H`.
    pub closed spec fn h_log(&self) -> int {
        point_log(self.h)
    }

    /// `G` is the basepoint and `H` is derived from the domain string.
    pub open spec fn wf(&self) -> bool {
        &&& self.g_log() == 1
        &&& self.h_log() == derived_h_log()
    }

    /// Whether the residue `c` is the commitment to `v` under blinding `r`.
    pub open spec fn opens(&self, c: int, v: int, r: int) -> bool {
        c == commit_log(v, r, self.g_log(), self.h_log())
    }

    /// The engine with `G` the basepoint and `H` hashed onto the curve from
    /// the domain string.
    pub fn new() -> (r: PedersenCommitment)
        ensures
            r.wf(),
    {
        let g = basepoint();
        let domain = generator_domain_bytes();
        let h_bytes = sha512(domain.as_slice());
        let h = point_from_uniform_bytes(&h_bytes);
        PedersenCommitment { g, h }
    }

    /// `value·G + blinding·H`.
    pub fn commit(&self, value: u64, blinding: &Scalar) -> (r: RistrettoPoint)
        ensures
            point_log(r) == commit_log(value as int, scalar_val(*blinding), self.g_log(), self.h_log()),
    {
        let v = scalar_from_u64(value);
        let vg = point_mul(&self.g, &v);
        let rh = point_mul(&self.h, blinding);
        let r = point_add(&vg, &rh);
        proof {
            lemma_add_mod_noop(self.g_log() * value, self.h_log() * scalar_val(*blinding), group_order());
        }
        r
    }

    /// A blinding factor drawn from the operating system's random source: 32
    /// random bytes reduced modulo the group order.
    pub fn random_blinding(&self) -> (r: Result<Scalar, BlindingError>)
        ensures
            r matches Ok(s) ==> is_residue(scalar_val(s)),
            r matches Err(e) ==> e == BlindingError::EntropyUnavailable,
    {
        match os_random_bytes() {
            Ok(bytes) => Ok(blinding_from_bytes(bytes)),
            Err(_) => Err(BlindingError::EntropyUnavailable),
        }
    }

    /// Whether `commitment` is the commitment to `value` under `blinding`.
    pub fn verify(&self, commitment: &RistrettoPoint, value: u64, blinding: &Scalar) -> (r: bool)
        ensures
            r == self.opens(point_log(*commitment), value as int, scalar_val(*blinding)),
    {
        let expected = self.commit(value, blinding);
        points_equal(commitment, &expected)
    }
}

/// The residue of `a·b`.
pub open spec fn mul_residue(a: int, b: int) -> int {
    (a * b) % group_order()
}

/// Whether `h` has an inverse modulo the group order.
pub open spec fn is_unit(h: int) -> bool {
    exists|k: int| #[trigger] mul_residue(h, k) == 1
}

/// A residue that is a multiple of the group order is zero.
proof fn lemma_residue_zero(d: int)
    requires
        -group_order() < d < group_order(),
        d % group_order() == 0,
    ensures
        d == 0,
{
    let l = group_order();
    if d >= 0 {
        lemma_small_mod(d as nat, l as nat);
    } else {
        lemma_mod_add_multiples_vanish(d, l);
        lemma_small_mod((l + d) as nat, l as nat);
    }
}

/// A commitment opens to the value and blinding it was made with; it does
/// not open to the next value under the same blinding; and, where `H` has an
/// inverse residue, it does not open to the same value under another blinding.
pub proof fn lemma_opening_binds(pc: PedersenCommitment, v: int, r: int, r2: int)
    requires
        pc.wf(),
        is_residue(r),
        is_residue(r2),
    ensures
        pc.opens(commit_log(v, r, pc.g_log(), pc.h_log()), v, r),
        !pc.opens(commit_log(v, r, pc.g_log(), pc.h_log()), v + 1, r),
        r2 != r && is_unit(pc.h_log()) ==> !pc.opens(
            commit_log(v, r, pc.g_log(), pc.h_log()),
            v,
            r2,
        ),
{
    let l = group_order();
    let h = pc.h_log();
    let x = v + h * r;
    assert(commit_log(v, r, pc.g_log(), h) == x % l);
    assert(commit_log(v + 1, r, pc.g_log(), h) == (x + 1) % l);
    lemma_add_mod_noop(x, 1, l);
    lemma_small_mod(1, l as nat);
    assert(0 <= x % l < l);
    if x % l + 1 < l {
        lemma_small_mod((x % l + 1) as nat, l as nat);
        assert((x + 1) % l == x % l + 1);
    } else {
        assert(x % l + 1 == l);
        assert(l % l == 0);
        assert((x + 1) % l == 0);
    }
    assert((x + 1) % l != x % l);
    if r2 != r && is_unit(h) {
        let k = choose|k: int| #[trigger] mul_residue(h, k) == 1;
        let y = v + h * r2;
        let d = r - r2;
        if x % l == y % l {
            lemma_sub_mod_noop(x, y, l);
            assert((x % l - y % l) % l == 0);
            assert(x - y == h * d) by (nonlinear_arith)
                requires
                    x == v + h * r,
                    y == v + h * r2,
                    d == r - r2,
            ;
            assert((h * d) % l == 0);
            lemma_mul_mod_noop_left(h * d, k, l);
            assert((0 * k) % l == 0);
            assert((h * d) * k == (h * k) * d) by (nonlinear_arith);
            lemma_mul_mod_noop_left(h * k, d, l);
            assert(d % l == 0);
            lemma_residue_zero(d);
        }
    }
}

/// Adding two commitments commits to the sum of the values under the sum of
/// the blindings: `C(v1, r1) + C(v2, r2) == C(v1 + v2, r1 + r2)`.
pub proof fn lemma_homomorphic(pc: PedersenCommitment, v1: int, r1: int, v2: int, r2: int)
    ensures
        pc.opens(
            (commit_log(v1, r1, pc.g_log(), pc.h_log()) + commit_log(v2, r2, pc.g_log(), pc.h_log()))
                % group_order(),
            v1 + v2,
            (r1 + r2) % group_order(),
        ),
{
    let l = group_order();
    let g = pc.g_log();
    let h = pc.h_log();
    let a = g * v1 + h * r1;
    let b = g * v2 + h * r2;
    let s = g * (v1 + v2);
    lemma_add_mod_noop(a, b, l);
    assert(a + b == s + h * (r1 + r2)) by (nonlinear_arith)
        requires
            a == g * v1 + h * r1,
            b == g * v2 + h * r2,
            s == g * (v1 + v2),
    ;
    lemma_mul_mod_noop_left(r1 + r2, h, l);
    assert(h * ((r1 + r2) % l) == ((r1 + r2) % l) * h);
    assert(h * (r1 + r2) == (r1 + r2) * h);
    lemma_add_mod_noop_right(s, h * ((r1 + r2) % l), l);
    lemma_add_mod_noop_right(s, h * (r1 + r2), l);
}

} // verus!
