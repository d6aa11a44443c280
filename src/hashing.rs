//! SHA-512 digests and their lowercase hexadecimal rendering.

use sha2::{Digest, Sha512};
use vstd::prelude::*;

verus! {

/// The SHA-512 digest of a byte string.
pub uninterp spec fn sha512_of(data: Seq<u8>) -> Seq<u8>;

/// Relies on `Sha512::digest`: the 64-byte SHA-512 digest of the input.
#[verifier::external_body]
pub(crate) fn sha512(data: &[u8]) -> (r: [u8; 64])
    ensures
        r@ == sha512_of(data@),
{
    let digest = Sha512::digest(data);
    let mut out = [0u8; 64];
    out.copy_from_slice(&digest);
    out
}

/// The sixteen lowercase hexadecimal digits.
pub open spec fn hex_digits() -> Seq<char> {
    seq!['0', '1', '2', '3', '4', '5', '6', '7', '8', '9', 'a', 'b', 'c', 'd', 'e', 'f']
}

/// The two lowercase hexadecimal digits of a byte, high nibble first.
pub open spec fn hex_pair(x: u8) -> Seq<char> {
    seq![hex_digits()[x as int / 16], hex_digits()[x as int % 16]]
}

/// Two lowercase hexadecimal digits per byte, high nibble first.
pub open spec fn hex_of(b: Seq<u8>) -> Seq<char>
    decreases b.len(),
{
    if b.len() == 0 {
        Seq::empty()
    } else {
        hex_pair(b[0]) + hex_of(b.drop_first())
    }
}

/// A lowercase hexadecimal rendering is twice as long as the bytes and holds
/// hexadecimal digits only.
pub proof fn lemma_hex_shape(b: Seq<u8>)
    ensures
        hex_of(b).len() == 2 * b.len(),
        forall|i: int| 0 <= i < hex_of(b).len() ==> hex_digits().contains(#[trigger] hex_of(b)[i]),
    decreases b.len(),
{
    if b.len() > 0 {
        lemma_hex_shape(b.drop_first());
        let head = hex_pair(b[0]);
        assert forall|i: int| 0 <= i < hex_of(b).len() implies hex_digits().contains(
            #[trigger] hex_of(b)[i],
        ) by {
            if i < 2 {
                assert(hex_of(b)[i] == head[i]);
                let k = if i == 0 {
                    b[0] as int / 16
                } else {
                    b[0] as int % 16
                };
                assert(head[i] == hex_digits()[k]);
            } else {
                assert(hex_of(b)[i] == hex_of(b.drop_first())[i - 2]);
            }
        }
    }
}

/// Relies on `hex::encode`: two lowercase hexadecimal digits per byte.
#[verifier::external_body]
pub(crate) fn hex_encode(b: &[u8; 64]) -> (r: String)
    ensures
        r@ == hex_of(b@),
{
    hex::encode(b)
}

} // verus!
