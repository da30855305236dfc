//! Elements of the scalar field of BLS12-381, held as four little-endian
//! 64-bit words, and the encoding of signed amounts into the field.

use crate::amount::{magnitude, signed_value, Amount};
use bls12_381::Scalar;
use vstd::prelude::*;

verus! {

/// A field element as four little-endian 64-bit words.
pub type Words = [u64; 4];

/// The order of the scalar field.
pub open spec fn modulus() -> nat {
    0x73eda753299d7d483339d80809a1d80553bda402fffe5bfeffffffff00000001nat
}

/// The integer held in four little-endian words.
pub open spec fn words_value(w: Words) -> nat {
    (w[0] as nat) + (w[1] as nat) * 0x1_0000_0000_0000_0000nat + (w[2] as nat)
        * 0x1_0000_0000_0000_0000_0000_0000_0000_0000nat + (w[3] as nat)
        * 0x1_0000_0000_0000_0000_0000_0000_0000_0000_0000_0000_0000_0000nat
}

/// The words are the least non-negative representative of an element.
pub open spec fn is_canonical(w: Words) -> bool {
    words_value(w) < modulus()
}

/// The field element that stands for an integer: its residue.
pub open spec fn residue(v: int) -> nat {
    (v % (modulus() as int)) as nat
}

/// Calls `bls12_381::Scalar::neg` on the element that `Scalar::from_raw` makes
/// of the words, and gives the result back in canonical words
/// (`Scalar::to_bytes`, little endian): the additive inverse of the residue
/// of the integer that the words hold.
#[verifier::external_body]
fn scalar_neg(w: Words) -> (r: Words)
    ensures
        words_value(r) == (modulus() - words_value(w) % modulus()) % (modulus() as int),
{
    let bytes = Scalar::from_raw(w).neg().to_bytes();
    let mut r = [0u64; 4];
    for (word, chunk) in r.iter_mut().zip(bytes.chunks_exact(8)) {
        *word = u64::from_le_bytes(chunk.try_into().unwrap());
    }
    r
}

/// The additive inverse of the field element that the words hold.
pub fn negate(w: Words) -> (r: Words)
    ensures
        is_canonical(r),
        words_value(r) == residue(-(words_value(w) as int)),
{
    scalar_neg(w)
}

/// The field element of a signed amount: the magnitude itself, negated in the
/// field where the amount is negative.
pub fn to_field(x: Amount) -> (r: Words)
    ensures
        is_canonical(r),
        words_value(r) == residue(signed_value(x)),
        x.1 ==> words_value(r) == magnitude(x.0),
        !x.1 && magnitude(x.0) > 0 ==> words_value(r) == modulus() - magnitude(x.0),
{
    let plain: Words = [x.0[0], x.0[1], 0, 0];
    assert(words_value(plain) == magnitude(x.0));
    if x.1 {
        plain
    } else {
        scalar_neg(plain)
    }
}

} // verus!
