//! The calls into the proof system: reading curve points and a verifying key,
//! and checking a proof against public inputs.

use crate::error::Error;
use crate::field::Words;
use crate::r1cs::values;
use bellman::groth16::{prepare_verifying_key, verify_proof, Proof, VerifyingKey};
use bellman::VerificationError;
use bls12_381::{Bls12, G1Affine, G2Affine, Scalar};
use vstd::prelude::*;

verus! {

/// How the proof system answers a check.
#[derive(Clone, Copy, Debug, PartialEq, Eq, Structural)]
pub enum Verdict {
    /// The proof is valid for the inputs.
    Accepted,
    /// The proof is not valid for the inputs.
    Rejected,
    /// The verifying key is for another number of inputs.
    KeyMismatch,
}

/// Whether 96 bytes are the uncompressed encoding of a point of the first
/// group: coordinates below the field modulus, on the curve, in the subgroup.
pub uninterp spec fn g1_valid(bytes: Seq<u8>) -> bool;

/// Whether 192 bytes are the uncompressed encoding of a point of the second
/// group.
pub uninterp spec fn g2_valid(bytes: Seq<u8>) -> bool;

/// Whether the bytes begin with a verifying key.
pub uninterp spec fn key_valid(bytes: Seq<u8>) -> bool;

/// The answer of the pairing check for a verifying key, the three points of a
/// proof and the public inputs, each input given as the integer it holds.
pub uninterp spec fn groth16_verdict(
    key: Seq<u8>,
    a: Seq<u8>,
    b: Seq<u8>,
    c: Seq<u8>,
    inputs: Seq<nat>,
) -> Verdict;

/// Calls `bls12_381::G1Affine::from_uncompressed` and says whether it gave a
/// point. It is a function of the bytes alone.
#[verifier::external_body]
fn g1_readable(bytes: &Vec<u8>) -> (r: bool)
    requires
        bytes@.len() == 96,
    ensures
        r == g1_valid(bytes@),
{
    let array: &[u8; 96] = bytes.as_slice().try_into().unwrap();
    G1Affine::from_uncompressed(array).is_some().into()
}

/// Calls `bls12_381::G2Affine::from_uncompressed` and says whether it gave a
/// point. It is a function of the bytes alone.
#[verifier::external_body]
fn g2_readable(bytes: &Vec<u8>) -> (r: bool)
    requires
        bytes@.len() == 192,
    ensures
        r == g2_valid(bytes@),
{
    let array: &[u8; 192] = bytes.as_slice().try_into().unwrap();
    G2Affine::from_uncompressed(array).is_some().into()
}

/// Calls `bellman::groth16::VerifyingKey::read` on the bytes and says whether
/// it gave a key. The reader takes what it needs from the front and leaves
/// the rest, so stored parameters, which begin with their key, pass too.
#[verifier::external_body]
pub(crate) fn key_readable(bytes: &Vec<u8>) -> (r: bool)
    ensures
        r == key_valid(bytes@),
{
    VerifyingKey::<Bls12>::read(bytes.as_slice()).is_ok()
}

/// Calls `bellman::groth16::verify_proof` with the prepared key, the proof of
/// the three points and the inputs as scalars (`Scalar::from_raw`, which
/// reduces each input modulo the field order). Key and points must be
/// readable; the answer is a function of the arguments alone.
#[verifier::external_body]
fn check(key: &Vec<u8>, a: &Vec<u8>, b: &Vec<u8>, c: &Vec<u8>, inputs: &Vec<Words>) -> (r: Verdict)
    requires
        key_valid(key@),
        a@.len() == 96 && g1_valid(a@),
        b@.len() == 192 && g2_valid(b@),
        c@.len() == 96 && g1_valid(c@),
    ensures
        r == groth16_verdict(key@, a@, b@, c@, values(inputs@)),
{
    let key = VerifyingKey::<Bls12>::read(key.as_slice()).unwrap();
    let a = G1Affine::from_uncompressed(a.as_slice().try_into().unwrap()).unwrap();
    let b = G2Affine::from_uncompressed(b.as_slice().try_into().unwrap()).unwrap();
    let c = G1Affine::from_uncompressed(c.as_slice().try_into().unwrap()).unwrap();
    let inputs: Vec<Scalar> = inputs.iter().map(|w| Scalar::from_raw(*w)).collect();
    match verify_proof(&prepare_verifying_key(&key), &Proof { a, b, c }, &inputs) {
        Ok(()) => Verdict::Accepted,
        Err(VerificationError::InvalidProof) => Verdict::Rejected,
        Err(VerificationError::InvalidVerifyingKey) => Verdict::KeyMismatch,
    }
}

/// What a check answers to the caller: `true` for an accepted proof, `false`
/// for a rejected one, an error where the key does not fit the inputs.
pub open spec fn answer_of(verdict: Verdict) -> Result<bool, Error> {
    match verdict {
        Verdict::Accepted => Ok(true),
        Verdict::Rejected => Ok(false),
        Verdict::KeyMismatch => Err(Error::ParamInit),
    }
}

/// What a check answers to the caller.
pub fn answer(verdict: Verdict) -> (r: Result<bool, Error>)
    ensures
        r == answer_of(verdict),
{
    match verdict {
        Verdict::Accepted => Ok(true),
        Verdict::Rejected => Ok(false),
        Verdict::KeyMismatch => Err(Error::ParamInit),
    }
}

/// The outcome of checking the three points of a proof against a key and
/// inputs: an error for a key or a point that cannot be read, else the answer
/// of the pairing check.
pub open spec fn outcome(key: Seq<u8>, a: Seq<u8>, b: Seq<u8>, c: Seq<u8>, inputs: Seq<nat>) -> Result<
    bool,
    Error,
> {
    if !key_valid(key) {
        Err(Error::ParamInit)
    } else if !(a.len() == 96 && b.len() == 192 && c.len() == 96) {
        Err(Error::ProofDecode)
    } else if !(g1_valid(a) && g2_valid(b) && g1_valid(c)) {
        Err(Error::ProofDecode)
    } else {
        answer_of(groth16_verdict(key, a, b, c, inputs))
    }
}

/// Checks the three points of a proof against a key and inputs.
pub fn check_proof(
    key: &Vec<u8>,
    a: &Vec<u8>,
    b: &Vec<u8>,
    c: &Vec<u8>,
    inputs: &Vec<Words>,
) -> (r: Result<bool, Error>)
    ensures
        r == outcome(key@, a@, b@, c@, values(inputs@)),
{
    if !key_readable(key) {
        return Err(Error::ParamInit);
    }
    if a.len() != 96 || b.len() != 192 || c.len() != 96 {
        return Err(Error::ProofDecode);
    }
    if !g1_readable(a) || !g2_readable(b) || !g1_readable(c) {
        return Err(Error::ProofDecode);
    }
    answer(check(key, a, b, c, inputs))
}

} // verus!
