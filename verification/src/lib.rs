//! Range proofs over signed-magnitude amounts, for confidential transactions.
//!
//! A prover shows in zero knowledge that a private value lies between two
//! public bounds, for amounts whose magnitude lies below `2^127`. This
//! library holds what can be stated and proved about that: the order on amounts and their encoding into the scalar field
//! ([`amount`], [`field`]); bit decomposition ([`bits`]); rank-1 constraint
//! systems as data ([`r1cs`]); the offset comparison and the range circuit
//! with their honest assignments ([`compare`], [`range`]), and the soundness
//! of the circuit ([`soundness`]); the wire format of proofs ([`wire`]); the
//! check of a proof against a verifying key ([`groth16`]); the lifecycle of
//! stored parameters ([`params`]); and the bits and the Merkle path of a note
//! ([`note`]). Creating parameters and proofs, which takes randomness and a
//! parameter store, is left to the caller.

pub mod amount;
pub mod bits;
pub mod compare;
pub mod error;
pub mod field;
pub mod groth16;
pub mod note;
pub mod params;
pub mod r1cs;
pub mod range;
pub mod soundness;
pub mod wire;
