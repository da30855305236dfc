//! The ways in which a proof operation fails.

use vstd::prelude::*;

verus! {

/// A failed proof operation. A well-formed proof that does not verify is no
/// error: verification then answers `false`.
#[derive(Clone, Copy, Debug, PartialEq, Eq, Structural)]
pub enum Error {
    /// The parameters could not be created, stored, read or used.
    ParamInit,
    /// The witness does not satisfy the circuit, or is incomplete.
    Synthesis,
    /// The encoding of a proof is malformed.
    ProofDecode,
}

} // verus!
