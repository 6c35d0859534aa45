//! Why the engine refuses a witness or a claim.

use vstd::prelude::*;

verus! {

/// The reasons for which an assignment or a relation fails.
#[derive(Clone, Copy, Debug, PartialEq, Eq, Structural)]
pub enum Error {
    /// A value that the assignment needs was not supplied.
    Synthesis,
    /// A supplied lane has a digit outside the alphabet of its radix.
    MalformedWitness,
    /// The mixing flag is neither 0 nor 1.
    NotBoolean,
    /// A digit has no row in the lookup table that converts it.
    TableMiss,
    /// The engine is wired to a number of columns other than the one it needs.
    Misconfigured,
    /// The claimed output state is not the one that the engine computes.
    OutputMismatch,
}

} // verus!
