//! What can go wrong when an evaluation domain is built.

use vstd::prelude::*;

verus! {

/// Why a domain could not be built.
#[derive(Clone, Copy, Debug, PartialEq, Eq, Structural)]
pub enum KZGError {
    /// The field has no root of unity of the order that a polynomial of the
    /// requested degree needs.
    PolynomialDegreeTooLarge,
}

} // verus!
