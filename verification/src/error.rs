//! The ways in which a factorization or an inverse can fail for good.

use vstd::prelude::*;

verus! {

/// A failure that no numerical answer can follow: the arguments, or what a routine handed
/// back, were malformed. A singular matrix is not among these; it shows as an absent result.
#[derive(Clone, Copy, Debug, PartialEq, Eq, Structural)]
pub enum LuError {
    /// The matrix has no row, or more rows or columns than a 32-bit index can count.
    Dimensions,
    /// The factorization routine reported a malformed argument through this negative `info`.
    Factorization { info: i32 },
    /// The factorization routine handed back pivots of which one names no row of the matrix,
    /// or a row above its own.
    Pivots,
    /// The workspace query of the inversion reported an error through this nonzero `info`.
    WorkspaceQuery { info: i32 },
    /// The workspace query of the inversion answered with a length that the inversion
    /// routine does not accept.
    WorkspaceSize { lwork: i32 },
}

} // verus!
