//! LU factorization with partial pivoting of dense matrices, on top of LAPACK-style routines.
//!
//! A matrix `M` with `m` rows and `n` columns is factorized as `M == P * L * U`, where `L` is
//! an `m` by `min(m, n)` lower-triangular matrix with a unit diagonal, `U` a `min(m, n)` by `n`
//! upper-triangular matrix and `P` an `m` by `m` permutation matrix.
//!
//! The numerical work is not done here. A scalar type brings its own routines for the
//! factorization, the triangular solve and the inversion through the trait
//! [`scalar::LUScalar`]; this crate shapes what goes into them and reads what comes out:
//!
//! * [`matrix`] holds dense column-major matrices and the few operations on them that the
//!   factors are cut out with;
//! * [`permutation`] says what a sequence of pivots does to the rows of a matrix, and does it;
//! * [`scalar`] states which arguments the routines may be handed;
//! * [`lu`] holds the factorization itself: the factors `L`, `U` and `P`, the solves and the
//!   inverse;
//! * [`error`] lists the failures that end a factorization or an inversion for good.
//!
//! Every call of a routine is proved to hand it buffers whose lengths match the dimensions
//! that go with them, and pivots that name rows of the matrix.

pub mod error;
pub mod lu;
pub mod matrix;
pub mod permutation;
pub mod scalar;
