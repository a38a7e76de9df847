//! The routines that a scalar type brings to an LU factorization.

use crate::permutation::interchange_rows;
use vstd::prelude::*;

verus! {

/// The smaller of two dimensions.
pub open spec fn min_dim(m: int, n: int) -> int {
    if m <= n {
        m
    } else {
        n
    }
}

/// A buffer of `len` elements holds exactly `n` columns of `ld` elements each.
pub open spec fn holds_columns(len: nat, ld: int, n: int) -> bool {
    &&& n >= 0
    &&& ld >= 1
    &&& len == ld * n
}

/// `trans` is one of the three modes of a triangular solve: `N` for the system as it is, `T`
/// for the transposed one, `C` for the conjugate-transposed one.
pub open spec fn is_solve_mode(trans: u8) -> bool {
    trans == 78 || trans == 84 || trans == 67
}

/// Scalars for which the routines of an LU factorization exist.
///
/// Matrices are handed to the routines as in LAPACK: column after column in one buffer, with
/// the distance `lda` between the starts of two columns; pivots and the row numbers `k1`, `k2`
/// count from one; `info` is zero on success, negative when an argument was malformed and
/// positive when the matrix turned out singular. The `requires` of each routine says which
/// arguments are well-formed: the routines read and write their buffers without checking
/// them. Of what the numerical routines compute nothing is stated here; callers learn it from
/// `info` alone.
pub trait LUScalar: Copy {
    /// The additive identity.
    fn zero() -> Self;

    /// The multiplicative identity.
    fn one() -> Self;

    /// Factorizes the `m` by `n` matrix in `a` in place with partial pivoting, and writes the
    /// row interchanges that it made to `ipiv`.
    fn xgetrf(m: i32, n: i32, a: &mut [Self], lda: i32, ipiv: &mut [i32], info: &mut i32)
        requires
            m >= 0,
            lda >= m,
            holds_columns(old(a)@.len(), lda as int, n as int),
            old(ipiv)@.len() == min_dim(m as int, n as int),
        ensures
            final(a)@.len() == old(a)@.len(),
            final(ipiv)@.len() == old(ipiv)@.len(),
    ;

    /// Interchanges rows of the `lda` by `n` matrix in `a`: row `k` trades places with row
    /// `ipiv[k]`, for each `k` from `k1` to `k2` in turn when `incx` is `1`, and for each `k`
    /// from `k2` down to `k1` when `incx` is `-1`.
    fn xlaswp(n: i32, a: &mut [Self], lda: i32, k1: i32, k2: i32, ipiv: &[i32], incx: i32)
        requires
            holds_columns(old(a)@.len(), lda as int, n as int),
            incx == 1 || incx == -1,
            crate::permutation::pivots_in_range(ipiv@, k1 as int, k2 as int, lda as int),
        ensures
            crate::permutation::is_row_interchange(
                crate::matrix::laid_out(old(a)@, lda as int, n as int),
                crate::matrix::laid_out(final(a)@, lda as int, n as int),
                ipiv@,
                k1 as int,
                k2 as int,
                incx < 0,
            ),
    {
        interchange_rows(a, lda as usize, n as usize, ipiv, k1, k2, incx < 0);
    }

    /// Solves a system of `n` equations with the `nrhs` right-hand sides in `b`, in place, from
    /// the factorization in `a` and `ipiv`. A factorization of a singular matrix, with a zero
    /// on the diagonal of its upper-triangular factor, is to be reported through a positive
    /// `info`.
    fn xgetrs(
        trans: u8,
        n: i32,
        nrhs: i32,
        a: &[Self],
        lda: i32,
        ipiv: &[i32],
        b: &mut [Self],
        ldb: i32,
        info: &mut i32,
    )
        requires
            is_solve_mode(trans),
            lda >= n,
            ldb >= n,
            holds_columns(a@.len(), lda as int, n as int),
            holds_columns(old(b)@.len(), ldb as int, nrhs as int),
            ipiv@.len() == n,
            crate::permutation::pivots_in_range(ipiv@, 1, n as int, n as int),
        ensures
            final(b)@.len() == old(b)@.len(),
    ;

    /// Turns the factorization of an `n` by `n` matrix in `a` and `ipiv` into the inverse of
    /// that matrix, in place, with `work` as scratch space.
    fn xgetri(
        n: i32,
        a: &mut [Self],
        lda: i32,
        ipiv: &[i32],
        work: &mut [Self],
        lwork: i32,
        info: &mut i32,
    )
        requires
            lda >= n,
            holds_columns(old(a)@.len(), lda as int, n as int),
            ipiv@.len() == n,
            crate::permutation::pivots_in_range(ipiv@, 1, n as int, n as int),
            lwork >= 1,
            lwork >= n,
            old(work)@.len() == lwork,
        ensures
            final(a)@.len() == old(a)@.len(),
    ;

    /// The length of the scratch space that `xgetri` asks for on these arguments.
    fn xgetri_work_size(n: i32, a: &mut [Self], lda: i32, ipiv: &[i32], info: &mut i32) -> (lwork:
        i32)
        requires
            lda >= n,
            holds_columns(old(a)@.len(), lda as int, n as int),
            ipiv@.len() == n,
            crate::permutation::pivots_in_range(ipiv@, 1, n as int, n as int),
        ensures
            final(a)@.len() == old(a)@.len(),
    ;
}

/// `x` is what `T::zero()` returns.
pub open spec fn is_zero<T: LUScalar>(x: T) -> bool {
    call_ensures(T::zero, (), x)
}

/// `x` is what `T::one()` returns.
pub open spec fn is_one<T: LUScalar>(x: T) -> bool {
    call_ensures(T::one, (), x)
}

} // verus!
