//! LU factorization with partial (row) pivoting.

use crate::error::LuError;
use crate::matrix::{Matrix, MatrixView};
use crate::scalar::LUScalar;
use vstd::prelude::*;

verus! {

/// What a factorization holds: the factors, packed in one matrix, and the pivots.
pub struct LUView<T> {
    /// The unit lower-triangular factor below the diagonal (its diagonal of ones is not
    /// stored) and the upper-triangular factor on and above it.
    pub factors: MatrixView<T>,
    /// Row `k` traded places with row `pivots[k - 1]` while the matrix was factorized, rows
    /// and `k` counted from one.
    pub pivots: Seq<i32>,
}

/// The routines count rows and columns in `i32`, and need at least one row.
pub open spec fn representable(rows: nat, cols: nat) -> bool {
    1 <= rows <= i32::MAX && cols <= i32::MAX
}

impl<T> LUView<T> {
    /// The invariant of a factorization: its matrix is well-formed and of a size that the
    /// routines can express, there is one pivot for each row or each column, whichever are
    /// fewer, and each pivot names a row, its own or a later one, as partial pivoting
    /// chooses it.
    pub open spec fn wf(self) -> bool {
        &&& self.factors.wf()
        &&& representable(self.factors.rows, self.factors.cols)
        &&& self.pivots.len() == crate::scalar::min_dim(
            self.factors.rows as int,
            self.factors.cols as int,
        )
        &&& crate::permutation::pivots_in_range(
            self.pivots,
            1,
            self.pivots.len() as int,
            self.factors.rows as int,
        )
        &&& crate::permutation::pivots_look_down(self.pivots)
    }

    /// The matrix that was factorized is square.
    pub open spec fn is_square(self) -> bool {
        self.factors.rows == self.factors.cols
    }

    /// The row of a matrix that `permute` moves to row `i`, rows counted from zero: the
    /// pivots are taken from the last down to the first, and each makes the row of its own
    /// number trade places with the row that it names.
    pub open spec fn source_row(self, i: int) -> int {
        crate::permutation::source_row(self.pivots, 1, self.pivots.len() as int, true, i)
    }

    /// The row to which `permute` moves row `j` of a matrix, rows counted from zero.
    pub open spec fn target_row(self, j: int) -> int {
        crate::permutation::source_row(self.pivots, 1, self.pivots.len() as int, false, j)
    }

    /// `m` is the lower-triangular factor of this factorization, with `one` for its ones and
    /// `zero` for its zeros: the packed factors below the diagonal, `one` on the diagonal
    /// and `zero` above it.
    pub open spec fn is_lower_factor(self, m: MatrixView<T>, zero: T, one: T) -> bool {
        &&& m.wf()
        &&& m.rows == self.factors.rows
        &&& m.cols == self.pivots.len()
        &&& forall|i: int, j: int|
            m.in_bounds(i, j) ==> #[trigger] m.entry(i, j) == (if i > j {
                self.factors.entry(i, j)
            } else if i == j {
                one
            } else {
                zero
            })
    }

    /// `m` is the upper-triangular factor of this factorization, with `zero` for its zeros:
    /// the packed factors on and above the diagonal and `zero` below it.
    pub open spec fn is_upper_factor(self, m: MatrixView<T>, zero: T) -> bool {
        &&& m.wf()
        &&& m.rows == self.pivots.len()
        &&& m.cols == self.factors.cols
        &&& forall|i: int, j: int|
            m.in_bounds(i, j) ==> #[trigger] m.entry(i, j) == (if i <= j {
                self.factors.entry(i, j)
            } else {
                zero
            })
    }

    /// `m` is the permutation matrix of this factorization, with `one` for its ones and
    /// `zero` for its zeros: row `i` holds `one` in column `source_row(i)` and `zero` in
    /// every other column.
    pub open spec fn is_permutation_matrix(self, m: MatrixView<T>, zero: T, one: T) -> bool {
        &&& m.wf()
        &&& m.rows == self.factors.rows
        &&& m.cols == self.factors.rows
        &&& forall|i: int, j: int|
            m.in_bounds(i, j) ==> #[trigger] m.entry(i, j) == (if self.source_row(i) == j {
                one
            } else {
                zero
            })
    }

    /// `after` is what `permute` makes of `before`: row `i` of `after` is row
    /// `source_row(i)` of `before`.
    pub open spec fn permutes(self, before: MatrixView<T>, after: MatrixView<T>) -> bool {
        &&& after.wf()
        &&& after.rows == before.rows
        &&& after.cols == before.cols
        &&& forall|i: int, j: int|
            before.in_bounds(i, j) ==> #[trigger] after.entry(i, j) == before.entry(
                self.source_row(i),
                j,
            )
    }

    /// The dimension of the factorized matrix, as the routines are told it.
    pub open spec fn dim(self) -> i32 {
        self.factors.rows as i32
    }

    /// A system with the right-hand sides `b` can be put to this factorization: the
    /// factorized matrix is square, `b` has as many rows as it, and no more columns than a
    /// 32-bit index can count.
    pub open spec fn accepts(self, b: MatrixView<T>) -> bool {
        &&& self.is_square()
        &&& b.rows == self.factors.rows
        &&& b.cols <= i32::MAX
    }
}

/// A right-hand side of another height than the factorized matrix is never accepted, and a
/// factorization of a matrix that is not square accepts none, so that no system is solved
/// with either: every solve asks for `accepts`.
pub proof fn lemma_mismatched_rhs_is_refused<T>(f: LUView<T>, b: MatrixView<T>)
    requires
        b.rows != f.factors.rows || !f.is_square(),
    ensures
        !f.accepts(b),
{
}

/// The permutation matrix is what `permute` makes of the identity matrix: if `identity` is
/// an identity matrix with as many rows as the factorized matrix, then what `permute` makes
/// of it is the permutation matrix with the same ones and zeros.
pub proof fn lemma_permuted_identity<T>(
    f: LUView<T>,
    identity: MatrixView<T>,
    permuted: MatrixView<T>,
    zero: T,
    one: T,
)
    requires
        f.wf(),
        identity.is_identity(zero, one),
        identity.rows == f.factors.rows,
        identity.cols == f.factors.rows,
        f.permutes(identity, permuted),
    ensures
        f.is_permutation_matrix(permuted, zero, one),
{
    assert forall|i: int, j: int| permuted.in_bounds(i, j) implies #[trigger] permuted.entry(i, j)
        == (if f.source_row(i) == j {
        one
    } else {
        zero
    }) by {
        crate::permutation::lemma_source_row_in_range(
            f.pivots,
            1,
            f.pivots.len() as int,
            true,
            f.factors.rows as int,
            i,
        );
        assert(identity.in_bounds(f.source_row(i), j));
    }
}

/// A factorization has one permutation matrix for given ones and zeros: two matrices that
/// are each the permutation matrix are equal.
pub proof fn lemma_permutation_matrix_is_unique<T>(
    f: LUView<T>,
    p1: MatrixView<T>,
    p2: MatrixView<T>,
    zero: T,
    one: T,
)
    requires
        f.is_permutation_matrix(p1, zero, one),
        f.is_permutation_matrix(p2, zero, one),
    ensures
        p1 == p2,
{
    crate::matrix::lemma_equal_by_entries(p1, p2);
}

/// `permute` only reorders the rows of a matrix: the row that it moves to row `i` is a row
/// of the matrix, the row to which it moves row `j` is one as well, and the two go together,
/// so that no row is lost and none is taken twice.
pub proof fn lemma_permute_reorders_rows<T>(f: LUView<T>)
    requires
        f.wf(),
    ensures
        forall|i: int|
            0 <= i < f.factors.rows ==> 0 <= #[trigger] f.source_row(i) < f.factors.rows
                && f.target_row(f.source_row(i)) == i,
        forall|j: int|
            0 <= j < f.factors.rows ==> 0 <= #[trigger] f.target_row(j) < f.factors.rows
                && f.source_row(f.target_row(j)) == j,
{
    let last = f.pivots.len() as int;
    let rows = f.factors.rows as int;
    assert forall|i: int| 0 <= i < rows implies 0 <= #[trigger] f.source_row(i) < rows
        && f.target_row(f.source_row(i)) == i by {
        crate::permutation::lemma_source_row_in_range(f.pivots, 1, last, true, rows, i);
        crate::permutation::lemma_orders_are_inverse(f.pivots, 1, last, i);
    }
    assert forall|j: int| 0 <= j < rows implies 0 <= #[trigger] f.target_row(j) < rows
        && f.source_row(f.target_row(j)) == j by {
        crate::permutation::lemma_source_row_onto(f.pivots, 1, last, true, rows, j);
    }
}

/// `T::xgetrf` was called on the matrix `m`, and has returned: `a` held the entries of `m`,
/// `ipiv` held a zero for each row or each column of `m`, whichever are fewer, `info` held
/// zero, and the shape of `m` went as the shape of the matrix, with its number of rows as the
/// leading dimension.
pub open spec fn xgetrf_took<T: LUScalar>(
    m: MatrixView<T>,
    a: &mut [T],
    ipiv: &mut [i32],
    info: &mut i32,
) -> bool {
    &&& a@ == m.elements
    &&& ipiv@ == Seq::new(
        crate::scalar::min_dim(m.rows as int, m.cols as int) as nat,
        |k: int| 0i32,
    )
    &&& *info == 0
    &&& call_ensures(
        T::xgetrf,
        (m.rows as i32, m.cols as i32, a, m.rows as i32, ipiv, info),
        (),
    )
}

/// `T::xgetrs` was called in the mode `trans` on the factorization `f` and the right-hand
/// sides `b`, and has returned: `a` and `p` held the factors and the pivots, `x` held the
/// right-hand sides, `info` held zero, and the dimension of `f` went as the number of
/// equations and as the leading dimension of both matrices.
pub open spec fn xgetrs_took<T: LUScalar>(
    trans: u8,
    f: LUView<T>,
    b: MatrixView<T>,
    a: &[T],
    p: &[i32],
    x: &mut [T],
    info: &mut i32,
) -> bool {
    &&& a@ == f.factors.elements
    &&& p@ == f.pivots
    &&& x@ == b.elements
    &&& *info == 0
    &&& call_ensures(
        T::xgetrs,
        (trans, f.dim(), b.cols as i32, a, f.dim(), p, x, f.dim(), info),
        (),
    )
}

/// `T::xgetri_work_size` was called on the factorization `f`, and has returned `lwork`: `a`
/// and `p` held the factors and the pivots, `info` held zero, and the dimension of `f` went
/// as the dimension of the matrix and as its leading dimension.
pub open spec fn xgetri_work_size_took<T: LUScalar>(
    f: LUView<T>,
    a: &mut [T],
    p: &[i32],
    info: &mut i32,
    lwork: i32,
) -> bool {
    &&& a@ == f.factors.elements
    &&& p@ == f.pivots
    &&& *info == 0
    &&& call_ensures(T::xgetri_work_size, (f.dim(), a, f.dim(), p, info), lwork)
}

/// `T::xgetri` was called on the factorization `f`, and has returned: `a` held `lu`, `p` held
/// the pivots, `work` was a scratch buffer of `lwork` elements, `info` held zero, and the
/// dimension of `f` went as the dimension of the matrix and as its leading dimension.
pub open spec fn xgetri_took<T: LUScalar>(
    f: LUView<T>,
    lu: Seq<T>,
    lwork: i32,
    a: &mut [T],
    p: &[i32],
    work: &mut [T],
    info: &mut i32,
) -> bool {
    &&& a@ == lu
    &&& p@ == f.pivots
    &&& work@.len() == lwork
    &&& *info == 0
    &&& call_ensures(T::xgetri, (f.dim(), a, f.dim(), p, work, lwork, info), ())
}

/// What the workspace query of an inversion comes to, for a matrix of dimension `n`: an
/// error if the query reported one through a nonzero `info`, or answered with a length that
/// the inversion does not accept, less than `n` or less than one; else the length `lwork`.
pub open spec fn workspace_outcome(n: i32, lwork: i32, info: i32) -> Result<usize, LuError> {
    if info != 0 {
        Err(LuError::WorkspaceQuery { info })
    } else if lwork < 1 || lwork < n {
        Err(LuError::WorkspaceSize { lwork })
    } else {
        Ok(lwork as usize)
    }
}

/// Why `lu`, `ipiv` and `info`, as a factorization routine left them, make no factorization;
/// `None` when they make one. A positive `info` tells of a singular matrix, which is no
/// error here.
pub open spec fn factorization_error<T>(lu: MatrixView<T>, ipiv: Seq<i32>, info: i32) -> Option<
    LuError,
> {
    if !representable(lu.rows, lu.cols) {
        Some(LuError::Dimensions)
    } else if info < 0 {
        Some(LuError::Factorization { info })
    } else if !(LUView { factors: lu, pivots: ipiv }).wf() {
        Some(LuError::Pivots)
    } else {
        None
    }
}

/// LU decomposition with partial pivoting of a matrix `M` with `m` rows and `n` columns:
/// `M == P * L * U` with `L` an `m` by `min(m, n)` lower-triangular matrix with a unit
/// diagonal, `U` a `min(m, n)` by `n` upper-triangular matrix and `P` an `m` by `m`
/// permutation matrix.
#[derive(Clone, Debug)]
pub struct LU<T: LUScalar> {
    lu: Matrix<T>,
    p: Vec<i32>,
}

impl<T: LUScalar> View for LU<T> {
    type V = LUView<T>;

    closed spec fn view(&self) -> LUView<T> {
        LUView { factors: self.lu@, pivots: self.p@ }
    }
}

impl<T: LUScalar> LU<T> {
    /// The invariant of every factorization that this module hands out.
    pub open spec fn wf(&self) -> bool {
        self@.wf()
    }

    /// Makes a factorization of what a factorization routine left behind: the matrix `lu`
    /// that it overwrote, the pivots `ipiv` that it chose and the `info` that it reported.
    pub fn from_factorization(lu: Matrix<T>, ipiv: Vec<i32>, info: i32) -> (res: Result<
        LU<T>,
        LuError,
    >)
        requires
            lu.wf(),
        ensures
            match res {
                Ok(f) => factorization_error(lu@, ipiv@, info) is None && f.wf() && f@ == (LUView {
                    factors: lu@,
                    pivots: ipiv@,
                }),
                Err(e) => factorization_error(lu@, ipiv@, info) == Some(e),
            },
    {
        let (nrows, ncols) = lu.shape();
        if nrows < 1 || nrows > i32::MAX as usize || ncols > i32::MAX as usize {
            return Err(LuError::Dimensions);
        }
        if info < 0 {
            return Err(LuError::Factorization { info });
        }
        let count = if nrows <= ncols {
            nrows
        } else {
            ncols
        };
        if ipiv.len() != count {
            return Err(LuError::Pivots);
        }
        let mut k: usize = 0;
        while k < count
            invariant
                k <= count,
                count == ipiv@.len(),
                count <= nrows,
                nrows == lu@.rows,
                representable(lu@.rows, lu@.cols),
                info >= 0,
                forall|q: int| 0 <= q < k ==> q < #[trigger] ipiv@[q] <= nrows,
            decreases count - k,
        {
            let pivot = ipiv[k];
            if pivot < 1 || pivot as usize <= k || pivot as usize > nrows {
                return Err(LuError::Pivots);
            }
            k += 1;
        }
        Ok(LU { lu, p: ipiv })
    }

    /// Computes the LU decomposition with partial (row) pivoting of `m`.
    ///
    /// A matrix without a row, or with more rows or columns than a 32-bit index can count,
    /// is refused. Any other goes to `T::xgetrf`, with zeroed pivots and an `info` of zero,
    /// and the result is what `from_factorization` makes of what the routine left: the
    /// factorization that holds the matrix and the pivots as the routine left them, or the
    /// error that `factorization_error` finds in them. A matrix that turns out exactly
    /// singular still gives a factorization: that shows when a system is solved with it.
    pub fn new(m: Matrix<T>) -> (res: Result<LU<T>, LuError>)
        requires
            m.wf(),
        ensures
            res == Err::<LU<T>, LuError>(LuError::Dimensions) <==> !representable(m@.rows, m@.cols),
            res matches Ok(f) ==> f.wf() && f@.factors.rows == m@.rows && f@.factors.cols
                == m@.cols,
            representable(m@.rows, m@.cols) ==> exists|a: &mut [T], ipiv: &mut [i32], info: &mut i32|
                #[trigger] xgetrf_took(m@, a, ipiv, info) && match res {
                    Ok(f) => factorization_error(
                        crate::matrix::laid_out(final(a)@, m@.rows as int, m@.cols as int),
                        final(ipiv)@,
                        *final(info),
                    ) is None && f@ == (LUView {
                        factors: crate::matrix::laid_out(
                            final(a)@,
                            m@.rows as int,
                            m@.cols as int,
                        ),
                        pivots: final(ipiv)@,
                    }),
                    Err(e) => factorization_error(
                        crate::matrix::laid_out(final(a)@, m@.rows as int, m@.cols as int),
                        final(ipiv)@,
                        *final(info),
                    ) == Some(e),
                },
    {
        let ghost given = m@;
        let mut m = m;
        let (nrows, ncols) = m.shape();
        if nrows < 1 || nrows > i32::MAX as usize || ncols > i32::MAX as usize {
            return Err(LuError::Dimensions);
        }
        let count = if nrows <= ncols {
            nrows
        } else {
            ncols
        };
        let mut ipiv: Vec<i32> = vec![0i32; count];
        let mut info: i32 = 0;
        assert(ipiv@ =~= Seq::new(count as nat, |k: int| 0i32));
        T::xgetrf(
            nrows as i32,
            ncols as i32,
            m.as_mut_slice(),
            nrows as i32,
            ipiv.as_mut_slice(),
            &mut info,
        );
        proof {
            let (a, q, i) = choose|a: &mut [T], q: &mut [i32], i: &mut i32|
                a@ == given.elements && q@ == Seq::new(count as nat, |k: int| 0i32) && *i == 0
                    && final(a)@ == m@.elements && final(q)@ == ipiv@ && *final(i) == info
                    && #[trigger] call_ensures(
                    T::xgetrf,
                    (nrows as i32, ncols as i32, a, nrows as i32, q, i),
                    (),
                );
            assert(xgetrf_took(given, a, q, i));
        }
        Self::from_factorization(m, ipiv, info)
    }

    /// The number of rows of the matrix that was factorized.
    pub fn nrows(&self) -> (n: usize)
        ensures
            n == self@.factors.rows,
    {
        self.lu.nrows()
    }

    /// The number of columns of the matrix that was factorized.
    pub fn ncols(&self) -> (n: usize)
        ensures
            n == self@.factors.cols,
    {
        self.lu.ncols()
    }

    /// Whether the matrix that was factorized is square.
    pub fn is_square(&self) -> (b: bool)
        ensures
            b == self@.is_square(),
    {
        self.lu.is_square()
    }

    /// Gets the lower-triangular matrix part of the decomposition: the factors below the
    /// diagonal, ones on the diagonal and zeros above it.
    pub fn l(&self) -> (res: Matrix<T>)
        requires
            self.wf(),
        ensures
            res.wf(),
            res@.rows == self@.factors.rows,
            res@.cols == self@.pivots.len(),
            exists|zero: T, one: T|
                crate::scalar::is_zero(zero) && crate::scalar::is_one(one)
                    && #[trigger] self@.is_lower_factor(res@, zero, one),
    {
        let (nrows, ncols) = self.lu.shape();
        let count = if nrows <= ncols {
            nrows
        } else {
            ncols
        };
        let zero = T::zero();
        let one = T::one();
        let mut res = self.lu.first_columns(count);
        res.fill_upper_triangle(zero, 1);
        res.fill_diagonal(one);
        assert(self@.is_lower_factor(res@, zero, one));
        res
    }

    /// Gets the upper-triangular matrix part of the decomposition: the factors on and above
    /// the diagonal and zeros below it.
    pub fn u(&self) -> (res: Matrix<T>)
        requires
            self.wf(),
        ensures
            res.wf(),
            res@.rows == self@.pivots.len(),
            res@.cols == self@.factors.cols,
            exists|zero: T|
                crate::scalar::is_zero(zero) && #[trigger] self@.is_upper_factor(res@, zero),
    {
        let (nrows, ncols) = self.lu.shape();
        let count = if nrows <= ncols {
            nrows
        } else {
            ncols
        };
        let zero = T::zero();
        let mut res = self.lu.first_rows(count);
        res.fill_lower_triangle(zero, 1);
        assert(self@.is_upper_factor(res@, zero));
        res
    }

    /// Gets the LAPACK permutation indices.
    pub fn permutation_indices(&self) -> (p: &[i32])
        ensures
            p@ == self@.pivots,
    {
        self.p.as_slice()
    }

    /// Applies the permutation matrix to a given matrix or vector in-place: row `k` of `rhs`
    /// trades places with the row that pivot `k` names, from the last pivot down to the first.
    pub fn permute(&self, rhs: &mut Matrix<T>)
        requires
            self.wf(),
            old(rhs).wf(),
            old(rhs)@.rows == self@.factors.rows,
            old(rhs)@.cols <= i32::MAX,
        ensures
            self@.permutes(old(rhs)@, final(rhs)@),
    {
        let (nrows, ncols) = rhs.shape();
        T::xlaswp(
            ncols as i32,
            rhs.as_mut_slice(),
            nrows as i32,
            1,
            self.p.len() as i32,
            self.p.as_slice(),
            -1,
        );
    }

    /// Gets the row permutation matrix of this decomposition: the identity matrix with its
    /// rows permuted.
    ///
    /// Computing the permutation matrix explicitly is costly and usually not necessary.
    /// To permute rows of a matrix or vector, use the method `self.permute(...)` instead.
    pub fn p(&self) -> (res: Matrix<T>)
        requires
            self.wf(),
            self@.factors.rows * self@.factors.rows <= usize::MAX,
        ensures
            res.wf(),
            res@.rows == self@.factors.rows,
            res@.cols == self@.factors.rows,
            exists|zero: T, one: T|
                crate::scalar::is_zero(zero) && crate::scalar::is_one(one)
                    && #[trigger] self@.is_permutation_matrix(res@, zero, one),
    {
        let dim = self.lu.nrows();
        let zero = T::zero();
        let one = T::one();
        let mut id = Matrix::from_element(dim, dim, zero).unwrap();
        id.fill_diagonal(one);
        let ghost identity = id@;
        self.permute(&mut id);
        proof {
            assert forall|i: int, j: int| identity.in_bounds(i, j) implies #[trigger] identity.entry(
                i,
                j,
            ) == (if i == j {
                one
            } else {
                zero
            }) by {
                crate::matrix::lemma_position_in_range(dim as int, dim as int, i, j);
            }
            lemma_permuted_identity(self@, identity, id@, zero, one);
        }
        id
    }

    /// Whether a system with the right-hand sides `b` can be put to this factorization: the
    /// factorized matrix is square, `b` has as many rows as it, and no more columns than a
    /// 32-bit index can count.
    pub fn accepts(&self, b: &Matrix<T>) -> (ok: bool)
        ensures
            ok == self@.accepts(b@),
    {
        self.lu.is_square() && b.nrows() == self.lu.nrows() && b.ncols() <= i32::MAX as usize
    }

    /// Hands the system to `T::xgetrs` in the mode `trans`: the factors, the pivots, the
    /// right-hand sides in `b` and an `info` of zero. What the routine leaves of the
    /// right-hand sides stays in `b`, and the result says whether it left `info` at zero.
    fn generic_solve_mut(&self, trans: u8, b: &mut Matrix<T>) -> (ok: bool)
        requires
            self.wf(),
            old(b).wf(),
            self@.accepts(old(b)@),
            crate::scalar::is_solve_mode(trans),
        ensures
            final(b).wf(),
            final(b)@.rows == old(b)@.rows,
            final(b)@.cols == old(b)@.cols,
            exists|a: &[T], p: &[i32], x: &mut [T], info: &mut i32|
                #[trigger] xgetrs_took(trans, self@, old(b)@, a, p, x, info) && final(b)@.elements
                    == final(x)@ && ok == (*final(info) == 0),
    {
        let dim = self.lu.nrows();
        let nrhs = b.ncols() as i32;
        let lda = dim as i32;
        let ldb = dim as i32;
        let mut info: i32 = 0;
        let ghost given = b@;
        T::xgetrs(
            trans,
            dim as i32,
            nrhs,
            self.lu.as_slice(),
            lda,
            self.p.as_slice(),
            b.as_mut_slice(),
            ldb,
            &mut info,
        );
        proof {
            let (a, p, x, i) = choose|a: &[T], p: &[i32], x: &mut [T], i: &mut i32|
                a@ == self@.factors.elements && p@ == self@.pivots && x@ == given.elements && *i
                    == 0 && final(x)@ == b@.elements && *final(i) == info && #[trigger] call_ensures(
                    T::xgetrs,
                    (trans, dim as i32, nrhs, a, lda, p, x, ldb, i),
                    (),
                );
            assert(xgetrs_took(trans, self@, given, a, p, x, i));
        }
        info == 0
    }

    /// Solves the linear system `self * x = b`, where `x` is the unknown to be determined.
    ///
    /// A copy of `b` goes to `T::xgetrs` in the mode `N`. Returns what the routine made of
    /// it if the routine left `info` at zero, and `None` if it did not: no solution was
    /// found (the decomposed matrix is singular).
    pub fn solve(&self, b: &Matrix<T>) -> (x: Option<Matrix<T>>)
        requires
            self.wf(),
            b.wf(),
            self@.accepts(b@),
        ensures
            x matches Some(m) ==> m.wf() && m@.rows == b@.rows && m@.cols == b@.cols,
            exists|a: &[T], p: &[i32], y: &mut [T], info: &mut i32|
                #[trigger] xgetrs_took(NO_TRANSPOSE, self@, b@, a, p, y, info) && match x {
                    Some(m) => *final(info) == 0 && m@.elements == final(y)@,
                    None => *final(info) != 0,
                },
    {
        let mut res = b.clone_owned();
        let ok = self.generic_solve_mut(NO_TRANSPOSE, &mut res);
        solution(ok, res)
    }

    /// Solves the linear system `self.transpose() * x = b`, where `x` is the unknown to be
    /// determined.
    ///
    /// A copy of `b` goes to `T::xgetrs` in the mode `T`. Returns what the routine made of
    /// it if the routine left `info` at zero, and `None` if it did not: no solution was
    /// found (the decomposed matrix is singular).
    pub fn solve_transpose(&self, b: &Matrix<T>) -> (x: Option<Matrix<T>>)
        requires
            self.wf(),
            b.wf(),
            self@.accepts(b@),
        ensures
            x matches Some(m) ==> m.wf() && m@.rows == b@.rows && m@.cols == b@.cols,
            exists|a: &[T], p: &[i32], y: &mut [T], info: &mut i32|
                #[trigger] xgetrs_took(TRANSPOSE, self@, b@, a, p, y, info) && match x {
                    Some(m) => *final(info) == 0 && m@.elements == final(y)@,
                    None => *final(info) != 0,
                },
    {
        let mut res = b.clone_owned();
        let ok = self.generic_solve_mut(TRANSPOSE, &mut res);
        solution(ok, res)
    }

    /// Solves the linear system `self.adjoint() * x = b`, where `x` is the unknown to
    /// be determined.
    ///
    /// A copy of `b` goes to `T::xgetrs` in the mode `C`. Returns what the routine made of
    /// it if the routine left `info` at zero, and `None` if it did not: no solution was
    /// found (the decomposed matrix is singular).
    pub fn solve_conjugate_transpose(&self, b: &Matrix<T>) -> (x: Option<Matrix<T>>)
        requires
            self.wf(),
            b.wf(),
            self@.accepts(b@),
        ensures
            x matches Some(m) ==> m.wf() && m@.rows == b@.rows && m@.cols == b@.cols,
            exists|a: &[T], p: &[i32], y: &mut [T], info: &mut i32|
                #[trigger] xgetrs_took(CONJUGATE_TRANSPOSE, self@, b@, a, p, y, info) && match x {
                    Some(m) => *final(info) == 0 && m@.elements == final(y)@,
                    None => *final(info) != 0,
                },
    {
        let mut res = b.clone_owned();
        let ok = self.generic_solve_mut(CONJUGATE_TRANSPOSE, &mut res);
        solution(ok, res)
    }

    /// Solves in-place the linear system `self * x = b`, where `x` is the unknown to be
    /// determined.
    ///
    /// `b` goes to `T::xgetrs` in the mode `N` and holds afterwards what the routine left in
    /// it. Returns whether the routine left `info` at zero: `false` if no solution was found
    /// (the decomposed matrix is singular).
    pub fn solve_mut(&self, b: &mut Matrix<T>) -> (ok: bool)
        requires
            self.wf(),
            old(b).wf(),
            self@.accepts(old(b)@),
        ensures
            final(b).wf(),
            final(b)@.rows == old(b)@.rows,
            final(b)@.cols == old(b)@.cols,
            exists|a: &[T], p: &[i32], x: &mut [T], info: &mut i32|
                #[trigger] xgetrs_took(NO_TRANSPOSE, self@, old(b)@, a, p, x, info) && final(b)@.elements
                    == final(x)@ && ok == (*final(info) == 0),
    {
        self.generic_solve_mut(NO_TRANSPOSE, b)
    }

    /// Solves in-place the linear system `self.transpose() * x = b`, where `x` is the unknown
    /// to be determined.
    ///
    /// `b` goes to `T::xgetrs` in the mode `T` and holds afterwards what the routine left in
    /// it. Returns whether the routine left `info` at zero: `false` if no solution was found
    /// (the decomposed matrix is singular).
    pub fn solve_transpose_mut(&self, b: &mut Matrix<T>) -> (ok: bool)
        requires
            self.wf(),
            old(b).wf(),
            self@.accepts(old(b)@),
        ensures
            final(b).wf(),
            final(b)@.rows == old(b)@.rows,
            final(b)@.cols == old(b)@.cols,
            exists|a: &[T], p: &[i32], x: &mut [T], info: &mut i32|
                #[trigger] xgetrs_took(TRANSPOSE, self@, old(b)@, a, p, x, info) && final(b)@.elements
                    == final(x)@ && ok == (*final(info) == 0),
    {
        self.generic_solve_mut(TRANSPOSE, b)
    }

    /// Solves in-place the linear system `self.adjoint() * x = b`, where `x` is the unknown to
    /// be determined.
    ///
    /// `b` goes to `T::xgetrs` in the mode `C` and holds afterwards what the routine left in
    /// it. Returns whether the routine left `info` at zero: `false` if no solution was found
    /// (the decomposed matrix is singular).
    pub fn solve_adjoint_mut(&self, b: &mut Matrix<T>) -> (ok: bool)
        requires
            self.wf(),
            old(b).wf(),
            self@.accepts(old(b)@),
        ensures
            final(b).wf(),
            final(b)@.rows == old(b)@.rows,
            final(b)@.cols == old(b)@.cols,
            exists|a: &[T], p: &[i32], x: &mut [T], info: &mut i32|
                #[trigger] xgetrs_took(CONJUGATE_TRANSPOSE, self@, old(b)@, a, p, x, info) && final(b)@.elements
                    == final(x)@ && ok == (*final(info) == 0),
    {
        self.generic_solve_mut(CONJUGATE_TRANSPOSE, b)
    }

    /// Computes the inverse of the decomposed matrix.
    ///
    /// `T::xgetri_work_size` is asked first how much scratch space the inversion needs. If
    /// the query fails (see `workspace_outcome`), so does the inversion, with the error of
    /// the query. Else `T::xgetri` gets the factors as the query left them, the pivots and a
    /// scratch buffer of the length that the query answered. Returns what the routine made of
    /// the factors if it left `info` at zero, and `Ok(None)` if it did not (the decomposed
    /// matrix is singular).
    pub fn inverse(self) -> (res: Result<Option<Matrix<T>>, LuError>)
        requires
            self.wf(),
            self@.is_square(),
        ensures
            res matches Ok(Some(m)) ==> m.wf() && m@.rows == self@.factors.rows && m@.cols
                == self@.factors.cols,
            exists|a: &mut [T], p: &[i32], info: &mut i32, lwork: i32|
                #[trigger] xgetri_work_size_took(self@, a, p, info, lwork) && match workspace_outcome(
                    self@.dim(),
                    lwork,
                    *final(info),
                ) {
                    Err(e) => res == Err::<Option<Matrix<T>>, LuError>(e),
                    Ok(_) => exists|a2: &mut [T], p2: &[i32], work: &mut [T], info2: &mut i32|
                        #[trigger] xgetri_took(self@, final(a)@, lwork, a2, p2, work, info2)
                            && match res {
                            Ok(Some(m)) => *final(info2) == 0 && m@.elements == final(a2)@,
                            Ok(None) => *final(info2) != 0,
                            Err(_) => false,
                        },
                },
    {
        let ghost f = self@;
        let mut lu = self.lu;
        let p = self.p;
        let dim = lu.nrows() as i32;
        let mut info: i32 = 0;
        let lwork = T::xgetri_work_size(dim, lu.as_mut_slice(), dim, p.as_slice(), &mut info);
        let ghost queried = lu@.elements;
        let ghost reported = info;
        proof {
            let (a, q, i) = choose|a: &mut [T], q: &[i32], i: &mut i32|
                a@ == f.factors.elements && q@ == f.pivots && *i == 0 && final(a)@ == queried
                    && *final(i) == reported && #[trigger] call_ensures(
                    T::xgetri_work_size,
                    (dim, a, dim, q, i),
                    lwork,
                );
            assert(xgetri_work_size_took(f, a, q, i, lwork));
        }
        match workspace_len(dim, lwork, info) {
            Err(e) => Err(e),
            Ok(len) => {
                let mut work: Vec<T> = vec![T::zero(); len];
                T::xgetri(
                    dim,
                    lu.as_mut_slice(),
                    dim,
                    p.as_slice(),
                    work.as_mut_slice(),
                    lwork,
                    &mut info,
                );
                proof {
                    let (a, q, w, i) = choose|a: &mut [T], q: &[i32], w: &mut [T], i: &mut i32|
                        a@ == queried && q@ == f.pivots && w@.len() == lwork && *i == 0
                            && final(a)@ == lu@.elements && *final(i) == info
                            && #[trigger] call_ensures(
                            T::xgetri,
                            (dim, a, dim, q, w, lwork, i),
                            (),
                        );
                    assert(xgetri_took(f, queried, lwork, a, q, w, i));
                }
                Ok(solution(info == 0, lu))
            },
        }
    }
}

/// The mode of `xgetrs` that solves the system as it is.
pub const NO_TRANSPOSE: u8 = 78;

/// The mode of `xgetrs` that solves the transposed system.
pub const TRANSPOSE: u8 = 84;

/// The mode of `xgetrs` that solves the conjugate-transposed system.
pub const CONJUGATE_TRANSPOSE: u8 = 67;

/// What a solve or an inversion returns once its routine has reported: the matrix that the
/// routine wrote if it succeeded, and nothing if it did not.
pub fn solution<T>(succeeded: bool, m: Matrix<T>) -> (res: Option<Matrix<T>>)
    ensures
        res == (if succeeded {
            Some(m)
        } else {
            None
        }),
{
    if succeeded {
        Some(m)
    } else {
        None
    }
}

/// The length of the scratch space for inverting a matrix of dimension `n`, from what the
/// workspace query answered (`lwork`) and reported (`info`): the query must have succeeded,
/// and its answer must be a length that the inversion accepts, at least `n` and at least one.
pub fn workspace_len(n: i32, lwork: i32, info: i32) -> (res: Result<usize, LuError>)
    ensures
        res == workspace_outcome(n, lwork, info),
{
    if info != 0 {
        Err(LuError::WorkspaceQuery { info })
    } else if lwork < 1 || lwork < n {
        Err(LuError::WorkspaceSize { lwork })
    } else {
        Ok(lwork as usize)
    }
}

} // verus!
