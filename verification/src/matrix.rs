//! Dense matrices stored column after column.

use vstd::prelude::*;

verus! {

/// What a matrix is: its shape, and its entries listed column after column.
pub struct MatrixView<T> {
    pub rows: nat,
    pub cols: nat,
    pub elements: Seq<T>,
}

impl<T> MatrixView<T> {
    /// There is one element for each position.
    pub open spec fn wf(self) -> bool {
        self.elements.len() == self.rows * self.cols
    }

    /// `(i, j)` is a position of the matrix.
    pub open spec fn in_bounds(self, i: int, j: int) -> bool {
        0 <= i < self.rows && 0 <= j < self.cols
    }

    /// The entry in row `i` and column `j`, both counted from zero.
    pub open spec fn entry(self, i: int, j: int) -> T {
        self.elements[i + j * self.rows]
    }

    /// The matrix holds `one` on its diagonal and `zero` everywhere else.
    pub open spec fn is_identity(self, zero: T, one: T) -> bool {
        &&& self.wf()
        &&& forall|i: int, j: int|
            self.in_bounds(i, j) ==> #[trigger] self.entry(i, j) == (if i == j {
                one
            } else {
                zero
            })
    }
}

/// The `rows` by `cols` matrix whose columns are laid out one after another in `elements`.
pub open spec fn laid_out<T>(elements: Seq<T>, rows: int, cols: int) -> MatrixView<T> {
    MatrixView { rows: rows as nat, cols: cols as nat, elements }
}

/// The place of position `(i, j)` in the element sequence lies inside it.
pub proof fn lemma_position_in_range(rows: int, cols: int, i: int, j: int)
    by (nonlinear_arith)
    requires
        0 <= i < rows,
        0 <= j < cols,
    ensures
        0 <= j * rows,
        0 <= i + j * rows < rows * cols,
        (j + 1) * rows <= rows * cols,
{
}

/// Two positions that share a place in the element sequence are one position.
pub proof fn lemma_position_unique(rows: int, i1: int, j1: int, i2: int, j2: int)
    requires
        0 <= i1 < rows,
        0 <= i2 < rows,
        i1 + j1 * rows == i2 + j2 * rows,
    ensures
        i1 == i2,
        j1 == j2,
{
    let x = i1 + j1 * rows;
    vstd::arithmetic::div_mod::lemma_fundamental_div_mod_converse(x, rows, j1, i1);
    vstd::arithmetic::div_mod::lemma_fundamental_div_mod_converse(x, rows, j2, i2);
}

/// Every place below `rows * cols` belongs to a position.
pub proof fn lemma_place_has_position(rows: int, cols: int, k: int)
    requires
        0 <= rows,
        0 <= cols,
        0 <= k < rows * cols,
    ensures
        0 <= k % rows < rows,
        0 <= k / rows < cols,
        k == k % rows + (k / rows) * rows,
{
    assert(rows > 0 && cols > 0) by (nonlinear_arith)
        requires
            0 <= rows,
            0 <= cols,
            0 <= k < rows * cols,
    ;
    vstd::arithmetic::div_mod::lemma_fundamental_div_mod(k, rows);
    vstd::arithmetic::div_mod::lemma_mod_pos_bound(k, rows);
    vstd::arithmetic::div_mod::lemma_div_pos_is_pos(k, rows);
    let q = k / rows;
    let r = k % rows;
    assert(rows * q == q * rows) by (nonlinear_arith);
    assert(q < cols) by (nonlinear_arith)
        requires
            0 <= r,
            rows > 0,
            q * rows + r < rows * cols,
    ;
}

/// Matrices of one shape with the same entry at every position are equal.
pub proof fn lemma_equal_by_entries<T>(a: MatrixView<T>, b: MatrixView<T>)
    requires
        a.wf(),
        b.wf(),
        a.rows == b.rows,
        a.cols == b.cols,
        forall|i: int, j: int| a.in_bounds(i, j) ==> #[trigger] a.entry(i, j) == b.entry(i, j),
    ensures
        a == b,
{
    assert forall|k: int| 0 <= k < a.elements.len() implies a.elements[k] == b.elements[k] by {
        lemma_place_has_position(a.rows as int, a.cols as int, k);
        let i = k % (a.rows as int);
        let j = k / (a.rows as int);
        assert(a.entry(i, j) == b.entry(i, j));
    }
    assert(a.elements =~= b.elements);
}

/// Position `(i, j)` lies `shift` or more places below the diagonal (`lower`) or above it.
spec fn in_triangle(i: int, j: int, shift: int, lower: bool) -> bool {
    if lower {
        i - j >= shift
    } else {
        j - i >= shift
    }
}

/// A dense matrix that owns its entries, in column-major order.
#[derive(Clone, Debug)]
pub struct Matrix<T> {
    nrows: usize,
    ncols: usize,
    data: Vec<T>,
}

impl<T> View for Matrix<T> {
    type V = MatrixView<T>;

    closed spec fn view(&self) -> MatrixView<T> {
        MatrixView { rows: self.nrows as nat, cols: self.ncols as nat, elements: self.data@ }
    }
}

impl<T> Matrix<T> {
    /// The invariant of every matrix that this module hands out.
    pub open spec fn wf(&self) -> bool {
        self@.wf()
    }

    /// Builds the `nrows` by `ncols` matrix whose columns are laid out one after another in
    /// `data`; `None` when `data` does not hold exactly `nrows * ncols` elements.
    pub fn from_vec(nrows: usize, ncols: usize, data: Vec<T>) -> (res: Option<Matrix<T>>)
        ensures
            res is Some <==> data@.len() == nrows * ncols,
            res matches Some(m) ==> m@ == (MatrixView {
                rows: nrows as nat,
                cols: ncols as nat,
                elements: data@,
            }),
    {
        let given = data.len();
        match nrows.checked_mul(ncols) {
            Some(len) => {
                if len == given {
                    Some(Matrix { nrows, ncols, data })
                } else {
                    None
                }
            },
            None => None,
        }
    }

    /// The number of rows.
    pub fn nrows(&self) -> (n: usize)
        ensures
            n == self@.rows,
    {
        self.nrows
    }

    /// The number of columns.
    pub fn ncols(&self) -> (n: usize)
        ensures
            n == self@.cols,
    {
        self.ncols
    }

    /// The number of rows and the number of columns.
    pub fn shape(&self) -> (s: (usize, usize))
        ensures
            s.0 == self@.rows,
            s.1 == self@.cols,
    {
        (self.nrows, self.ncols)
    }

    /// Whether there are as many rows as columns.
    pub fn is_square(&self) -> (b: bool)
        ensures
            b == (self@.rows == self@.cols),
    {
        self.nrows == self.ncols
    }

    /// The number of entries.
    pub fn len(&self) -> (n: usize)
        ensures
            n == self@.elements.len(),
    {
        self.data.len()
    }

    /// The entries, column after column.
    pub fn as_slice(&self) -> (s: &[T])
        ensures
            s@ == self@.elements,
    {
        self.data.as_slice()
    }

    /// The entries, column after column, for writing in place.
    pub fn as_mut_slice(&mut self) -> (s: &mut [T])
        ensures
            s@ == old(self)@.elements,
            final(self)@ == (MatrixView {
                rows: old(self)@.rows,
                cols: old(self)@.cols,
                elements: final(s)@,
            }),
    {
        self.data.as_mut_slice()
    }

    /// The entry in row `i` and column `j`, or `None` outside the matrix.
    pub fn get(&self, i: usize, j: usize) -> (e: Option<&T>)
        requires
            self.wf(),
        ensures
            e is Some <==> self@.in_bounds(i as int, j as int),
            e matches Some(x) ==> *x == self@.entry(i as int, j as int),
    {
        if i < self.nrows && j < self.ncols {
            proof {
                lemma_position_in_range(self.nrows as int, self.ncols as int, i as int, j as int);
                assert(self.data.len() == self.data@.len());
            }
            Some(&self.data[i + j * self.nrows])
        } else {
            None
        }
    }
}

impl<T: Copy> Matrix<T> {
    /// The `nrows` by `ncols` matrix with `val` at every position; `None` when it would hold
    /// more than `usize::MAX` entries.
    pub fn from_element(nrows: usize, ncols: usize, val: T) -> (res: Option<Matrix<T>>)
        ensures
            res is Some <==> nrows * ncols <= usize::MAX,
            res matches Some(m) ==> m@ == (MatrixView {
                rows: nrows as nat,
                cols: ncols as nat,
                elements: Seq::new((nrows * ncols) as nat, |k: int| val),
            }),
    {
        match nrows.checked_mul(ncols) {
            Some(len) => {
                let mut data: Vec<T> = Vec::with_capacity(len);
                let mut k: usize = 0;
                while k < len
                    invariant
                        k <= len,
                        data@ == Seq::new(k as nat, |k: int| val),
                    decreases len - k,
                {
                    data.push(val);
                    k += 1;
                }
                Some(Matrix { nrows, ncols, data })
            },
            None => None,
        }
    }

    /// A copy of the matrix.
    pub fn clone_owned(&self) -> (res: Matrix<T>)
        ensures
            res@ == self@,
    {
        let len = self.data.len();
        let mut data: Vec<T> = Vec::with_capacity(len);
        let mut k: usize = 0;
        while k < len
            invariant
                k <= len,
                len == self.data@.len(),
                data@ == self.data@.subrange(0, k as int),
            decreases len - k,
        {
            data.push(self.data[k]);
            k += 1;
        }
        assert(data@ =~= self.data@);
        Matrix { nrows: self.nrows, ncols: self.ncols, data }
    }

    /// Writes `val` at every position of the diagonal.
    pub fn fill_diagonal(&mut self, val: T)
        requires
            old(self).wf(),
        ensures
            final(self).wf(),
            final(self)@.rows == old(self)@.rows,
            final(self)@.cols == old(self)@.cols,
            forall|i: int, j: int|
                old(self)@.in_bounds(i, j) ==> #[trigger] final(self)@.entry(i, j) == (if i == j {
                    val
                } else {
                    old(self)@.entry(i, j)
                }),
    {
        let n = if self.nrows <= self.ncols {
            self.nrows
        } else {
            self.ncols
        };
        let ghost before = self@;
        let mut d: usize = 0;
        while d < n
            invariant
                d <= n,
                n <= self.nrows,
                n <= self.ncols,
                self.wf(),
                self@.rows == before.rows,
                self@.cols == before.cols,
                forall|i: int, j: int|
                    before.in_bounds(i, j) ==> #[trigger] self@.entry(i, j) == (if i == j && i < d {
                        val
                    } else {
                        before.entry(i, j)
                    }),
            decreases n - d,
        {
            let ghost prev = self@;
            proof {
                lemma_position_in_range(self.nrows as int, self.ncols as int, d as int, d as int);
                assert(self.data.len() == self.data@.len());
            }
            self.data[d + d * self.nrows] = val;
            proof {
                assert forall|i: int, j: int| before.in_bounds(i, j) implies #[trigger] self@.entry(
                    i,
                    j,
                ) == (if i == j && i < d + 1 {
                    val
                } else {
                    before.entry(i, j)
                }) by {
                    lemma_position_in_range(self.nrows as int, self.ncols as int, i, j);
                    if i + j * self.nrows == d + d * self.nrows {
                        lemma_position_unique(self.nrows as int, i, j, d as int, d as int);
                    } else {
                        assert(self@.entry(i, j) == prev.entry(i, j));
                    }
                }
            }
            d += 1;
        }
    }

    /// Writes `val` at every position that lies `shift` or more places below the diagonal
    /// (`lower`) or above it (`!lower`).
    fn fill_triangle(&mut self, val: T, shift: usize, lower: bool)
        requires
            old(self).wf(),
        ensures
            final(self).wf(),
            final(self)@.rows == old(self)@.rows,
            final(self)@.cols == old(self)@.cols,
            forall|i: int, j: int|
                old(self)@.in_bounds(i, j) ==> #[trigger] final(self)@.entry(i, j) == (if in_triangle(
                    i,
                    j,
                    shift as int,
                    lower,
                ) {
                    val
                } else {
                    old(self)@.entry(i, j)
                }),
    {
        let ghost before = self@;
        let nrows = self.nrows;
        let ncols = self.ncols;
        let mut j: usize = 0;
        while j < ncols
            invariant
                j <= ncols,
                nrows == self.nrows,
                ncols == self.ncols,
                self.wf(),
                self@.rows == before.rows,
                self@.cols == before.cols,
                forall|r: int, c: int|
                    before.in_bounds(r, c) ==> #[trigger] self@.entry(r, c) == (if c < j
                        && in_triangle(r, c, shift as int, lower) {
                        val
                    } else {
                        before.entry(r, c)
                    }),
            decreases ncols - j,
        {
            let mut i: usize = 0;
            while i < nrows
                invariant
                    i <= nrows,
                    j < ncols,
                    nrows == self.nrows,
                    ncols == self.ncols,
                    self.wf(),
                    self@.rows == before.rows,
                    self@.cols == before.cols,
                    forall|r: int, c: int|
                        before.in_bounds(r, c) ==> #[trigger] self@.entry(r, c) == (if (c < j || (c
                            == j && r < i)) && in_triangle(r, c, shift as int, lower) {
                            val
                        } else {
                            before.entry(r, c)
                        }),
                decreases nrows - i,
            {
                let inside = if lower {
                    i >= j && i - j >= shift
                } else {
                    j >= i && j - i >= shift
                };
                if inside {
                    let ghost prev = self@;
                    proof {
                        lemma_position_in_range(nrows as int, ncols as int, i as int, j as int);
                        assert(self.data.len() == self.data@.len());
                    }
                    self.data[i + j * nrows] = val;
                    proof {
                        assert forall|r: int, c: int| before.in_bounds(r, c) implies #[trigger] self@.entry(
                            r,
                            c,
                        ) == (if (c < j || (c == j && r < i + 1)) && in_triangle(
                            r,
                            c,
                            shift as int,
                            lower,
                        ) {
                            val
                        } else {
                            before.entry(r, c)
                        }) by {
                            lemma_position_in_range(nrows as int, ncols as int, r, c);
                            if r + c * nrows == i + j * nrows {
                                lemma_position_unique(nrows as int, r, c, i as int, j as int);
                            } else {
                                assert(self@.entry(r, c) == prev.entry(r, c));
                            }
                        }
                    }
                }
                i += 1;
            }
            j += 1;
        }
    }

    /// Writes `val` at every position `(i, j)` with `j >= i + shift`: on and above the
    /// diagonal for `shift == 0`, strictly above it for `shift == 1`.
    pub fn fill_upper_triangle(&mut self, val: T, shift: usize)
        requires
            old(self).wf(),
        ensures
            final(self).wf(),
            final(self)@.rows == old(self)@.rows,
            final(self)@.cols == old(self)@.cols,
            forall|i: int, j: int|
                old(self)@.in_bounds(i, j) ==> #[trigger] final(self)@.entry(i, j) == (if j >= i
                    + shift {
                    val
                } else {
                    old(self)@.entry(i, j)
                }),
    {
        self.fill_triangle(val, shift, false);
    }

    /// Writes `val` at every position `(i, j)` with `i >= j + shift`: on and below the
    /// diagonal for `shift == 0`, strictly below it for `shift == 1`.
    pub fn fill_lower_triangle(&mut self, val: T, shift: usize)
        requires
            old(self).wf(),
        ensures
            final(self).wf(),
            final(self)@.rows == old(self)@.rows,
            final(self)@.cols == old(self)@.cols,
            forall|i: int, j: int|
                old(self)@.in_bounds(i, j) ==> #[trigger] final(self)@.entry(i, j) == (if i >= j
                    + shift {
                    val
                } else {
                    old(self)@.entry(i, j)
                }),
    {
        self.fill_triangle(val, shift, true);
    }

    /// A copy of the first `count` columns.
    pub fn first_columns(&self, count: usize) -> (res: Matrix<T>)
        requires
            self.wf(),
            count <= self@.cols,
        ensures
            res.wf(),
            res@.rows == self@.rows,
            res@.cols == count,
            forall|i: int, j: int| res@.in_bounds(i, j) ==> #[trigger] res@.entry(i, j) == self@.entry(i, j),
    {
        proof {
            assert(self.data.len() == self.data@.len());
            assert(self.nrows * count <= self.nrows * self.ncols) by (nonlinear_arith)
                requires
                    count <= self.ncols,
            ;
        }
        let len = self.nrows * count;
        let mut data: Vec<T> = Vec::with_capacity(len);
        let mut k: usize = 0;
        while k < len
            invariant
                k <= len,
                len <= self.data@.len(),
                data@ == self.data@.subrange(0, k as int),
            decreases len - k,
        {
            data.push(self.data[k]);
            k += 1;
        }
        let res = Matrix { nrows: self.nrows, ncols: count, data };
        proof {
            assert forall|i: int, j: int| res@.in_bounds(i, j) implies #[trigger] res@.entry(i, j)
                == self@.entry(i, j) by {
                lemma_position_in_range(self.nrows as int, count as int, i, j);
            }
        }
        res
    }

    /// A copy of the first `count` rows.
    pub fn first_rows(&self, count: usize) -> (res: Matrix<T>)
        requires
            self.wf(),
            count <= self@.rows,
        ensures
            res.wf(),
            res@.rows == count,
            res@.cols == self@.cols,
            forall|i: int, j: int| res@.in_bounds(i, j) ==> #[trigger] res@.entry(i, j) == self@.entry(i, j),
    {
        let nrows = self.nrows;
        let ncols = self.ncols;
        proof {
            assert(self.data.len() == self.data@.len());
            assert(count * ncols <= nrows * ncols) by (nonlinear_arith)
                requires
                    count <= nrows,
            ;
        }
        let mut data: Vec<T> = Vec::with_capacity(count * ncols);
        let mut j: usize = 0;
        while j < ncols
            invariant
                j <= ncols,
                count <= nrows,
                nrows == self.nrows,
                ncols == self.ncols,
                self.wf(),
                data@.len() == count * j,
                forall|r: int, c: int|
                    0 <= r < count && 0 <= c < j ==> data@[r + c * count] == #[trigger] self@.entry(
                        r,
                        c,
                    ),
            decreases ncols - j,
        {
            let mut i: usize = 0;
            while i < count
                invariant
                    i <= count,
                    j < ncols,
                    count <= nrows,
                    nrows == self.nrows,
                    ncols == self.ncols,
                    self.wf(),
                    data@.len() == count * j + i,
                    forall|r: int, c: int|
                        0 <= r < count && (0 <= c < j || (c == j && r < i)) ==> data@[r + c
                            * count] == #[trigger] self@.entry(r, c),
                decreases count - i,
            {
                proof {
                    lemma_position_in_range(nrows as int, ncols as int, i as int, j as int);
                    assert(self.data.len() == self.data@.len());
                    assert(count * j == j * count) by (nonlinear_arith);
                }
                data.push(self.data[i + j * nrows]);
                proof {
                    assert forall|r: int, c: int|
                        0 <= r < count && (0 <= c < j || (c == j && r < i + 1)) implies data@[r + c
                        * count] == #[trigger] self@.entry(r, c) by {
                        if c == j && r == i {
                        } else {
                            lemma_position_in_range(count as int, j as int + 1, r, c);
                            assert(r + c * count < i + j * count) by {
                                if c < j {
                                    lemma_position_in_range(count as int, j as int, r, c);
                                    assert(count * j == j * count) by (nonlinear_arith);
                                }
                            }
                        }
                    }
                }
                i += 1;
            }
            proof {
                assert(count * (j + 1) == count * j + count) by (nonlinear_arith);
            }
            j += 1;
        }
        Matrix { nrows: count, ncols, data }
    }
}

} // verus!
