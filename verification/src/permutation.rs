//! Row interchanges driven by a sequence of pivot indices.

use crate::matrix::MatrixView;
use vstd::prelude::*;

verus! {

/// Where index `i` goes when `a` and `b` trade places.
pub open spec fn swap_index(i: int, a: int, b: int) -> int {
    if i == a {
        b
    } else if i == b {
        a
    } else {
        i
    }
}

/// The pivots numbered `k1` to `k2` exist, and each of these numbers and each of these pivots
/// names a row of a matrix of `rows` rows (all counted from one).
pub open spec fn pivots_in_range(ipiv: Seq<i32>, k1: int, k2: int, rows: int) -> bool {
    &&& 1 <= k1
    &&& k2 <= ipiv.len()
    &&& k2 <= rows
    &&& forall|k: int| k1 - 1 <= k < k2 ==> 1 <= #[trigger] ipiv[k] <= rows
}

/// Each pivot names the row of its own number or a later one (all counted from one), as
/// partial pivoting chooses them: step `k` of an elimination looks for its pivot in row `k`
/// and below.
pub open spec fn pivots_look_down(ipiv: Seq<i32>) -> bool {
    forall|k: int| 0 <= k < ipiv.len() ==> k < #[trigger] ipiv[k]
}

/// The row, as the rows stood at first, that is found in row `i` (counted from zero) once row
/// `k` has traded places with row `ipiv[k]`, for each `k` from `k1` to `k2` in turn; with
/// `reverse`, for each `k` from `k2` down to `k1`.
pub open spec fn source_row(ipiv: Seq<i32>, k1: int, k2: int, reverse: bool, i: int) -> int
    decreases k2 - k1 + 1,
{
    if k2 < k1 {
        i
    } else if reverse {
        source_row(ipiv, k1 + 1, k2, reverse, swap_index(i, k1 - 1, ipiv[k1 - 1] - 1))
    } else {
        source_row(ipiv, k1, k2 - 1, reverse, swap_index(i, k2 - 1, ipiv[k2 - 1] - 1))
    }
}

/// `after` is `before` with its rows interchanged as `source_row` says.
pub open spec fn is_row_interchange<T>(
    before: MatrixView<T>,
    after: MatrixView<T>,
    ipiv: Seq<i32>,
    k1: int,
    k2: int,
    reverse: bool,
) -> bool {
    &&& after.rows == before.rows
    &&& after.cols == before.cols
    &&& after.wf()
    &&& forall|i: int, j: int|
        before.in_bounds(i, j) ==> #[trigger] after.entry(i, j) == before.entry(
            source_row(ipiv, k1, k2, reverse, i),
            j,
        )
}

/// An interchange moves rows about inside the matrix.
pub proof fn lemma_source_row_in_range(
    ipiv: Seq<i32>,
    k1: int,
    k2: int,
    reverse: bool,
    rows: int,
    i: int,
)
    requires
        pivots_in_range(ipiv, k1, k2, rows),
        0 <= i < rows,
    ensures
        0 <= source_row(ipiv, k1, k2, reverse, i) < rows,
    decreases k2 - k1 + 1,
{
    if k2 < k1 {
    } else if reverse {
        lemma_source_row_in_range(
            ipiv,
            k1 + 1,
            k2,
            reverse,
            rows,
            swap_index(i, k1 - 1, ipiv[k1 - 1] - 1),
        );
    } else {
        lemma_source_row_in_range(
            ipiv,
            k1,
            k2 - 1,
            reverse,
            rows,
            swap_index(i, k2 - 1, ipiv[k2 - 1] - 1),
        );
    }
}

/// Going forward, the interchange that is made first can be read off last.
pub proof fn lemma_forward_first_step(ipiv: Seq<i32>, k1: int, k2: int, i: int)
    requires
        k1 <= k2,
    ensures
        source_row(ipiv, k1, k2, false, i) == swap_index(
            source_row(ipiv, k1 + 1, k2, false, i),
            k1 - 1,
            ipiv[k1 - 1] - 1,
        ),
    decreases k2 - k1,
{
    if k1 < k2 {
        lemma_forward_first_step(ipiv, k1, k2 - 1, swap_index(i, k2 - 1, ipiv[k2 - 1] - 1));
    } else {
        assert(source_row(ipiv, k1, k1 - 1, false, swap_index(i, k1 - 1, ipiv[k1 - 1] - 1))
            == swap_index(i, k1 - 1, ipiv[k1 - 1] - 1));
    }
}

/// Going backward, the interchange that is made first can be read off last.
pub proof fn lemma_backward_first_step(ipiv: Seq<i32>, k1: int, k2: int, i: int)
    requires
        k1 <= k2,
    ensures
        source_row(ipiv, k1, k2, true, i) == swap_index(
            source_row(ipiv, k1, k2 - 1, true, i),
            k2 - 1,
            ipiv[k2 - 1] - 1,
        ),
    decreases k2 - k1,
{
    if k1 < k2 {
        lemma_backward_first_step(ipiv, k1 + 1, k2, swap_index(i, k1 - 1, ipiv[k1 - 1] - 1));
    } else {
        assert(source_row(ipiv, k1 + 1, k1, true, swap_index(i, k1 - 1, ipiv[k1 - 1] - 1))
            == swap_index(i, k1 - 1, ipiv[k1 - 1] - 1));
    }
}

/// The same pivots taken in the two orders undo each other: rows interchanged backward and
/// then forward, or forward and then backward, are back where they were.
pub proof fn lemma_orders_are_inverse(ipiv: Seq<i32>, k1: int, k2: int, i: int)
    ensures
        source_row(ipiv, k1, k2, false, source_row(ipiv, k1, k2, true, i)) == i,
        source_row(ipiv, k1, k2, true, source_row(ipiv, k1, k2, false, i)) == i,
    decreases k2 - k1 + 1,
{
    if k2 < k1 {
    } else {
        let first = swap_index(i, k1 - 1, ipiv[k1 - 1] - 1);
        lemma_forward_first_step(ipiv, k1, k2, source_row(ipiv, k1, k2, true, i));
        lemma_orders_are_inverse(ipiv, k1 + 1, k2, first);
        let last = swap_index(i, k2 - 1, ipiv[k2 - 1] - 1);
        lemma_backward_first_step(ipiv, k1, k2, source_row(ipiv, k1, k2, false, i));
        lemma_orders_are_inverse(ipiv, k1, k2 - 1, last);
    }
}

/// An interchange reaches every row: row `j`, as the rows stood at first, is found in the row
/// that the same pivots taken in the other order send `j` from.
pub proof fn lemma_source_row_onto(
    ipiv: Seq<i32>,
    k1: int,
    k2: int,
    reverse: bool,
    rows: int,
    j: int,
)
    requires
        pivots_in_range(ipiv, k1, k2, rows),
        0 <= j < rows,
    ensures
        0 <= source_row(ipiv, k1, k2, !reverse, j) < rows,
        source_row(ipiv, k1, k2, reverse, source_row(ipiv, k1, k2, !reverse, j)) == j,
{
    lemma_source_row_in_range(ipiv, k1, k2, !reverse, rows, j);
    lemma_orders_are_inverse(ipiv, k1, k2, j);
}

/// An interchange is one-to-one: two rows of the result never come from one row.
pub proof fn lemma_source_row_injective(
    ipiv: Seq<i32>,
    k1: int,
    k2: int,
    reverse: bool,
    i1: int,
    i2: int,
)
    requires
        source_row(ipiv, k1, k2, reverse, i1) == source_row(ipiv, k1, k2, reverse, i2),
    ensures
        i1 == i2,
{
    lemma_orders_are_inverse(ipiv, k1, k2, i1);
    lemma_orders_are_inverse(ipiv, k1, k2, i2);
}

/// Trades rows `r1` and `r2` (counted from zero) of the `rows` by `cols` matrix whose columns
/// are laid out one after another in `a`.
pub fn swap_rows<T: Copy>(a: &mut [T], rows: usize, cols: usize, r1: usize, r2: usize)
    requires
        old(a)@.len() == rows * cols,
        r1 < rows,
        r2 < rows,
    ensures
        final(a)@.len() == old(a)@.len(),
        forall|i: int, j: int|
            0 <= i < rows && 0 <= j < cols ==> #[trigger] crate::matrix::laid_out(
                final(a)@,
                rows as int,
                cols as int,
            ).entry(i, j) == crate::matrix::laid_out(old(a)@, rows as int, cols as int).entry(
                swap_index(i, r1 as int, r2 as int),
                j,
            ),
{
    let ghost before = crate::matrix::laid_out(a@, rows as int, cols as int);
    if r1 == r2 {
        return ;
    }
    let mut j: usize = 0;
    while j < cols
        invariant
            j <= cols,
            r1 < rows,
            r2 < rows,
            r1 != r2,
            a@.len() == rows * cols,
            before.rows == rows,
            before.cols == cols,
            before.elements.len() == rows * cols,
            forall|r: int, c: int|
                0 <= r < rows && 0 <= c < cols ==> #[trigger] crate::matrix::laid_out(
                    a@,
                    rows as int,
                    cols as int,
                ).entry(r, c) == (if c < j {
                    before.entry(swap_index(r, r1 as int, r2 as int), c)
                } else {
                    before.entry(r, c)
                }),
        decreases cols - j,
    {
        let ghost prev = crate::matrix::laid_out(a@, rows as int, cols as int);
        proof {
            crate::matrix::lemma_position_in_range(rows as int, cols as int, r1 as int, j as int);
            crate::matrix::lemma_position_in_range(rows as int, cols as int, r2 as int, j as int);
            assert(a.len() == a@.len());
        }
        let x = a[r1 + j * rows];
        let y = a[r2 + j * rows];
        a[r1 + j * rows] = y;
        a[r2 + j * rows] = x;
        proof {
            let now = crate::matrix::laid_out(a@, rows as int, cols as int);
            assert(x == prev.entry(r1 as int, j as int));
            assert(y == prev.entry(r2 as int, j as int));
            assert forall|r: int, c: int| 0 <= r < rows && 0 <= c < cols implies #[trigger] now.entry(
                r,
                c,
            ) == (if c < j + 1 {
                before.entry(swap_index(r, r1 as int, r2 as int), c)
            } else {
                before.entry(r, c)
            }) by {
                crate::matrix::lemma_position_in_range(rows as int, cols as int, r, c);
                if r + c * rows == r1 + j * rows {
                    crate::matrix::lemma_position_unique(rows as int, r, c, r1 as int, j as int);
                } else if r + c * rows == r2 + j * rows {
                    crate::matrix::lemma_position_unique(rows as int, r, c, r2 as int, j as int);
                } else {
                    assert(now.entry(r, c) == prev.entry(r, c));
                }
            }
        }
        j += 1;
    }
}

/// Interchanges rows of the `rows` by `cols` matrix whose columns are laid out one after
/// another in `a`: row `k` trades places with row `ipiv[k]` (both counted from one), for each
/// `k` from `k1` to `k2` in turn, or, with `reverse`, for each `k` from `k2` down to `k1`.
pub fn interchange_rows<T: Copy>(
    a: &mut [T],
    rows: usize,
    cols: usize,
    ipiv: &[i32],
    k1: i32,
    k2: i32,
    reverse: bool,
)
    requires
        old(a)@.len() == rows * cols,
        pivots_in_range(ipiv@, k1 as int, k2 as int, rows as int),
    ensures
        is_row_interchange(
            crate::matrix::laid_out(old(a)@, rows as int, cols as int),
            crate::matrix::laid_out(final(a)@, rows as int, cols as int),
            ipiv@,
            k1 as int,
            k2 as int,
            reverse,
        ),
{
    let ghost before = crate::matrix::laid_out(a@, rows as int, cols as int);
    if k2 < k1 {
        return ;
    }
    let first = (k1 - 1) as usize;
    let end = k2 as usize;
    if reverse {
        let mut k = end;
        while k > first
            invariant
                first <= k <= end,
                first == k1 - 1,
                end == k2,
                a@.len() == rows * cols,
                before.rows == rows,
                before.cols == cols,
                pivots_in_range(ipiv@, k1 as int, k2 as int, rows as int),
                is_row_interchange(
                    before,
                    crate::matrix::laid_out(a@, rows as int, cols as int),
                    ipiv@,
                    k + 1,
                    k2 as int,
                    true,
                ),
            decreases k,
        {
            k -= 1;
            let ghost prev = crate::matrix::laid_out(a@, rows as int, cols as int);
            let pivot = ipiv[k];
            swap_rows(a, rows, cols, k, (pivot - 1) as usize);
            proof {
                let now = crate::matrix::laid_out(a@, rows as int, cols as int);
                assert forall|i: int, j: int| before.in_bounds(i, j) implies #[trigger] now.entry(i, j)
                    == before.entry(source_row(ipiv@, k + 1, k2 as int, true, i), j) by {
                    assert(prev.in_bounds(swap_index(i, k as int, pivot - 1), j));
                }
            }
        }
    } else {
        let mut k = first;
        while k < end
            invariant
                first <= k <= end,
                first == k1 - 1,
                end == k2,
                a@.len() == rows * cols,
                before.rows == rows,
                before.cols == cols,
                pivots_in_range(ipiv@, k1 as int, k2 as int, rows as int),
                is_row_interchange(
                    before,
                    crate::matrix::laid_out(a@, rows as int, cols as int),
                    ipiv@,
                    k1 as int,
                    k as int,
                    false,
                ),
            decreases end - k,
        {
            let ghost prev = crate::matrix::laid_out(a@, rows as int, cols as int);
            let pivot = ipiv[k];
            swap_rows(a, rows, cols, k, (pivot - 1) as usize);
            proof {
                let now = crate::matrix::laid_out(a@, rows as int, cols as int);
                assert forall|i: int, j: int| before.in_bounds(i, j) implies #[trigger] now.entry(i, j)
                    == before.entry(source_row(ipiv@, k1 as int, k + 1, false, i), j) by {
                    assert(prev.in_bounds(swap_index(i, k as int, pivot - 1), j));
                }
            }
            k += 1;
        }
    }
}

} // verus!
