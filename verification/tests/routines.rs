use lapack_lu::error::LuError;
use lapack_lu::lu::{solution, workspace_len, LU};
use lapack_lu::matrix::Matrix;
use lapack_lu::scalar::LUScalar;

const FINE: u8 = 0;
const FACTORIZATION_REJECTS: u8 = 1;
const PIVOT_OUT_OF_RANGE: u8 = 2;
const QUERY_FAILS: u8 = 3;
const SHORT_WORKSPACE: u8 = 4;
const NEGATIVE_WORKSPACE: u8 = 5;
const INVERSION_FAILS: u8 = 6;
const SOLVE_FAILS: u8 = 7;
const SINGULAR_FACTORIZATION: u8 = 8;
const PIVOT_ABOVE_ITS_ROW: u8 = 9;

/// A scalar whose routines compute nothing: they write down what they were handed, and
/// report what `MODE` tells them to.
#[derive(Clone, Copy, Debug, PartialEq)]
struct Probe<const MODE: u8>(i64);

fn note<const MODE: u8>(buffer: &mut [Probe<MODE>], values: &[i64]) {
    for (slot, value) in buffer.iter_mut().zip(values) {
        *slot = Probe(*value);
    }
}

impl<const MODE: u8> LUScalar for Probe<MODE> {
    fn zero() -> Self {
        Probe(0)
    }

    fn one() -> Self {
        Probe(1)
    }

    fn xgetrf(m: i32, n: i32, a: &mut [Self], lda: i32, ipiv: &mut [i32], info: &mut i32) {
        let lengths = [a.len() as i64, ipiv.len() as i64];
        let zeroed = ipiv.iter().all(|p| *p == 0);
        note(a, &[m as i64, n as i64, lda as i64, lengths[0], lengths[1], zeroed as i64]);
        for (k, p) in ipiv.iter_mut().enumerate() {
            *p = k as i32 + 1;
        }
        *info = 0;
        if MODE == FACTORIZATION_REJECTS {
            *info = -4;
        }
        if MODE == SINGULAR_FACTORIZATION {
            *info = 2;
        }
        if MODE == PIVOT_OUT_OF_RANGE {
            ipiv[0] = m + 1;
        }
        if MODE == PIVOT_ABOVE_ITS_ROW {
            ipiv[1] = 1;
        }
    }

    fn xgetrs(
        trans: u8,
        n: i32,
        nrhs: i32,
        a: &[Self],
        lda: i32,
        ipiv: &[i32],
        b: &mut [Self],
        ldb: i32,
        info: &mut i32,
    ) {
        let lengths = [a.len() as i64, ipiv.len() as i64, b.len() as i64];
        note(
            b,
            &[
                trans as i64,
                n as i64,
                nrhs as i64,
                lda as i64,
                ldb as i64,
                lengths[0],
                lengths[1],
                lengths[2],
            ],
        );
        *info = if MODE == SOLVE_FAILS { 3 } else { 0 };
    }

    fn xgetri(
        n: i32,
        a: &mut [Self],
        lda: i32,
        ipiv: &[i32],
        work: &mut [Self],
        lwork: i32,
        info: &mut i32,
    ) {
        let all_zero = work.iter().all(|w| *w == Probe(0));
        let lengths = [a.len() as i64, ipiv.len() as i64, work.len() as i64];
        note(
            a,
            &[
                n as i64,
                lda as i64,
                lwork as i64,
                lengths[0],
                lengths[1],
                lengths[2],
                all_zero as i64,
            ],
        );
        *info = if MODE == INVERSION_FAILS { 2 } else { 0 };
    }

    fn xgetri_work_size(n: i32, _a: &mut [Self], _lda: i32, _ipiv: &[i32], info: &mut i32) -> i32 {
        *info = if MODE == QUERY_FAILS { -3 } else { 0 };
        match MODE {
            SHORT_WORKSPACE => n - 1,
            NEGATIVE_WORKSPACE => -1,
            _ => 5 * n,
        }
    }
}

fn blank<const MODE: u8>(nrows: usize, ncols: usize) -> Matrix<Probe<MODE>> {
    Matrix::from_element(nrows, ncols, Probe(-1)).unwrap()
}

fn numbers<const MODE: u8>(m: &Matrix<Probe<MODE>>) -> Vec<i64> {
    m.as_slice().iter().map(|p| p.0).collect()
}

/// A factorization of a 3 by 3 matrix, whatever `MODE` makes of the later routines.
fn factorization<const MODE: u8>() -> LU<Probe<MODE>> {
    LU::from_factorization(blank(3, 3), vec![1, 2, 3], 0).unwrap()
}

#[test]
fn new_hands_the_matrix_with_its_height_as_leading_dimension() {
    let lu = LU::new(blank::<FINE>(3, 2)).unwrap();
    assert_eq!(lu.permutation_indices(), &[1, 2]);
    // m, n, lda and the lengths of the two buffers, read back from the packed factors
    let (l, u) = (lu.l(), lu.u());
    assert_eq!(u.get(0, 0), Some(&Probe(3)));
    assert_eq!(l.get(1, 0), Some(&Probe(2)));
    assert_eq!(l.get(2, 0), Some(&Probe(3)));
    assert_eq!(u.get(0, 1), Some(&Probe(6)));
    assert_eq!(u.get(1, 1), Some(&Probe(2)));
    assert_eq!(l.get(2, 1), Some(&Probe(1)));
}

#[test]
fn new_hands_one_pivot_slot_for_each_row_of_a_wide_matrix() {
    let lu = LU::new(blank::<FINE>(2, 5)).unwrap();
    assert_eq!(lu.permutation_indices(), &[1, 2]);
    assert_eq!(lu.u().get(0, 0), Some(&Probe(2)));
    assert_eq!(lu.l().get(1, 0), Some(&Probe(5)));
}

#[test]
fn new_fails_when_the_routine_reports_a_malformed_argument() {
    let r = LU::new(blank::<FACTORIZATION_REJECTS>(3, 3));
    assert_eq!(r.err(), Some(LuError::Factorization { info: -4 }));
}

#[test]
fn new_fails_when_the_routine_hands_back_a_pivot_that_names_no_row() {
    let r = LU::new(blank::<PIVOT_OUT_OF_RANGE>(3, 3));
    assert_eq!(r.err(), Some(LuError::Pivots));
}

#[test]
fn new_fails_when_the_routine_hands_back_a_pivot_above_its_own_row() {
    let r = LU::new(blank::<PIVOT_ABOVE_ITS_ROW>(3, 3));
    assert_eq!(r.err(), Some(LuError::Pivots));
}

#[test]
fn new_hands_zeroed_pivots_and_buffers_as_long_as_the_dimensions_say() {
    // the routine writes down the lengths of the two buffers that it was handed, and
    // whether the pivots were all zero
    let lu = LU::new(blank::<FINE>(4, 3)).unwrap();
    assert_eq!(lu.l().get(3, 0), Some(&Probe(12)));
    assert_eq!(lu.u().get(0, 1), Some(&Probe(3)));
    assert_eq!(lu.u().get(1, 1), Some(&Probe(1)));
    assert_eq!(lu.permutation_indices().len(), 3);
    let lu = LU::new(blank::<FINE>(2, 5)).unwrap();
    assert_eq!(lu.u().get(1, 1), Some(&Probe(10)));
    assert_eq!(lu.u().get(0, 2), Some(&Probe(2)));
    assert_eq!(lu.u().get(1, 2), Some(&Probe(1)));
}

#[test]
fn new_succeeds_when_the_routine_reports_a_singular_matrix() {
    assert!(LU::new(blank::<SINGULAR_FACTORIZATION>(3, 3)).is_ok());
}

#[test]
fn solve_hands_the_plain_mode() {
    let lu = factorization::<FINE>();
    let x = lu.solve(&blank(3, 3)).unwrap();
    assert_eq!(numbers(&x), vec![b'N' as i64, 3, 3, 3, 3, 9, 3, 9, -1]);
    let mut b = blank(3, 3);
    assert!(lu.solve_mut(&mut b));
    assert_eq!(numbers(&b), numbers(&x));
}

#[test]
fn solve_transpose_hands_the_transposed_mode() {
    let lu = factorization::<FINE>();
    let x = lu.solve_transpose(&blank(3, 3)).unwrap();
    assert_eq!(numbers(&x), vec![b'T' as i64, 3, 3, 3, 3, 9, 3, 9, -1]);
    let mut b = blank(3, 3);
    assert!(lu.solve_transpose_mut(&mut b));
    assert_eq!(numbers(&b), numbers(&x));
}

#[test]
fn solve_conjugate_transpose_hands_the_conjugate_transposed_mode() {
    let lu = factorization::<FINE>();
    let x = lu.solve_conjugate_transpose(&blank(3, 3)).unwrap();
    assert_eq!(numbers(&x), vec![b'C' as i64, 3, 3, 3, 3, 9, 3, 9, -1]);
    let mut b = blank(3, 3);
    assert!(lu.solve_adjoint_mut(&mut b));
    assert_eq!(numbers(&b), numbers(&x));
}

#[test]
fn solve_counts_the_columns_of_the_right_hand_side() {
    let lu = factorization::<FINE>();
    let x = lu.solve(&blank(3, 4)).unwrap();
    assert_eq!(numbers(&x)[..8], [b'N' as i64, 3, 4, 3, 3, 9, 3, 12]);
}

#[test]
fn solve_has_no_result_when_the_routine_reports_a_failure() {
    let lu = factorization::<SOLVE_FAILS>();
    assert!(lu.solve(&blank(3, 1)).is_none());
    assert!(lu.solve_transpose(&blank(3, 1)).is_none());
    assert!(lu.solve_conjugate_transpose(&blank(3, 1)).is_none());
    let mut b = blank(3, 1);
    assert!(!lu.solve_mut(&mut b));
    assert!(!lu.solve_transpose_mut(&mut b));
    assert!(!lu.solve_adjoint_mut(&mut b));
}

#[test]
fn inverse_hands_a_zeroed_workspace_of_the_queried_length() {
    let inv = factorization::<FINE>().inverse().unwrap().unwrap();
    assert_eq!(inv.shape(), (3, 3));
    assert_eq!(numbers(&inv), vec![3, 3, 15, 9, 3, 15, 1, -1, -1]);
}

#[test]
fn inverse_fails_when_the_workspace_query_reports_an_error() {
    let r = factorization::<QUERY_FAILS>().inverse();
    assert_eq!(r.err(), Some(LuError::WorkspaceQuery { info: -3 }));
}

#[test]
fn inverse_fails_when_the_queried_workspace_is_too_short() {
    let r = factorization::<SHORT_WORKSPACE>().inverse();
    assert_eq!(r.err(), Some(LuError::WorkspaceSize { lwork: 2 }));
    let r = factorization::<NEGATIVE_WORKSPACE>().inverse();
    assert_eq!(r.err(), Some(LuError::WorkspaceSize { lwork: -1 }));
}

#[test]
fn inverse_has_no_result_when_the_inversion_reports_a_failure() {
    let r = factorization::<INVERSION_FAILS>().inverse();
    assert!(matches!(r, Ok(None)));
}

#[test]
fn workspace_len_accepts_what_the_inversion_accepts() {
    assert_eq!(workspace_len(3, 3, 0), Ok(3));
    assert_eq!(workspace_len(3, 192, 0), Ok(192));
    assert_eq!(workspace_len(0, 1, 0), Ok(1));
    assert_eq!(workspace_len(3, 2, 0), Err(LuError::WorkspaceSize { lwork: 2 }));
    assert_eq!(workspace_len(0, 0, 0), Err(LuError::WorkspaceSize { lwork: 0 }));
    assert_eq!(workspace_len(3, -1, 0), Err(LuError::WorkspaceSize { lwork: -1 }));
    assert_eq!(workspace_len(3, 192, -3), Err(LuError::WorkspaceQuery { info: -3 }));
    assert_eq!(workspace_len(3, -1, 7), Err(LuError::WorkspaceQuery { info: 7 }));
}

#[test]
fn solution_is_there_when_the_routine_succeeded() {
    let m = Matrix::from_vec(1, 2, vec![5, 6]).unwrap();
    assert_eq!(solution(true, m.clone_owned()).map(|x| x.as_slice().to_vec()), Some(vec![5, 6]));
    assert!(solution(false, m).is_none());
}
