use lib::sign_matrix::{count_entries, SignMatrix, DENSITY_SCALE};

fn well_formed(m: &SignMatrix) -> bool {
    m.data.len() == m.rows
        && m.data.iter().all(|row| {
            row.iter().all(|&(j, s)| j < m.cols && (s == 1 || s == -1))
                && row.windows(2).all(|w| w[0].0 < w[1].0)
        })
}

#[test]
fn random_sparse_small_exact() {
    let m = SignMatrix::random_sparse(3, 3, 5000, 42);
    assert_eq!(m.rows, 3);
    assert_eq!(m.cols, 3);
    assert_eq!(
        m.data,
        vec![vec![(2, 1)], vec![(0, 1), (1, 1), (2, 1)], vec![(0, 1), (2, -1)]]
    );
}

#[test]
fn random_sparse_creation() {
    let m = SignMatrix::random_sparse(10, 10, 3000, 42);
    assert_eq!(m.rows, 10);
    assert_eq!(m.cols, 10);
    assert!(well_formed(&m));
    assert_eq!(m.nnz(), 33);
    assert!(m.nnz() <= m.rows * m.cols);
}

#[test]
fn random_sparse_larger_count() {
    let m = SignMatrix::random_sparse(20, 20, 2000, 42);
    assert!(well_formed(&m));
    assert_eq!(m.nnz(), 82);
}

#[test]
fn random_sparse_is_deterministic() {
    let a = SignMatrix::random_sparse(8, 6, 4000, 7);
    let b = SignMatrix::random_sparse(8, 6, 4000, 7);
    assert_eq!(a.data, b.data);
}

#[test]
fn random_sparse_keep_none() {
    let m = SignMatrix::random_sparse(6, 9, 0, 123);
    assert_eq!(m.data.len(), 6);
    assert_eq!(m.nnz(), 0);
}

#[test]
fn random_sparse_keep_all() {
    let m = SignMatrix::random_sparse(4, 5, DENSITY_SCALE, 99);
    assert_eq!(m.nnz(), 20);
    for row in &m.data {
        let cols: Vec<usize> = row.iter().map(|e| e.0).collect();
        assert_eq!(cols, vec![0, 1, 2, 3, 4]);
    }
    let m2 = SignMatrix::random_sparse(4, 5, u64::MAX, 99);
    assert_eq!(m2.nnz(), 20);
}

#[test]
fn random_sparse_empty_shapes() {
    let m = SignMatrix::random_sparse(0, 5, 5000, 1);
    assert!(m.data.is_empty());
    let m = SignMatrix::random_sparse(3, 0, 5000, 1);
    assert_eq!(m.data.len(), 3);
    assert_eq!(m.nnz(), 0);
}

#[test]
fn input_weights_exact_and_dense() {
    let m = SignMatrix::input_weights(2, 3, 42);
    assert_eq!(m.rows, 2);
    assert_eq!(m.cols, 3);
    assert_eq!(
        m.data,
        vec![vec![(0, 1), (1, -1), (2, 1)], vec![(0, -1), (1, 1), (2, -1)]]
    );
    let big = SignMatrix::input_weights(10, 3, 42);
    assert_eq!(big.nnz(), 30);
    assert!(well_formed(&big));
}

#[test]
fn input_weights_seed_wraps() {
    let m = SignMatrix::input_weights(1, 2, u64::MAX);
    let n = SignMatrix::input_weights(1, 2, u64::MAX);
    assert_eq!(m.data, n.data);
    assert_eq!(m.nnz(), 2);
}

#[test]
fn identity_pattern() {
    let m = SignMatrix::identity(3);
    assert_eq!(m.rows, 3);
    assert_eq!(m.cols, 3);
    assert_eq!(m.data, vec![vec![(0, 1)], vec![(1, 1)], vec![(2, 1)]]);
}

#[test]
fn test_nnz() {
    let m = SignMatrix::identity(3);
    assert_eq!(m.nnz(), 3);
}

#[test]
fn count_entries_of_float_rows() {
    let data: Vec<Vec<(usize, f64)>> = vec![vec![(0, 1.0), (2, -0.5)], vec![], vec![(1, 0.25)]];
    assert_eq!(count_entries(&data), Some(3));
    let empty: Vec<Vec<u8>> = vec![];
    assert_eq!(count_entries(&empty), Some(0));
}
