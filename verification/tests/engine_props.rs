use mat_mul::matmul_blocked;
use mat_mul::matmul_ijk;
use mat_mul::matmul_ikj;
use mat_mul::matmul_kij;
use mat_mul::random_matrix;
use mat_mul::MatError;
use mat_mul::Matrix;

fn matrix(rows: Vec<Vec<i64>>) -> Matrix {
    Matrix::from_rows(rows).unwrap()
}

#[test]
fn test_exact_product_all_variants() {
    let a = matrix(vec![vec![1, 2], vec![3, 4]]);
    let b = matrix(vec![vec![5, 6], vec![7, 8]]);
    let expected = matrix(vec![vec![19, 22], vec![43, 50]]);

    assert!(expected.equals(&matmul_ijk(&a, &b).unwrap()));
    assert!(expected.equals(&matmul_ikj(&a, &b).unwrap()));
    assert!(expected.equals(&matmul_kij(&a, &b).unwrap()));
    assert!(expected.equals(&matmul_blocked(&a, &b, 1).unwrap()));
    assert!(expected.equals(&matmul_blocked(&a, &b, 2).unwrap()));
    assert!(expected.equals(&matmul_blocked(&a, &b, 3).unwrap()));
}

#[test]
fn test_identity_every_variant() {
    let a = matrix(vec![vec![1, 2], vec![3, 4]]);
    let i = matrix(vec![vec![1, 0], vec![0, 1]]);

    assert!(a.equals(&matmul_ijk(&a, &i).unwrap()));
    assert!(a.equals(&matmul_ikj(&a, &i).unwrap()));
    assert!(a.equals(&matmul_kij(&a, &i).unwrap()));
    assert!(a.equals(&matmul_blocked(&a, &i, 1).unwrap()));
    assert!(a.equals(&matmul_ijk(&i, &a).unwrap()));
    assert!(a.equals(&matmul_ikj(&i, &a).unwrap()));
    assert!(a.equals(&matmul_kij(&i, &a).unwrap()));
    assert!(a.equals(&matmul_blocked(&i, &a, 1).unwrap()));
}

#[test]
fn test_zero_every_variant() {
    let a = matrix(vec![vec![9, -3], vec![0, 27]]);
    let z = Matrix::zero(2);

    assert!(z.equals(&matmul_ijk(&a, &z).unwrap()));
    assert!(z.equals(&matmul_ikj(&a, &z).unwrap()));
    assert!(z.equals(&matmul_kij(&a, &z).unwrap()));
    assert!(z.equals(&matmul_blocked(&a, &z, 2).unwrap()));
}

#[test]
fn test_dimension_mismatch_every_variant() {
    let a = matrix(vec![vec![1, 2], vec![3, 4]]);
    let b = matrix(vec![vec![1, 2, 3], vec![4, 5, 6], vec![7, 8, 9]]);

    assert_eq!(matmul_ijk(&a, &b).unwrap_err(), MatError::DimensionMismatch);
    assert_eq!(matmul_ikj(&a, &b).unwrap_err(), MatError::DimensionMismatch);
    assert_eq!(matmul_kij(&a, &b).unwrap_err(), MatError::DimensionMismatch);
    assert_eq!(matmul_blocked(&a, &b, 2).unwrap_err(), MatError::DimensionMismatch);
}

#[test]
fn test_zero_block_size_rejected() {
    let a = matrix(vec![vec![1, 2], vec![3, 4]]);
    let b = matrix(vec![vec![5, 6], vec![7, 8]]);

    assert_eq!(matmul_blocked(&a, &b, 0).unwrap_err(), MatError::InvalidBlockSize);
    // The tile size is checked before the dimensions.
    let c = matrix(vec![vec![1]]);
    assert_eq!(matmul_blocked(&a, &c, 0).unwrap_err(), MatError::InvalidBlockSize);
}

#[test]
fn test_empty_matrices() {
    let a = Matrix::zero(0);
    let b = Matrix::zero(0);

    assert_eq!(matmul_ijk(&a, &b).unwrap().size(), 0);
    assert_eq!(matmul_blocked(&a, &b, 1).unwrap().size(), 0);
}

#[test]
fn test_wrapping_accumulation() {
    // i64::MAX * 2 wraps to -2 in a 64-bit accumulator.
    let a = matrix(vec![vec![i64::MAX, 0], vec![0, 0]]);
    let b = matrix(vec![vec![2, 0], vec![0, 0]]);
    let expected = matrix(vec![vec![-2, 0], vec![0, 0]]);

    assert!(expected.equals(&matmul_ijk(&a, &b).unwrap()));
    assert!(expected.equals(&matmul_ikj(&a, &b).unwrap()));
    assert!(expected.equals(&matmul_kij(&a, &b).unwrap()));
    assert!(expected.equals(&matmul_blocked(&a, &b, 2).unwrap()));
}

#[test]
fn test_blocked_matches_naive_on_odd_sizes() {
    // A 5-by-5 problem with tile sizes that do not divide 5.
    let a = random_matrix(5, 7);
    let b = random_matrix(5, 11);
    let reference = matmul_kij(&a, &b).unwrap();

    for bs in 1..8usize {
        let blocked = matmul_blocked(&a, &b, bs).unwrap();
        assert!(reference.equals(&blocked), "tile size {} changed the result", bs);
    }
}

#[test]
fn test_random_matrix_dimensions() {
    let m = random_matrix(7, 1);
    assert_eq!(m.size(), 7);
    let e = random_matrix(0, 1);
    assert_eq!(e.size(), 0);
}

#[test]
fn test_from_rows_ragged_rejected() {
    let r = Matrix::from_rows(vec![vec![1, 2], vec![3]]);
    assert_eq!(r.unwrap_err(), MatError::DimensionMismatch);
    let r = Matrix::from_rows(vec![vec![1, 2, 3], vec![4, 5, 6]]);
    assert_eq!(r.unwrap_err(), MatError::DimensionMismatch);
}
