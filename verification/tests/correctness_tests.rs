use mat_mul::matmul_blocked;
use mat_mul::matmul_ijk;
use mat_mul::matmul_ikj;
use mat_mul::matmul_kij;
use mat_mul::random_matrix;
use mat_mul::Matrix;

fn matrix(rows: Vec<Vec<i64>>) -> Matrix {
    Matrix::from_rows(rows).unwrap()
}

fn matrices_equal(m1: &Matrix, m2: &Matrix) -> bool {
    m1.equals(m2)
}

fn matrix_add(a: &Matrix, b: &Matrix) -> Matrix {
    let n = a.size();
    assert_eq!(n, b.size());
    let mut rows: Vec<Vec<i64>> = Vec::new();
    for i in 0..n {
        let mut row: Vec<i64> = Vec::new();
        for j in 0..n {
            row.push(a.entry(i, j).wrapping_add(b.entry(i, j)));
        }
        rows.push(row);
    }
    matrix(rows)
}

#[test]
fn test_identity_matrix() {
    let a = matrix(vec![vec![1, 2], vec![3, 4]]);
    let i = matrix(vec![vec![1, 0], vec![0, 1]]); // Identity matrix

    let result = matmul_ijk(&a, &i).unwrap();
    assert!(matrices_equal(&a, &result), "A * I should equal A");

    let result = matmul_ijk(&i, &a).unwrap();
    assert!(matrices_equal(&a, &result), "I * A should equal A");
}

#[test]
fn test_zero_matrix() {
    let a = matrix(vec![vec![1, 2], vec![3, 4]]);
    let z = matrix(vec![vec![0, 0], vec![0, 0]]); // Zero matrix
    let expected = matrix(vec![vec![0, 0], vec![0, 0]]);

    let result = matmul_ijk(&a, &z).unwrap();
    assert!(matrices_equal(&expected, &result), "A * 0 should equal 0");
}

#[test]
fn test_algorithm_consistency() {
    let a = random_matrix(8, 42);
    let b = random_matrix(8, 43);

    let result_ijk = matmul_ijk(&a, &b).unwrap();
    let result_ikj = matmul_ikj(&a, &b).unwrap();
    let result_kij = matmul_kij(&a, &b).unwrap();
    let result_blocked = matmul_blocked(&a, &b, 4).unwrap();

    assert!(
        matrices_equal(&result_ijk, &result_ikj),
        "i-j-k and i-k-j should produce same result"
    );
    assert!(
        matrices_equal(&result_ijk, &result_kij),
        "i-j-k and k-i-j should produce same result"
    );
    assert!(
        matrices_equal(&result_ijk, &result_blocked),
        "i-j-k and blocked should produce same result"
    );
}

#[test]
fn test_associativity() {
    let a = matrix(vec![vec![1, 2], vec![3, 4]]);
    let b = matrix(vec![vec![5, 6], vec![7, 8]]);
    let c = matrix(vec![vec![9, 10], vec![11, 12]]);

    // Compute (AB)C
    let ab = matmul_ijk(&a, &b).unwrap();
    let abc_left = matmul_ijk(&ab, &c).unwrap();

    // Compute A(BC)
    let bc = matmul_ijk(&b, &c).unwrap();
    let abc_right = matmul_ijk(&a, &bc).unwrap();

    assert!(
        matrices_equal(&abc_left, &abc_right),
        "Matrix multiplication should be associative"
    );
}

#[test]
fn test_distributivity() {
    let a = matrix(vec![vec![1, 2], vec![3, 4]]);
    let b = matrix(vec![vec![5, 6], vec![7, 8]]);
    let c = matrix(vec![vec![1, 1], vec![1, 1]]);

    // Compute A(B+C)
    let b_plus_c = matrix_add(&b, &c);
    let a_bc = matmul_ijk(&a, &b_plus_c).unwrap();

    // Compute AB + AC
    let ab = matmul_ijk(&a, &b).unwrap();
    let ac = matmul_ijk(&a, &c).unwrap();
    let ab_plus_ac = matrix_add(&ab, &ac);

    assert!(
        matrices_equal(&a_bc, &ab_plus_ac),
        "Matrix multiplication should be distributive"
    );
}

#[test]
fn test_block_size_variations() {
    let a = random_matrix(16, 42);
    let b = random_matrix(16, 43);

    let result_default = matmul_blocked(&a, &b, 64).unwrap();
    let result_block_4 = matmul_blocked(&a, &b, 4).unwrap();
    let result_block_8 = matmul_blocked(&a, &b, 8).unwrap();

    assert!(
        matrices_equal(&result_default, &result_block_4),
        "Different block sizes should produce same result"
    );
    assert!(
        matrices_equal(&result_default, &result_block_8),
        "Different block sizes should produce same result"
    );
}

#[test]
fn test_random_matrix_generation() {
    let m1 = random_matrix(5, 42);
    let m2 = random_matrix(5, 42); // Same seed

    assert!(matrices_equal(&m1, &m2), "Same seed should produce same matrix");

    let m3 = random_matrix(5, 43); // Different seed
    assert!(
        !matrices_equal(&m1, &m3),
        "Different seeds should produce different matrices"
    );
}
