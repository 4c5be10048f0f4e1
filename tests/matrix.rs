use octet_matrix::{fma, octet_mul, MatrixError, SparseOctetMatrix, ONE, ZERO};

fn row_values(m: &SparseOctetMatrix, i: usize) -> Vec<u8> {
    (0..m.width()).map(|j| m.get(i, j)).collect()
}

fn filled(height: usize, width: usize, tail: usize, start: usize, dense: usize) -> SparseOctetMatrix {
    let mut m = SparseOctetMatrix::new(height, width, tail, start, dense);
    for i in 0..height {
        for j in 0..width {
            if (i + 2 * j) % 3 != 0 {
                m.set(i, j, ((i * 7 + j * 13) % 255 + 1) as u8);
            }
        }
    }
    m
}

#[test]
fn field_products() {
    assert_eq!(octet_mul(2, 3), 6);
    assert_eq!(octet_mul(0x80, 2), 29);
    assert_eq!(octet_mul(7, 7), 21);
    assert_eq!(octet_mul(5, 9), 45);
    assert_eq!(octet_mul(0, 77), ZERO);
    assert_eq!(octet_mul(77, ONE), 77);
    assert_eq!(fma(1, 2, 3), 7);
}

#[test]
fn new_matrix_is_zero() {
    let m = SparseOctetMatrix::new(5, 6, 2, 1, 2);
    assert_eq!(m.height(), 5);
    assert_eq!(m.width(), 6);
    for i in 0..5 {
        assert_eq!(row_values(&m, i), vec![0; 6]);
    }
    assert!(m.verify());
}

#[test]
fn set_get_round_trip_all_placements() {
    // Rows 1 and 2 are dense rows; columns 4 and 5 are in the dense block.
    let mut m = SparseOctetMatrix::new(5, 6, 2, 1, 2);
    m.set(0, 0, 9); // sparse row
    m.set(1, 3, 8); // dense row
    m.set(2, 5, 7); // dense block of a dense row
    m.set(4, 4, 6); // dense block of a sparse row
    m.set(0, 0, 5); // overwrite
    assert_eq!(m.get(0, 0), 5);
    assert_eq!(m.get(1, 3), 8);
    assert_eq!(m.get(2, 5), 7);
    assert_eq!(m.get(4, 4), 6);
    assert_eq!(m.get(3, 3), 0);
    m.set(1, 3, 0);
    assert_eq!(m.get(1, 3), 0);
}

#[test]
fn swap_rows_permutes() {
    let mut m = filled(5, 6, 2, 1, 2);
    let before: Vec<Vec<u8>> = (0..5).map(|i| row_values(&m, i)).collect();
    m.swap_rows(0, 2);
    assert_eq!(row_values(&m, 0), before[2]);
    assert_eq!(row_values(&m, 2), before[0]);
    for i in [1, 3, 4] {
        assert_eq!(row_values(&m, i), before[i]);
    }
    let count = |m: &SparseOctetMatrix| (0..5).map(|i| m.count_ones_and_nonzeros(i, 0, 4).1).sum::<usize>();
    let mut n = filled(5, 6, 2, 1, 2);
    let total = count(&n);
    n.swap_rows(1, 4);
    assert_eq!(count(&n), total);
}

#[test]
fn swap_columns_permutes() {
    let mut m = filled(5, 6, 2, 1, 2);
    let before: Vec<Vec<u8>> = (0..5).map(|i| row_values(&m, i)).collect();
    m.swap_columns(0, 3, 0);
    for i in 0..5 {
        let row = row_values(&m, i);
        assert_eq!(row[0], before[i][3]);
        assert_eq!(row[3], before[i][0]);
        assert_eq!(row[1], before[i][1]);
        assert_eq!(row[2], before[i][2]);
        assert_eq!(row[4], before[i][4]);
        assert_eq!(row[5], before[i][5]);
    }
}

#[test]
fn fma_rows_into_sparse_and_dense() {
    let mut m = filled(5, 6, 2, 1, 2);
    let before: Vec<Vec<u8>> = (0..5).map(|i| row_values(&m, i)).collect();
    assert_eq!(m.fma_rows(0, 3, 2), Ok(()));
    for j in 0..6 {
        assert_eq!(m.get(0, j), before[0][j] ^ octet_mul(before[3][j], 2));
        assert_eq!(m.get(3, j), before[3][j]);
    }
    // A dense destination.
    assert_eq!(m.fma_rows(1, 4, 0x80), Ok(()));
    for j in 0..6 {
        assert_eq!(m.get(1, j), before[1][j] ^ octet_mul(before[4][j], 0x80));
    }
    assert!(m.verify());
}

#[test]
fn fma_rows_exact_values() {
    let mut m = SparseOctetMatrix::new(2, 3, 1, 0, 0);
    m.set(0, 0, 1);
    m.set(0, 2, 4);
    m.set(1, 0, 0x80);
    m.set(1, 1, 3);
    m.set(1, 2, 2);
    assert_eq!(m.fma_rows(0, 1, 2), Ok(()));
    assert_eq!(row_values(&m, 0), vec![1 ^ 29, 6, 4 ^ 4]);
}

#[test]
fn fma_rows_dense_multiplicand_refused() {
    let mut m = filled(5, 6, 2, 1, 2);
    let before: Vec<Vec<u8>> = (0..5).map(|i| row_values(&m, i)).collect();
    assert_eq!(m.fma_rows(0, 1, 3), Err(MatrixError::InvalidState));
    for i in 0..5 {
        assert_eq!(row_values(&m, i), before[i]);
    }
}

#[test]
fn mul_assign_row_scales() {
    let mut m = filled(5, 6, 2, 1, 2);
    let before: Vec<Vec<u8>> = (0..5).map(|i| row_values(&m, i)).collect();
    m.mul_assign_row(0, 7);
    m.mul_assign_row(2, 7);
    for j in 0..6 {
        assert_eq!(m.get(0, j), octet_mul(before[0][j], 7));
        assert_eq!(m.get(2, j), octet_mul(before[2][j], 7));
    }
    m.mul_assign_row(3, ONE);
    assert_eq!(row_values(&m, 3), before[3]);
    m.mul_assign_row(3, ZERO);
    assert_eq!(row_values(&m, 3), vec![0; 6]);
    m.mul_assign_row(1, ZERO);
    assert_eq!(row_values(&m, 1), vec![0; 6]);
}

#[test]
fn count_ones_and_nonzeros_counts() {
    let mut m = SparseOctetMatrix::new(3, 6, 2, 1, 1);
    m.set(0, 0, 1);
    m.set(0, 1, 5);
    m.set(0, 3, 1);
    m.set(0, 4, 1);
    m.set(1, 0, 1);
    m.set(1, 2, 9);
    m.set(1, 3, 1);
    assert_eq!(m.count_ones_and_nonzeros(0, 0, 4), (2, 3));
    assert_eq!(m.count_ones_and_nonzeros(0, 1, 3), (0, 1));
    assert_eq!(m.count_ones_and_nonzeros(1, 0, 4), (2, 3));
    assert_eq!(m.count_ones_and_nonzeros(2, 0, 4), (0, 0));
    assert_eq!(m.count_ones_and_nonzeros(0, 2, 2), (0, 0));
}

#[test]
fn get_row_iter_lists_entries() {
    let mut m = SparseOctetMatrix::new(3, 6, 2, 1, 1);
    m.set(0, 0, 1);
    m.set(0, 3, 4);
    m.set(0, 2, 0);
    m.swap_columns(0, 1, 0);
    let mut entries = m.get_row_iter(0, 0, 4).unwrap();
    entries.retain(|e| e.1 != 0);
    entries.sort();
    assert_eq!(entries, vec![(1, 1), (3, 4)]);
    let mut part = m.get_row_iter(0, 2, 4).unwrap();
    part.retain(|e| e.1 != 0);
    assert_eq!(part, vec![(3, 4)]);
    assert_eq!(m.get_row_iter(1, 0, 4), Err(MatrixError::UnsupportedOperation));
}

#[test]
fn column_index_lookup() {
    let mut m = SparseOctetMatrix::new(5, 6, 2, 1, 2);
    assert_eq!(m.get_col_index_iter(0, 0, 5), Err(MatrixError::InvalidState));
    m.set(0, 2, 3);
    m.set(4, 2, 1);
    m.enable_column_acccess_acceleration();
    m.set(3, 2, 8);
    let mut rows = m.get_col_index_iter(2, 0, 5).unwrap();
    rows.sort();
    // Dense rows 1 and 2 are always included.
    assert_eq!(rows, vec![0, 1, 2, 3, 4]);
    let mut rows = m.get_col_index_iter(2, 3, 5).unwrap();
    rows.sort();
    assert_eq!(rows, vec![3, 4]);
    let mut rows = m.get_col_index_iter(0, 0, 5).unwrap();
    rows.sort();
    assert_eq!(rows, vec![1, 2]);
    assert!(m.verify());
    m.disable_column_acccess_acceleration();
    assert_eq!(m.get_col_index_iter(2, 0, 5), Err(MatrixError::InvalidState));
}

#[test]
fn column_index_tracks_fma() {
    let mut m = SparseOctetMatrix::new(4, 4, 0, 0, 0);
    m.set(0, 1, 5);
    m.enable_column_acccess_acceleration();
    assert_eq!(m.fma_rows(2, 0, 3), Ok(()));
    let rows = m.get_col_index_iter(1, 0, 4).unwrap();
    assert!(rows.contains(&0));
    assert!(rows.contains(&2));
    assert!(!rows.contains(&1));
    assert!(m.verify());
}

#[test]
fn freeze_column_keeps_values() {
    let mut m = filled(5, 6, 2, 1, 2);
    m.enable_column_acccess_acceleration();
    let before: Vec<Vec<u8>> = (0..5).map(|i| row_values(&m, i)).collect();
    assert_eq!(m.hint_column_dense_and_frozen(3), Ok(()));
    for i in 0..5 {
        assert_eq!(row_values(&m, i), before[i]);
    }
    assert_eq!(m.hint_column_dense_and_frozen(2), Ok(()));
    for i in 0..5 {
        assert_eq!(row_values(&m, i), before[i]);
    }
    // Column 2 is now in the dense block; the sparse part is columns 0 and 1.
    assert_eq!(m.count_ones_and_nonzeros(0, 0, 2).1, before[0][..2].iter().filter(|v| **v != 0).count());
    assert!(m.verify());
}

#[test]
fn freeze_many_columns_grows_dense_block() {
    let mut m = filled(4, 30, 0, 0, 0);
    m.enable_column_acccess_acceleration();
    let before: Vec<Vec<u8>> = (0..4).map(|i| row_values(&m, i)).collect();
    for c in (5..30).rev() {
        assert_eq!(m.hint_column_dense_and_frozen(c), Ok(()));
    }
    for i in 0..4 {
        assert_eq!(row_values(&m, i), before[i]);
    }
}

#[test]
fn freeze_needs_column_index() {
    let mut m = filled(5, 6, 2, 1, 2);
    assert_eq!(m.hint_column_dense_and_frozen(3), Err(MatrixError::InvalidState));
}

#[test]
fn compact_dense_rows_keeps_values() {
    let mut m = filled(5, 6, 2, 1, 2);
    let before: Vec<Vec<u8>> = (0..5).map(|i| row_values(&m, i)).collect();
    m.hint_compact_dense_rows();
    for i in 0..5 {
        assert_eq!(row_values(&m, i), before[i]);
    }
    // Former dense rows are sparse now.
    assert!(m.get_row_iter(1, 0, 4).is_ok());
    assert_eq!(m.fma_rows(0, 1, 1), Ok(()));
}

#[test]
fn resize_keeps_retained_submatrix() {
    let mut m = filled(6, 7, 2, 1, 2);
    m.swap_rows(0, 5);
    m.swap_columns(1, 3, 0);
    let before: Vec<Vec<u8>> = (0..6).map(|i| row_values(&m, i)).collect();
    assert_eq!(m.resize(4, 4), Ok(()));
    assert_eq!(m.height(), 4);
    assert_eq!(m.width(), 4);
    for i in 0..4 {
        for j in 0..4 {
            assert_eq!(m.get(i, j), before[i][j]);
        }
    }
}

#[test]
fn resize_within_dense_block() {
    let mut m = filled(5, 7, 3, 0, 0);
    let before: Vec<Vec<u8>> = (0..5).map(|i| row_values(&m, i)).collect();
    assert_eq!(m.resize(5, 6), Ok(()));
    for i in 0..5 {
        assert_eq!(row_values(&m, i), before[i][..6].to_vec());
    }
}

#[test]
fn resize_refused_with_column_index() {
    let mut m = filled(5, 6, 2, 1, 2);
    m.enable_column_acccess_acceleration();
    assert_eq!(m.resize(3, 3), Err(MatrixError::InvalidState));
    assert_eq!(m.height(), 5);
}

#[test]
fn mul_assign_submatrix_applies_product() {
    let mut m = filled(4, 5, 2, 0, 0);
    let before: Vec<Vec<u8>> = (0..4).map(|i| row_values(&m, i)).collect();
    // other = [[0, 1, 0], [1, 0, 0], [2, 0, 1]]
    let mut other = SparseOctetMatrix::new(3, 3, 0, 0, 0);
    other.set(0, 1, 1);
    other.set(1, 0, 1);
    other.set(2, 0, 2);
    other.set(2, 2, 1);
    assert_eq!(m.mul_assign_submatrix(&other, 3), Ok(()));
    assert_eq!(row_values(&m, 0), before[1]);
    assert_eq!(row_values(&m, 1), before[0]);
    let expected: Vec<u8> = (0..5).map(|j| octet_mul(before[0][j], 2) ^ before[2][j]).collect();
    assert_eq!(row_values(&m, 2), expected);
    assert_eq!(row_values(&m, 3), before[3]);
}

#[test]
fn mul_assign_submatrix_refusals() {
    let mut m = filled(4, 5, 2, 1, 1);
    let other = SparseOctetMatrix::new(2, 2, 0, 0, 0);
    assert_eq!(m.mul_assign_submatrix(&other, 2), Err(MatrixError::InvalidState));
    let mut n = filled(4, 5, 2, 0, 0);
    let tailed = SparseOctetMatrix::new(2, 2, 1, 0, 0);
    assert_eq!(n.mul_assign_submatrix(&tailed, 2), Err(MatrixError::UnsupportedOperation));
}

#[test]
fn identity_swap_fma_scenario() {
    let mut m = SparseOctetMatrix::new(4, 4, 0, 0, 0);
    for i in 0..4 {
        m.set(i, i, ONE);
    }
    m.enable_column_acccess_acceleration();
    let original_row3 = row_values(&m, 3);
    m.swap_rows(0, 3);
    let row0 = row_values(&m, 0);
    let row3 = row_values(&m, 3);
    assert_eq!(m.fma_rows(3, 0, ONE), Ok(()));
    for c in 0..4 {
        assert_eq!(m.get(3, c), row3[c] ^ row0[c]);
    }
    assert_eq!(row_values(&m, 3), vec![1, 0, 0, 1]);
    assert_eq!(original_row3, vec![0, 0, 0, 1]);
    assert!(m.verify());
}
