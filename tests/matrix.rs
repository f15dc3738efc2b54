use matmul::matrix::{
    can_multiply, gather, process, scatter, worker_of, NUM_THREADS,
};
use matmul::{dot_product, multiply, Matrix, MatrixError, MsgInput, MsgOutput, Vector};

#[test]
fn test_matrix_multiply() {
    let a = Matrix::new(vec![1, 2, 3, 4, 5, 6], 2, 3);
    let b = Matrix::new(vec![1, 2, 3, 4, 5, 6], 3, 2);
    let c = multiply(&a, &b).expect("Matrix multiply error");
    assert_eq!(c.col(), 2);
    assert_eq!(c.row(), 2);
    assert_eq!(*c.data(), vec![22, 28, 49, 64]);
    assert_eq!(c.to_debug_string(), "Matrix(row=2, col=2, {22 28, 49 64})");
}

#[test]
fn test_matrix_display() {
    let a = Matrix::new(vec![1, 2, 3, 4], 2, 2);
    let b = Matrix::new(vec![1, 2, 3, 4], 2, 2);
    let c = multiply(&a, &b).expect("Matrix multiply error");
    assert_eq!(*c.data(), vec![7, 10, 15, 22]);
    assert_eq!(c.to_string(), "{7 10, 15 22}");
}

#[test]
fn test_a_can_not_multiply_b() {
    let a = Matrix::new(vec![1, 2, 3, 4, 5, 6], 2, 3);
    let b = Matrix::new(vec![1, 2, 3, 4], 2, 2);
    let c = multiply(&a, &b);
    assert!(c.is_err());
}

#[test]
#[should_panic]
fn test_a_can_not_multiply_b_panic() {
    let a = Matrix::new(vec![1, 2, 3, 4, 5, 6], 2, 3);
    let b = Matrix::new(vec![1, 2, 3, 4], 2, 2);
    let _c = multiply(&a, &b).expect("Matrix multiply error");
}

fn naive(a: &Matrix, b: &Matrix) -> Vec<i64> {
    let mut out = vec![0i64; a.row() * b.col()];
    for i in 0..a.row() {
        for j in 0..b.col() {
            for k in 0..a.col() {
                out[i * b.col() + j] += a.data()[i * a.col() + k] * b.data()[k * b.col() + j];
            }
        }
    }
    out
}

fn filled(row: usize, col: usize, seed: i64) -> Matrix {
    let data: Vec<i64> = (0..row * col)
        .map(|k| ((k as i64) * 7 + seed) % 11 - 5)
        .collect();
    Matrix::new(data, row, col)
}

#[test]
fn product_shape_is_rows_by_cols() {
    let a = filled(3, 5, 1);
    let b = filled(5, 2, 2);
    let c = multiply(&a, &b).unwrap();
    assert_eq!(c.row(), 3);
    assert_eq!(c.col(), 2);
    assert_eq!(c.data().len(), 6);
}

#[test]
fn mismatched_shapes_give_dimension_mismatch() {
    let a = filled(2, 3, 0);
    let b = filled(2, 2, 0);
    assert_eq!(multiply(&a, &b).err(), Some(MatrixError::DimensionMismatch));
}

#[test]
fn product_matches_triple_loop() {
    let shapes = [(1, 1, 1), (2, 3, 4), (4, 1, 3), (5, 5, 5), (3, 0, 2), (0, 3, 2), (7, 2, 6)];
    for (seed, &(r, k, c)) in shapes.iter().enumerate() {
        let a = filled(r, k, seed as i64);
        let b = filled(k, c, seed as i64 + 3);
        let m = multiply(&a, &b).unwrap();
        assert_eq!(*m.data(), naive(&a, &b));
    }
}

#[test]
fn product_is_repeatable() {
    let a = filled(6, 4, 5);
    let b = filled(4, 3, 9);
    let first = multiply(&a, &b).unwrap();
    let second = multiply(&a, &b).unwrap();
    assert_eq!(first.data(), second.data());
    assert_eq!(first.row(), second.row());
    assert_eq!(first.col(), second.col());
}

#[test]
fn two_by_two_scenario() {
    let a = Matrix::new(vec![1, 2, 3, 4], 2, 2);
    let b = Matrix::new(vec![1, 2, 3, 4], 2, 2);
    let c = multiply(&a, &b).unwrap();
    assert_eq!(*c.data(), vec![7, 10, 15, 22]);
}

#[test]
fn display_of_known_product() {
    let a = Matrix::new(vec![1, 2, 3, 4, 5, 6], 2, 3);
    let b = Matrix::new(vec![1, 2, 3, 4, 5, 6], 3, 2);
    assert_eq!(multiply(&a, &b).unwrap().to_string(), "{22 28, 49 64}");
}

#[test]
fn display_of_negative_and_wide_values() {
    let m = Matrix::new(vec![-3, 0, 120, i64::MIN], 1, 4);
    assert_eq!(m.to_string(), "{-3 0 120 -9223372036854775808}");
    let n = Matrix::new(vec![1, 2, 3], 3, 1);
    assert_eq!(n.to_string(), "{1, 2, 3}");
    assert_eq!(n.to_debug_string(), "Matrix(row=3, col=1, {1, 2, 3})");
}

#[test]
fn display_of_empty_matrix() {
    let m = Matrix::new(vec![], 0, 0);
    assert_eq!(m.to_string(), "{}");
}

#[test]
fn many_products_side_by_side() {
    let mut pairs = Vec::new();
    for s in 0..32 {
        let a = filled(3 + s % 4, 4, s as i64);
        let b = filled(4, 2 + s % 3, s as i64 + 1);
        pairs.push((a, b));
    }
    let results: Vec<Vec<i64>> = pairs
        .iter()
        .map(|(a, b)| multiply(a, b).unwrap().data().clone())
        .collect();
    for ((a, b), got) in pairs.iter().zip(results.iter()) {
        assert_eq!(*got, naive(a, b));
    }
}

#[test]
fn dot_product_sums_products() {
    let r = dot_product(Vector::new(vec![1, 2, 3]), Vector::new(vec![4, 5, 6]));
    assert_eq!(r, Ok(32));
    let e = dot_product(Vector::new(vec![]), Vector::new(vec![]));
    assert_eq!(e, Ok(0));
}

#[test]
fn dot_product_rejects_lengths() {
    let r = dot_product(Vector::new(vec![1, 2]), Vector::new(vec![1]));
    assert_eq!(r, Err(MatrixError::DimensionMismatch));
}

#[test]
fn scatter_builds_row_major_tasks() {
    let a = Matrix::new(vec![1, 2, 3, 4, 5, 6], 2, 3);
    let b = Matrix::new(vec![1, 2, 3, 4, 5, 6], 3, 2);
    let tasks = scatter(&a, &b);
    assert_eq!(tasks.len(), 4);
    assert_eq!(tasks[1].idx, 1);
    assert_eq!(*tasks[1].row.data(), vec![1, 2, 3]);
    assert_eq!(*tasks[1].col.data(), vec![2, 4, 6]);
    assert_eq!(*tasks[2].row.data(), vec![4, 5, 6]);
    assert_eq!(*tasks[2].col.data(), vec![1, 3, 5]);
}

#[test]
fn tasks_go_round_robin() {
    assert_eq!(NUM_THREADS, 4);
    assert_eq!(worker_of(0), 0);
    assert_eq!(worker_of(5), 1);
    assert_eq!(worker_of(11), 3);
}

#[test]
fn worker_step_tags_its_result() {
    let t = MsgInput::new(7, Vector::new(vec![2, 3]), Vector::new(vec![4, -1]));
    let o = process(t).unwrap();
    assert_eq!(o.idx, 7);
    assert_eq!(o.value, 5);
    let bad = MsgInput::new(0, Vector::new(vec![2]), Vector::new(vec![]));
    assert_eq!(process(bad).err(), Some(MatrixError::DimensionMismatch));
}

#[test]
fn gather_rejects_out_of_order_replies() {
    let ok = vec![MsgOutput { idx: 0, value: 9 }, MsgOutput { idx: 1, value: 8 }];
    let m = gather(ok, 1, 2).unwrap();
    assert_eq!(*m.data(), vec![9, 8]);
    let swapped = vec![MsgOutput { idx: 1, value: 8 }, MsgOutput { idx: 0, value: 9 }];
    assert_eq!(gather(swapped, 1, 2).err(), Some(MatrixError::ReplyMismatch));
    let short = vec![MsgOutput { idx: 0, value: 9 }];
    assert_eq!(gather(short, 1, 2).err(), Some(MatrixError::ReplyMismatch));
}

#[test]
fn overflowing_products_are_refused() {
    let a = Matrix::new(vec![i64::MAX, 2], 1, 2);
    let b = Matrix::new(vec![1, 1], 2, 1);
    assert!(!can_multiply(&a, &b));
    let c = Matrix::new(vec![1, 2], 1, 2);
    assert!(can_multiply(&c, &b));
    assert!(!can_multiply(&c, &c));
}
