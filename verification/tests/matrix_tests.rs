use algo::matrix::assemble;
use algo::matrix::multiply;
use algo::matrix::plan_work;
use algo::matrix::process;
use algo::matrix::worker_for;
use algo::matrix::Matrix;
use algo::matrix::MsgOutput;
use algo::matrix::NUM_THREADS;
use algo::AlgoError;

#[test]
fn test_matrix_multiply() {
    let a = Matrix::new(vec![1, 2, 3, 4, 5, 6], 2, 3);
    let b = Matrix::new(vec![1, 2, 3, 4, 5, 6], 3, 2);
    let c = multiply(&a, &b).unwrap();
    assert!(c.col == 2 && c.row == 2);
    assert_eq!(c.data, vec![22, 28, 49, 64]);
}

#[test]
fn multiply_rejects_dimension_mismatch() {
    let a = Matrix::new(vec![1, 2, 3, 4, 5, 6], 2, 3);
    let b = Matrix::new(vec![1, 2, 3, 4], 2, 2);
    assert_eq!(multiply(&a, &b).unwrap_err(), AlgoError::DimensionMismatch);
}

#[test]
fn multiply_by_identity_returns_the_matrix() {
    let a = Matrix::new(vec![7, -3, 0, 2, 5, 11], 2, 3);
    let i3 = Matrix::new(vec![1, 0, 0, 0, 1, 0, 0, 0, 1], 3, 3);
    let c = multiply(&a, &i3).unwrap();
    assert_eq!(c.row, 2);
    assert_eq!(c.col, 3);
    assert_eq!(c.data, vec![7, -3, 0, 2, 5, 11]);
    let i2 = Matrix::new(vec![1, 0, 0, 1], 2, 2);
    let d = multiply(&i2, &a).unwrap();
    assert_eq!(d.data, vec![7, -3, 0, 2, 5, 11]);
}

#[test]
fn multiply_is_deterministic_across_calls() {
    let a = Matrix::new(vec![9, 8, 7, 6, 5, 4, 3, 2, 1], 3, 3);
    let b = Matrix::new(vec![-1, 2, -3, 4, -5, 6, -7, 8, -9], 3, 3);
    let c1 = multiply(&a, &b).unwrap();
    let c2 = multiply(&a, &b).unwrap();
    assert_eq!(c1.data, c2.data);
    assert_eq!(c1.row, c2.row);
    assert_eq!(c1.col, c2.col);
}

#[test]
fn assembly_ignores_completion_order() {
    let a = Matrix::new(vec![1, 2, 3, 4], 2, 2);
    let b = Matrix::new(vec![5, 6, 7, 8], 2, 2);
    let in_order = multiply(&a, &b).unwrap();
    // The same four results, arriving in a scrambled completion order.
    let scrambled = vec![
        Some(MsgOutput::new(3, in_order.data[3])),
        Some(MsgOutput::new(0, in_order.data[0])),
        Some(MsgOutput::new(2, in_order.data[2])),
        Some(MsgOutput::new(1, in_order.data[1])),
    ];
    let c = assemble(scrambled, 2, 2).unwrap();
    assert_eq!(c.data, in_order.data);
    assert_eq!(c.data, vec![19, 22, 43, 50]);
}

#[test]
fn assembly_fails_on_a_closed_channel() {
    let outputs = vec![Some(MsgOutput::new(0, 1)), None];
    assert_eq!(assemble(outputs, 1, 2).unwrap_err(), AlgoError::ChannelFailure);
}

#[test]
fn one_by_one_routes_through_one_worker() {
    assert_eq!(NUM_THREADS, 4);
    let a = Matrix::new(vec![3], 1, 1);
    let b = Matrix::new(vec![5], 1, 1);
    let items = plan_work(&a, &b);
    assert_eq!(items.len(), 1);
    assert_eq!(items[0].index, 0);
    assert_eq!(worker_for(items[0].index, NUM_THREADS), 0);
    let c = multiply(&a, &b).unwrap();
    assert_eq!(c.row, 1);
    assert_eq!(c.col, 1);
    assert_eq!(c.data, vec![15]);
}

#[test]
fn plan_work_enumerates_cells_row_major() {
    let a = Matrix::new(vec![1, 2, 3, 4, 5, 6], 2, 3);
    let b = Matrix::new(vec![1, 2, 3, 4, 5, 6], 3, 2);
    let items = plan_work(&a, &b);
    assert_eq!(items.len(), 4);
    for (k, item) in items.iter().enumerate() {
        assert_eq!(item.index, k);
        assert_eq!(item.row.len(), 3);
        assert_eq!(item.col.len(), 3);
    }
    // Cell (1, 0): row 1 of a, column 0 of b.
    assert_eq!(items[2].row.iter(), &vec![4, 5, 6]);
    assert_eq!(items[2].col.iter(), &vec![1, 3, 5]);
}

#[test]
fn process_computes_one_cell() {
    let a = Matrix::new(vec![1, 2, 3, 4, 5, 6], 2, 3);
    let b = Matrix::new(vec![1, 2, 3, 4, 5, 6], 3, 2);
    let mut items = plan_work(&a, &b);
    let out = process(items.remove(3)).unwrap();
    assert_eq!(out.index, 3);
    assert_eq!(out.value, 64);
}

#[test]
fn mul_method_matches_multiply() {
    let a = Matrix::new(vec![1, 2, 3, 4, 5, 6], 2, 3);
    let b = Matrix::new(vec![1, 2, 3, 4, 5, 6], 3, 2);
    let c = a.mul(b);
    assert_eq!(c.data, vec![22, 28, 49, 64]);
}

#[test]
fn display_renders_rows_in_brackets() {
    let m = Matrix::new(vec![1, 2, 3, 4], 2, 2);
    assert_eq!(m.to_display_string(), "[[1 2 ],\n[3 4 ]]");
    let single = Matrix::new(vec![5], 1, 1);
    assert_eq!(single.to_display_string(), "[[5 ]]");
    let negative = Matrix::new(vec![-7, 10], 1, 2);
    assert_eq!(negative.to_display_string(), "[[-7 10 ]]");
}

#[test]
fn empty_matrix_multiplies_to_empty() {
    let a = Matrix::new(vec![], 0, 0);
    let b = Matrix::new(vec![], 0, 0);
    let c = multiply(&a, &b).unwrap();
    assert_eq!(c.row, 0);
    assert_eq!(c.col, 0);
    assert_eq!(c.data, Vec::<i64>::new());
}
