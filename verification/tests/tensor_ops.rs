use whisburn_engine::tensor_ops::{gather_rows, transpose_linear_weight};

#[test]
fn gathers_requested_rows() {
    // 3 tokens, hidden 2: rows [0,1], [2,3], [4,5]
    let table = vec![0.0f32, 1.0, 2.0, 3.0, 4.0, 5.0];
    let out = gather_rows(&table, 3, 2, &[2, 0], 0.0f32);
    assert_eq!(out, vec![4.0, 5.0, 0.0, 1.0]);
}

#[test]
fn out_of_vocab_ids_are_clamped_and_empty_table_gives_zeros() {
    let table = vec![0.0f32, 1.0, 2.0, 3.0, 4.0, 5.0];
    assert_eq!(gather_rows(&table, 3, 2, &[-5, 9], 0.0f32), vec![0.0, 1.0, 4.0, 5.0]);
    assert_eq!(gather_rows(&[] as &[f32], 3, 2, &[1], 0.0f32), vec![0.0, 0.0]);
    // a table too short for the row: zeros
    assert_eq!(gather_rows(&table[..3], 3, 2, &[1], 0.0f32), vec![0.0, 0.0]);
}

#[test]
fn transposes_out_in_to_in_out() {
    // [out=2, in=3]
    let w = vec![1.0f32, 2.0, 3.0, 4.0, 5.0, 6.0];
    let (t, shape) = transpose_linear_weight(&w, &[2, 3]);
    assert_eq!(shape, [3, 2]);
    assert_eq!(t, vec![1.0, 4.0, 2.0, 5.0, 3.0, 6.0]);
}
