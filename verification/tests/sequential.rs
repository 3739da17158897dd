use par_vec_ops::elementwise::{vec_bin_op, vec_bin_op_2, vec_bin_op_mut};
use std::sync::atomic::{AtomicUsize, Ordering};

#[test]
fn eight_ones_added_sequentially() {
    let u = vec![1.0f64; 8];
    let v = vec![1.0f64; 8];
    let f = |x: f64, y: f64| x + y;
    assert_eq!(vec_bin_op(&u, &v, &f), vec![2.0f64; 8]);
    assert_eq!(vec_bin_op_2(&u, &v, &f), vec![2.0f64; 8]);
}

#[test]
fn kernel_applies_operands_in_order() {
    let u = [10.0f64, 20.0, 30.0];
    let v = [1.0f64, 2.0, 3.0];
    let f = |x: f64, y: f64| x - y;
    let mut dst = [0.0f64; 3];
    vec_bin_op_mut(&u, &v, &mut dst, &f);
    assert_eq!(dst, [9.0, 18.0, 27.0]);
    assert_eq!(vec_bin_op(&u, &v, &f), vec![9.0, 18.0, 27.0]);
    assert_eq!(vec_bin_op_2(&u, &v, &f), vec![9.0, 18.0, 27.0]);
}

#[test]
fn kernel_leaves_the_tail_of_a_longer_destination() {
    let u = [1.0f64, 2.0];
    let v = [3.0f64, 4.0, 5.0];
    let f = |x: f64, y: f64| x * y;
    let mut dst = [-1.0f64; 5];
    vec_bin_op_mut(&u, &v, &mut dst, &f);
    assert_eq!(dst, [3.0, 8.0, -1.0, -1.0, -1.0]);
}

#[test]
fn mismatched_lengths_truncate_to_the_shorter() {
    let u: Vec<f64> = (0..10).map(|i| i as f64).collect();
    let v: Vec<f64> = (0..7).map(|i| (i * 100) as f64).collect();
    let f = |x: f64, y: f64| x + y;
    let expected: Vec<f64> = (0..7).map(|i| (i + i * 100) as f64).collect();
    let out = vec_bin_op(&u, &v, &f);
    assert_eq!(out.len(), 7);
    assert_eq!(out, expected);
    let out2 = vec_bin_op_2(&u, &v, &f);
    assert_eq!(out2.len(), 7);
    assert_eq!(out2, expected);
    assert_eq!(vec_bin_op(&v, &u, &f), expected);
    assert_eq!(vec_bin_op_2(&v, &u, &f), expected);
}

#[test]
fn empty_input_gives_empty_output_without_calling_the_operation() {
    let calls = AtomicUsize::new(0);
    let f = |x: f64, y: f64| {
        calls.fetch_add(1, Ordering::SeqCst);
        x + y
    };
    let empty: Vec<f64> = Vec::new();
    let some = vec![1.0f64; 4];
    assert!(vec_bin_op(&empty, &empty, &f).is_empty());
    assert!(vec_bin_op(&empty, &some, &f).is_empty());
    assert!(vec_bin_op_2(&some, &empty, &f).is_empty());
    let mut dst = [7.0f64; 2];
    vec_bin_op_mut(&empty, &some, &mut dst, &f);
    assert_eq!(dst, [7.0, 7.0]);
    assert_eq!(calls.load(Ordering::SeqCst), 0);
}

#[test]
fn operation_is_called_once_per_position() {
    let calls = AtomicUsize::new(0);
    let f = |x: f64, y: f64| {
        calls.fetch_add(1, Ordering::SeqCst);
        x / y
    };
    let u = vec![8.0f64; 5];
    let v = vec![2.0f64; 9];
    assert_eq!(vec_bin_op(&u, &v, &f), vec![4.0f64; 5]);
    assert_eq!(calls.load(Ordering::SeqCst), 5);
    assert_eq!(vec_bin_op_2(&u, &v, &f), vec![4.0f64; 5]);
    assert_eq!(calls.load(Ordering::SeqCst), 10);
}

#[test]
fn works_on_integers_too() {
    let u = [1u32, 2, 3, 4];
    let v = [10u32, 20, 30, 40];
    let f = |x: u32, y: u32| x * 2 + y;
    assert_eq!(vec_bin_op(&u, &v, &f), vec![12, 24, 36, 48]);
}
