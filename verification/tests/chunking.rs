use par_vec_ops::chunking::{chunk_size_with, get_chunk_size};

#[test]
fn short_input_is_one_chunk() {
    assert_eq!(chunk_size_with(3, 3, 4), 3);
    assert_eq!(chunk_size_with(1, 1, 8), 1);
    assert_eq!(chunk_size_with(0, 0, 4), 0);
}

#[test]
fn length_equal_to_units_is_one_chunk() {
    assert_eq!(chunk_size_with(4, 4, 4), 4);
    assert_eq!(chunk_size_with(1, 1, 1), 1);
}

#[test]
fn long_input_is_divided_by_units_rounding_down() {
    assert_eq!(chunk_size_with(16000, 16000, 4), 4000);
    assert_eq!(chunk_size_with(10, 10, 3), 3);
    assert_eq!(chunk_size_with(5, 5, 4), 1);
    assert_eq!(chunk_size_with(9, 9, 1), 9);
    assert_eq!(chunk_size_with(usize::MAX, usize::MAX, 2), usize::MAX / 2);
}

#[test]
fn only_the_shorter_length_counts() {
    assert_eq!(chunk_size_with(10, 7, 4), 1);
    assert_eq!(chunk_size_with(7, 10, 4), 1);
    assert_eq!(chunk_size_with(100, 3, 4), 3);
    assert_eq!(chunk_size_with(3, 100, 4), 3);
    assert_eq!(chunk_size_with(0, 100, 4), 0);
}

#[test]
fn advice_is_repeatable() {
    for len in [0usize, 1, 7, 8, 9, 1000, 16000] {
        for units in [1usize, 2, 4, 8, 64] {
            assert_eq!(chunk_size_with(len, len, units), chunk_size_with(len, len, units));
        }
    }
    let u = vec![1.0f64; 1000];
    let v = vec![1.0f64; 1000];
    assert_eq!(get_chunk_size(&u, &v), get_chunk_size(&u, &v));
}

#[test]
fn machine_advice_follows_the_reported_unit_count() {
    let units = num_cpus::get();
    assert!(units >= 1);
    for len in [0usize, 1, 2, 3, 64, 1000, 16000] {
        let u = vec![0.0f64; len];
        let v = vec![0.0f64; len + 5];
        let chunk = get_chunk_size(&u, &v);
        assert_eq!(chunk, chunk_size_with(len, len + 5, units));
        assert!(chunk <= len);
        if len >= 1 {
            assert!(chunk >= 1);
        }
        if len > units {
            assert_eq!(chunk, len / units);
        } else {
            assert_eq!(chunk, len);
        }
    }
}

#[test]
fn machine_advice_on_other_element_types() {
    let u = [1u8, 2, 3];
    let v = [4u8];
    assert_eq!(get_chunk_size(&u, &v), 1);
    let e: [u8; 0] = [];
    assert_eq!(get_chunk_size(&e, &u), 0);
}
