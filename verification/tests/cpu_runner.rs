use mpm_core::runners::cpu::CpuRunner;
use mpm_core::shared::{FloatBits, SortOrder};
use mpm_core::{verify_sorted, SortRunner};

fn float_bits(values: &[f32]) -> Vec<FloatBits> {
    values.iter().map(|x| FloatBits(x.to_bits())).collect()
}

fn floats(bits: &[FloatBits]) -> Vec<f32> {
    bits.iter().map(|b| f32::from_bits(b.0)).collect()
}

#[test]
fn cpu_test_bitonic_u32() {
    let runner = CpuRunner;
    let mut data = vec![42u32, 7, 999, 0, 13, 256, 128, 511];

    runner.sort(&mut data, SortOrder::Ascending).unwrap();
    assert!(verify_sorted(&data, SortOrder::Ascending));
    assert_eq!(data, vec![0, 7, 13, 42, 128, 256, 511, 999]);
}

#[test]
fn cpu_test_bitonic_i32() {
    let runner = CpuRunner;
    let mut data = vec![-42i32, 7, -999, 0, 13, -256, 128, -1];

    runner.sort(&mut data, SortOrder::Ascending).unwrap();
    assert!(verify_sorted(&data, SortOrder::Ascending));
    assert_eq!(data, vec![-999, -256, -42, -1, 0, 7, 13, 128]);
}

#[test]
fn cpu_test_bitonic_f32() {
    let runner = CpuRunner;
    let mut data = float_bits(&[3.14f32, -2.71, 0.0, -0.0, 1.41, -99.9, 42.0]);

    runner.sort(&mut data, SortOrder::Ascending).unwrap();
    assert!(verify_sorted(&data, SortOrder::Ascending));
    assert!(floats(&data).windows(2).all(|w| w[0] <= w[1]));
}

#[test]
fn cpu_test_bitonic_u32_descending() {
    let runner = CpuRunner;
    let mut data = vec![42u32, 7, 999, 0, 13, 256, 128, 511];

    runner.sort(&mut data, SortOrder::Descending).unwrap();
    assert!(verify_sorted(&data, SortOrder::Descending));
    assert_eq!(data, vec![999, 511, 256, 128, 42, 13, 7, 0]);
}

#[test]
fn cpu_test_bitonic_i32_descending() {
    let runner = CpuRunner;
    let mut data = vec![-42i32, 7, -999, 0, 13, -256, 128, -1];

    runner.sort(&mut data, SortOrder::Descending).unwrap();
    assert!(verify_sorted(&data, SortOrder::Descending));
    assert_eq!(data, vec![128, 13, 7, 0, -1, -42, -256, -999]);
}

#[test]
fn cpu_test_bitonic_f32_descending() {
    let runner = CpuRunner;
    let mut data = float_bits(&[3.14f32, -2.71, 0.0, -0.0, 1.41, -99.9, 42.0]);

    runner.sort(&mut data, SortOrder::Descending).unwrap();
    assert!(verify_sorted(&data, SortOrder::Descending));
    assert!(floats(&data).windows(2).all(|w| w[0] >= w[1]));
}

#[test]
fn sort_keeps_every_value_and_pads_odd_lengths() {
    let runner = CpuRunner;
    let mut data = vec![5u32, u32::MAX, 0, 5, 3];
    runner.sort(&mut data, SortOrder::Ascending).unwrap();
    assert_eq!(data, vec![0, 3, 5, 5, u32::MAX]);

    let mut data = vec![5u32, u32::MAX, 0, 5, 3];
    runner.sort(&mut data, SortOrder::Descending).unwrap();
    assert_eq!(data, vec![u32::MAX, 5, 5, 3, 0]);
}

#[test]
fn sort_leaves_short_data_alone() {
    let runner = CpuRunner;
    let mut empty: Vec<u32> = vec![];
    runner.sort(&mut empty, SortOrder::Ascending).unwrap();
    assert!(empty.is_empty());
    let mut one = vec![-7i32];
    runner.sort(&mut one, SortOrder::Descending).unwrap();
    assert_eq!(one, vec![-7]);
}

#[test]
fn verify_sorted_tells_orders_apart() {
    assert!(verify_sorted(&[1u32, 2, 2, 9], SortOrder::Ascending));
    assert!(!verify_sorted(&[1u32, 2, 2, 9], SortOrder::Descending));
    assert!(verify_sorted(&[9i32, 0, -3], SortOrder::Descending));
    assert!(!verify_sorted(&[9i32, -3, 0], SortOrder::Descending));
    let none: [u32; 0] = [];
    assert!(verify_sorted(&none, SortOrder::Ascending));
}

#[test]
fn cpu_backend_is_named() {
    let info = CpuRunner.backend_info();
    assert_eq!(info, ("cpu", Some("Native"), None, None));
}

fn scrambled(len: usize, seed: u32) -> Vec<u32> {
    let mut state = seed;
    (0..len)
        .map(|_| {
            state = state.wrapping_mul(1664525).wrapping_add(1013904223);
            state >> 24
        })
        .collect()
}

#[test]
fn sort_agrees_with_a_reference_sort_for_every_length() {
    let runner = CpuRunner;
    for len in 0..70 {
        let data = scrambled(len, len as u32 + 1);
        let mut expected = data.clone();
        expected.sort();

        let mut up = data.clone();
        runner.sort(&mut up, SortOrder::Ascending).unwrap();
        assert_eq!(up, expected);
        assert!(verify_sorted(&up, SortOrder::Ascending));

        expected.reverse();
        let mut down = data.clone();
        runner.sort(&mut down, SortOrder::Descending).unwrap();
        assert_eq!(down, expected);
        assert!(verify_sorted(&down, SortOrder::Descending));
    }
}

#[test]
fn sort_keeps_sentinel_values_that_are_data() {
    let runner = CpuRunner;
    let mut data = vec![u32::MAX, 0, u32::MAX, 0, 7];
    runner.sort(&mut data, SortOrder::Ascending).unwrap();
    assert_eq!(data, vec![0, 0, 7, u32::MAX, u32::MAX]);
    let mut data = vec![i32::MIN, i32::MAX, 0, i32::MIN, -1, 1];
    runner.sort(&mut data, SortOrder::Descending).unwrap();
    assert_eq!(data, vec![i32::MAX, 1, 0, -1, i32::MIN, i32::MIN]);
}

#[test]
fn sort_orders_floats_with_infinities_and_zeros() {
    let runner = CpuRunner;
    let values = [0.5f32, f32::INFINITY, -0.0, f32::NEG_INFINITY, 0.0, -7.25, 1e-40, -1e-40, 3.0];
    let mut data = float_bits(&values);
    runner.sort(&mut data, SortOrder::Ascending).unwrap();
    let sorted = floats(&data);
    assert_eq!(
        sorted.iter().map(|x| x.to_bits()).collect::<Vec<u32>>(),
        [f32::NEG_INFINITY, -7.25, -1e-40, -0.0, 0.0, 1e-40, 0.5, 3.0, f32::INFINITY]
            .iter()
            .map(|x| x.to_bits())
            .collect::<Vec<u32>>()
    );
}
