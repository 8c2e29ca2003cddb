use basic_dsp::layout::{sample_step, vectorization_split};

#[test]
fn step_of_complex_and_real_samples() {
    assert_eq!(sample_step(true), 2);
    assert_eq!(sample_step(false), 1);
}

#[test]
fn split_into_registers_and_rest() {
    assert_eq!(vectorization_split(10, 4), (2, 8));
    assert_eq!(vectorization_split(8, 4), (0, 8));
    assert_eq!(vectorization_split(3, 4), (3, 0));
    assert_eq!(vectorization_split(0, 2), (0, 0));
}
