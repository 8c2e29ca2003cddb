use basic_dsp::wrapping::{first_wrapped_position, wrapping_window};

#[test]
fn first_position_steps_forward() {
    assert_eq!(first_wrapped_position(0, 6), 1);
    assert_eq!(first_wrapped_position(5, 6), 0);
    assert_eq!(first_wrapped_position(-1, 6), 0);
    assert_eq!(first_wrapped_position(-2, 6), 5);
    assert_eq!(first_wrapped_position(-13, 6), 0);
    assert_eq!(first_wrapped_position(-14, 6), 5);
    assert_eq!(first_wrapped_position(20, 6), 3);
}

#[test]
fn window_wraps_past_the_end() {
    assert_eq!(wrapping_window(3, 5, 6), vec![4, 5, 0, 1, 2]);
}

#[test]
fn window_wraps_before_the_start() {
    assert_eq!(wrapping_window(-4, 7, 6), vec![3, 4, 5, 0, 1, 2, 3]);
}

#[test]
fn window_longer_than_buffer() {
    assert_eq!(wrapping_window(0, 7, 3), vec![1, 2, 0, 1, 2, 0, 1]);
}

#[test]
fn window_is_periodic_in_its_start() {
    for pos in -20i128..20 {
        assert_eq!(wrapping_window(pos, 9, 4), wrapping_window(pos + 4, 9, 4));
    }
}

#[test]
fn window_of_single_value_buffer() {
    assert_eq!(wrapping_window(-7, 3, 1), vec![0, 0, 0]);
}

#[test]
fn empty_window() {
    assert_eq!(wrapping_window(2, 0, 5), Vec::<usize>::new());
}
