use basic_dsp::interpolation::{
    impulse_response_layout, impulse_responses, interpolate_scalar, interpolate_simd_steps,
    scalar_step_window, simd_selection, simd_step_taps, InterpolationPath,
    SIMD_MAX_CONV_LEN, SIMD_MIN_NEW_LEN,
};
use basic_dsp::vector::{DataDomain, DspVec};

fn assert_eq_tol(left: &[f32], right: &[f32], tol: f32) {
    assert_eq!(left.len(), right.len());
    for i in 0..left.len() {
        if (left[i] - right[i]).abs() > tol {
            panic!("assertion failed: {:?} != {:?} at index {}", left, right, i);
        }
    }
}

fn sinc(x: f32) -> f32 {
    if x == 0.0 {
        1.0
    } else {
        let arg = x * std::f32::consts::PI;
        arg.sin() / arg
    }
}

/// `interpolatef` on the scalar paths with a sinc impulse response: the
/// library plans and interpolates, the float positions and weights are
/// computed here. Returns the interpolated vector.
fn interpolatef_sinc(time: DspVec<f32>, factor: f32, delay: f32, conv_len: usize) -> DspVec<f32> {
    let delay = delay / time.delta;
    let rounded_new_len = (time.len() as f32 * factor).round() as usize;
    let integral = if (factor.round() - factor).abs() < 1e-6 { Some(factor.round() as usize) } else { None };
    let plan = time.plan_interpolatef(conv_len, rounded_new_len, integral);
    assert!(!matches!(plan.path, InterpolationPath::Simd { .. }));
    let step = if time.is_complex { 2 } else { 1 };
    let rounded: Vec<isize> =
        (0..plan.new_len / step).map(|i| (i as f32 / factor).floor() as isize).collect();
    let c = plan.conv_len;
    let tap = |acc: f32, sample: f32, i: usize, k: usize| {
        let center = i as f32 / factor;
        let j = -(c as f32) - (center - center.floor()) + delay + k as f32;
        acc + sample * sinc(j)
    };
    time.interpolate_with_plan(plan, &rounded, &Vec::new(), 0.0, tap, |acc, x, w| acc + x * w)
}

fn magnitude(v: DspVec<f32>) -> Vec<f32> {
    v.map_complex_to_real(|re, im| (re * re + im * im).sqrt()).unwrap().data
}

#[test]
fn interpolatef_sinc_test() {
    let len = 6;
    let mut data = vec![0.0; 2 * len];
    data[len] = 1.0;
    let time = DspVec::new(data, 1.0, true, DataDomain::Time);
    let result = magnitude(interpolatef_sinc(time, 2.0, 0.0, len));
    let expected = [
        0.00000, 0.04466, 0.00000, 0.16667, 0.00000, 0.62201, 1.00000, 0.62201, 0.00000, 0.16667,
        0.00000, 0.04466,
    ];
    assert_eq_tol(&result[..], &expected, 0.1);
}

#[test]
fn interpolatef_delayed_sinc_test() {
    let len = 6;
    let mut data = vec![0.0; 2 * len];
    data[len] = 1.0;
    let time = DspVec::new(data, 1.0, true, DataDomain::Time);
    let result = magnitude(interpolatef_sinc(time, 2.0, 1.0, len));
    let expected = [
        0.00000, 0.00000, 0.00000, 0.04466, 0.00000, 0.16667, 0.00000, 0.62201, 1.00000, 0.62201,
        0.00000, 0.16667,
    ];
    assert_eq_tol(&result[..], &expected, 0.1);
}

fn vector(len: usize, is_complex: bool) -> DspVec<f32> {
    DspVec::new(vec![0.0; len], 1.0, is_complex, DataDomain::Time)
}

#[test]
fn plan_limits_conv_len_to_half_the_points() {
    let plan = vector(12, true).plan_interpolatef(6, 24, Some(2));
    assert_eq!(plan.conv_len, 3);
    assert_eq!(plan.new_len, 24);
    assert_eq!(plan.path, InterpolationPath::ComplexScalar);
    assert_eq!(vector(12, false).plan_interpolatef(6, 24, Some(2)).conv_len, 6);
    assert_eq!(vector(12, false).plan_interpolatef(2, 24, Some(2)).conv_len, 2);
}

#[test]
fn plan_makes_the_length_even() {
    assert_eq!(vector(7, false).plan_interpolatef(1, 11, None).new_len, 12);
    assert_eq!(vector(7, false).plan_interpolatef(1, 10, None).new_len, 10);
}

#[test]
fn plan_real_scalar_path() {
    let plan = vector(10, false).plan_interpolatef(2, 15, None);
    assert_eq!(plan.path, InterpolationPath::RealScalar);
    assert_eq!(plan.new_len, 16);
    assert_eq!(plan.conv_len, 2);
}

#[test]
fn interpolatef_real_sinc() {
    let time = DspVec::new(vec![0.0f32, 0.0, 0.0, 1.0, 0.0, 0.0], 1.0, false, DataDomain::Time);
    let v = interpolatef_sinc(time, 2.0, 0.0, 3);
    assert_eq!(v.len(), 12);
    assert!(!v.is_complex);
    assert!((v.data[6] - 1.0).abs() < 1e-4);
    assert!((v.data[5] - 0.63662).abs() < 1e-4);
    assert!((v.data[7] - 0.63662).abs() < 1e-4);
    for i in [0, 2, 4, 8, 10] {
        assert!(v.data[i].abs() < 1e-4);
    }
}

#[test]
fn interpolatef_of_empty_vector() {
    let time = DspVec::new(Vec::new(), 1.0f32, false, DataDomain::Time);
    let v = interpolatef_sinc(time, 2.0, 0.0, 3);
    assert!(v.data.is_empty());
}

#[test]
fn interpolate_with_plan_on_simd_path() {
    let data: Vec<i64> = (1..=12).collect();
    let time = DspVec::new(data, 1, true, DataDomain::Time);
    let plan = time.plan_interpolatef(1, 2000, Some(2));
    assert_eq!(plan.path, InterpolationPath::Simd { factor: 2 });
    let vectors = impulse_responses(2, plan.conv_len, true, 0i64, |shift, k| (shift * 10 + k) as i64);
    let v = time.interpolate_with_plan(plan, &Vec::new(), &vectors, 0, |acc, _x, _i, _k| acc, |acc, x, w| acc + x * w);
    assert_eq!(v.len(), 2000);
    assert!(v.is_complex);
    // point 0: response 0 (weights 0, 1, 2) over points 0, 1, 2 of 6
    assert_eq!((v.data[0], v.data[1]), (0 * 1 + 1 * 3 + 2 * 5, 0 * 2 + 1 * 4 + 2 * 6));
    // point 1: response 1 (weights 10, 11, 12) over the same points
    assert_eq!((v.data[2], v.data[3]), (10 * 1 + 11 * 3 + 12 * 5, 10 * 2 + 11 * 4 + 12 * 6));
    // point 999: response 1 over points 1, 2, 3 (499 - 1 + 1 wraps to 1)
    assert_eq!((v.data[1998], v.data[1999]), (10 * 3 + 11 * 5 + 12 * 7, 10 * 4 + 11 * 6 + 12 * 8));
}

#[test]
fn impulse_responses_per_shift() {
    let r = impulse_responses(3, 1, false, 0i64, |shift, k| (shift * 100 + k) as i64);
    assert_eq!(r, vec![vec![0, 1, 2], vec![100, 101, 102], vec![200, 201, 202]]);
    let c = impulse_responses(1, 0, true, -1i64, |shift, k| (shift + k) as i64 + 5);
    assert_eq!(c, vec![vec![5, -1]]);
}

#[test]
fn plan_takes_simd_path_for_long_results() {
    let plan = vector(1000, true).plan_interpolatef(10, SIMD_MIN_NEW_LEN, Some(2));
    assert_eq!(plan.path, InterpolationPath::Simd { factor: 2 });
    let short = vector(1000, true).plan_interpolatef(10, SIMD_MIN_NEW_LEN - 2, Some(2));
    assert_eq!(short.path, InterpolationPath::ComplexScalar);
    let fractional = vector(1000, false).plan_interpolatef(10, 2500, None);
    assert_eq!(fractional.path, InterpolationPath::RealScalar);
    let long_conv = vector(1000, false).plan_interpolatef(SIMD_MAX_CONV_LEN + 1, 4000, Some(4));
    assert_eq!(long_conv.path, InterpolationPath::RealScalar);
    let longest_conv = vector(1000, false).plan_interpolatef(SIMD_MAX_CONV_LEN, 4000, Some(4));
    assert_eq!(longest_conv.path, InterpolationPath::Simd { factor: 4 });
}

#[test]
fn impulse_layout_of_real_and_complex_vectors() {
    assert_eq!(impulse_response_layout(&vec![1.0f32, 2.0, 3.0], 0.0, false), vec![1.0, 2.0, 3.0]);
    assert_eq!(
        impulse_response_layout(&vec![1.0f32, 2.0, 3.0], 0.0, true),
        vec![1.0, 0.0, 2.0, 0.0, 3.0, 0.0]
    );
}

#[test]
fn scalar_window_is_centered_on_the_rounded_position() {
    assert_eq!(scalar_step_window(3, 3, 6), vec![0, 1, 2, 3, 4, 5, 0]);
    assert_eq!(scalar_step_window(0, 3, 6), vec![3, 4, 5, 0, 1, 2, 3]);
    assert_eq!(scalar_step_window(4, 1, 6), vec![3, 4, 5]);
}

#[test]
fn simd_step_taps_for_complex_data() {
    let taps = simd_step_taps(7, 2, 1, 5, true);
    assert_eq!(taps.vector, 1);
    assert_eq!(taps.data, vec![3, 4, 0]);
    assert_eq!(taps.coefficients, vec![0, 2, 4]);
    let real_taps = simd_step_taps(0, 3, 2, 10, false);
    assert_eq!(real_taps.vector, 0);
    assert_eq!(real_taps.data, vec![9, 0, 1, 2, 3]);
    assert_eq!(real_taps.coefficients, vec![0, 1, 2, 3, 4]);
}

#[test]
fn simd_selection_values() {
    let s = simd_selection(5, 2, 3, 4);
    assert_eq!(s.selection, 6);
    assert_eq!(s.simd_end, 2);
    let t = simd_selection(6, 2, 3, 4);
    assert_eq!(t.selection, 2);
    assert_eq!(t.simd_end, 2);
    let u = simd_selection(0, 3, 0, 2);
    assert_eq!(u.selection, 0);
    assert_eq!(u.simd_end, 0);
}

#[test]
fn simd_selection_stays_below_the_number_of_shifts() {
    for i in 0..50 {
        for factor in 1..5 {
            let s = simd_selection(i, factor, 3, 4);
            assert!(s.selection < factor * 4);
        }
    }
}

#[test]
fn scalar_interpolation_sums_over_wrapped_windows() {
    let data = vec![1i64, 10, 100, 1000];
    let rounded = vec![0isize, 2, 3];
    let r = interpolate_scalar(&data, &rounded, 1, 0i64, |acc, x, i, k| acc + x * (k as i64 + 1) + i as i64);
    // output 0 reads positions 3, 0, 1; output 1 reads 1, 2, 3; output 2 reads 2, 3, 0
    assert_eq!(r, vec![1000 + 2 * 1 + 3 * 10, 10 + 2 * 100 + 3 * 1000 + 3, 100 + 2 * 1000 + 3 * 1 + 6]);
}

#[test]
fn scalar_interpolation_of_no_outputs() {
    let r = interpolate_scalar(&vec![1i64], &Vec::new(), 2, 0i64, |acc, x, _i, _k| acc + x);
    assert!(r.is_empty());
}

#[test]
fn simd_steps_weight_with_the_selected_response() {
    let data = vec![1i64, 2, 3, 4, 5];
    // two complex impulse responses of three taps, interleaved with zeros
    let vectors = vec![vec![1i64, 0, 10, 0, 100, 0], vec![2i64, 0, 20, 0, 200, 0]];
    let r = interpolate_simd_steps(&data, 6, 3, 2, 1, &vectors, true, 0i64, |acc, x, w| acc + x * w);
    // output 6: response 0, positions 3, 4, 0
    // output 7: response 1, positions 3, 4, 0
    // output 8: response 0, positions 4, 0, 1
    assert_eq!(
        r,
        vec![4 + 5 * 10 + 100, 4 * 2 + 5 * 20 + 200, 5 + 10 + 2 * 100]
    );
}

#[test]
fn simd_steps_on_real_data() {
    let data = vec![1i64, 2, 3];
    let vectors = vec![vec![1i64, 1, 1]];
    let r = interpolate_simd_steps(&data, 0, 3, 1, 1, &vectors, false, 0i64, |acc, x, w| acc + x * w);
    assert_eq!(r, vec![6, 6, 6]);
}
