use basic_dsp::vector::{DataDomain, DspVec, ErrorReason};

fn complex_vec(data: Vec<f32>) -> DspVec<f32> {
    DspVec::new(data, 0.5, true, DataDomain::Time)
}

fn real_vec(data: Vec<f32>) -> DspVec<f32> {
    DspVec::new(data, 0.5, false, DataDomain::Time)
}

#[test]
fn points_of_complex_and_real_vectors() {
    assert_eq!(complex_vec(vec![1.0, 2.0, 3.0, 4.0, 5.0, 6.0]).points(), 3);
    assert_eq!(real_vec(vec![1.0, 2.0, 3.0, 4.0, 5.0, 6.0]).points(), 6);
    assert_eq!(complex_vec(vec![1.0, 2.0, 3.0]).points(), 1);
}

#[test]
fn to_real_keeps_real_parts() {
    let v = complex_vec(vec![1.0, 2.0, 3.0, 4.0, 5.0, 6.0]).to_real().unwrap();
    assert_eq!(v.data, vec![1.0, 3.0, 5.0]);
    assert!(!v.is_complex);
    assert_eq!(v.delta, 0.5);
    assert_eq!(v.domain, DataDomain::Time);
}

#[test]
fn to_imag_keeps_imaginary_parts() {
    let v = complex_vec(vec![1.0, 2.0, 3.0, 4.0, 5.0, 6.0]).to_imag().unwrap();
    assert_eq!(v.data, vec![2.0, 4.0, 6.0]);
    assert!(!v.is_complex);
}

#[test]
fn to_real_of_odd_length_drops_the_last_value() {
    let v = complex_vec(vec![1.0, 2.0, 3.0]).to_real().unwrap();
    assert_eq!(v.data, vec![1.0]);
}

#[test]
fn to_real_refuses_real_vector() {
    match real_vec(vec![1.0, 2.0]).to_real() {
        Err((reason, v)) => {
            assert_eq!(reason, ErrorReason::VectorMustBeComplex);
            assert_eq!(v.data, vec![1.0, 2.0]);
            assert!(!v.is_complex);
        }
        Ok(_) => panic!("a real vector has no real parts to take"),
    }
}

#[test]
fn to_imag_refuses_real_vector() {
    assert!(matches!(real_vec(vec![1.0]).to_imag(), Err((ErrorReason::VectorMustBeComplex, _))));
}

#[test]
fn get_real_and_get_imag_fill_destination() {
    let v = DspVec::new(vec![1.0f32, 2.0, 3.0, 4.0], 0.25, true, DataDomain::Frequency);
    let mut dest = DspVec::new(vec![9.0f32; 7], 1.0, true, DataDomain::Time);
    assert_eq!(v.get_real(&mut dest), Ok(()));
    assert_eq!(dest.data, vec![1.0, 3.0]);
    assert!(!dest.is_complex);
    assert_eq!(dest.delta, 0.25);
    assert_eq!(dest.domain, DataDomain::Time);
    assert_eq!(v.get_imag(&mut dest), Ok(()));
    assert_eq!(dest.data, vec![2.0, 4.0]);
}

#[test]
fn get_real_refuses_real_vector_and_keeps_destination() {
    let v = real_vec(vec![1.0, 2.0]);
    let mut dest = complex_vec(vec![7.0, 8.0]);
    assert_eq!(v.get_real(&mut dest), Err(ErrorReason::VectorMustBeComplex));
    assert_eq!(dest.data, vec![7.0, 8.0]);
    assert!(dest.is_complex);
    assert_eq!(v.get_imag(&mut dest), Err(ErrorReason::VectorMustBeComplex));
    assert_eq!(dest.data, vec![7.0, 8.0]);
}

#[test]
fn get_real_imag_splits_and_set_real_imag_joins() {
    let v = complex_vec(vec![1.0, -1.0, 2.0, -2.0, 3.0, -3.0]);
    let mut re = real_vec(Vec::new());
    let mut im = real_vec(Vec::new());
    assert_eq!(v.get_real_imag(&mut re, &mut im), Ok(()));
    assert_eq!(re.data, vec![1.0, 2.0, 3.0]);
    assert_eq!(im.data, vec![-1.0, -2.0, -3.0]);
    let joined = complex_vec(Vec::new()).set_real_imag(&re, &im).unwrap();
    assert_eq!(joined.data, v.data);
    assert!(joined.is_complex);
}

#[test]
fn set_real_imag_refuses_different_lengths() {
    let re = real_vec(vec![1.0, 2.0]);
    let im = real_vec(vec![1.0]);
    match complex_vec(vec![5.0, 6.0]).set_real_imag(&re, &im) {
        Err((reason, v)) => {
            assert_eq!(reason, ErrorReason::InvalidArgumentLength);
            assert_eq!(v.data, vec![5.0, 6.0]);
        }
        Ok(_) => panic!("lengths differ"),
    }
}

#[test]
fn set_real_imag_keeps_meta_data() {
    let re = real_vec(vec![1.0]);
    let im = real_vec(vec![2.0]);
    let v = DspVec::new(Vec::new(), 3.0f32, false, DataDomain::Frequency).set_real_imag(&re, &im).unwrap();
    assert_eq!(v.data, vec![1.0, 2.0]);
    assert!(!v.is_complex);
    assert_eq!(v.delta, 3.0);
    assert_eq!(v.domain, DataDomain::Frequency);
}

#[test]
fn dot_product_checks_meta_data() {
    let a = complex_vec(vec![1.0, 2.0]);
    let b = complex_vec(vec![3.0, 4.0]);
    let r = real_vec(vec![3.0, 4.0]);
    let f = DspVec::new(vec![3.0f32, 4.0], 0.5, true, DataDomain::Frequency);
    let mac = |acc: f32, ar: f32, _ai: f32, br: f32, _bi: f32| acc + ar * br;
    assert!(a.complex_dot_product(&b, 0.0, mac).is_ok());
    assert_eq!(r.complex_dot_product(&b, 0.0, mac), Err(ErrorReason::VectorMustBeComplex));
    assert_eq!(r.complex_dot_product(&r, 0.0, mac), Err(ErrorReason::VectorMustBeComplex));
    assert_eq!(a.complex_dot_product(&r, 0.0, mac), Err(ErrorReason::VectorMetaDataMustAgree));
    assert_eq!(a.complex_dot_product(&f, 0.0, mac), Err(ErrorReason::VectorMetaDataMustAgree));
}

#[test]
fn dot_product_sums_complex_products() {
    let a = complex_vec(vec![1.0, 2.0, 3.0, -1.0]);
    let b = complex_vec(vec![2.0, 0.0, 1.0, 1.0, 9.0, 9.0]);
    // (1 + 2i)(2 + 0i) + (3 - i)(1 + i) = (2 + 4i) + (4 + 2i)
    let r = a.complex_dot_product(&b, (0.0f32, 0.0f32), |acc, ar, ai, br, bi| {
        (acc.0 + ar * br - ai * bi, acc.1 + ar * bi + ai * br)
    });
    assert_eq!(r, Ok((6.0, 6.0)));
}

#[test]
fn mag_phase_round_trip() {
    let v = complex_vec(vec![3.0, 4.0, 0.0, 2.0]);
    let mut mag = real_vec(Vec::new());
    let mut phase = real_vec(Vec::new());
    let to_polar = |re: f32, im: f32| ((re * re + im * im).sqrt(), im.atan2(re));
    assert_eq!(v.get_mag_phase(&mut mag, &mut phase, to_polar), Ok(()));
    assert_eq!(mag.data, vec![5.0, 2.0]);
    assert_eq!(phase.data[1], std::f32::consts::FRAC_PI_2);
    assert!(!mag.is_complex);
    let from_polar = |m: f32, p: f32| (m * p.cos(), m * p.sin());
    let back = complex_vec(Vec::new()).set_mag_phase(&mag, &phase, from_polar).unwrap();
    assert_eq!(back.data.len(), 4);
    for (x, y) in back.data.iter().zip(v.data.iter()) {
        assert!((x - y).abs() < 1e-5);
    }
}

#[test]
fn set_mag_phase_refuses_different_lengths() {
    let mag = real_vec(vec![1.0]);
    let phase = real_vec(vec![]);
    match complex_vec(vec![1.0, 1.0]).set_mag_phase(&mag, &phase, |m, p| (m, p)) {
        Err((reason, v)) => {
            assert_eq!(reason, ErrorReason::InvalidArgumentLength);
            assert_eq!(v.data, vec![1.0, 1.0]);
        }
        Ok(_) => panic!("lengths differ"),
    }
}

#[test]
fn magnitude_through_map_complex_to_real() {
    let v = complex_vec(vec![3.0, 4.0, 0.0, -2.0]).map_complex_to_real(|re, im| (re * re + im * im).sqrt()).unwrap();
    assert_eq!(v.data, vec![5.0, 2.0]);
    assert!(!v.is_complex);
    assert_eq!(v.delta, 0.5);
}

#[test]
fn map_complex_to_real_refuses_real_vector() {
    assert!(matches!(
        real_vec(vec![3.0, 4.0]).map_complex_to_real(|re, _im| re),
        Err((ErrorReason::VectorMustBeComplex, _))
    ));
}

#[test]
fn get_mapped_complex_fills_destination() {
    let v = DspVec::new(vec![3.0f32, 4.0, 6.0, 8.0], 2.0, true, DataDomain::Time);
    let mut dest = complex_vec(vec![1.0]);
    assert_eq!(v.get_mapped_complex(&mut dest, |re, im| re * re + im * im), Ok(()));
    assert_eq!(dest.data, vec![25.0, 100.0]);
    assert!(!dest.is_complex);
    assert_eq!(dest.delta, 2.0);
    let r = real_vec(vec![1.0, 2.0]);
    let mut kept = complex_vec(vec![1.0, 1.0]);
    assert_eq!(r.get_mapped_complex(&mut kept, |re, _im| re), Err(ErrorReason::VectorMustBeComplex));
    assert_eq!(kept.data, vec![1.0, 1.0]);
}

#[test]
fn offset_through_map_complex() {
    let v = complex_vec(vec![1.0, 2.0, 3.0, 4.0]).map_complex(|re, im| (re + 10.0, im - 1.0)).unwrap();
    assert_eq!(v.data, vec![11.0, 1.0, 13.0, 3.0]);
    assert!(v.is_complex);
    assert!(matches!(
        real_vec(vec![1.0, 2.0]).map_complex(|re, im| (re, im)),
        Err((ErrorReason::VectorMustBeComplex, _))
    ));
}

#[test]
fn decimatei_test() {
    let mut time = complex_vec(vec![0.0, 1.0, 2.0, 3.0, 4.0, 5.0, 6.0, 7.0, 8.0, 9.0, 10.0, 11.0]);
    time.decimatei(2, 1);
    assert_eq!(time.data, vec![2.0, 3.0, 6.0, 7.0, 10.0, 11.0]);
    assert!(time.is_complex);
    assert_eq!(time.delta, 0.5);
}

#[test]
fn decimatei_of_real_vector() {
    let mut time = real_vec(vec![0.0, 1.0, 2.0, 3.0, 4.0, 5.0, 6.0]);
    time.decimatei(3, 0);
    assert_eq!(time.data, vec![0.0, 3.0, 6.0]);
    let mut late = real_vec(vec![0.0, 1.0]);
    late.decimatei(1, 5);
    assert!(late.data.is_empty());
}

#[test]
fn conjugation_keeps_a_lone_last_value() {
    let v = complex_vec(vec![1.0, 2.0, 3.0, 4.0, 5.0]).map_complex(|re, im| (re, -im)).unwrap();
    assert_eq!(v.data, vec![1.0, -2.0, 3.0, -4.0, 5.0]);
}
