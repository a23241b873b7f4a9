use face_registry::encoding::EncodingError;
use face_registry::FaceEncoding;

fn bits_vec(values: &[f64]) -> Vec<u64> {
    values.iter().map(|v| v.to_bits()).collect()
}

#[test]
fn encoding_test() {
    let encoding_a = FaceEncoding::new_from_scalar(0.0f64.to_bits());
    let encoding_b = FaceEncoding::new_from_scalar(1.0f64.to_bits());

    assert_eq!(encoding_a, encoding_a);
    assert_ne!(encoding_a, encoding_b);

    assert_eq!(encoding_a.distance(&encoding_b), 128.0_f64.sqrt().to_bits());
}

#[test]
fn distance_to_self_is_zero() {
    let values: Vec<f64> = (0..128).map(|i| (i as f64) * 0.37 - 11.5).collect();
    let e = FaceEncoding::from_vec(bits_vec(&values)).unwrap();
    assert_eq!(e.distance(&e), 0u64);
    assert_eq!(f64::from_bits(e.distance(&e)), 0.0);
}

#[test]
fn distance_is_symmetric() {
    let a_values: Vec<f64> = (0..128).map(|i| 0.1 * (i as f64)).collect();
    let b_values: Vec<f64> = (0..128).map(|i| 0.3 * ((127 - i) as f64) - 4.25).collect();
    let a = FaceEncoding::from_vec(bits_vec(&a_values)).unwrap();
    let b = FaceEncoding::from_vec(bits_vec(&b_values)).unwrap();
    assert_eq!(a.distance(&b), b.distance(&a));
}

#[test]
fn distance_zero_to_one_vector() {
    let zeros = FaceEncoding::from_vec(bits_vec(&[0.0; 128])).unwrap();
    let ones = FaceEncoding::from_vec(bits_vec(&[1.0; 128])).unwrap();
    assert_eq!(zeros.distance(&ones), 128.0f64.sqrt().to_bits());
    assert_eq!(ones.distance(&zeros), 128.0f64.sqrt().to_bits());
}

#[test]
fn distance_matches_hardware_arithmetic() {
    let a_values: Vec<f64> = (0..128).map(|i| (i as f64) * 0.125 - 3.0).collect();
    let b_values: Vec<f64> = (0..128).map(|i| ((i * i) as f64) * 0.01 + 0.5).collect();
    let mut acc = 0.0f64;
    for i in 0..128 {
        let d = a_values[i] - b_values[i];
        acc += d * d;
    }
    let expected = acc.sqrt().to_bits();

    let a = FaceEncoding::from_vec(bits_vec(&a_values)).unwrap();
    let b = FaceEncoding::from_vec(bits_vec(&b_values)).unwrap();
    assert_eq!(a.distance(&b), expected);
}

#[test]
fn distance_with_nan_is_nan() {
    let mut values = [1.0f64; 128];
    values[17] = f64::NAN;
    let bad = FaceEncoding::from_vec(bits_vec(&values)).unwrap();
    let probe = FaceEncoding::new_from_scalar(1.0f64.to_bits());
    assert!(f64::from_bits(bad.distance(&probe)).is_nan());
}

#[test]
fn from_vec_rejects_wrong_length() {
    assert_eq!(
        FaceEncoding::from_vec(vec![0u64; 127]),
        Err(EncodingError::InvalidLength)
    );
    assert_eq!(
        FaceEncoding::from_vec(vec![0u64; 129]),
        Err(EncodingError::InvalidLength)
    );
    assert_eq!(FaceEncoding::from_vec(Vec::new()), Err(EncodingError::InvalidLength));
    assert!(FaceEncoding::from_vec(vec![0u64; 128]).is_ok());
}

#[test]
fn values_round_trip() {
    let raw: Vec<f64> = (0..128).map(|i| (i as f64).sin()).collect();
    let e = FaceEncoding::from_vec(bits_vec(&raw)).unwrap();
    let exposed = e.values();
    assert_eq!(exposed.len(), 128);
    assert_eq!(e.get(5), raw[5].to_bits());
    let rebuilt = FaceEncoding::from_vec(exposed).unwrap();
    assert_eq!(rebuilt.values(), e.values());
    assert_eq!(rebuilt, e);
}

#[test]
fn equality_is_nan_sensitive() {
    let mut values = [2.5f64; 128];
    values[3] = f64::NAN;
    let with_nan = FaceEncoding::from_vec(bits_vec(&values)).unwrap();
    assert_ne!(with_nan, with_nan.clone());

    let plain = FaceEncoding::new_from_scalar(2.5f64.to_bits());
    assert_eq!(plain, plain.clone());
}

#[test]
fn equality_treats_signed_zeros_equal() {
    let pos = FaceEncoding::new_from_scalar(0.0f64.to_bits());
    let neg = FaceEncoding::new_from_scalar((-0.0f64).to_bits());
    assert_eq!(pos, neg);
}

#[test]
fn new_is_zero_vector() {
    let e = FaceEncoding::new();
    assert_eq!(e.len(), 128);
    for v in e.values() {
        assert_eq!(v, 0.0f64.to_bits());
    }
}
