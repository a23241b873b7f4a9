use face_registry::comparer::DEFAULT_TOLERANCE_BITS;
use face_registry::{FaceComparer, FaceEncoding};

fn tol(t: f64) -> u64 {
    t.to_bits()
}

fn empty_registry(tolerance: f64) -> FaceComparer {
    FaceComparer::new(Vec::new(), Vec::new(), tol(tolerance))
}

#[test]
fn default_tolerance_is_bits_of_0_6() {
    assert_eq!(DEFAULT_TOLERANCE_BITS, 0.6f64.to_bits());
}

#[test]
fn find_on_empty_registry_is_no_match() {
    let registry = empty_registry(0.6);
    let probe = FaceEncoding::new_from_scalar(0.25f64.to_bits());
    assert_eq!(registry.find(&probe), None);
    assert_eq!(registry.find(&FaceEncoding::new()), None);
    assert_eq!(registry.len(), 0);
}

#[test]
fn construction_zips_names_with_encodings() {
    let names = vec!["ada".to_string(), "grace".to_string(), "alan".to_string()];
    let encodings = vec![
        FaceEncoding::new_from_scalar(0.0f64.to_bits()),
        FaceEncoding::new_from_scalar(1.0f64.to_bits()),
        FaceEncoding::new_from_scalar(2.0f64.to_bits()),
    ];
    let registry = FaceComparer::new(names, encodings, tol(0.6));
    assert_eq!(registry.len(), 3);
    assert_eq!(registry.find_name(&"ada".to_string()), Some(0));
    assert_eq!(registry.find_name(&"grace".to_string()), Some(1));
    assert_eq!(registry.find_name(&"alan".to_string()), Some(2));
    assert_eq!(registry.find_name(&"nobody".to_string()), None);
    assert_eq!(registry.names().len(), 3);
    assert_eq!(registry.encodings().len(), 3);
}

#[test]
fn try_new_rejects_mismatched_lengths() {
    let names = vec!["ada".to_string(), "grace".to_string()];
    let encodings = vec![FaceEncoding::new()];
    assert!(FaceComparer::try_new(names, encodings, tol(0.6)).is_none());

    let names = Vec::new();
    let encodings = vec![FaceEncoding::new()];
    assert!(FaceComparer::try_new(names, encodings, tol(0.6)).is_none());

    let names = vec!["ada".to_string()];
    let encodings = vec![FaceEncoding::new()];
    let registry = FaceComparer::try_new(names, encodings, tol(0.6)).unwrap();
    assert_eq!(registry.len(), 1);
}

#[test]
fn insert_same_name_updates_in_place() {
    let mut registry = empty_registry(0.6);
    let v1 = FaceEncoding::new_from_scalar(4.0f64.to_bits());
    let v2 = FaceEncoding::new_from_scalar(9.0f64.to_bits());

    registry.insert("ada".to_string(), v1);
    let len_before = registry.len();
    let handle_before = registry.find_name(&"ada".to_string());

    registry.insert("ada".to_string(), v2.clone());
    assert_eq!(registry.len(), len_before);
    assert_eq!(registry.find_name(&"ada".to_string()), handle_before);

    let found = registry.find(&v2).expect("probe equal to the stored vector must match");
    assert_eq!(found.0, "ada".to_string());
    assert_eq!(found.1, 0u64);
}

#[test]
fn insert_distinct_names_grows_registry() {
    let mut registry = empty_registry(0.6);
    registry.insert("a".to_string(), FaceEncoding::new_from_scalar(1.0f64.to_bits()));
    registry.insert("b".to_string(), FaceEncoding::new_from_scalar(2.0f64.to_bits()));
    registry.insert("c".to_string(), FaceEncoding::new_from_scalar(3.0f64.to_bits()));
    assert_eq!(registry.len(), 3);
    assert_eq!(registry.next_handle(), 3);
    assert_eq!(registry.find_name(&"a".to_string()), Some(0));
    assert_eq!(registry.find_name(&"b".to_string()), Some(1));
    assert_eq!(registry.find_name(&"c".to_string()), Some(2));
}

#[test]
fn remove_name_absent_is_a_no_op() {
    let names = vec!["ada".to_string(), "grace".to_string()];
    let encodings = vec![
        FaceEncoding::new_from_scalar(1.0f64.to_bits()),
        FaceEncoding::new_from_scalar(2.0f64.to_bits()),
    ];
    let mut registry = FaceComparer::new(names, encodings, tol(0.6));

    registry.remove_name("nobody");
    assert_eq!(registry.len(), 2);
    assert_eq!(registry.find_name(&"ada".to_string()), Some(0));
    assert_eq!(registry.find_name(&"grace".to_string()), Some(1));
    assert_eq!(registry.names(), vec!["ada".to_string(), "grace".to_string()]);
}

#[test]
fn remove_name_then_handle_is_not_reused() {
    let mut registry = empty_registry(0.6);
    registry.insert("a".to_string(), FaceEncoding::new_from_scalar(1.0f64.to_bits()));
    registry.insert("b".to_string(), FaceEncoding::new_from_scalar(2.0f64.to_bits()));

    registry.remove_name("a");
    assert_eq!(registry.len(), 1);
    assert_eq!(registry.find_name(&"a".to_string()), None);
    assert_eq!(registry.find_name(&"b".to_string()), Some(1));

    registry.insert("c".to_string(), FaceEncoding::new_from_scalar(3.0f64.to_bits()));
    assert_eq!(registry.find_name(&"c".to_string()), Some(2));
}

#[test]
fn remove_key_is_idempotent() {
    let mut registry = empty_registry(0.6);
    registry.insert("a".to_string(), FaceEncoding::new_from_scalar(1.0f64.to_bits()));
    registry.remove_key(&0);
    assert_eq!(registry.len(), 0);
    registry.remove_key(&0);
    assert_eq!(registry.len(), 0);
    registry.remove_key(&7);
    assert_eq!(registry.len(), 0);
}

#[test]
fn get_name_variants() {
    let mut registry = empty_registry(0.6);
    registry.insert("ada".to_string(), FaceEncoding::new());
    assert_eq!(registry.get_name(&0), Some("ada".to_string()));
    assert_eq!(registry.get_name(&1), None);
    assert_eq!(registry.get_name_unchecked(&0), "ada".to_string());
}

#[test]
fn find_selects_nearest_within_tolerance() {
    let names = vec!["far".to_string(), "near".to_string()];
    let encodings = vec![
        FaceEncoding::new_from_scalar(5.0f64.to_bits()),
        FaceEncoding::new_from_scalar(1.0f64.to_bits()),
    ];
    let registry = FaceComparer::new(names, encodings, tol(100.0));
    let probe = FaceEncoding::new_from_scalar(1.25f64.to_bits());
    let (name, d) = registry.find(&probe).expect("within tolerance");
    assert_eq!(name, "near".to_string());
    let expected = (128.0f64 * 0.25 * 0.25).sqrt().to_bits();
    assert_eq!(d, expected);
}

#[test]
fn find_tolerance_boundary_is_inclusive() {
    let names = vec!["ada".to_string()];
    let encodings = vec![FaceEncoding::new_from_scalar(0.0f64.to_bits())];
    let probe = FaceEncoding::new_from_scalar(1.0f64.to_bits());
    let boundary = 128.0f64.sqrt().to_bits();

    let registry = FaceComparer::new(names.clone(), encodings.clone(), boundary);
    let (name, d) = registry.find(&probe).expect("distance exactly at the tolerance matches");
    assert_eq!(name, "ada".to_string());
    assert_eq!(d, boundary);

    // One ulp below the distance: the stored vector is just beyond tolerance.
    let registry = FaceComparer::new(names, encodings, boundary - 1);
    assert_eq!(registry.find(&probe), None);
}

#[test]
fn find_breaks_ties_by_lowest_handle() {
    let names = vec!["first".to_string(), "second".to_string()];
    let same = FaceEncoding::new_from_scalar(2.0f64.to_bits());
    let encodings = vec![same.clone(), same.clone()];
    let registry = FaceComparer::new(names, encodings, tol(0.6));
    let (name, d) = registry.find(&same).expect("exact match");
    assert_eq!(name, "first".to_string());
    assert_eq!(d, 0u64);
}

#[test]
fn find_ignores_nan_distances() {
    let mut nan_values = [0.0f64; 128];
    nan_values[0] = f64::NAN;
    let nan_bits: Vec<u64> = nan_values.iter().map(|v| v.to_bits()).collect();
    let with_nan = FaceEncoding::from_vec(nan_bits).unwrap();

    let names = vec!["bad".to_string()];
    let registry = FaceComparer::new(names, vec![with_nan.clone()], tol(1000.0));
    let probe = FaceEncoding::new();
    assert_eq!(registry.find(&probe), None);

    let mut registry = registry;
    registry.insert("good".to_string(), FaceEncoding::new_from_scalar(0.5f64.to_bits()));
    let (name, _) = registry.find(&probe).expect("the non-NaN entry matches");
    assert_eq!(name, "good".to_string());
}

#[test]
fn default_registry_is_empty() {
    let registry = FaceComparer::default();
    assert_eq!(registry.len(), 0);
    assert_eq!(registry.names(), Vec::<String>::new());
    assert_eq!(registry.find(&FaceEncoding::new()), None);
}
