use ray_tracer::plane::{plane, Plane};
use ray_tracer::tuple::TupleType;
use ray_tracer::utils::{is_odd, Scalar, SCALE};

#[test]
fn test_is_odd() {
    assert!(!is_odd(0));
    assert!(is_odd(1));
    assert!(!is_odd(2));
    assert!(is_odd(7));
}

#[test]
fn test_scalar_construction() {
    assert_eq!(Scalar::from_int(2), Scalar::from_millis(2 * SCALE));
    assert_eq!(Scalar::from_int(-3).millis, -3000);
    assert_eq!(Scalar::from_millis(5500).millis, 5500);
}

#[test]
fn test_scalar_is_whole() {
    assert!(Scalar::from_int(4).is_whole());
    assert!(Scalar::from_int(-4).is_whole());
    assert!(!Scalar::from_millis(5500).is_whole());
    assert!(Scalar::from_millis(0).is_whole());
}

#[test]
fn test_plane_construction() {
    assert_eq!(plane(), Plane::new());
}

#[test]
fn test_tuple_type_tags_differ() {
    assert_eq!(TupleType::Point, TupleType::Point);
    assert_ne!(TupleType::Point, TupleType::Vector);
}
