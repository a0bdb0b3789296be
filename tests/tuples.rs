use raytracer::tuples::TupleType;

#[test]
fn w_equal_to_zero_is_a_vector() {
    assert_eq!(TupleType::classify(true, false), TupleType::Vector);
    assert_eq!(TupleType::classify(true, true), TupleType::Vector);
}

#[test]
fn w_equal_to_one_is_a_point() {
    assert_eq!(TupleType::classify(false, true), TupleType::Point);
}

#[test]
fn other_w_is_a_generic_tuple() {
    assert_eq!(TupleType::classify(false, false), TupleType::Tuple);
}

#[test]
fn only_generic_tuples_transform_w() {
    assert!(TupleType::Point.keeps_w());
    assert!(TupleType::Vector.keeps_w());
    assert!(!TupleType::Tuple.keeps_w());
}
