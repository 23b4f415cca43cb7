//! Tests of the dynamic value itself: default, structural equality, deep
//! cloning, and the error messages.

use edy::cast::DynamicCast;
use edy::dynamic::{Dynamic, FloatBits};
use edy::dynamic_type::DynamicType;
use edy::error::{Error, MissingKeyError, TypeError, UnsupportedTypeError};

#[test]
fn test_dynamic_default() {
    let sut = Dynamic::default();

    assert_eq!(sut.get_type(), DynamicType::Null)
}

#[test]
fn test_dynamic_type_default() {
    assert_eq!(DynamicType::default(), DynamicType::Null);
}

#[test]
fn test_structural_equality() {
    // Values of different tags are never equal, even when numerically
    // equivalent.
    let int_one = Dynamic::Int(1);
    let float_one = FloatBits((1.0f64).to_bits()).to_dynamic();
    assert_ne!(int_one, float_one);

    assert_ne!(Dynamic::Null, false.to_dynamic());
    assert_eq!(Dynamic::Int(1), Dynamic::Int(1));
    assert_ne!(Dynamic::Int(1), Dynamic::Int(2));
}

#[test]
fn test_limits_variant() {
    let limits = Dynamic::Limits(((1.0f64).to_bits(), (2.0f64).to_bits()));
    assert_eq!(limits.get_type(), DynamicType::Limits);
    assert_eq!(limits.clone(), limits);
}

#[test]
fn test_dynamic_clone_is_deep() {
    let original = Dynamic::Array(vec![
        1i64.to_dynamic(),
        "s".to_string().to_dynamic(),
        Dynamic::Array(vec![true.to_dynamic()]),
    ]);
    let copy = original.clone();
    assert_eq!(original, copy);
}

#[test]
fn test_timestamp_clone() {
    let ts = chrono::NaiveDate::from_ymd_opt(1999, 12, 31)
        .unwrap()
        .and_hms_opt(23, 59, 59)
        .unwrap();
    let dy = Dynamic::Timestamp(ts);
    assert_eq!(dy.clone(), dy);
}

#[test]
fn test_tag_names() {
    assert_eq!(DynamicType::Str.name(), "Str");
    assert_eq!(DynamicType::Int.name(), "Int");
    assert_eq!(DynamicType::Bool.name(), "Bool");
    assert_eq!(DynamicType::Float.name(), "Float");
    assert_eq!(DynamicType::Array.name(), "Array");
    assert_eq!(DynamicType::Limits.name(), "Limits");
    assert_eq!(DynamicType::Timestamp.name(), "Timestamp");
    assert_eq!(DynamicType::Mapping.name(), "Map");
    assert_eq!(DynamicType::Null.name(), "Null");
}

#[test]
fn test_tag_ordering_and_hash() {
    let mut tags = vec![DynamicType::Null, DynamicType::Str, DynamicType::Int];
    tags.sort();
    assert_eq!(tags, vec![DynamicType::Str, DynamicType::Int, DynamicType::Null]);
    assert_eq!(tags[0], tags[0].clone());
}

#[test]
fn test_type_error_message() {
    let e = TypeError { expected_type: DynamicType::Int, found_type: DynamicType::Float };
    assert_eq!(e.message(), "Unexpected value of type Float: expected Int.");
}

#[test]
fn test_unsupported_type_error_message() {
    let e = UnsupportedTypeError {
        expected_types: vec![DynamicType::Str, DynamicType::Int, DynamicType::Float],
        found_type: DynamicType::Bool,
    };
    assert_eq!(
        e.message(),
        "Unexpected value: expected any of types [Str, Int, Float, ], found Bool."
    );
}

#[test]
fn test_missing_key_error_message() {
    let e = MissingKeyError { payload_key: "foo".to_string() };
    assert_eq!(e.message(), "Key foo missing in Map.");
}

#[test]
fn test_aggregate_error_wraps_leaves() {
    let type_err = TypeError { expected_type: DynamicType::Str, found_type: DynamicType::Null };
    let agg: Error = type_err.into();
    assert_eq!(agg, Error::TypeError(type_err));
    assert_eq!(agg.message(), type_err.message());

    let missing = MissingKeyError { payload_key: "k".to_string() };
    let agg: Error = missing.clone().into();
    assert_eq!(agg, Error::MissingKeyError(missing.clone()));
    assert_eq!(agg.message(), "Key k missing in Map.");

    let unsupported = UnsupportedTypeError {
        expected_types: vec![DynamicType::Int],
        found_type: DynamicType::Mapping,
    };
    let agg: Error = unsupported.clone().into();
    assert_eq!(agg, Error::UnsupportedTypeError(unsupported));
}

#[test]
fn test_error_comparability() {
    let a = TypeError { expected_type: DynamicType::Int, found_type: DynamicType::Float };
    let b = TypeError { expected_type: DynamicType::Int, found_type: DynamicType::Float };
    assert_eq!(a, b);
    let c = TypeError { expected_type: DynamicType::Int, found_type: DynamicType::Bool };
    assert_ne!(a, c);
}
