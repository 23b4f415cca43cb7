//! Round-trip and tag-fidelity tests for the native <-> dynamic conversion
//! pair, over every supported native type.

use edy::cast::DynamicCast;
use edy::dynamic::{Dynamic, FloatBits};
use edy::dynamic_type::DynamicType;

#[test]
fn test_to_and_from_dynamic() {
    {
        let v: i8 = i8::default();
        let dyn_v = v.clone().to_dynamic();
        let v_recovered: i8 = i8::try_from_dynamic(dyn_v).unwrap();
        assert_eq!(v, v_recovered);
    }
    {
        let v: i16 = i16::default();
        let dyn_v = v.clone().to_dynamic();
        let v_recovered: i16 = i16::try_from_dynamic(dyn_v).unwrap();
        assert_eq!(v, v_recovered);
    }
    {
        let v: i32 = i32::default();
        let dyn_v = v.clone().to_dynamic();
        let v_recovered: i32 = i32::try_from_dynamic(dyn_v).unwrap();
        assert_eq!(v, v_recovered);
    }
    {
        let v: i64 = i64::default();
        let dyn_v = v.clone().to_dynamic();
        let v_recovered: i64 = i64::try_from_dynamic(dyn_v).unwrap();
        assert_eq!(v, v_recovered);
    }
    {
        let v: u8 = u8::default();
        let dyn_v = v.clone().to_dynamic();
        let v_recovered: u8 = u8::try_from_dynamic(dyn_v).unwrap();
        assert_eq!(v, v_recovered);
    }
    {
        let v: u16 = u16::default();
        let dyn_v = v.clone().to_dynamic();
        let v_recovered: u16 = u16::try_from_dynamic(dyn_v).unwrap();
        assert_eq!(v, v_recovered);
    }
    {
        let v: u32 = u32::default();
        let dyn_v = v.clone().to_dynamic();
        let v_recovered: u32 = u32::try_from_dynamic(dyn_v).unwrap();
        assert_eq!(v, v_recovered);
    }
    {
        // 32-bit floats widen into the 64-bit Float slot; the library holds
        // the bit pattern.
        let v: f32 = f32::default();
        let dyn_v = FloatBits((v as f64).to_bits()).to_dynamic();
        let bits: FloatBits = FloatBits::try_from_dynamic(dyn_v).unwrap();
        let v_recovered: f32 = f64::from_bits(bits.0) as f32;
        assert_eq!(v, v_recovered);
    }
    {
        let v: f64 = f64::default();
        let dyn_v = FloatBits(v.to_bits()).to_dynamic();
        let bits: FloatBits = FloatBits::try_from_dynamic(dyn_v).unwrap();
        let v_recovered: f64 = f64::from_bits(bits.0);
        assert_eq!(v, v_recovered);
    }
    {
        let v: bool = bool::default();
        let dyn_v = v.clone().to_dynamic();
        let v_recovered: bool = bool::try_from_dynamic(dyn_v).unwrap();
        assert_eq!(v, v_recovered);
    }
    {
        let v: String = String::default();
        let dyn_v = v.clone().to_dynamic();
        let v_recovered: String = String::try_from_dynamic(dyn_v).unwrap();
        assert_eq!(v, v_recovered);
    }
}

#[test]
fn test_dynamic_type() {
    {
        let v: i8 = i8::default();
        assert_eq!(v.to_dynamic().get_type(), DynamicType::Int);
    }
    {
        let v: i16 = i16::default();
        assert_eq!(v.to_dynamic().get_type(), DynamicType::Int);
    }
    {
        let v: i32 = i32::default();
        assert_eq!(v.to_dynamic().get_type(), DynamicType::Int);
    }
    {
        let v: i64 = i64::default();
        assert_eq!(v.to_dynamic().get_type(), DynamicType::Int);
    }
    {
        let v: u8 = u8::default();
        assert_eq!(v.to_dynamic().get_type(), DynamicType::Int);
    }
    {
        let v: u16 = u16::default();
        assert_eq!(v.to_dynamic().get_type(), DynamicType::Int);
    }
    {
        let v: u32 = u32::default();
        assert_eq!(v.to_dynamic().get_type(), DynamicType::Int);
    }
    {
        let v: f32 = f32::default();
        assert_eq!(FloatBits((v as f64).to_bits()).to_dynamic().get_type(), DynamicType::Float);
    }
    {
        let v: f64 = f64::default();
        assert_eq!(FloatBits(v.to_bits()).to_dynamic().get_type(), DynamicType::Float);
    }
    {
        let v: bool = bool::default();
        assert_eq!(v.to_dynamic().get_type(), DynamicType::Bool);
    }
    {
        let v: String = String::default();
        assert_eq!(v.to_dynamic().get_type(), DynamicType::Str);
    }
}

#[test]
fn test_vec_conversion() {
    let vec = vec![2i32, 4, 6, 4];
    let dy_vec: Dynamic = vec.to_dynamic();

    let vec: Vec<i32> = Vec::<i32>::try_from_dynamic(dy_vec).unwrap();

    assert_eq!(vec, vec![2i32, 4, 6, 4])
}

#[test]
fn test_empty_vec_conversion() {
    let vec: Vec<i64> = Vec::new();
    let dy_vec = vec.to_dynamic();
    assert_eq!(dy_vec.get_type(), DynamicType::Array);
    let back: Vec<i64> = Vec::<i64>::try_from_dynamic(dy_vec).unwrap();
    assert!(back.is_empty());
}

#[test]
fn test_vec_all_or_nothing() {
    // One element whose tag cannot be cast to the target type makes the
    // whole conversion fail with that element's error.
    let dy = Dynamic::Array(vec![2i32.to_dynamic(), true.to_dynamic(), 6i32.to_dynamic()]);
    let r = Vec::<i32>::try_from_dynamic(dy);
    let e = r.unwrap_err();
    assert_eq!(e.expected_type, DynamicType::Int);
    assert_eq!(e.found_type, DynamicType::Bool);
}

#[test]
fn test_vec_not_an_array() {
    let r = Vec::<i32>::try_from_dynamic(7i64.to_dynamic());
    let e = r.unwrap_err();
    assert_eq!(e.expected_type, DynamicType::Array);
    assert_eq!(e.found_type, DynamicType::Int);
}

#[test]
fn test_nested_vec_conversion() {
    let nested = vec![vec![1i32, 2], vec![3i32]];
    let dy = nested.to_dynamic();
    let back: Vec<Vec<i32>> = Vec::<Vec<i32>>::try_from_dynamic(dy).unwrap();
    assert_eq!(back, vec![vec![1i32, 2], vec![3i32]]);
}

#[test]
fn test_mismatch_fails_precisely() {
    // A Float-tagged value converted to an integer target fails with
    // expected Int, found Float -- not any other tags.
    let dy = FloatBits((1.0f64).to_bits()).to_dynamic();
    let e = i32::try_from_dynamic(dy).unwrap_err();
    assert_eq!(e.expected_type, DynamicType::Int);
    assert_eq!(e.found_type, DynamicType::Float);
}

#[test]
fn test_narrowing_truncates() {
    // Narrowing extraction uses native truncating casts: out-of-range
    // values truncate silently rather than failing.
    let dy = Dynamic::Int(300);
    let v: u8 = u8::try_from_dynamic(dy).unwrap();
    assert_eq!(v, 44u8);

    let dy = Dynamic::Int(-1);
    let v: u8 = u8::try_from_dynamic(dy).unwrap();
    assert_eq!(v, 255u8);
}

#[test]
fn test_from_str_slice() {
    let dy = Dynamic::from_str_slice("hello");
    assert_eq!(dy.get_type(), DynamicType::Str);
    let s: String = String::try_from_dynamic(dy).unwrap();
    assert_eq!(s, "hello");
}

#[test]
fn test_from_u64_reinterpret() {
    let dy = Dynamic::from_u64_reinterpret(7);
    assert_eq!(i64::try_from_dynamic(dy).unwrap(), 7i64);

    // Unsigned values above i64::MAX reinterpret as negative.
    let dy = Dynamic::from_u64_reinterpret(u64::MAX);
    assert_eq!(i64::try_from_dynamic(dy).unwrap(), -1i64);
}

#[test]
fn test_timestamp_round_trip() {
    let ts = chrono::NaiveDate::from_ymd_opt(2024, 1, 2)
        .unwrap()
        .and_hms_opt(3, 4, 5)
        .unwrap();
    let dy = ts.to_dynamic();
    assert_eq!(dy.get_type(), DynamicType::Timestamp);
    let back = chrono::NaiveDateTime::try_from_dynamic(dy).unwrap();
    assert_eq!(ts, back);

    let e = i64::try_from_dynamic(ts.to_dynamic()).unwrap_err();
    assert_eq!(e.expected_type, DynamicType::Int);
    assert_eq!(e.found_type, DynamicType::Timestamp);
}
