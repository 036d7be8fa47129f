use scalar_mapper::ExternalValue;
use scalar_mapper::ScalarValue;

#[test]
fn datatype_of_every_variant() {
    assert_eq!(ScalarValue::Bytes(vec![1u8, 2u8]).datatype(), "bytes");
    assert_eq!(ScalarValue::Str(String::from("hi")).datatype(), "str");
    assert_eq!(ScalarValue::Int(-4).datatype(), "int");
    assert_eq!(ScalarValue::Uint(4).datatype(), "uint");
    assert_eq!(ScalarValue::F64(1.5f64.to_bits()).datatype(), "f64");
    assert_eq!(ScalarValue::Counter(10).datatype(), "counter");
    assert_eq!(ScalarValue::Timestamp(0).datatype(), "timestamp");
    assert_eq!(ScalarValue::Boolean(true).datatype(), "boolean");
    assert_eq!(ScalarValue::Null.datatype(), "null");
    assert_eq!(
        ScalarValue::Unknown { type_code: 7, bytes: vec![] }.datatype(),
        "unknown7"
    );
}

#[test]
fn datatype_of_unknown_formats_the_code_in_decimal() {
    assert_eq!(
        ScalarValue::Unknown { type_code: 0, bytes: vec![] }.datatype(),
        "unknown0"
    );
    assert_eq!(
        ScalarValue::Unknown { type_code: 10, bytes: vec![1] }.datatype(),
        "unknown10"
    );
    assert_eq!(
        ScalarValue::Unknown { type_code: 255, bytes: vec![] }.datatype(),
        "unknown255"
    );
    assert_eq!(
        ScalarValue::Unknown { type_code: u64::MAX, bytes: vec![] }.datatype(),
        "unknown18446744073709551615"
    );
}

#[test]
fn bytes_convert_to_an_equal_independent_buffer() {
    let mut src = vec![0u8, 1, 2, 250, 255];
    let v = ScalarValue::Bytes(src.clone());
    let r = v.to_external();
    assert_eq!(r, ExternalValue::Buffer(vec![0u8, 1, 2, 250, 255]));
    // the buffer is a copy: changing the source afterwards changes nothing
    src[0] = 9;
    assert_eq!(v.to_external(), ExternalValue::Buffer(vec![0u8, 1, 2, 250, 255]));

    let empty = ScalarValue::Bytes(vec![]);
    assert_eq!(empty.to_external(), ExternalValue::Buffer(vec![]));
}

#[test]
fn str_converts_to_equal_text() {
    let v = ScalarValue::Str(String::from("héllo"));
    assert_eq!(v.to_external(), ExternalValue::Text(String::from("héllo")));
    let v = ScalarValue::Str(String::new());
    assert_eq!(v.to_external(), ExternalValue::Text(String::new()));
}

fn number_bits_of(v: &ScalarValue) -> u64 {
    match v.to_external() {
        ExternalValue::Number(bits) => bits,
        other => panic!("expected a number, got {:?}", other),
    }
}

#[test]
fn int_widening_matches_the_native_cast() {
    let cases: [i64; 16] = [
        0,
        1,
        -1,
        2,
        -37,
        1_000_000_007,
        -123_456_789_012_345,
        9007199254740992,   // 2^53
        -9007199254740992,  // -2^53
        9007199254740993,   // 2^53 + 1: rounds down to even
        9007199254740995,   // 2^53 + 3: rounds up to even
        -9007199254740993,
        i64::MAX,
        i64::MIN,
        i64::MAX - 512,
        4611686018427387904, // 2^62
    ];
    for &i in cases.iter() {
        let bits = number_bits_of(&ScalarValue::Int(i));
        assert_eq!(bits, (i as f64).to_bits(), "for {}", i);
    }
}

#[test]
fn uint_widening_matches_the_native_cast() {
    let cases: [u64; 12] = [
        0,
        1,
        2,
        9007199254740992,
        9007199254740993,
        9007199254740995,
        u64::MAX,
        u64::MAX - 1023,
        u64::MAX / 3,
        1 << 63,
        (1 << 63) + 1,
        (1 << 54) + 2,
    ];
    for &u in cases.iter() {
        let bits = number_bits_of(&ScalarValue::Uint(u));
        assert_eq!(bits, (u as f64).to_bits(), "for {}", u);
    }
}

#[test]
fn widening_matches_the_native_cast_on_a_spread_of_values() {
    // a simple linear-congruential spread over the whole 64-bit range
    let mut x: u64 = 0x9e37_79b9_7f4a_7c15;
    for _ in 0..5000 {
        x = x.wrapping_mul(6364136223846793005).wrapping_add(1442695040888963407);
        let bits = number_bits_of(&ScalarValue::Uint(x));
        assert_eq!(bits, (x as f64).to_bits(), "for {}", x);
        let i = x as i64;
        let bits = number_bits_of(&ScalarValue::Int(i));
        assert_eq!(bits, (i as f64).to_bits(), "for {}", i);
    }
}

#[test]
fn ints_within_2_to_53_round_trip_exactly() {
    let cases: [i64; 8] = [
        0,
        1,
        -1,
        424242,
        -9007199254740992,
        9007199254740992,
        9007199254740991,
        -9007199254740991,
    ];
    for &i in cases.iter() {
        let bits = number_bits_of(&ScalarValue::Int(i));
        let d = f64::from_bits(bits);
        assert_eq!(d as i64, i, "for {}", i);
        assert_eq!(d, i as f64);
    }
}

#[test]
fn f64_passes_through_by_bit_pattern() {
    for &d in [0.0f64, -0.0, 1.5, -2.25, f64::INFINITY, f64::MIN_POSITIVE].iter() {
        let v = ScalarValue::F64(d.to_bits());
        assert_eq!(v.to_external(), ExternalValue::Number(d.to_bits()));
    }
}

#[test]
fn counter_converts_to_its_numeric_value() {
    let v = ScalarValue::Counter(-7);
    assert_eq!(v.to_external(), ExternalValue::Number((-7f64).to_bits()));
    let v = ScalarValue::Counter(1234567);
    assert_eq!(v.to_external(), ExternalValue::Number(1234567f64.to_bits()));
}

#[test]
fn null_converts_to_the_external_null() {
    assert_eq!(ScalarValue::Null.to_external(), ExternalValue::Null);
    assert!(matches!(ScalarValue::Null.to_external(), ExternalValue::Null));
}

#[test]
fn booleans_convert_without_coercion() {
    assert_eq!(
        ScalarValue::Boolean(true).to_external(),
        ExternalValue::Boolean(true)
    );
    assert_eq!(
        ScalarValue::Boolean(false).to_external(),
        ExternalValue::Boolean(false)
    );
}

#[test]
fn timestamps_convert_to_dates_at_the_same_instant() {
    assert_eq!(ScalarValue::Timestamp(0).to_external(), ExternalValue::Date(0));
    assert_eq!(
        ScalarValue::Timestamp(1700000000000).to_external(),
        ExternalValue::Date(1700000000000)
    );
    assert_eq!(
        ScalarValue::Timestamp(-86_400_000).to_external(),
        ExternalValue::Date(-86_400_000)
    );
}

#[test]
fn unknown_converts_to_a_buffer_of_its_bytes() {
    let v = ScalarValue::Unknown { type_code: 9, bytes: vec![1u8, 2, 3] };
    assert_eq!(v.to_external(), ExternalValue::Buffer(vec![1u8, 2, 3]));
    // the wire tag changes the tag string, never the converted value
    let w = ScalarValue::Unknown { type_code: 200, bytes: vec![1u8, 2, 3] };
    assert_eq!(w.to_external(), v.to_external());
}
