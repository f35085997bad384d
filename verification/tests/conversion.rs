use bmath::objects::{
    parse_i64, AnyValue, ConversionFailure, ConvertFromString, Integer, Object, ObjectType, Real,
    Vector,
};

fn real_reader(text: String) -> Option<u64> {
    text.parse::<f64>().ok().map(f64::to_bits)
}

fn value(text: &str) -> AnyValue {
    AnyValue { object_type: None, text: text.to_string() }
}

#[test]
fn integer_conversion_round_trip() {
    for n in [0i64, 1, -1, 42, -987654321, i64::MAX, i64::MIN] {
        let v = value(&n.to_string());
        assert_eq!(
            v.convert(ObjectType::Integer, real_reader),
            Ok(Object::Integer(Integer { value: n }))
        );
    }
}

#[test]
fn malformed_text_converts_to_neither_number_kind() {
    for text in ["12a", "", " 1", "1 ", "--2", "+", "-", "4-2"] {
        let v = value(text);
        assert_eq!(
            v.convert(ObjectType::Integer, real_reader),
            Err(ConversionFailure::Error)
        );
        assert_eq!(
            v.convert(ObjectType::Real, real_reader),
            Err(ConversionFailure::Error)
        );
    }
}

#[test]
fn integer_conversion_rejects_out_of_range() {
    for text in ["9223372036854775808", "-9223372036854775809", "99999999999999999999"] {
        let v = value(text);
        assert_eq!(
            v.convert(ObjectType::Integer, real_reader),
            Err(ConversionFailure::Error)
        );
    }
}

#[test]
fn integer_conversion_accepts_signs_and_bounds() {
    assert_eq!(parse_i64("+42"), Some(42));
    assert_eq!(parse_i64("-42"), Some(-42));
    assert_eq!(parse_i64("007"), Some(7));
    assert_eq!(parse_i64("9223372036854775807"), Some(i64::MAX));
    assert_eq!(parse_i64("-9223372036854775808"), Some(i64::MIN));
    assert_eq!(parse_i64("1.0"), None);
}

#[test]
fn real_conversion_parses_decimal_and_exponent_notation() {
    let v = value("1.5");
    assert_eq!(
        v.convert(ObjectType::Real, real_reader),
        Ok(Object::Real(Real { bits: 1.5f64.to_bits() }))
    );
    let w = value("-2e3");
    assert_eq!(
        w.convert(ObjectType::Real, real_reader),
        Ok(Object::Real(Real { bits: (-2e3f64).to_bits() }))
    );
}

#[test]
fn no_implicit_coercion_between_kinds() {
    // "1.5" is not integer text, and conversion never falls back to
    // another kind on its own.
    let v = value("1.5");
    assert_eq!(
        v.convert(ObjectType::Integer, real_reader),
        Err(ConversionFailure::Error)
    );
}

#[test]
fn vector_conversion_always_fails() {
    for text in ["", "1", "(1,2)"] {
        let v = value(text);
        assert_eq!(
            v.convert(ObjectType::Vector, real_reader),
            Err(ConversionFailure::Error)
        );
    }
}

#[test]
fn convert_from_string_impls_match_convert() {
    assert_eq!(Integer::new("12"), Ok(Integer { value: 12 }));
    assert!(Integer::new("12a").is_err());
    assert!(Vector::new("12").is_err());
}

#[test]
fn object_type_of_each_kind() {
    assert_eq!(
        Object::Integer(Integer { value: 3 }).object_type(),
        ObjectType::Integer
    );
    assert_eq!(
        Object::Real(Real { bits: 0 }).object_type(),
        ObjectType::Real
    );
    let vec_obj = Object::Vector(Vector { components: Vec::new(), object_type: ObjectType::Real });
    assert_eq!(vec_obj.object_type(), ObjectType::Vector);
}
