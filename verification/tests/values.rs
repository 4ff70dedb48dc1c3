use table_editor_core::editors::{
    decode_hex, encode_hex, format_integer, format_value, parse_integer, validate,
    ValidationError,
};
use table_editor_core::mapper::{from_native, kind_of, parse_datetime, render_datetime, to_native, NativeValue};
use table_editor_core::value::{value_eq, DateTime, Value, ValueKind};

fn round_trips(v: Value, k: ValueKind) -> bool {
    let copy = table_editor_core::value::clone_value(&v);
    let back = from_native(to_native(v), k);
    value_eq(&back, &copy)
}

#[test]
fn native_round_trip_all_kinds() {
    assert!(round_trips(Value::Null, ValueKind::Integer));
    assert!(round_trips(Value::Null, ValueKind::Text));
    assert!(round_trips(Value::Integer(0), ValueKind::Integer));
    assert!(round_trips(Value::Integer(i64::MAX), ValueKind::Integer));
    assert!(round_trips(Value::Integer(i64::MIN), ValueKind::Integer));
    assert!(round_trips(Value::Real(1.5f64.to_bits()), ValueKind::Real));
    assert!(round_trips(Value::Real(f64::NEG_INFINITY.to_bits()), ValueKind::Real));
    assert!(round_trips(Value::Text(String::new()), ValueKind::Text));
    assert!(round_trips(Value::Text("hello".to_string()), ValueKind::Text));
    assert!(round_trips(Value::Blob(Vec::new()), ValueKind::Blob));
    assert!(round_trips(Value::Blob(vec![0, 255, 7]), ValueKind::Blob));
    assert!(round_trips(Value::Boolean(true), ValueKind::Boolean));
    assert!(round_trips(Value::Boolean(false), ValueKind::Boolean));
    let dt = DateTime { year: 2024, month: 1, day: 15, hour: 10, minute: 30, second: 0 };
    assert!(round_trips(Value::DateTime(dt), ValueKind::DateTime));
}

#[test]
fn boolean_stored_as_integer() {
    match to_native(Value::Boolean(true)) {
        NativeValue::Integer(i) => assert_eq!(i, 1),
        _ => panic!("boolean should be stored as an integer"),
    }
    match from_native(NativeValue::Integer(0), ValueKind::Boolean) {
        Value::Boolean(b) => assert!(!b),
        _ => panic!("zero should read back as false"),
    }
    // A non-boolean integer in a boolean column stays an integer.
    match from_native(NativeValue::Integer(7), ValueKind::Boolean) {
        Value::Integer(i) => assert_eq!(i, 7),
        _ => panic!("mismatched storage must be kept as it is"),
    }
}

#[test]
fn text_in_integer_column_is_kept() {
    match from_native(NativeValue::Text("abc".to_string()), ValueKind::Integer) {
        Value::Text(s) => assert_eq!(s, "abc"),
        _ => panic!("mismatched storage must be kept as it is"),
    }
}

#[test]
fn datetime_canonical_format() {
    let dt = DateTime { year: 2024, month: 12, day: 31, hour: 23, minute: 59, second: 58 };
    assert_eq!(render_datetime(&dt), "2024-12-31 23:59:58");
    let parsed = parse_datetime("2024-12-31 23:59:58").expect("canonical text must parse");
    assert_eq!(parsed, dt);
    assert!(parse_datetime("2024-12-31T23:59:58").is_none());
    assert!(parse_datetime("2024-13-01 00:00:00").is_none());
    assert!(parse_datetime("later").is_none());
}

#[test]
fn affinity_keyword_matching() {
    assert_eq!(kind_of("INTEGER"), ValueKind::Integer);
    assert_eq!(kind_of("int"), ValueKind::Integer);
    assert_eq!(kind_of("BIGINT"), ValueKind::Integer);
    assert_eq!(kind_of("POINT"), ValueKind::Integer);
    assert_eq!(kind_of("BOOLEAN"), ValueKind::Boolean);
    assert_eq!(kind_of("datetime"), ValueKind::DateTime);
    assert_eq!(kind_of("DATE"), ValueKind::DateTime);
    assert_eq!(kind_of("TIMESTAMP"), ValueKind::DateTime);
    assert_eq!(kind_of("VARCHAR(80)"), ValueKind::Text);
    assert_eq!(kind_of("CLOB"), ValueKind::Text);
    assert_eq!(kind_of("blob"), ValueKind::Blob);
    assert_eq!(kind_of("REAL"), ValueKind::Real);
    assert_eq!(kind_of("DOUBLE PRECISION"), ValueKind::Real);
    assert_eq!(kind_of("FLOAT"), ValueKind::Real);
    // Unrecognized declared types default to text affinity.
    assert_eq!(kind_of(""), ValueKind::Text);
    assert_eq!(kind_of("STRUCT"), ValueKind::Text);
}

#[test]
fn integer_validation() {
    assert_eq!(validate(ValueKind::Integer, false, "abc").unwrap_err(), ValidationError::NotAnInteger);
    match validate(ValueKind::Integer, false, "42").unwrap() {
        Value::Integer(i) => assert_eq!(i, 42),
        _ => panic!("validated integer must carry the integer value"),
    }
    let shown = format_value(&validate(ValueKind::Integer, false, "42").unwrap()).unwrap();
    assert_eq!(shown, "42");
    assert_eq!(parse_integer("9223372036854775807"), Some(i64::MAX));
    assert_eq!(parse_integer("-9223372036854775808"), Some(i64::MIN));
    assert_eq!(parse_integer("9223372036854775808"), None);
    assert_eq!(parse_integer("-9223372036854775809"), None);
    assert_eq!(parse_integer("+17"), Some(17));
    assert_eq!(parse_integer(""), None);
    assert_eq!(parse_integer("-"), None);
    assert_eq!(parse_integer("1 2"), None);
}

#[test]
fn null_literal_respects_nullability() {
    match validate(ValueKind::Integer, true, "null").unwrap() {
        Value::Null => {},
        _ => panic!("null literal on a nullable column must give null"),
    }
    assert_eq!(
        validate(ValueKind::Integer, false, "NULL").unwrap_err(),
        ValidationError::NotNullable
    );
    assert_eq!(
        validate(ValueKind::Text, false, "Null").unwrap_err(),
        ValidationError::NotNullable
    );
}

#[test]
fn real_validation_uses_numeric_literals() {
    match validate(ValueKind::Real, false, "3.5").unwrap() {
        Value::Real(bits) => assert_eq!(bits, 3.5f64.to_bits()),
        _ => panic!("a real literal must give a real value"),
    }
    match validate(ValueKind::Real, false, "-2").unwrap() {
        Value::Real(bits) => assert_eq!(f64::from_bits(bits), -2.0),
        _ => panic!("an integral literal is a well-formed number"),
    }
    assert_eq!(validate(ValueKind::Real, false, "abc").unwrap_err(), ValidationError::NotANumber);
    assert_eq!(validate(ValueKind::Real, false, "").unwrap_err(), ValidationError::NotANumber);
}

#[test]
fn blob_hex_validation() {
    match validate(ValueKind::Blob, false, "0aFF").unwrap() {
        Value::Blob(b) => assert_eq!(b, vec![10, 255]),
        _ => panic!("hex input must decode to bytes"),
    }
    match validate(ValueKind::Blob, false, "").unwrap() {
        Value::Blob(b) => assert!(b.is_empty()),
        _ => panic!("empty input is the empty blob"),
    }
    assert_eq!(validate(ValueKind::Blob, false, "0aF").unwrap_err(), ValidationError::MalformedBlob);
    assert_eq!(validate(ValueKind::Blob, false, "zz").unwrap_err(), ValidationError::MalformedBlob);
    assert_eq!(decode_hex("00ff10"), Some(vec![0, 255, 16]));
    assert_eq!(encode_hex(&vec![0, 255, 16]), "00ff10");
}

#[test]
fn boolean_validation() {
    for raw in ["1", "true", "TRUE", "True"] {
        match validate(ValueKind::Boolean, false, raw).unwrap() {
            Value::Boolean(b) => assert!(b),
            _ => panic!("truthy literal must give true"),
        }
    }
    for raw in ["0", "false", "FALSE"] {
        match validate(ValueKind::Boolean, false, raw).unwrap() {
            Value::Boolean(b) => assert!(!b),
            _ => panic!("falsy literal must give false"),
        }
    }
    assert_eq!(validate(ValueKind::Boolean, false, "yes").unwrap_err(), ValidationError::NotABoolean);
    assert_eq!(validate(ValueKind::Boolean, false, "2").unwrap_err(), ValidationError::NotABoolean);
}

#[test]
fn datetime_validation_with_text_fallback() {
    match validate(ValueKind::DateTime, false, "2024-01-15 10:30:00").unwrap() {
        Value::DateTime(dt) => {
            assert_eq!(dt.year, 2024);
            assert_eq!(dt.month, 1);
            assert_eq!(dt.day, 15);
        },
        _ => panic!("canonical timestamp must parse"),
    }
    // Nonconforming but non-empty input is kept as text, not rejected.
    match validate(ValueKind::DateTime, false, "next tuesday").unwrap() {
        Value::Text(s) => assert_eq!(s, "next tuesday"),
        _ => panic!("nonconforming input must fall back to text"),
    }
    assert_eq!(
        validate(ValueKind::DateTime, false, "").unwrap_err(),
        ValidationError::EmptyDateTime
    );
}

#[test]
fn format_shows_each_kind() {
    assert_eq!(format_value(&Value::Null).unwrap(), "NULL");
    assert_eq!(format_value(&Value::Integer(-9001)).unwrap(), "-9001");
    assert_eq!(format_integer(i64::MIN), "-9223372036854775808");
    assert_eq!(format_integer(0), "0");
    assert_eq!(format_value(&Value::Boolean(true)).unwrap(), "true");
    assert_eq!(format_value(&Value::Blob(vec![1, 2])).unwrap(), "0102");
    let dt = DateTime { year: 3, month: 2, day: 1, hour: 0, minute: 0, second: 9 };
    assert_eq!(format_value(&Value::DateTime(dt)).unwrap(), "0003-02-01 00:00:09");
    assert_eq!(format_value(&Value::Text("x".to_string())).unwrap(), "x");
    // A real number's decimal rendering belongs to the host.
    assert!(format_value(&Value::Real(1.0f64.to_bits())).is_none());
}
