use shapely_json::decode::MAX_DEPTH;
use shapely_json::number::{parse_unsigned, Unsigned};
use shapely_json::{
    from_json, DecodeError, MapField, MapShape, Scalar, ScanFault, Schema, Shape, ShapeKind, Slot,
};

fn scalar(name: &str, kind: Scalar) -> Shape {
    Shape { name: name.to_string(), size: 1, kind: ShapeKind::Scalar(kind) }
}

fn field(name: &str, offset: usize, shape: usize) -> MapField {
    MapField { name: name.to_string(), offset, shape }
}

/// `TestStruct { name: String, age: u64 }`: name in slot 0, age in slot 1.
fn person_schema() -> Schema {
    Schema {
        shapes: vec![
            Shape {
                name: "TestStruct".to_string(),
                size: 2,
                kind: ShapeKind::Record(MapShape {
                    fields: vec![field("name", 0, 1), field("age", 1, 2)],
                    open_ended: false,
                }),
            },
            scalar("String", Scalar::String),
            scalar("u64", Scalar::U64),
        ],
        root: 0,
    }
}

fn zeroed() -> Vec<Slot> {
    vec![Slot::Str(String::new()), Slot::U64(0)]
}

fn scalar_schema(kind: Scalar) -> Schema {
    Schema { shapes: vec![scalar("scalar", kind)], root: 0 }
}

#[test]
fn test_from_json() {
    let json = r#"{"name": "Alice", "age": 30}"#;
    let mut test_struct = zeroed();
    let result = from_json(&mut test_struct, &person_schema(), json);
    assert!(result.is_ok());
    assert_eq!(test_struct, vec![Slot::Str("Alice".to_string()), Slot::U64(30)]);
}

#[test]
fn string_scalar_is_written() {
    let mut mem = vec![Slot::Empty];
    assert_eq!(from_json(&mut mem, &scalar_schema(Scalar::String), r#""text""#), Ok(()));
    assert_eq!(mem, vec![Slot::Str("text".to_string())]);
}

#[test]
fn string_escapes_are_decoded() {
    let mut mem = vec![Slot::Empty];
    assert_eq!(from_json(&mut mem, &scalar_schema(Scalar::String), r#" "a\"b\n" "#), Ok(()));
    assert_eq!(mem, vec![Slot::Str("a\"b\n".to_string())]);
}

#[test]
fn unsigned_integer_is_written() {
    let mut mem = vec![Slot::Empty];
    assert_eq!(from_json(&mut mem, &scalar_schema(Scalar::U64), "999999999999999999"), Ok(()));
    assert_eq!(mem, vec![Slot::U64(999999999999999999)]);
    assert_eq!(from_json(&mut mem, &scalar_schema(Scalar::U64), "0"), Ok(()));
    assert_eq!(mem, vec![Slot::U64(0)]);
}

#[test]
fn negative_integer_is_out_of_range() {
    let mut mem = vec![Slot::U64(7)];
    let r = from_json(&mut mem, &scalar_schema(Scalar::U64), "-5");
    assert_eq!(r, Err(DecodeError::NumberOutOfRange { at: 0 }));
    assert_eq!(mem, vec![Slot::U64(7)]);
}

#[test]
fn too_large_integer_is_out_of_range() {
    let mut mem = vec![Slot::U64(7)];
    let r = from_json(&mut mem, &scalar_schema(Scalar::U64), "18446744073709551616");
    assert_eq!(r, Err(DecodeError::NumberOutOfRange { at: 0 }));
    let r = from_json(&mut mem, &scalar_schema(Scalar::U64), "123456789012345678901234567890");
    assert!(matches!(r, Err(DecodeError::NumberOutOfRange { at: 0 })));
    assert_eq!(mem, vec![Slot::U64(7)]);
}

#[test]
fn non_numeric_token_is_unexpected() {
    let mut mem = vec![Slot::U64(7)];
    let r = from_json(&mut mem, &scalar_schema(Scalar::U64), r#""7""#);
    match r {
        Err(DecodeError::UnexpectedToken { at: 0, cause: Some(cause) }) => {
            assert_eq!(cause.kind, ScanFault::WrongType)
        }
        other => panic!("unexpected result {:?}", other),
    }
    assert_eq!(mem, vec![Slot::U64(7)]);
}

#[test]
fn empty_object_writes_nothing() {
    let mut mem = vec![Slot::Empty, Slot::Empty];
    assert_eq!(from_json(&mut mem, &person_schema(), "{}"), Ok(()));
    assert_eq!(mem, vec![Slot::Empty, Slot::Empty]);
}

#[test]
fn key_order_is_irrelevant() {
    let mut a = zeroed();
    let mut b = zeroed();
    assert_eq!(from_json(&mut a, &person_schema(), r#"{"name": "Bo", "age": 4}"#), Ok(()));
    assert_eq!(from_json(&mut b, &person_schema(), r#"{"age": 4, "name": "Bo"}"#), Ok(()));
    assert_eq!(a, vec![Slot::Str("Bo".to_string()), Slot::U64(4)]);
    assert_eq!(a, b);
}

#[test]
fn unknown_keys_are_skipped() {
    let mut mem = zeroed();
    let json = r#"{"name": "Al", "extra": {"x": [1, {"y": null}], "z": "q"}, "more": [1, 2], "age": 9}"#;
    assert_eq!(from_json(&mut mem, &person_schema(), json), Ok(()));
    assert_eq!(mem, vec![Slot::Str("Al".to_string()), Slot::U64(9)]);
}

#[test]
fn first_field_of_a_duplicated_name_wins() {
    let schema = Schema {
        shapes: vec![
            Shape {
                name: "Twice".to_string(),
                size: 2,
                kind: ShapeKind::Record(MapShape {
                    fields: vec![field("a", 1, 1), field("a", 0, 1)],
                    open_ended: true,
                }),
            },
            scalar("u64", Scalar::U64),
        ],
        root: 0,
    };
    let mut mem = vec![Slot::Empty, Slot::Empty];
    assert_eq!(from_json(&mut mem, &schema, r#"{"a": 3}"#), Ok(()));
    assert_eq!(mem, vec![Slot::Empty, Slot::U64(3)]);
}

#[test]
fn slots_outside_the_record_are_untouched() {
    let mut mem = vec![Slot::U64(1), Slot::Str(String::new()), Slot::U64(0), Slot::U64(2)];
    let mut schema = person_schema();
    schema.shapes[0] = Shape {
        name: "Offset".to_string(),
        size: 4,
        kind: ShapeKind::Record(MapShape {
            fields: vec![field("name", 1, 1), field("age", 2, 2)],
            open_ended: false,
        }),
    };
    assert_eq!(from_json(&mut mem, &schema, r#"{"name": "Alice", "age": 30}"#), Ok(()));
    assert_eq!(
        mem,
        vec![Slot::U64(1), Slot::Str("Alice".to_string()), Slot::U64(30), Slot::U64(2)]
    );
}

#[test]
fn type_mismatch_leaves_field_unwritten() {
    let mut mem = zeroed();
    let r = from_json(&mut mem, &person_schema(), r#"{"age": "not-a-number"}"#);
    assert!(matches!(r, Err(DecodeError::UnexpectedToken { at: 7, .. })));
    assert_eq!(mem, zeroed());
}

#[test]
fn malformed_text_is_a_scan_failure() {
    let mut mem = zeroed();
    let r = from_json(&mut mem, &person_schema(), r#"{"name": "Alice", "age": 30"#);
    match r {
        Err(DecodeError::ScanFailure { cause, .. }) => assert_eq!(cause.kind, ScanFault::Syntax),
        other => panic!("unexpected result {:?}", other),
    }
    assert_eq!(mem, vec![Slot::Str("Alice".to_string()), Slot::U64(30)]);
}

#[test]
fn unterminated_string_is_a_scan_failure() {
    let mut mem = zeroed();
    let r = from_json(&mut mem, &person_schema(), r#"{"name": "Ali"#);
    assert!(matches!(r, Err(DecodeError::ScanFailure { at: 8, .. })));
    assert_eq!(mem, zeroed());
}

#[test]
fn unsupported_scalar_is_reported() {
    let mut mem = vec![Slot::Empty];
    let r = from_json(&mut mem, &scalar_schema(Scalar::Bool), "true");
    assert_eq!(r, Err(DecodeError::UnsupportedSchema { shape: "scalar".to_string(), scalar: Some(Scalar::Bool) }));
}

#[test]
fn unsupported_shape_is_reported() {
    let schema = Schema {
        shapes: vec![
            Shape { name: "List".to_string(), size: 1, kind: ShapeKind::Array(1) },
            scalar("u64", Scalar::U64),
        ],
        root: 0,
    };
    let mut mem = vec![Slot::Empty];
    let r = from_json(&mut mem, &schema, "[1]");
    assert_eq!(r, Err(DecodeError::UnsupportedSchema { shape: "List".to_string(), scalar: None }));
    assert_eq!(mem, vec![Slot::Empty]);
}

#[test]
fn nested_records_are_decoded() {
    let schema = Schema {
        shapes: vec![
            Shape {
                name: "Outer".to_string(),
                size: 3,
                kind: ShapeKind::Record(MapShape {
                    fields: vec![field("id", 0, 2), field("inner", 1, 1)],
                    open_ended: false,
                }),
            },
            Shape {
                name: "Inner".to_string(),
                size: 2,
                kind: ShapeKind::Record(MapShape {
                    fields: vec![field("label", 0, 3), field("n", 1, 2)],
                    open_ended: false,
                }),
            },
            scalar("u64", Scalar::U64),
            scalar("String", Scalar::String),
        ],
        root: 0,
    };
    let mut mem = vec![Slot::Empty, Slot::Empty, Slot::Empty];
    let json = r#"{"inner": {"n": 5, "label": "x"}, "id": 11}"#;
    assert_eq!(from_json(&mut mem, &schema, json), Ok(()));
    assert_eq!(mem, vec![Slot::U64(11), Slot::Str("x".to_string()), Slot::U64(5)]);
}

#[test]
fn well_formed_schemas_are_recognised() {
    assert!(person_schema().is_well_formed());
    assert_eq!(person_schema().root_size(), 2);

    let mut bad_offset = person_schema();
    bad_offset.shapes[0].kind = ShapeKind::Record(MapShape {
        fields: vec![field("name", 0, 1), field("age", 2, 2)],
        open_ended: false,
    });
    assert!(!bad_offset.is_well_formed());

    let mut bad_index = person_schema();
    bad_index.shapes[0].kind = ShapeKind::Record(MapShape { fields: vec![field("name", 0, 9)], open_ended: false });
    assert!(!bad_index.is_well_formed());

    let mut bad_root = person_schema();
    bad_root.root = 3;
    assert!(!bad_root.is_well_formed());

    let mut empty_scalar = person_schema();
    empty_scalar.shapes[1].size = 0;
    assert!(!empty_scalar.is_well_formed());
}

#[test]
fn integers_above_i64_max_are_written() {
    let mut mem = vec![Slot::Empty];
    assert_eq!(from_json(&mut mem, &scalar_schema(Scalar::U64), "9223372036854775808"), Ok(()));
    assert_eq!(mem, vec![Slot::U64(9223372036854775808)]);
    assert_eq!(from_json(&mut mem, &scalar_schema(Scalar::U64), "18446744073709551615"), Ok(()));
    assert_eq!(mem, vec![Slot::U64(18446744073709551615)]);
}

#[test]
fn record_with_largest_unsigned_value() {
    let mut mem = zeroed();
    let json = r#"{"name": "Max", "age": 18446744073709551615}"#;
    assert_eq!(from_json(&mut mem, &person_schema(), json), Ok(()));
    assert_eq!(mem, vec![Slot::Str("Max".to_string()), Slot::U64(u64::MAX)]);
}

#[test]
fn fractional_number_is_unexpected() {
    let mut mem = vec![Slot::U64(7)];
    let r = from_json(&mut mem, &scalar_schema(Scalar::U64), "1.5");
    assert_eq!(r, Err(DecodeError::UnexpectedToken { at: 0, cause: None }));
    let r = from_json(&mut mem, &scalar_schema(Scalar::U64), "1e3");
    assert_eq!(r, Err(DecodeError::UnexpectedToken { at: 0, cause: None }));
    assert_eq!(mem, vec![Slot::U64(7)]);
}

#[test]
fn negative_zero_is_zero() {
    let mut mem = vec![Slot::U64(7)];
    assert_eq!(from_json(&mut mem, &scalar_schema(Scalar::U64), "-0"), Ok(()));
    assert_eq!(mem, vec![Slot::U64(0)]);
}

#[test]
fn literals_parse_exactly() {
    assert_eq!(parse_unsigned(b"0"), Unsigned::Value(0));
    assert_eq!(parse_unsigned(b"42"), Unsigned::Value(42));
    assert_eq!(parse_unsigned(b"18446744073709551615"), Unsigned::Value(u64::MAX));
    assert_eq!(parse_unsigned(b"18446744073709551616"), Unsigned::OutOfRange);
    assert_eq!(parse_unsigned(b"-0"), Unsigned::Value(0));
    assert_eq!(parse_unsigned(b"-1"), Unsigned::OutOfRange);
    assert_eq!(parse_unsigned(b"-99999999999999999999999"), Unsigned::OutOfRange);
    assert_eq!(parse_unsigned(b"2.5"), Unsigned::NotAnInteger);
    assert_eq!(parse_unsigned(b"-"), Unsigned::NotAnInteger);
    assert_eq!(parse_unsigned(b""), Unsigned::NotAnInteger);
}

#[test]
fn deep_nesting_is_refused() {
    // A record whose only field is itself.
    let schema = Schema {
        shapes: vec![Shape {
            name: "Loop".to_string(),
            size: 0,
            kind: ShapeKind::Record(MapShape { fields: vec![field("a", 0, 0)], open_ended: false }),
        }],
        root: 0,
    };
    let mut json = String::new();
    for _ in 0..(MAX_DEPTH + 2) {
        json.push_str(r#"{"a": "#);
    }
    json.push_str("{}");
    for _ in 0..(MAX_DEPTH + 2) {
        json.push('}');
    }
    let mut mem: Vec<Slot> = Vec::new();
    let r = from_json(&mut mem, &schema, &json);
    assert_eq!(r, Err(DecodeError::SchemaTooDeep { shape: "Loop".to_string() }));

    let mut shallow = String::new();
    for _ in 0..MAX_DEPTH {
        shallow.push_str(r#"{"a": "#);
    }
    shallow.push_str("{}");
    for _ in 0..MAX_DEPTH {
        shallow.push('}');
    }
    assert_eq!(from_json(&mut mem, &schema, &shallow), Ok(()));
}
