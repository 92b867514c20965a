use proto_json_validator::parse::{from_value, parse_json};
use proto_json_validator::{
    validate_json, Cardinality, FieldPath, FieldSpec, FieldType, Finding, FindingKind, JsonKind,
    JsonNumber, JsonValue, MessageShape, PathSegment, ScalarKind, Schema, ValidationOptions,
};

fn whole() -> JsonValue {
    JsonValue::Number(JsonNumber { integral: true })
}

fn fraction() -> JsonValue {
    JsonValue::Number(JsonNumber { integral: false })
}

fn string(text: &str) -> JsonValue {
    JsonValue::String(text.to_string())
}

fn object(members: Vec<(&str, JsonValue)>) -> JsonValue {
    JsonValue::Object(members.into_iter().map(|(k, v)| (k.to_string(), v)).collect())
}

#[test]
fn doubles_are_whole_or_not() {
    let whole_doubles = [
        0.0,
        -0.0,
        1.0,
        -1.0,
        2.0,
        3.0,
        1023.0,
        -77.0,
        4503599627370495.0,
        4503599627370496.0,
        9007199254740991.0,
        9007199254740992.0,
        1e21,
        1.5e300,
        -1e100,
        f64::MAX,
        f64::MIN,
    ];
    for double in whole_doubles {
        assert!(JsonNumber::from_bits(double.to_bits()).integral, "{}", double);
    }
    let other_doubles = [
        0.5,
        -0.5,
        1.5,
        0.1,
        0.999999999999,
        1.0000000000000002,
        2.5,
        1023.75,
        4503599627370495.5,
        1e-7,
        1e-320,
        f64::MIN_POSITIVE,
        f64::EPSILON,
        f64::INFINITY,
        f64::NEG_INFINITY,
        f64::NAN,
    ];
    for double in other_doubles {
        assert!(!JsonNumber::from_bits(double.to_bits()).integral, "{}", double);
    }
}

#[test]
fn wholeness_agrees_with_the_fractional_part() {
    let mut bits: u64 = 0x3ff0_0000_0000_0000;
    for step in 0..20000u64 {
        let double = f64::from_bits(bits);
        assert_eq!(
            JsonNumber::from_bits(bits).integral,
            double.is_finite() && double.fract() == 0.0,
            "{}",
            double
        );
        bits = bits.wrapping_mul(6364136223846793005).wrapping_add(1442695040888963407 + step);
    }
}

#[test]
fn scalars_are_parsed() {
    assert_eq!(parse_json("null"), Ok(JsonValue::Null));
    assert_eq!(parse_json("true"), Ok(JsonValue::Bool(true)));
    assert_eq!(parse_json("false"), Ok(JsonValue::Bool(false)));
    assert_eq!(parse_json("\"hello\""), Ok(string("hello")));
    assert_eq!(parse_json("\"\""), Ok(string("")));
    assert_eq!(parse_json(" \"a\\nb\\u00e9\" "), Ok(string("a\nb\u{e9}")));
}

#[test]
fn numbers_are_parsed_as_whole_or_not() {
    for text in ["0", "1", "-2", "42", "1.0", "2.000", "1e3", "1.5e1", "-0.0", "18446744073709551615",
        "-9223372036854775808", "123456789012345678901234567890", "0.5e1", "1E2"]
    {
        assert_eq!(parse_json(text), Ok(whole()), "{}", text);
    }
    for text in ["0.5", "-0.25", "1.5", "3.14159", "1e-3", "15e-1", "0.1e0", "1.0000000000000002"] {
        assert_eq!(parse_json(text), Ok(fraction()), "{}", text);
    }
}

#[test]
fn arrays_keep_their_order() {
    assert_eq!(parse_json("[]"), Ok(JsonValue::Array(vec![])));
    assert_eq!(
        parse_json("[1, 2.5, \"x\", null, [true], {}]"),
        Ok(JsonValue::Array(vec![
            whole(),
            fraction(),
            string("x"),
            JsonValue::Null,
            JsonValue::Array(vec![JsonValue::Bool(true)]),
            JsonValue::Object(vec![]),
        ]))
    );
}

#[test]
fn objects_hand_out_each_key_once_in_the_order_of_the_map() {
    let from_text = parse_json("{\"b\": 1, \"a\": {\"z\": [], \"y\": 0.5}, \"c\": \"x\"}").unwrap();
    let mut map = serde_json::Map::new();
    map.insert("b".to_string(), serde_json::Value::from(1));
    let mut inner = serde_json::Map::new();
    inner.insert("z".to_string(), serde_json::Value::Array(vec![]));
    inner.insert("y".to_string(), serde_json::Value::from(0.5));
    map.insert("a".to_string(), serde_json::Value::Object(inner));
    map.insert("c".to_string(), serde_json::Value::from("x"));
    let keys: Vec<String> = map.keys().cloned().collect();
    let value = serde_json::Value::Object(map);
    let from_tree = from_value(&value);
    assert_eq!(from_text, from_tree);
    match &from_tree {
        JsonValue::Object(members) => {
            let copied: Vec<String> = members.iter().map(|(k, _)| k.clone()).collect();
            assert_eq!(copied, keys);
            assert_eq!(copied.len(), 3);
        },
        _ => panic!("no object"),
    }
    assert_eq!(
        from_tree,
        object(vec![
            ("a", object(vec![("y", fraction()), ("z", JsonValue::Array(vec![]))])),
            ("b", whole()),
            ("c", string("x")),
        ])
    );
    assert!(from_tree.has_unique_keys());
}

#[test]
fn key_written_twice_is_held_once() {
    let document = parse_json("{\"a\": 1.5, \"a\": \"last\"}").unwrap();
    assert_eq!(document, object(vec![("a", string("last"))]));
    assert!(document.has_unique_keys());
}

#[test]
fn values_are_copied_variant_by_variant() {
    assert_eq!(from_value(&serde_json::Value::Null), JsonValue::Null);
    assert_eq!(from_value(&serde_json::Value::Bool(true)), JsonValue::Bool(true));
    assert_eq!(from_value(&serde_json::Value::Bool(false)), JsonValue::Bool(false));
    assert_eq!(from_value(&serde_json::Value::from(7u64)), whole());
    assert_eq!(from_value(&serde_json::Value::from(-7i64)), whole());
    assert_eq!(from_value(&serde_json::Value::from(7.0)), whole());
    assert_eq!(from_value(&serde_json::Value::from(7.25)), fraction());
    assert_eq!(from_value(&serde_json::Value::from(u64::MAX)), whole());
    assert_eq!(from_value(&serde_json::Value::from("s")), string("s"));
    assert_eq!(
        from_value(&serde_json::Value::Array(vec![
            serde_json::Value::from("first"),
            serde_json::Value::Null,
            serde_json::Value::from("last"),
        ])),
        JsonValue::Array(vec![string("first"), JsonValue::Null, string("last")])
    );
    for (value, kind) in [
        (serde_json::Value::Null, JsonKind::Null),
        (serde_json::Value::Bool(true), JsonKind::Bool),
        (serde_json::Value::from(1), JsonKind::Number),
        (serde_json::Value::from(""), JsonKind::String),
        (serde_json::Value::Array(vec![]), JsonKind::Array),
        (serde_json::Value::Object(serde_json::Map::new()), JsonKind::Object),
    ] {
        assert_eq!(from_value(&value).kind(), kind);
    }
}

#[test]
fn text_that_is_no_json_is_refused_with_a_message() {
    for text in ["", "{", "[1,]", "{\"a\" 1}", "nul", "1 2", "'a'", "{\"a\": 01}", "1e999"] {
        match parse_json(text) {
            Ok(document) => panic!("{} was read as {:?}", text, document),
            Err(error) => assert!(!error.message.is_empty()),
        }
    }
    assert_eq!(
        parse_json("{").unwrap_err().message,
        serde_json::from_str::<serde_json::Value>("{").unwrap_err().to_string()
    );
}

#[test]
fn parsed_document_is_validated() {
    let field = |name: &str, kind: ScalarKind, cardinality: Cardinality| FieldSpec {
        name: name.to_string(),
        ty: FieldType::Scalar(kind),
        cardinality,
        optional: false,
    };
    let schema = Schema::new(
        vec![MessageShape {
            name: "Root".to_string(),
            fields: vec![
                field("count", ScalarKind::Int, Cardinality::Single),
                field("ratio", ScalarKind::Float, Cardinality::Single),
                field("nums", ScalarKind::Int, Cardinality::Repeated),
            ],
        }],
        0,
    )
    .unwrap();
    let document =
        parse_json("{\"nums\": [1, 2.0, 2.5, \"x\"], \"count\": 3.5, \"ratio\": 4, \"more\": 1}")
            .unwrap();
    let wrong = |segments: Vec<PathSegment>, detail: &str| Finding {
        path: FieldPath { segments },
        kind: FindingKind::WrongDataType,
        detail: Some(detail.to_string()),
    };
    let nums = || PathSegment::Field("nums".to_string());
    assert_eq!(
        validate_json(&schema, &document, &ValidationOptions::default()),
        Ok(vec![
            Finding {
                path: FieldPath { segments: vec![PathSegment::Field("more".to_string())] },
                kind: FindingKind::AdditionalField,
                detail: None,
            },
            wrong(vec![PathSegment::Field("count".to_string())], "expected Int, found Number"),
            wrong(vec![nums(), PathSegment::Index(2)], "expected Int, found Number"),
            wrong(vec![nums(), PathSegment::Index(3)], "expected Int, found String"),
        ])
    );
}
