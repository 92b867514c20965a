use proto_json_validator::declaration::{
    declare_files, find_declaration, find_file, resolve, scalar_kind_of, schema_of_files,
    FieldDeclaration, FileNode, Label, MessageDeclaration, MessageNode, WireType,
};
use proto_json_validator::json::{find_member, has_distinct_keys};
use proto_json_validator::{
    validate_json, Cardinality, FieldSpec, FieldType, Finding, FieldPath, FindingKind, JsonKind,
    JsonNumber, JsonValue, MessageShape, PathSegment, ScalarKind, Schema, SchemaError,
    ValidationOptions,
};

fn scalar(name: &str, kind: ScalarKind) -> FieldSpec {
    FieldSpec {
        name: name.to_string(),
        ty: FieldType::Scalar(kind),
        cardinality: Cardinality::Single,
        optional: false,
    }
}

fn message(name: &str, target: usize) -> FieldSpec {
    FieldSpec {
        name: name.to_string(),
        ty: FieldType::Message(target),
        cardinality: Cardinality::Single,
        optional: false,
    }
}

fn shape(name: &str, fields: Vec<FieldSpec>) -> MessageShape {
    MessageShape { name: name.to_string(), fields }
}

fn declared(name: &str, label: Label, wire_type: WireType, message_name: &str) -> FieldDeclaration {
    FieldDeclaration {
        name: name.to_string(),
        label,
        wire_type,
        message_name: message_name.to_string(),
        proto3_optional: false,
    }
}

fn whole() -> JsonValue {
    JsonValue::Number(JsonNumber { integral: true })
}

#[test]
fn schema_keeps_its_shapes_and_root() {
    let schema = Schema::new(
        vec![shape("A", vec![message("b", 1)]), shape("B", vec![scalar("x", ScalarKind::Int)])],
        1,
    )
    .unwrap();
    assert_eq!(schema.len(), 2);
    assert_eq!(schema.root(), 1);
    assert_eq!(schema.shape(0), &shape("A", vec![message("b", 1)]));
    assert_eq!(schema.shape(1).position_of(&"x".to_string()), Some(0));
    assert_eq!(schema.shape(1).position_of(&"y".to_string()), None);
}

#[test]
fn schema_without_its_root_is_refused() {
    assert_eq!(Schema::new(vec![], 0), Err(SchemaError::MissingRoot));
    assert_eq!(Schema::new(vec![shape("A", vec![])], 1), Err(SchemaError::MissingRoot));
    assert_eq!(
        Schema::new(vec![shape("A", vec![message("b", 7), scalar("b", ScalarKind::Int)])], 3),
        Err(SchemaError::MissingRoot)
    );
}

#[test]
fn schema_with_a_dangling_reference_is_refused() {
    assert_eq!(
        Schema::new(vec![shape("A", vec![scalar("x", ScalarKind::Int), message("b", 1)])], 0),
        Err(SchemaError::DanglingReference)
    );
    assert_eq!(
        Schema::new(
            vec![shape("A", vec![]), shape("B", vec![message("x", 2), message("x", 0)])],
            0
        ),
        Err(SchemaError::DanglingReference)
    );
}

#[test]
fn schema_with_a_repeated_field_name_is_refused() {
    assert_eq!(
        Schema::new(
            vec![shape(
                "A",
                vec![
                    scalar("x", ScalarKind::Int),
                    scalar("y", ScalarKind::Int),
                    scalar("x", ScalarKind::Bool),
                ]
            )],
            0
        ),
        Err(SchemaError::DuplicateFieldName)
    );
    assert!(!shape("A", vec![scalar("x", ScalarKind::Int), scalar("x", ScalarKind::Int)])
        .has_distinct_names());
    assert!(shape("A", vec![scalar("x", ScalarKind::Int), scalar("y", ScalarKind::Int)])
        .has_distinct_names());
    assert!(shape("A", vec![]).has_distinct_names());
}

#[test]
fn shape_may_refer_to_itself() {
    assert!(Schema::new(vec![shape("Node", vec![message("next", 0)])], 0).is_ok());
}

#[test]
fn wire_types_map_to_scalar_kinds() {
    let table = [
        (WireType::Double, Some(ScalarKind::Float)),
        (WireType::Float, Some(ScalarKind::Float)),
        (WireType::Int64, Some(ScalarKind::Int)),
        (WireType::UInt64, Some(ScalarKind::Int)),
        (WireType::Int32, Some(ScalarKind::Int)),
        (WireType::Fixed64, Some(ScalarKind::Int)),
        (WireType::Fixed32, Some(ScalarKind::Int)),
        (WireType::Bool, Some(ScalarKind::Bool)),
        (WireType::String, Some(ScalarKind::String)),
        (WireType::Group, None),
        (WireType::Message, None),
        (WireType::Bytes, Some(ScalarKind::Bytes)),
        (WireType::UInt32, Some(ScalarKind::Int)),
        (WireType::Enum, Some(ScalarKind::String)),
        (WireType::SFixed32, Some(ScalarKind::Int)),
        (WireType::SFixed64, Some(ScalarKind::Int)),
        (WireType::SInt32, Some(ScalarKind::Int)),
        (WireType::SInt64, Some(ScalarKind::Int)),
    ];
    for (wire_type, kind) in table {
        assert_eq!(scalar_kind_of(wire_type), kind);
    }
}

fn library() -> Vec<MessageDeclaration> {
    vec![
        MessageDeclaration {
            name: ".shop.Order".to_string(),
            proto3: false,
            fields: vec![
                declared("id", Label::Required, WireType::Int64, ""),
                declared("note", Label::Optional, WireType::String, ""),
                declared("lines", Label::Repeated, WireType::Message, ".shop.Line"),
                declared("state", Label::Optional, WireType::Enum, ".shop.State"),
            ],
        },
        MessageDeclaration {
            name: ".shop.Line".to_string(),
            proto3: true,
            fields: vec![
                declared("sku", Label::Optional, WireType::String, ""),
                FieldDeclaration {
                    name: "qty".to_string(),
                    label: Label::Optional,
                    wire_type: WireType::UInt32,
                    message_name: String::new(),
                    proto3_optional: true,
                },
                declared("weight", Label::Optional, WireType::Double, ""),
                declared("parent", Label::Optional, WireType::Message, ".shop.Order"),
                declared("blob", Label::Repeated, WireType::Bytes, ""),
            ],
        },
    ]
}

fn spec(name: &str, ty: FieldType, cardinality: Cardinality, optional: bool) -> FieldSpec {
    FieldSpec { name: name.to_string(), ty, cardinality, optional }
}

#[test]
fn declarations_resolve_to_shapes() {
    let schema = resolve(&library(), &".shop.Line".to_string()).unwrap();
    assert_eq!(schema.root(), 1);
    assert_eq!(schema.len(), 2);
    assert_eq!(
        schema.shape(0),
        &shape(
            ".shop.Order",
            vec![
                spec("id", FieldType::Scalar(ScalarKind::Int), Cardinality::Single, false),
                spec("note", FieldType::Scalar(ScalarKind::String), Cardinality::Single, true),
                spec("lines", FieldType::Message(1), Cardinality::Repeated, false),
                spec("state", FieldType::Scalar(ScalarKind::String), Cardinality::Single, true),
            ]
        )
    );
    assert_eq!(
        schema.shape(1),
        &shape(
            ".shop.Line",
            vec![
                spec("sku", FieldType::Scalar(ScalarKind::String), Cardinality::Single, false),
                spec("qty", FieldType::Scalar(ScalarKind::Int), Cardinality::Single, true),
                spec("weight", FieldType::Scalar(ScalarKind::Float), Cardinality::Single, false),
                spec("parent", FieldType::Message(0), Cardinality::Single, false),
                spec("blob", FieldType::Scalar(ScalarKind::Bytes), Cardinality::Repeated, false),
            ]
        )
    );
}

#[test]
fn declarations_are_found_by_name() {
    let declarations = library();
    assert_eq!(find_declaration(&declarations, &".shop.Order".to_string()), 0);
    assert_eq!(find_declaration(&declarations, &".shop.Line".to_string()), 1);
    assert_eq!(find_declaration(&declarations, &"Line".to_string()), 2);
    assert_eq!(find_declaration(&vec![], &"Line".to_string()), 0);
}

#[test]
fn unknown_root_name_is_a_missing_root() {
    assert_eq!(resolve(&library(), &".shop.Cart".to_string()), Err(SchemaError::MissingRoot));
    assert_eq!(resolve(&vec![], &"".to_string()), Err(SchemaError::MissingRoot));
}

#[test]
fn undeclared_message_name_is_a_dangling_reference() {
    let mut declarations = library();
    declarations[1].fields[3].message_name = ".shop.Customer".to_string();
    assert_eq!(
        resolve(&declarations, &".shop.Order".to_string()),
        Err(SchemaError::DanglingReference)
    );
}

#[test]
fn two_declared_fields_of_one_name_are_refused() {
    let mut declarations = library();
    declarations[0].fields.push(declared("id", Label::Optional, WireType::Bool, ""));
    assert_eq!(
        resolve(&declarations, &".shop.Order".to_string()),
        Err(SchemaError::DuplicateFieldName)
    );
}

#[test]
fn resolved_schema_validates() {
    let schema = resolve(&library(), &".shop.Order".to_string()).unwrap();
    let value = JsonValue::Object(vec![
        ("id".to_string(), whole()),
        (
            "lines".to_string(),
            JsonValue::Array(vec![JsonValue::Object(vec![
                ("sku".to_string(), JsonValue::String("a".to_string())),
                ("weight".to_string(), JsonValue::Number(JsonNumber { integral: false })),
                ("blob".to_string(), JsonValue::Array(vec![])),
                ("parent".to_string(), JsonValue::Bool(true)),
            ])]),
        ),
    ]);
    let options = ValidationOptions::default();
    assert_eq!(
        validate_json(&schema, &value, &options),
        Ok(vec![Finding {
            path: FieldPath {
                segments: vec![
                    PathSegment::Field("lines".to_string()),
                    PathSegment::Index(0),
                    PathSegment::Field("parent".to_string()),
                ],
            },
            kind: FindingKind::WrongDataType,
            detail: Some("expected Object, found Bool".to_string()),
        }])
    );
}

#[test]
fn members_are_found_by_key() {
    let members = vec![
        ("a".to_string(), JsonValue::Null),
        ("b".to_string(), whole()),
        ("a".to_string(), JsonValue::Bool(true)),
    ];
    assert_eq!(find_member(&members, &"a".to_string()), Some(0));
    assert_eq!(find_member(&members, &"b".to_string()), Some(1));
    assert_eq!(find_member(&members, &"c".to_string()), None);
    assert_eq!(find_member(&vec![], &"a".to_string()), None);
    assert!(!has_distinct_keys(&members));
    assert!(has_distinct_keys(&members[..2].iter().map(|(k, _)| (k.clone(), JsonValue::Null)).collect()));
}

#[test]
fn unique_keys_are_asked_at_every_depth() {
    let twice = JsonValue::Object(vec![
        ("k".to_string(), JsonValue::Null),
        ("k".to_string(), JsonValue::Null),
    ]);
    assert!(!twice.has_unique_keys());
    assert!(!JsonValue::Array(vec![whole(), twice]).has_unique_keys());
    let nested = JsonValue::Object(vec![
        ("a".to_string(), JsonValue::Array(vec![])),
        (
            "b".to_string(),
            JsonValue::Object(vec![
                ("a".to_string(), JsonValue::Null),
                ("a".to_string(), JsonValue::Null),
            ]),
        ),
    ]);
    assert!(!nested.has_unique_keys());
    let fine = JsonValue::Object(vec![
        ("a".to_string(), JsonValue::Array(vec![JsonValue::Object(vec![])])),
        ("b".to_string(), JsonValue::Object(vec![("a".to_string(), JsonValue::Null)])),
    ]);
    assert!(fine.has_unique_keys());
    assert!(whole().has_unique_keys());
}

#[test]
fn kinds_of_values() {
    assert_eq!(JsonValue::Null.kind(), JsonKind::Null);
    assert_eq!(JsonValue::Bool(true).kind(), JsonKind::Bool);
    assert_eq!(whole().kind(), JsonKind::Number);
    assert_eq!(JsonValue::String(String::new()).kind(), JsonKind::String);
    assert_eq!(JsonValue::Array(vec![]).kind(), JsonKind::Array);
    assert_eq!(JsonValue::Object(vec![]).kind(), JsonKind::Object);
}

fn node(name: &str, fields: Vec<FieldDeclaration>, nested: Vec<MessageNode>) -> MessageNode {
    MessageNode { name: name.to_string(), fields, nested }
}

fn shop_files() -> Vec<FileNode> {
    vec![
        FileNode {
            name: "common.proto".to_string(),
            package: String::new(),
            syntax: "proto2".to_string(),
            messages: vec![node(
                "Money",
                vec![declared("cents", Label::Required, WireType::SInt64, "")],
                vec![],
            )],
        },
        FileNode {
            name: "shop/order.proto".to_string(),
            package: "shop.v1".to_string(),
            syntax: "proto3".to_string(),
            messages: vec![
                node(
                    "Order",
                    vec![
                        declared("total", Label::Optional, WireType::Message, ".Money"),
                        declared("lines", Label::Repeated, WireType::Message, ".shop.v1.Order.Line"),
                    ],
                    vec![
                        node(
                            "Line",
                            vec![declared(
                                "tag",
                                Label::Optional,
                                WireType::Message,
                                ".shop.v1.Order.Line.Tag",
                            )],
                            vec![node("Tag", vec![], vec![])],
                        ),
                        node("Note", vec![], vec![]),
                    ],
                ),
                node("Cart", vec![], vec![]),
            ],
        },
        FileNode {
            name: "empty.proto".to_string(),
            package: "none".to_string(),
            syntax: String::new(),
            messages: vec![],
        },
    ]
}

#[test]
fn messages_are_listed_under_their_full_names() {
    let declared = declare_files(&shop_files());
    let names: Vec<(&str, bool)> = declared.iter().map(|d| (d.name.as_str(), d.proto3)).collect();
    assert_eq!(
        names,
        vec![
            (".Money", false),
            (".shop.v1.Order", true),
            (".shop.v1.Order.Line", true),
            (".shop.v1.Order.Line.Tag", true),
            (".shop.v1.Order.Note", true),
            (".shop.v1.Cart", true),
        ]
    );
    assert_eq!(declared[0].fields, vec![declared_cents()]);
    assert_eq!(declared[1].fields.len(), 2);
    assert_eq!(declared[2].fields[0].message_name, ".shop.v1.Order.Line.Tag");
    assert_eq!(declare_files(&vec![]), vec![]);
}

fn declared_cents() -> FieldDeclaration {
    declared("cents", Label::Required, WireType::SInt64, "")
}

#[test]
fn files_are_found_by_name() {
    let files = shop_files();
    assert_eq!(find_file(&files, &"common.proto".to_string()), 0);
    assert_eq!(find_file(&files, &"shop/order.proto".to_string()), 1);
    assert_eq!(find_file(&files, &"order.proto".to_string()), 3);
    assert_eq!(declared_cents().duplicate(), declared_cents());
}

#[test]
fn first_message_of_the_input_file_is_the_root() {
    let schema = schema_of_files(&shop_files(), &"shop/order.proto".to_string()).unwrap();
    assert_eq!(schema.len(), 6);
    assert_eq!(schema.root(), 1);
    assert_eq!(
        schema.shape(1),
        &shape(
            ".shop.v1.Order",
            vec![
                spec("total", FieldType::Message(0), Cardinality::Single, false),
                spec("lines", FieldType::Message(2), Cardinality::Repeated, false),
            ]
        )
    );
    assert_eq!(
        schema.shape(2),
        &shape(
            ".shop.v1.Order.Line",
            vec![spec("tag", FieldType::Message(3), Cardinality::Single, false)]
        )
    );
    assert_eq!(
        schema.shape(0),
        &shape(".Money", vec![spec("cents", FieldType::Scalar(ScalarKind::Int), Cardinality::Single, false)])
    );
    let other = schema_of_files(&shop_files(), &"common.proto".to_string()).unwrap();
    assert_eq!(other.root(), 0);
}

#[test]
fn input_file_without_a_message_has_no_root() {
    assert_eq!(
        schema_of_files(&shop_files(), &"empty.proto".to_string()),
        Err(SchemaError::MissingRoot)
    );
    assert_eq!(
        schema_of_files(&shop_files(), &"nowhere.proto".to_string()),
        Err(SchemaError::MissingRoot)
    );
    assert_eq!(schema_of_files(&vec![], &"".to_string()), Err(SchemaError::MissingRoot));
}

#[test]
fn files_that_refer_to_what_no_file_declares_are_refused() {
    let mut files = shop_files();
    files.remove(0);
    assert_eq!(
        schema_of_files(&files, &"shop/order.proto".to_string()),
        Err(SchemaError::DanglingReference)
    );
    let mut files = shop_files();
    files[0].messages[0].fields.push(declared("cents", Label::Optional, WireType::Bool, ""));
    assert_eq!(
        schema_of_files(&files, &"shop/order.proto".to_string()),
        Err(SchemaError::DuplicateFieldName)
    );
}
