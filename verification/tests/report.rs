use proto_json_validator::report::{exit_code, render_report, SUCCESS_LINE};
use proto_json_validator::{FieldPath, Finding, FindingKind, PathSegment};

fn name(text: &str) -> PathSegment {
    PathSegment::Field(text.to_string())
}

fn finding(segments: Vec<PathSegment>, kind: FindingKind, detail: Option<&str>) -> Finding {
    Finding { path: FieldPath { segments }, kind, detail: detail.map(|d| d.to_string()) }
}

#[test]
fn paths_as_text() {
    let path = |segments: Vec<PathSegment>| FieldPath { segments }.render();
    assert_eq!(path(vec![]), "");
    assert_eq!(path(vec![name("tags")]), "tags");
    assert_eq!(path(vec![name("addr"), name("zip")]), "addr.zip");
    assert_eq!(path(vec![name("nums"), PathSegment::Index(2)]), "nums[2]");
    assert_eq!(
        path(vec![name("orders"), PathSegment::Index(10), name("lines"), PathSegment::Index(0), name("id")]),
        "orders[10].lines[0].id"
    );
    assert_eq!(path(vec![PathSegment::Index(0), PathSegment::Index(907)]), "[0][907]");
    assert_eq!(
        path(vec![name("n"), PathSegment::Index(usize::MAX)]),
        format!("n[{}]", usize::MAX)
    );
}

#[test]
fn path_grows_and_shrinks() {
    let mut path = FieldPath::new();
    assert_eq!(path.len(), 0);
    path.push(name("a"));
    path.push(PathSegment::Index(3));
    assert_eq!(path.len(), 2);
    let copy = path.duplicate();
    assert_eq!(copy, path);
    path.pop();
    assert_eq!(path.render(), "a");
    let mut empty = FieldPath::new();
    empty.pop();
    assert_eq!(empty, FieldPath::new());
    assert_eq!(copy.render(), "a[3]");
    assert_eq!(name("x").duplicate(), name("x"));
    assert_eq!(PathSegment::Index(4).duplicate(), PathSegment::Index(4));
}

#[test]
fn names_of_kinds() {
    assert_eq!(FindingKind::AdditionalField.name(), "AdditionalField");
    assert_eq!(FindingKind::MissingField.name(), "MissingField");
    assert_eq!(FindingKind::WrongDataType.name(), "WrongDataType");
    assert_eq!(FindingKind::MissingArrayField.name(), "MissingArrayField");
    assert_eq!(FindingKind::TypeMismatch.name(), "TypeMismatch");
}

#[test]
fn findings_as_lines() {
    assert_eq!(
        finding(vec![name("nums"), PathSegment::Index(2)], FindingKind::WrongDataType, Some("expected Int, found String")).render(),
        "nums[2]: WrongDataType (expected Int, found String)"
    );
    assert_eq!(
        finding(vec![name("addr"), name("zip")], FindingKind::MissingField, None).render(),
        "addr.zip: MissingField"
    );
    assert_eq!(finding(vec![], FindingKind::TypeMismatch, None).render(), ": TypeMismatch");
    assert_eq!(
        finding(vec![name("x")], FindingKind::AdditionalField, Some("")).render(),
        "x: AdditionalField ()"
    );
}

#[test]
fn report_of_findings() {
    let findings = vec![
        finding(vec![name("x")], FindingKind::AdditionalField, None),
        finding(vec![name("tags")], FindingKind::MissingArrayField, None),
    ];
    assert_eq!(render_report(&findings), vec!["x: AdditionalField", "tags: MissingArrayField"]);
    assert_eq!(exit_code(&findings), 1);
}

#[test]
fn report_without_findings() {
    assert_eq!(render_report(&vec![]), vec!["JSON is valid against the Protobuf schema."]);
    assert_eq!(SUCCESS_LINE, "JSON is valid against the Protobuf schema.");
    assert_eq!(exit_code(&vec![]), 0);
}
