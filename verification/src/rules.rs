//! The rules of validation, as functions on the models of schema and
//! document.
//!
//! At an object, checked against a shape, three passes run in turn: the
//! keys that the shape does not declare, in the object's order; the required
//! fields that the object lacks, in declaration order; and, in declaration
//! order again, the value under each field that is present.

use vstd::prelude::*;
use crate::finding::{FindingKind, FindingView, Segment};
use crate::json::{Json, JsonKind, member_position};
use crate::options::{FatalError, ValidationOptions};
use crate::schema::{Cardinality, FieldSpecView, FieldType, MessageShapeView, ScalarKind, SchemaView};

verus! {

/// The name of a scalar kind in a finding's detail.
pub open spec fn scalar_name(kind: ScalarKind) -> Seq<char> {
    match kind {
        ScalarKind::String => "String"@,
        ScalarKind::Int => "Int"@,
        ScalarKind::Float => "Float"@,
        ScalarKind::Bool => "Bool"@,
        ScalarKind::Bytes => "Bytes"@,
    }
}

/// The name of a JSON kind in a finding's detail.
pub open spec fn kind_name(kind: JsonKind) -> Seq<char> {
    match kind {
        JsonKind::Null => "Null"@,
        JsonKind::Bool => "Bool"@,
        JsonKind::Number => "Number"@,
        JsonKind::String => "String"@,
        JsonKind::Array => "Array"@,
        JsonKind::Object => "Object"@,
    }
}

/// The detail of a `WrongDataType` finding: what was expected and what was
/// found.
pub open spec fn mismatch_detail(expected: Seq<char>, found: JsonKind) -> Seq<char> {
    "expected "@ + expected + ", found "@ + kind_name(found)
}

/// A finding without detail.
pub open spec fn plain_finding(path: Seq<Segment>, kind: FindingKind) -> FindingView {
    FindingView { path, kind, detail: None }
}

/// The finding for a value of the wrong type.
pub open spec fn wrong_type_finding(
    path: Seq<Segment>,
    expected: Seq<char>,
    found: JsonKind,
) -> FindingView {
    FindingView {
        path,
        kind: FindingKind::WrongDataType,
        detail: Some(mismatch_detail(expected, found)),
    }
}

/// Whether a value is accepted for a scalar field.
///
/// A string is accepted for `String` and `Bytes`, a boolean for `Bool`, any
/// number for `Float`, a number without fractional part for `Int`, and
/// `null` where the field is optional.
pub open spec fn scalar_accepts(kind: ScalarKind, optional: bool, value: Json) -> bool {
    match value {
        Json::Null => optional,
        Json::Bool(_) => kind is Bool,
        Json::Number(n) => kind is Float || (kind is Int && n.integral),
        Json::String(_) => kind is String || kind is Bytes,
        Json::Array(_) => false,
        Json::Object(_) => false,
    }
}

/// The first pass: an `AdditionalField` for each of the first `n` members
/// whose key the shape does not declare.
pub open spec fn extra_findings(
    shape: MessageShapeView,
    members: Seq<(Seq<char>, Json)>,
    path: Seq<Segment>,
    n: int,
) -> Seq<FindingView>
    decreases n,
{
    if n <= 0 {
        Seq::empty()
    } else {
        let before = extra_findings(shape, members, path, n - 1);
        let key = members[n - 1].0;
        if shape.declares(key) {
            before
        } else {
            before.push(plain_finding(path.push(Segment::Field(key)), FindingKind::AdditionalField))
        }
    }
}

/// The second pass: a `MissingField` for each of the first `n` fields that
/// is required and has no member.
pub open spec fn missing_findings(
    shape: MessageShapeView,
    members: Seq<(Seq<char>, Json)>,
    path: Seq<Segment>,
    n: int,
) -> Seq<FindingView>
    decreases n,
{
    if n <= 0 {
        Seq::empty()
    } else {
        let before = missing_findings(shape, members, path, n - 1);
        let field = shape.fields[n - 1];
        let at = member_position(members, field.name);
        if field.optional || 0 <= at < members.len() {
            before
        } else {
            before.push(
                plain_finding(path.push(Segment::Field(field.name)), FindingKind::MissingField),
            )
        }
    }
}

/// All findings at an object checked against the shape at `shape`.
pub open spec fn object_findings(
    schema: SchemaView,
    shape: int,
    members: Seq<(Seq<char>, Json)>,
    path: Seq<Segment>,
    ignore_missing: bool,
) -> Seq<FindingView>
    decreases members, schema.shapes[shape].fields.len() + 1,
{
    let declared = schema.shapes[shape];
    let extra = extra_findings(declared, members, path, members.len() as int);
    let missing = if ignore_missing {
        Seq::empty()
    } else {
        missing_findings(declared, members, path, declared.fields.len() as int)
    };
    let typed = typed_findings(
        schema,
        declared.fields,
        members,
        path,
        ignore_missing,
        declared.fields.len() as int,
    );
    extra + missing + typed
}

/// The third pass: the findings at the values under those of the first `n`
/// fields that have a member.
pub open spec fn typed_findings(
    schema: SchemaView,
    fields: Seq<FieldSpecView>,
    members: Seq<(Seq<char>, Json)>,
    path: Seq<Segment>,
    ignore_missing: bool,
    n: int,
) -> Seq<FindingView>
    decreases members, n,
{
    if n <= 0 {
        Seq::empty()
    } else {
        let before = typed_findings(schema, fields, members, path, ignore_missing, n - 1);
        let field = fields[n - 1];
        let at = member_position(members, field.name);
        if 0 <= at < members.len() {
            before + field_findings(
                schema,
                field,
                members[at].1,
                path.push(Segment::Field(field.name)),
                ignore_missing,
            )
        } else {
            before
        }
    }
}

/// The findings at the value under a field.
pub open spec fn field_findings(
    schema: SchemaView,
    field: FieldSpecView,
    value: Json,
    path: Seq<Segment>,
    ignore_missing: bool,
) -> Seq<FindingView>
    decreases value, 1int,
{
    match field.cardinality {
        Cardinality::Single => single_findings(
            schema,
            field.ty,
            field.optional,
            value,
            path,
            ignore_missing,
        ),
        Cardinality::Repeated => match value {
            Json::Array(items) => item_findings(
                schema,
                field.ty,
                field.optional,
                items,
                path,
                ignore_missing,
                items.len() as int,
            ),
            _ => seq![plain_finding(path, FindingKind::MissingArrayField)],
        },
    }
}

/// The findings at the first `n` items of the array under a repeated field.
pub open spec fn item_findings(
    schema: SchemaView,
    ty: FieldType,
    optional: bool,
    items: Seq<Json>,
    path: Seq<Segment>,
    ignore_missing: bool,
    n: int,
) -> Seq<FindingView>
    decreases items, n,
{
    if n <= 0 || n > items.len() {
        Seq::empty()
    } else {
        item_findings(schema, ty, optional, items, path, ignore_missing, n - 1) + single_findings(
            schema,
            ty,
            optional,
            items[n - 1],
            path.push(Segment::Index((n - 1) as nat)),
            ignore_missing,
        )
    }
}

/// The findings at one value checked against a field's type.
pub open spec fn single_findings(
    schema: SchemaView,
    ty: FieldType,
    optional: bool,
    value: Json,
    path: Seq<Segment>,
    ignore_missing: bool,
) -> Seq<FindingView>
    decreases value, 0int,
{
    match ty {
        FieldType::Scalar(kind) => if scalar_accepts(kind, optional, value) {
            Seq::empty()
        } else {
            seq![wrong_type_finding(path, scalar_name(kind), value.kind())]
        },
        FieldType::Message(target) => match value {
            Json::Object(members) => object_findings(
                schema,
                target as int,
                members,
                path,
                ignore_missing,
            ),
            _ => seq![wrong_type_finding(path, kind_name(JsonKind::Object), value.kind())],
        },
    }
}

/// How many objects, one inside the other, the validation of this object
/// descends into, the object itself included.
pub open spec fn object_depth(
    schema: SchemaView,
    shape: int,
    members: Seq<(Seq<char>, Json)>,
) -> nat
    decreases members, schema.shapes[shape].fields.len() + 1,
{
    let fields = schema.shapes[shape].fields;
    1 + fields_depth(schema, fields, members, fields.len() as int)
}

/// The greatest depth below the values under the first `n` fields.
pub open spec fn fields_depth(
    schema: SchemaView,
    fields: Seq<FieldSpecView>,
    members: Seq<(Seq<char>, Json)>,
    n: int,
) -> nat
    decreases members, n,
{
    if n <= 0 {
        0
    } else {
        let before = fields_depth(schema, fields, members, n - 1);
        let field = fields[n - 1];
        let at = member_position(members, field.name);
        if 0 <= at < members.len() {
            let here = field_depth(schema, field, members[at].1);
            if here > before {
                here
            } else {
                before
            }
        } else {
            before
        }
    }
}

/// The depth below the value under a field.
pub open spec fn field_depth(schema: SchemaView, field: FieldSpecView, value: Json) -> nat
    decreases value, 1int,
{
    match field.cardinality {
        Cardinality::Single => single_depth(schema, field.ty, value),
        Cardinality::Repeated => match value {
            Json::Array(items) => items_depth(schema, field.ty, items, items.len() as int),
            _ => 0,
        },
    }
}

/// The greatest depth below the first `n` items of an array.
pub open spec fn items_depth(schema: SchemaView, ty: FieldType, items: Seq<Json>, n: int) -> nat
    decreases items, n,
{
    if n <= 0 || n > items.len() {
        0
    } else {
        let before = items_depth(schema, ty, items, n - 1);
        let here = single_depth(schema, ty, items[n - 1]);
        if here > before {
            here
        } else {
            before
        }
    }
}

/// The depth below one value checked against a field's type: that of the
/// object under a message-typed field, and zero for anything else.
pub open spec fn single_depth(schema: SchemaView, ty: FieldType, value: Json) -> nat
    decreases value, 0int,
{
    match ty {
        FieldType::Scalar(_) => 0,
        FieldType::Message(target) => match value {
            Json::Object(members) => object_depth(schema, target as int, members),
            _ => 0,
        },
    }
}

/// The findings of a whole document: those of the root object against the
/// root shape, or a single `TypeMismatch` at the empty path where the root
/// is no object.
pub open spec fn document_findings(
    schema: SchemaView,
    value: Json,
    ignore_missing: bool,
) -> Seq<FindingView> {
    match value {
        Json::Object(members) => object_findings(
            schema,
            schema.root,
            members,
            Seq::empty(),
            ignore_missing,
        ),
        _ => seq![plain_finding(Seq::empty(), FindingKind::TypeMismatch)],
    }
}

/// How deep the validation of a document descends.
pub open spec fn document_depth(schema: SchemaView, value: Json) -> nat {
    match value {
        Json::Object(members) => object_depth(schema, schema.root, members),
        _ => 0,
    }
}

/// What a validation returns: the findings, or `DocumentTooDeep` where the
/// descent would exceed the limit.
pub open spec fn validation_outcome(
    schema: SchemaView,
    value: Json,
    options: ValidationOptions,
) -> Result<Seq<FindingView>, FatalError> {
    if document_depth(schema, value) > options.max_depth {
        Err(FatalError::DocumentTooDeep)
    } else {
        Ok(document_findings(schema, value, options.ignore_missing))
    }
}

/// The depth below the first fields does not shrink as more fields are
/// taken in.
pub proof fn lemma_fields_depth_grows(
    schema: SchemaView,
    fields: Seq<FieldSpecView>,
    members: Seq<(Seq<char>, Json)>,
    m: int,
    n: int,
)
    requires
        m <= n,
    ensures
        fields_depth(schema, fields, members, m) <= fields_depth(schema, fields, members, n),
    decreases n - m,
{
    if m < n {
        lemma_fields_depth_grows(schema, fields, members, m, n - 1);
    }
}

/// The depth below the first items does not shrink as more items are taken
/// in.
pub proof fn lemma_items_depth_grows(
    schema: SchemaView,
    ty: FieldType,
    items: Seq<Json>,
    m: int,
    n: int,
)
    requires
        m <= n <= items.len(),
    ensures
        items_depth(schema, ty, items, m) <= items_depth(schema, ty, items, n),
    decreases n - m,
{
    if m < n {
        lemma_items_depth_grows(schema, ty, items, m, n - 1);
    }
}

} // verus!
