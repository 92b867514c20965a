//! The validator: walks a shape and a document in lock-step and collects
//! every divergence.

use vstd::prelude::*;
use crate::finding::{
    Finding, FindingKind, FindingView, FieldPath, PathSegment, Segment, findings_view,
    lemma_findings_view_push,
};
use crate::json::{Json, JsonKind, JsonValue, find_member, items_view, members_view};
use crate::options::{FatalError, ValidationOptions};
use crate::rules::{
    document_findings, extra_findings, field_depth, field_findings, fields_depth, item_findings,
    items_depth, kind_name, lemma_fields_depth_grows, lemma_items_depth_grows, mismatch_detail,
    missing_findings, object_depth, object_findings, plain_finding, scalar_accepts, scalar_name,
    single_depth, single_findings, typed_findings, validation_outcome, wrong_type_finding,
};
use crate::schema::{Cardinality, FieldSpec, FieldType, ScalarKind, Schema};

verus! {

/// The model of what a validation returned.
pub open spec fn outcome_view(outcome: Result<Vec<Finding>, FatalError>) -> Result<
    Seq<FindingView>,
    FatalError,
> {
    match outcome {
        Ok(findings) => Ok(findings_view(findings@)),
        Err(error) => Err(error),
    }
}

/// The name of a scalar kind, as a finding's detail gives it.
pub fn scalar_label(kind: ScalarKind) -> (label: &'static str)
    ensures
        label@ == scalar_name(kind),
{
    match kind {
        ScalarKind::String => "String",
        ScalarKind::Int => "Int",
        ScalarKind::Float => "Float",
        ScalarKind::Bool => "Bool",
        ScalarKind::Bytes => "Bytes",
    }
}

/// The name of a JSON kind, as a finding's detail gives it.
pub fn kind_label(kind: JsonKind) -> (label: &'static str)
    ensures
        label@ == kind_name(kind),
{
    match kind {
        JsonKind::Null => "Null",
        JsonKind::Bool => "Bool",
        JsonKind::Number => "Number",
        JsonKind::String => "String",
        JsonKind::Array => "Array",
        JsonKind::Object => "Object",
    }
}

/// Whether `value` is accepted for a scalar field of kind `kind`.
pub fn accepts_scalar(kind: ScalarKind, optional: bool, value: &JsonValue) -> (accepted: bool)
    ensures
        accepted == scalar_accepts(kind, optional, value@),
{
    match value {
        JsonValue::Null => optional,
        JsonValue::Bool(_) => match kind {
            ScalarKind::Bool => true,
            _ => false,
        },
        JsonValue::Number(n) => match kind {
            ScalarKind::Float => true,
            ScalarKind::Int => n.integral,
            _ => false,
        },
        JsonValue::String(_) => match kind {
            ScalarKind::String => true,
            ScalarKind::Bytes => true,
            _ => false,
        },
        JsonValue::Array(_) => false,
        JsonValue::Object(_) => false,
    }
}

/// Appends a finding of `kind` at `path`.
fn report(findings: &mut Vec<Finding>, path: &FieldPath, kind: FindingKind)
    ensures
        findings_view(final(findings)@) == findings_view(old(findings)@).push(
            plain_finding(path@, kind),
        ),
{
    let finding = Finding { path: path.duplicate(), kind, detail: None };
    proof {
        lemma_findings_view_push(findings@, finding);
    }
    findings.push(finding);
}

/// Appends a finding of `kind` one step below `path`, at the member
/// `name`.
fn report_member(findings: &mut Vec<Finding>, path: &mut FieldPath, name: &String, kind: FindingKind)
    ensures
        final(path)@ == old(path)@,
        findings_view(final(findings)@) == findings_view(old(findings)@).push(
            plain_finding(old(path)@.push(Segment::Field(name@)), kind),
        ),
{
    path.push(PathSegment::Field(name.clone()));
    report(findings, path, kind);
    path.pop();
    assert(path@ =~= old(path)@);
}

/// Appends a `WrongDataType` at `path`: `expected` was declared, a value
/// of kind `found` is there.
fn report_wrong_type(
    findings: &mut Vec<Finding>,
    path: &FieldPath,
    expected: &str,
    found: JsonKind,
)
    ensures
        findings_view(final(findings)@) == findings_view(old(findings)@).push(
            wrong_type_finding(path@, expected@, found),
        ),
{
    let mut text: String = "expected ".to_owned();
    text.append(expected);
    text.append(", found ");
    text.append(kind_label(found));
    assert(text@ == mismatch_detail(expected@, found));
    let finding = Finding {
        path: path.duplicate(),
        kind: FindingKind::WrongDataType,
        detail: Some(text),
    };
    proof {
        lemma_findings_view_push(findings@, finding);
    }
    findings.push(finding);
}

/// Checks one value against a field's type and appends what it finds.
fn check_single(
    schema: &Schema,
    ty: FieldType,
    optional: bool,
    value: &JsonValue,
    path: &mut FieldPath,
    ignore_missing: bool,
    budget: usize,
    findings: &mut Vec<Finding>,
) -> (done: Result<(), FatalError>)
    requires
        ty matches FieldType::Message(target) ==> target < schema@.shapes.len(),
    ensures
        match done {
            Ok(()) => {
                &&& single_depth(schema@, ty, value@) <= budget
                &&& final(path)@ == old(path)@
                &&& findings_view(final(findings)@) == findings_view(old(findings)@)
                    + single_findings(schema@, ty, optional, value@, old(path)@, ignore_missing)
            },
            Err(error) => {
                &&& error == FatalError::DocumentTooDeep
                &&& single_depth(schema@, ty, value@) > budget
            },
        },
    decreases budget, 1nat,
{
    match ty {
        FieldType::Scalar(kind) => {
            if !accepts_scalar(kind, optional, value) {
                report_wrong_type(findings, path, scalar_label(kind), value.kind());
            }
            assert(findings_view(findings@) =~= findings_view(old(findings)@) + single_findings(
                schema@,
                ty,
                optional,
                value@,
                old(path)@,
                ignore_missing,
            ));
            Ok(())
        },
        FieldType::Message(target) => match value {
            JsonValue::Object(members) => check_object(
                schema,
                target,
                members,
                path,
                ignore_missing,
                budget,
                findings,
            ),
            _ => {
                report_wrong_type(findings, path, kind_label(JsonKind::Object), value.kind());
                assert(findings_view(findings@) =~= findings_view(old(findings)@)
                    + single_findings(
                    schema@,
                    ty,
                    optional,
                    value@,
                    old(path)@,
                    ignore_missing,
                ));
                Ok(())
            },
        },
    }
}

/// Checks the value under a field and appends what it finds.
fn check_field(
    schema: &Schema,
    field: &FieldSpec,
    value: &JsonValue,
    path: &mut FieldPath,
    ignore_missing: bool,
    budget: usize,
    findings: &mut Vec<Finding>,
) -> (done: Result<(), FatalError>)
    requires
        field.ty matches FieldType::Message(target) ==> target < schema@.shapes.len(),
    ensures
        match done {
            Ok(()) => {
                &&& field_depth(schema@, field@, value@) <= budget
                &&& final(path)@ == old(path)@
                &&& findings_view(final(findings)@) == findings_view(old(findings)@)
                    + field_findings(schema@, field@, value@, old(path)@, ignore_missing)
            },
            Err(error) => {
                &&& error == FatalError::DocumentTooDeep
                &&& field_depth(schema@, field@, value@) > budget
            },
        },
    decreases budget, 2nat,
{
    match field.cardinality {
        Cardinality::Single => check_single(
            schema,
            field.ty,
            field.optional,
            value,
            path,
            ignore_missing,
            budget,
            findings,
        ),
        Cardinality::Repeated => match value {
            JsonValue::Array(items) => {
                let ghost before = findings_view(findings@);
                let ghost here = path@;
                let ghost models = items_view(items@);
                let mut i: usize = 0;
                while i < items.len()
                    invariant
                        i <= items.len(),
                        models == items_view(items@),
                        value@ == Json::Array(models),
                        field.cardinality is Repeated,
                        path@ == here,
                        field.ty matches FieldType::Message(target) ==> target
                            < schema@.shapes.len(),
                        items_depth(schema@, field.ty, models, i as int) <= budget,
                        findings_view(findings@) == before + item_findings(
                            schema@,
                            field.ty,
                            field.optional,
                            models,
                            here,
                            ignore_missing,
                            i as int,
                        ),
                    decreases items.len() - i,
                {
                    path.push(PathSegment::Index(i));
                    let ghost so_far = findings_view(findings@);
                    match check_single(
                        schema,
                        field.ty,
                        field.optional,
                        &items[i],
                        path,
                        ignore_missing,
                        budget,
                        findings,
                    ) {
                        Ok(()) => {},
                        Err(error) => {
                            proof {
                                assert(models[i as int] == items[i as int]@);
                                assert(items_depth(schema@, field.ty, models, i + 1) > budget);
                                lemma_items_depth_grows(
                                    schema@,
                                    field.ty,
                                    models,
                                    i + 1,
                                    items.len() as int,
                                );
                            }
                            return Err(error);
                        },
                    }
                    path.pop();
                    assert(path@ =~= here);
                    assert(findings_view(findings@) =~= before + item_findings(
                        schema@,
                        field.ty,
                        field.optional,
                        models,
                        here,
                        ignore_missing,
                        i + 1,
                    ));
                    i += 1;
                }
                Ok(())
            },
            _ => {
                report(findings, path, FindingKind::MissingArrayField);
                assert(findings_view(findings@) =~= findings_view(old(findings)@)
                    + field_findings(schema@, field@, value@, old(path)@, ignore_missing));
                Ok(())
            },
        },
    }
}

/// Checks an object against the shape at `shape` and appends what it
/// finds: undeclared keys, then missing fields, then what is wrong with the
/// values of the fields that are there.
fn check_object(
    schema: &Schema,
    shape: usize,
    members: &Vec<(String, JsonValue)>,
    path: &mut FieldPath,
    ignore_missing: bool,
    budget: usize,
    findings: &mut Vec<Finding>,
) -> (done: Result<(), FatalError>)
    requires
        shape < schema@.shapes.len(),
    ensures
        match done {
            Ok(()) => {
                &&& object_depth(schema@, shape as int, members_view(members@)) <= budget
                &&& final(path)@ == old(path)@
                &&& findings_view(final(findings)@) == findings_view(old(findings)@)
                    + object_findings(
                    schema@,
                    shape as int,
                    members_view(members@),
                    old(path)@,
                    ignore_missing,
                )
            },
            Err(error) => {
                &&& error == FatalError::DocumentTooDeep
                &&& object_depth(schema@, shape as int, members_view(members@)) > budget
            },
        },
    decreases budget, 0nat,
{
    if budget == 0 {
        return Err(FatalError::DocumentTooDeep);
    }
    let declared = schema.shape(shape);
    let ghost before = findings_view(findings@);
    let ghost here = path@;
    let ghost object = members_view(members@);
    let ghost fields = declared@.fields;

    let mut i: usize = 0;
    while i < members.len()
        invariant
            i <= members.len(),
            object == members_view(members@),
            path@ == here,
            findings_view(findings@) == before + extra_findings(
                declared@,
                object,
                here,
                i as int,
            ),
        decreases members.len() - i,
    {
        let key = &members[i].0;
        assert(object[i as int].0 == key@);
        if declared.position_of(key).is_none() {
            report_member(findings, path, key, FindingKind::AdditionalField);
        }
        assert(findings_view(findings@) =~= before + extra_findings(
            declared@,
            object,
            here,
            i + 1,
        ));
        i += 1;
    }
    let ghost extra = extra_findings(declared@, object, here, object.len() as int);

    if !ignore_missing {
        let mut j: usize = 0;
        while j < declared.fields.len()
            invariant
                j <= declared.fields.len(),
                object == members_view(members@),
                path@ == here,
                findings_view(findings@) == before + extra + missing_findings(
                    declared@,
                    object,
                    here,
                    j as int,
                ),
            decreases declared.fields.len() - j,
        {
            let field = &declared.fields[j];
            assert(declared@.fields[j as int] == field@);
            if !field.optional && find_member(members, &field.name).is_none() {
                report_member(findings, path, &field.name, FindingKind::MissingField);
            }
            assert(findings_view(findings@) =~= before + extra + missing_findings(
                declared@,
                object,
                here,
                j + 1,
            ));
            j += 1;
        }
    }
    let ghost missing = if ignore_missing {
        Seq::empty()
    } else {
        missing_findings(declared@, object, here, fields.len() as int)
    };
    assert(findings_view(findings@) =~= before + extra + missing);

    let mut j: usize = 0;
    while j < declared.fields.len()
        invariant
            j <= declared.fields.len(),
            budget > 0,
            shape < schema@.shapes.len(),
            schema@.wf(),
            declared@ == schema@.shapes[shape as int],
            fields == declared@.fields,
            object == members_view(members@),
            path@ == here,
            fields_depth(schema@, fields, object, j as int) <= budget - 1,
            findings_view(findings@) == before + extra + missing + typed_findings(
                schema@,
                fields,
                object,
                here,
                ignore_missing,
                j as int,
            ),
        decreases declared.fields.len() - j,
    {
        let field = &declared.fields[j];
        assert(fields[j as int] == field@);
        assert(!schema@.dangles_at(shape as int, j as int));
        match find_member(members, &field.name) {
            Some(at) => {
                assert(object[at as int].1 == members[at as int].1@);
                path.push(PathSegment::Field(field.name.clone()));
                match check_field(
                    schema,
                    field,
                    &members[at].1,
                    path,
                    ignore_missing,
                    budget - 1,
                    findings,
                ) {
                    Ok(()) => {},
                    Err(error) => {
                        proof {
                            lemma_fields_depth_grows(
                                schema@,
                                fields,
                                object,
                                j + 1,
                                fields.len() as int,
                            );
                        }
                        return Err(error);
                    },
                }
                path.pop();
                assert(path@ =~= here);
            },
            None => {},
        }
        assert(findings_view(findings@) =~= before + extra + missing + typed_findings(
            schema@,
            fields,
            object,
            here,
            ignore_missing,
            j + 1,
        ));
        j += 1;
    }
    assert(findings_view(findings@) =~= before + object_findings(
        schema@,
        shape as int,
        object,
        here,
        ignore_missing,
    ));
    Ok(())
}

/// Validates a document against the root shape of a schema.
///
/// Returns every divergence, in a fixed order: at each object first the
/// keys that its shape does not declare, then the required fields that it
/// lacks, then, field by field in declaration order, what is wrong with the
/// values that are there, the findings of a nested object standing where
/// its field stands. A root that is no object gives a single
/// `TypeMismatch` at the empty path.
///
/// Fails with `DocumentTooDeep`, and without findings, where it would have
/// to descend into more than `options.max_depth` nested objects.
pub fn validate_json(schema: &Schema, value: &JsonValue, options: &ValidationOptions) -> (outcome:
    Result<Vec<Finding>, FatalError>)
    ensures
        outcome_view(outcome) == validation_outcome(schema@, value@, *options),
        outcome matches Ok(findings) ==> {
            &&& findings@.len() == document_findings(schema@, value@, options.ignore_missing).len()
            &&& forall|i: int|
                0 <= i < findings@.len() ==> (#[trigger] findings@[i])@ == document_findings(
                    schema@,
                    value@,
                    options.ignore_missing,
                )[i]
        },
{
    let mut findings: Vec<Finding> = Vec::new();
    let mut path = FieldPath::new();
    assert(findings_view(findings@) =~= Seq::<FindingView>::empty());
    match value {
        JsonValue::Object(members) => {
            let root = schema.root();
            match check_object(
                schema,
                root,
                members,
                &mut path,
                options.ignore_missing,
                options.max_depth,
                &mut findings,
            ) {
                Ok(()) => {
                    assert(findings_view(findings@) =~= document_findings(
                        schema@,
                        value@,
                        options.ignore_missing,
                    ));
                    Ok(findings)
                },
                Err(error) => Err(error),
            }
        },
        _ => {
            report(&mut findings, &path, FindingKind::TypeMismatch);
            assert(findings_view(findings@) =~= document_findings(
                schema@,
                value@,
                options.ignore_missing,
            ));
            Ok(findings)
        },
    }
}

} // verus!
