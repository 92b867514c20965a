//! Laws of validation: what holds of every schema and every document.

use vstd::prelude::*;
use crate::conformance::{
    document_conforms, field_satisfied, object_conforms, single_conforms, value_conforms,
};
use crate::engine::outcome_view;
use crate::finding::{Finding, FindingKind, FindingView, Segment};
use crate::json::{Json, JsonKind, JsonValue, has_member, member_keys, member_position};
use crate::names::{
    lemma_first_index, lemma_first_index_insert, lemma_first_index_remove,
    lemma_removed_name_is_gone,
};
use crate::options::{FatalError, ValidationOptions};
use crate::rules::{
    document_depth, document_findings, extra_findings, field_findings, fields_depth,
    item_findings, kind_name, missing_findings, object_depth, object_findings, plain_finding,
    scalar_accepts, scalar_name, single_findings, typed_findings, validation_outcome,
    wrong_type_finding,
};
use crate::schema::{
    Cardinality, FieldSpecView, FieldType, MessageShapeView, Schema, SchemaView,
};

verus! {

/// Two objects agree on a name when both lack a member under it, or both
/// have one and the values are the same.
pub open spec fn agree_on(
    a: Seq<(Seq<char>, Json)>,
    b: Seq<(Seq<char>, Json)>,
    name: Seq<char>,
) -> bool {
    &&& has_member(a, name) == has_member(b, name)
    &&& has_member(a, name) ==> a[member_position(a, name)].1 == b[member_position(b, name)].1
}

/// Removing a member leaves the members under every other key as they
/// were.
pub proof fn lemma_agree_after_remove(members: Seq<(Seq<char>, Json)>, at: int, name: Seq<char>)
    requires
        0 <= at < members.len(),
        members[at].0 != name,
    ensures
        agree_on(members, members.remove(at), name),
{
    let rest = members.remove(at);
    members.remove_ensures(at);
    let keys = member_keys(members);
    keys.remove_ensures(at);
    assert(member_keys(rest) =~= keys.remove(at));
    lemma_first_index(keys, name);
    lemma_first_index_remove(keys, at, name);
}

/// Inserting a member leaves the members under every other key as they
/// were.
pub proof fn lemma_agree_after_insert(
    members: Seq<(Seq<char>, Json)>,
    at: int,
    member: (Seq<char>, Json),
    name: Seq<char>,
)
    requires
        0 <= at <= members.len(),
        member.0 != name,
    ensures
        agree_on(members, members.insert(at, member), name),
{
    let more = members.insert(at, member);
    members.insert_ensures(at, member);
    let keys = member_keys(members);
    keys.insert_ensures(at, member.0);
    assert forall|j: int| 0 <= j < more.len() implies more[j] == if j < at {
        members[j]
    } else if j == at {
        member
    } else {
        members[j - 1]
    } by {
        if j > at {
            assert(more[(j - 1) + 1] == members[j - 1]);
        }
    }
    assert forall|j: int| 0 <= j < more.len() implies keys.insert(at, member.0)[j] == if j < at {
        keys[j]
    } else if j == at {
        member.0
    } else {
        keys[j - 1]
    } by {
        if j > at {
            assert(keys.insert(at, member.0)[(j - 1) + 1] == keys[j - 1]);
        }
    }
    assert(member_keys(more) =~= keys.insert(at, member.0));
    lemma_first_index(keys, name);
    lemma_first_index_insert(keys, at, member.0, name);
}

/// No key is undeclared: the first pass finds nothing.
pub proof fn lemma_no_extra_findings(
    shape: MessageShapeView,
    members: Seq<(Seq<char>, Json)>,
    path: Seq<Segment>,
    n: int,
)
    requires
        n <= members.len(),
        forall|i: int| 0 <= i < n ==> shape.declares((#[trigger] members[i]).0),
    ensures
        extra_findings(shape, members, path, n) == Seq::<FindingView>::empty(),
    decreases n,
{
    if n > 0 {
        lemma_no_extra_findings(shape, members, path, n - 1);
        assert(shape.declares(members[n - 1].0));
    }
}

/// One key is undeclared: the first pass finds it once it has come to it.
pub proof fn lemma_one_extra_finding(
    shape: MessageShapeView,
    members: Seq<(Seq<char>, Json)>,
    path: Seq<Segment>,
    at: int,
    n: int,
)
    requires
        0 <= at < members.len(),
        n <= members.len(),
        !shape.declares(members[at].0),
        forall|i: int| 0 <= i < n && i != at ==> shape.declares((#[trigger] members[i]).0),
    ensures
        extra_findings(shape, members, path, n) == if n <= at {
            Seq::<FindingView>::empty()
        } else {
            seq![
                plain_finding(
                    path.push(Segment::Field(members[at].0)),
                    FindingKind::AdditionalField,
                ),
            ]
        },
    decreases n,
{
    if n > 0 {
        lemma_one_extra_finding(shape, members, path, at, n - 1);
        if n - 1 != at {
            assert(shape.declares(members[n - 1].0));
        }
    }
}

/// No required field lacks its member: the second pass finds nothing.
pub proof fn lemma_no_missing_findings(
    shape: MessageShapeView,
    members: Seq<(Seq<char>, Json)>,
    path: Seq<Segment>,
    n: int,
)
    requires
        n <= shape.fields.len(),
        forall|k: int|
            0 <= k < n ==> (#[trigger] shape.fields[k]).optional || has_member(
                members,
                shape.fields[k].name,
            ),
    ensures
        missing_findings(shape, members, path, n) == Seq::<FindingView>::empty(),
    decreases n,
{
    if n > 0 {
        lemma_no_missing_findings(shape, members, path, n - 1);
        let field = shape.fields[n - 1];
        lemma_first_index(member_keys(members), field.name);
    }
}

/// One required field lacks its member: the second pass finds it once it
/// has come to it.
pub proof fn lemma_one_missing_finding(
    shape: MessageShapeView,
    members: Seq<(Seq<char>, Json)>,
    path: Seq<Segment>,
    lacking: int,
    n: int,
)
    requires
        0 <= lacking < shape.fields.len(),
        n <= shape.fields.len(),
        !shape.fields[lacking].optional,
        !has_member(members, shape.fields[lacking].name),
        forall|k: int|
            0 <= k < n && k != lacking ==> (#[trigger] shape.fields[k]).optional || has_member(
                members,
                shape.fields[k].name,
            ),
    ensures
        missing_findings(shape, members, path, n) == if n <= lacking {
            Seq::<FindingView>::empty()
        } else {
            seq![
                plain_finding(
                    path.push(Segment::Field(shape.fields[lacking].name)),
                    FindingKind::MissingField,
                ),
            ]
        },
    decreases n,
{
    if n > 0 {
        lemma_one_missing_finding(shape, members, path, lacking, n - 1);
        let field = shape.fields[n - 1];
        lemma_first_index(member_keys(members), field.name);
    }
}

/// The value under a field is as the field asks, where the field has a
/// member at all.
pub open spec fn member_conforms(
    schema: SchemaView,
    field: FieldSpecView,
    members: Seq<(Seq<char>, Json)>,
) -> bool {
    has_member(members, field.name) ==> value_conforms(
        schema,
        field,
        members[member_position(members, field.name)].1,
    )
}

/// An object that conforms to its shape has no findings.
pub proof fn lemma_conforming_object(
    schema: SchemaView,
    shape: int,
    members: Seq<(Seq<char>, Json)>,
    path: Seq<Segment>,
    ignore_missing: bool,
)
    requires
        object_conforms(schema, shape, members),
    ensures
        object_findings(schema, shape, members, path, ignore_missing) == Seq::<
            FindingView,
        >::empty(),
    decreases members, schema.shapes[shape].fields.len() + 1,
{
    let declared = schema.shapes[shape];
    lemma_no_extra_findings(declared, members, path, members.len() as int);
    assert forall|k: int| 0 <= k < declared.fields.len() implies (
    #[trigger] declared.fields[k]).optional || has_member(members, declared.fields[k].name) by {
        assert(field_satisfied(schema, declared.fields[k], members));
        lemma_first_index(member_keys(members), declared.fields[k].name);
    }
    lemma_no_missing_findings(declared, members, path, declared.fields.len() as int);
    assert forall|k: int| 0 <= k < declared.fields.len() implies member_conforms(
        schema,
        #[trigger] declared.fields[k],
        members,
    ) by {
        assert(field_satisfied(schema, declared.fields[k], members));
        lemma_first_index(member_keys(members), declared.fields[k].name);
    }
    lemma_conforming_fields(
        schema,
        declared.fields,
        members,
        path,
        ignore_missing,
        declared.fields.len() as int,
    );
}

/// Where the value under each field that has a member conforms, the third
/// pass finds nothing.
pub proof fn lemma_conforming_fields(
    schema: SchemaView,
    fields: Seq<FieldSpecView>,
    members: Seq<(Seq<char>, Json)>,
    path: Seq<Segment>,
    ignore_missing: bool,
    n: int,
)
    requires
        n <= fields.len(),
        forall|k: int| 0 <= k < n ==> member_conforms(schema, #[trigger] fields[k], members),
    ensures
        typed_findings(schema, fields, members, path, ignore_missing, n) == Seq::<
            FindingView,
        >::empty(),
    decreases members, n,
{
    if n > 0 {
        lemma_conforming_fields(schema, fields, members, path, ignore_missing, n - 1);
        let field = fields[n - 1];
        assert(member_conforms(schema, field, members));
        lemma_first_index(member_keys(members), field.name);
        let at = member_position(members, field.name);
        if 0 <= at < members.len() {
            lemma_conforming_value(
                schema,
                field,
                members[at].1,
                path.push(Segment::Field(field.name)),
                ignore_missing,
            );
        }
    }
}

/// A value that conforms to its field has no findings.
pub proof fn lemma_conforming_value(
    schema: SchemaView,
    field: FieldSpecView,
    value: Json,
    path: Seq<Segment>,
    ignore_missing: bool,
)
    requires
        value_conforms(schema, field, value),
    ensures
        field_findings(schema, field, value, path, ignore_missing) == Seq::<FindingView>::empty(),
    decreases value, 1int,
{
    match field.cardinality {
        Cardinality::Single => {
            lemma_conforming_single(schema, field.ty, field.optional, value, path, ignore_missing);
        },
        Cardinality::Repeated => {
            let items = value->Array_0;
            lemma_conforming_items(
                schema,
                field.ty,
                field.optional,
                items,
                path,
                ignore_missing,
                items.len() as int,
            );
        },
    }
}

/// Items that all conform to the field's type have no findings.
pub proof fn lemma_conforming_items(
    schema: SchemaView,
    ty: FieldType,
    optional: bool,
    items: Seq<Json>,
    path: Seq<Segment>,
    ignore_missing: bool,
    n: int,
)
    requires
        n <= items.len(),
        forall|i: int|
            0 <= i < items.len() ==> single_conforms(schema, ty, optional, #[trigger] items[i]),
    ensures
        item_findings(schema, ty, optional, items, path, ignore_missing, n) == Seq::<
            FindingView,
        >::empty(),
    decreases items, n,
{
    if n > 0 {
        lemma_conforming_items(schema, ty, optional, items, path, ignore_missing, n - 1);
        assert(single_conforms(schema, ty, optional, items[n - 1]));
        lemma_conforming_single(
            schema,
            ty,
            optional,
            items[n - 1],
            path.push(Segment::Index((n - 1) as nat)),
            ignore_missing,
        );
    }
}

/// A value that conforms to a type has no findings.
pub proof fn lemma_conforming_single(
    schema: SchemaView,
    ty: FieldType,
    optional: bool,
    value: Json,
    path: Seq<Segment>,
    ignore_missing: bool,
)
    requires
        single_conforms(schema, ty, optional, value),
    ensures
        single_findings(schema, ty, optional, value, path, ignore_missing) == Seq::<
            FindingView,
        >::empty(),
    decreases value, 0int,
{
    match ty {
        FieldType::Scalar(_) => {},
        FieldType::Message(target) => {
            let members = value->Object_0;
            lemma_conforming_object(schema, target as int, members, path, ignore_missing);
        },
    }
}

/// Where the first pass finds nothing, no key is undeclared.
pub proof fn lemma_clean_extra(
    shape: MessageShapeView,
    members: Seq<(Seq<char>, Json)>,
    path: Seq<Segment>,
    n: int,
)
    requires
        n <= members.len(),
        extra_findings(shape, members, path, n).len() == 0,
    ensures
        forall|i: int| 0 <= i < n ==> shape.declares((#[trigger] members[i]).0),
    decreases n,
{
    if n > 0 {
        lemma_clean_extra(shape, members, path, n - 1);
    }
}

/// Where the second pass finds nothing, no required field lacks its member.
pub proof fn lemma_clean_missing(
    shape: MessageShapeView,
    members: Seq<(Seq<char>, Json)>,
    path: Seq<Segment>,
    n: int,
)
    requires
        n <= shape.fields.len(),
        missing_findings(shape, members, path, n).len() == 0,
    ensures
        forall|k: int|
            0 <= k < n ==> (#[trigger] shape.fields[k]).optional || has_member(
                members,
                shape.fields[k].name,
            ),
    decreases n,
{
    if n > 0 {
        lemma_clean_missing(shape, members, path, n - 1);
        lemma_first_index(member_keys(members), shape.fields[n - 1].name);
    }
}

/// An object without findings, missing fields not ignored, conforms to its
/// shape.
pub proof fn lemma_clean_object(
    schema: SchemaView,
    shape: int,
    members: Seq<(Seq<char>, Json)>,
    path: Seq<Segment>,
)
    requires
        object_findings(schema, shape, members, path, false).len() == 0,
    ensures
        object_conforms(schema, shape, members),
    decreases members, schema.shapes[shape].fields.len() + 1,
{
    let declared = schema.shapes[shape];
    lemma_clean_extra(declared, members, path, members.len() as int);
    lemma_clean_missing(declared, members, path, declared.fields.len() as int);
    lemma_clean_fields(schema, declared.fields, members, path, declared.fields.len() as int);
    assert forall|k: int| 0 <= k < declared.fields.len() implies field_satisfied(
        schema,
        #[trigger] declared.fields[k],
        members,
    ) by {
        assert(member_conforms(schema, declared.fields[k], members));
        lemma_first_index(member_keys(members), declared.fields[k].name);
    }
}

/// Where the third pass finds nothing, the value under each field that has
/// a member conforms.
pub proof fn lemma_clean_fields(
    schema: SchemaView,
    fields: Seq<FieldSpecView>,
    members: Seq<(Seq<char>, Json)>,
    path: Seq<Segment>,
    n: int,
)
    requires
        n <= fields.len(),
        typed_findings(schema, fields, members, path, false, n).len() == 0,
    ensures
        forall|k: int| 0 <= k < n ==> member_conforms(schema, #[trigger] fields[k], members),
    decreases members, n,
{
    if n > 0 {
        lemma_clean_fields(schema, fields, members, path, n - 1);
        let field = fields[n - 1];
        lemma_first_index(member_keys(members), field.name);
        let at = member_position(members, field.name);
        if 0 <= at < members.len() {
            lemma_clean_value(schema, field, members[at].1, path.push(Segment::Field(field.name)));
        }
    }
}

/// A value without findings conforms to its field.
pub proof fn lemma_clean_value(
    schema: SchemaView,
    field: FieldSpecView,
    value: Json,
    path: Seq<Segment>,
)
    requires
        field_findings(schema, field, value, path, false).len() == 0,
    ensures
        value_conforms(schema, field, value),
    decreases value, 1int,
{
    match field.cardinality {
        Cardinality::Single => {
            lemma_clean_single(schema, field.ty, field.optional, value, path);
        },
        Cardinality::Repeated => {
            match value {
                Json::Array(items) => {
                    lemma_clean_items(
                        schema,
                        field.ty,
                        field.optional,
                        items,
                        path,
                        items.len() as int,
                    );
                },
                _ => {},
            }
        },
    }
}

/// Items without findings all conform to the field's type.
pub proof fn lemma_clean_items(
    schema: SchemaView,
    ty: FieldType,
    optional: bool,
    items: Seq<Json>,
    path: Seq<Segment>,
    n: int,
)
    requires
        n <= items.len(),
        item_findings(schema, ty, optional, items, path, false, n).len() == 0,
    ensures
        forall|i: int| 0 <= i < n ==> single_conforms(schema, ty, optional, #[trigger] items[i]),
    decreases items, n,
{
    if n > 0 {
        lemma_clean_items(schema, ty, optional, items, path, n - 1);
        lemma_clean_single(
            schema,
            ty,
            optional,
            items[n - 1],
            path.push(Segment::Index((n - 1) as nat)),
        );
    }
}

/// A value without findings conforms to its type.
pub proof fn lemma_clean_single(
    schema: SchemaView,
    ty: FieldType,
    optional: bool,
    value: Json,
    path: Seq<Segment>,
)
    requires
        single_findings(schema, ty, optional, value, path, false).len() == 0,
    ensures
        single_conforms(schema, ty, optional, value),
    decreases value, 0int,
{
    match ty {
        FieldType::Scalar(_) => {},
        FieldType::Message(target) => {
            match value {
                Json::Object(members) => {
                    lemma_clean_object(schema, target as int, members, path);
                },
                _ => {},
            }
        },
    }
}

/// The validation of an object descends no deeper when members are taken
/// away or replaced by members that it does not look at.
pub proof fn lemma_fields_depth_shrinks(
    schema: SchemaView,
    fields: Seq<FieldSpecView>,
    a: Seq<(Seq<char>, Json)>,
    b: Seq<(Seq<char>, Json)>,
    n: int,
)
    requires
        n <= fields.len(),
        forall|k: int|
            0 <= k < n ==> !has_member(b, (#[trigger] fields[k]).name) || agree_on(
                a,
                b,
                fields[k].name,
            ),
    ensures
        fields_depth(schema, fields, b, n) <= fields_depth(schema, fields, a, n),
    decreases n,
{
    if n > 0 {
        lemma_fields_depth_shrinks(schema, fields, a, b, n - 1);
        let field = fields[n - 1];
        assert(!has_member(b, field.name) || agree_on(a, b, field.name));
        lemma_first_index(member_keys(a), field.name);
        lemma_first_index(member_keys(b), field.name);
    }
}

/// Taking the member of a required field out of an object that conforms
/// leaves exactly one finding, `MissingField` at that field, and none
/// where missing fields are ignored.
pub proof fn lemma_object_without_required_field(
    schema: SchemaView,
    shape: int,
    members: Seq<(Seq<char>, Json)>,
    path: Seq<Segment>,
    lacking: int,
)
    requires
        schema.shapes[shape].field_names().no_duplicates(),
        member_keys(members).no_duplicates(),
        object_conforms(schema, shape, members),
        0 <= lacking < schema.shapes[shape].fields.len(),
        !schema.shapes[shape].fields[lacking].optional,
    ensures
        has_member(members, schema.shapes[shape].fields[lacking].name),
        0 <= member_position(members, schema.shapes[shape].fields[lacking].name) < members.len(),
        object_findings(
            schema,
            shape,
            members.remove(member_position(members, schema.shapes[shape].fields[lacking].name)),
            path,
            false,
        ) == seq![
            plain_finding(
                path.push(Segment::Field(schema.shapes[shape].fields[lacking].name)),
                FindingKind::MissingField,
            ),
        ],
        object_findings(
            schema,
            shape,
            members.remove(member_position(members, schema.shapes[shape].fields[lacking].name)),
            path,
            true,
        ) == Seq::<FindingView>::empty(),
        object_depth(
            schema,
            shape,
            members.remove(member_position(members, schema.shapes[shape].fields[lacking].name)),
        ) <= object_depth(schema, shape, members),
{
    let declared = schema.shapes[shape];
    let fields = declared.fields;
    let name = fields[lacking].name;
    let keys = member_keys(members);
    assert(field_satisfied(schema, fields[lacking], members));
    lemma_first_index(keys, name);
    let at = member_position(members, name);
    let rest = members.remove(at);
    members.remove_ensures(at);
    keys.remove_ensures(at);
    assert(member_keys(rest) =~= keys.remove(at));
    lemma_removed_name_is_gone(keys, at);
    assert(!has_member(rest, name));

    assert forall|i: int| 0 <= i < rest.len() implies declared.declares(
        (#[trigger] rest[i]).0,
    ) by {
        if i < at {
            assert(declared.declares(members[i].0));
        } else {
            assert(declared.declares(members[i + 1].0));
        }
    }
    lemma_no_extra_findings(declared, rest, path, rest.len() as int);

    assert forall|k: int| 0 <= k < fields.len() && k != lacking implies agree_on(
        members,
        rest,
        (#[trigger] fields[k]).name,
    ) by {
        assert(declared.field_names()[k] != declared.field_names()[lacking]);
        lemma_agree_after_remove(members, at, fields[k].name);
    }
    assert forall|k: int| 0 <= k < fields.len() && k != lacking implies (
    #[trigger] declared.fields[k]).optional || has_member(rest, declared.fields[k].name) by {
        assert(field_satisfied(schema, fields[k], members));
        assert(agree_on(members, rest, fields[k].name));
        lemma_first_index(keys, fields[k].name);
    }
    lemma_one_missing_finding(declared, rest, path, lacking, fields.len() as int);

    assert forall|k: int| 0 <= k < fields.len() implies member_conforms(
        schema,
        #[trigger] fields[k],
        rest,
    ) by {
        if k != lacking {
            assert(field_satisfied(schema, fields[k], members));
            assert(agree_on(members, rest, fields[k].name));
            lemma_first_index(keys, fields[k].name);
        }
    }
    lemma_conforming_fields(schema, fields, rest, path, false, fields.len() as int);
    lemma_conforming_fields(schema, fields, rest, path, true, fields.len() as int);
    assert(object_findings(schema, shape, rest, path, false) =~= seq![
        plain_finding(path.push(Segment::Field(name)), FindingKind::MissingField),
    ]);
    assert(object_findings(schema, shape, rest, path, true) =~= Seq::<FindingView>::empty());

    assert forall|k: int| 0 <= k < fields.len() implies !has_member(
        rest,
        (#[trigger] fields[k]).name,
    ) || agree_on(members, rest, fields[k].name) by {}
    lemma_fields_depth_shrinks(schema, fields, members, rest, fields.len() as int);
}

/// Putting a member under an undeclared key into an object that conforms,
/// at any place and with any value, leaves exactly one finding,
/// `AdditionalField` at that key, and the validation descends no deeper
/// than before.
pub proof fn lemma_object_with_unknown_key(
    schema: SchemaView,
    shape: int,
    members: Seq<(Seq<char>, Json)>,
    path: Seq<Segment>,
    ignore_missing: bool,
    at: int,
    key: Seq<char>,
    value: Json,
)
    requires
        object_conforms(schema, shape, members),
        !schema.shapes[shape].declares(key),
        0 <= at <= members.len(),
    ensures
        object_findings(schema, shape, members.insert(at, (key, value)), path, ignore_missing)
            == seq![plain_finding(path.push(Segment::Field(key)), FindingKind::AdditionalField)],
        object_depth(schema, shape, members.insert(at, (key, value))) <= object_depth(
            schema,
            shape,
            members,
        ),
{
    let declared = schema.shapes[shape];
    let fields = declared.fields;
    let keys = member_keys(members);
    let more = members.insert(at, (key, value));
    members.insert_ensures(at, (key, value));
    assert forall|j: int| 0 <= j < more.len() implies more[j] == if j < at {
        members[j]
    } else if j == at {
        (key, value)
    } else {
        members[j - 1]
    } by {
        if j > at {
            assert(more[(j - 1) + 1] == members[j - 1]);
        }
    }
    assert forall|i: int| 0 <= i < more.len() && i != at implies declared.declares(
        (#[trigger] more[i]).0,
    ) by {
        if i < at {
            assert(declared.declares(members[i].0));
        } else {
            assert(declared.declares(members[i - 1].0));
        }
    }
    lemma_one_extra_finding(declared, more, path, at, more.len() as int);

    lemma_first_index(declared.field_names(), key);
    assert forall|k: int| 0 <= k < fields.len() implies agree_on(
        members,
        more,
        (#[trigger] fields[k]).name,
    ) by {
        assert(declared.field_names()[k] != key);
        lemma_agree_after_insert(members, at, (key, value), fields[k].name);
    }
    assert forall|k: int| 0 <= k < fields.len() implies (#[trigger] declared.fields[k]).optional
        || has_member(more, declared.fields[k].name) by {
        assert(field_satisfied(schema, fields[k], members));
        assert(agree_on(members, more, fields[k].name));
        lemma_first_index(keys, fields[k].name);
    }
    lemma_no_missing_findings(declared, more, path, fields.len() as int);
    assert forall|k: int| 0 <= k < fields.len() implies member_conforms(
        schema,
        #[trigger] fields[k],
        more,
    ) by {
        assert(field_satisfied(schema, fields[k], members));
        assert(agree_on(members, more, fields[k].name));
        lemma_first_index(keys, fields[k].name);
    }
    lemma_conforming_fields(schema, fields, more, path, ignore_missing, fields.len() as int);
    assert(object_findings(schema, shape, more, path, ignore_missing) =~= seq![
        plain_finding(path.push(Segment::Field(key)), FindingKind::AdditionalField),
    ]);

    assert forall|k: int| 0 <= k < fields.len() implies !has_member(
        more,
        (#[trigger] fields[k]).name,
    ) || agree_on(members, more, fields[k].name) by {}
    lemma_fields_depth_shrinks(schema, fields, members, more, fields.len() as int);
}

/// The third pass over an object that conforms but for the value under one
/// field finds what is wrong with that value, once it has come to the
/// field, and nothing else.
proof fn lemma_fields_with_changed_value(
    schema: SchemaView,
    fields: Seq<FieldSpecView>,
    members: Seq<(Seq<char>, Json)>,
    path: Seq<Segment>,
    ignore_missing: bool,
    changed: int,
    value: Json,
    n: int,
)
    requires
        n <= fields.len(),
        0 <= changed < fields.len(),
        forall|j: int| 0 <= j < fields.len() && j != changed ==> (#[trigger] fields[j]).name
            != fields[changed].name,
        forall|j: int| 0 <= j < fields.len() ==> member_conforms(schema, #[trigger] fields[j], members),
        has_member(members, fields[changed].name),
    ensures
        typed_findings(
            schema,
            fields,
            members.update(
                member_position(members, fields[changed].name),
                (fields[changed].name, value),
            ),
            path,
            ignore_missing,
            n,
        ) == if n <= changed {
            Seq::<FindingView>::empty()
        } else {
            field_findings(
                schema,
                fields[changed],
                value,
                path.push(Segment::Field(fields[changed].name)),
                ignore_missing,
            )
        },
    decreases n,
{
    if n > 0 {
        lemma_fields_with_changed_value(
            schema,
            fields,
            members,
            path,
            ignore_missing,
            changed,
            value,
            n - 1,
        );
        let name = fields[changed].name;
        let keys = member_keys(members);
        lemma_first_index(keys, name);
        let at = member_position(members, name);
        let after = members.update(at, (name, value));
        assert(member_keys(after) =~= keys);
        let field = fields[n - 1];
        lemma_first_index(keys, field.name);
        let here = member_position(members, field.name);
        if n - 1 != changed && 0 <= here < members.len() {
            assert(member_conforms(schema, field, members));
            assert(after[here] == members[here]);
            lemma_conforming_value(
                schema,
                field,
                members[here].1,
                path.push(Segment::Field(field.name)),
                ignore_missing,
            );
        }
    }
}

/// Changing the value under one field of an object that conforms leaves
/// exactly the findings at the new value under that field.
pub proof fn lemma_object_with_changed_value(
    schema: SchemaView,
    shape: int,
    members: Seq<(Seq<char>, Json)>,
    path: Seq<Segment>,
    ignore_missing: bool,
    changed: int,
    value: Json,
)
    requires
        schema.shapes[shape].field_names().no_duplicates(),
        object_conforms(schema, shape, members),
        0 <= changed < schema.shapes[shape].fields.len(),
        has_member(members, schema.shapes[shape].fields[changed].name),
    ensures
        0 <= member_position(members, schema.shapes[shape].fields[changed].name) < members.len(),
        object_findings(
            schema,
            shape,
            members.update(
                member_position(members, schema.shapes[shape].fields[changed].name),
                (schema.shapes[shape].fields[changed].name, value),
            ),
            path,
            ignore_missing,
        ) == field_findings(
            schema,
            schema.shapes[shape].fields[changed],
            value,
            path.push(Segment::Field(schema.shapes[shape].fields[changed].name)),
            ignore_missing,
        ),
{
    let declared = schema.shapes[shape];
    let fields = declared.fields;
    let name = fields[changed].name;
    let keys = member_keys(members);
    lemma_first_index(keys, name);
    let at = member_position(members, name);
    let after = members.update(at, (name, value));
    assert(member_keys(after) =~= keys);

    assert forall|i: int| 0 <= i < after.len() implies declared.declares(
        (#[trigger] after[i]).0,
    ) by {
        assert(declared.declares(members[i].0));
    }
    lemma_no_extra_findings(declared, after, path, after.len() as int);
    assert forall|j: int| 0 <= j < fields.len() implies (#[trigger] declared.fields[j]).optional
        || has_member(after, declared.fields[j].name) by {
        assert(field_satisfied(schema, fields[j], members));
        lemma_first_index(keys, fields[j].name);
    }
    lemma_no_missing_findings(declared, after, path, fields.len() as int);
    assert forall|j: int| 0 <= j < fields.len() implies member_conforms(
        schema,
        #[trigger] fields[j],
        members,
    ) by {
        assert(field_satisfied(schema, fields[j], members));
        lemma_first_index(keys, fields[j].name);
    }
    assert forall|j: int| 0 <= j < fields.len() && j != changed implies (#[trigger] fields[j]).name
        != fields[changed].name by {
        assert(declared.field_names()[j] != declared.field_names()[changed]);
    }
    lemma_fields_with_changed_value(
        schema,
        fields,
        members,
        path,
        ignore_missing,
        changed,
        value,
        fields.len() as int,
    );
    assert(object_findings(schema, shape, after, path, ignore_missing) =~= field_findings(
        schema,
        fields[changed],
        value,
        path.push(Segment::Field(name)),
        ignore_missing,
    ));
}

/// One item is not as the field's type asks and all others conform: the
/// findings at the items are those at that item, once they have come to
/// it.
pub proof fn lemma_items_with_one_wrong(
    schema: SchemaView,
    ty: FieldType,
    optional: bool,
    items: Seq<Json>,
    path: Seq<Segment>,
    ignore_missing: bool,
    wrong: int,
    n: int,
)
    requires
        n <= items.len(),
        0 <= wrong < items.len(),
        forall|i: int|
            0 <= i < items.len() && i != wrong ==> single_conforms(
                schema,
                ty,
                optional,
                #[trigger] items[i],
            ),
    ensures
        item_findings(schema, ty, optional, items, path, ignore_missing, n) == if n <= wrong {
            Seq::<FindingView>::empty()
        } else {
            single_findings(
                schema,
                ty,
                optional,
                items[wrong],
                path.push(Segment::Index(wrong as nat)),
                ignore_missing,
            )
        },
    decreases n,
{
    if n > 0 {
        lemma_items_with_one_wrong(schema, ty, optional, items, path, ignore_missing, wrong, n - 1);
        if n - 1 != wrong {
            assert(single_conforms(schema, ty, optional, items[n - 1]));
            lemma_conforming_single(
                schema,
                ty,
                optional,
                items[n - 1],
                path.push(Segment::Index((n - 1) as nat)),
                ignore_missing,
            );
        }
    }
}

/// The findings that stay where missing fields are ignored: all but the
/// `MissingField` ones.
pub open spec fn stays() -> spec_fn(FindingView) -> bool {
    |finding: FindingView| finding.kind != FindingKind::MissingField
}

/// A single finding that is no `MissingField` stays.
proof fn lemma_one_stays(finding: FindingView)
    requires
        finding.kind != FindingKind::MissingField,
    ensures
        seq![finding].filter(stays()) == seq![finding],
{
    reveal(Seq::filter);
    let none = Seq::<FindingView>::empty();
    assert(seq![finding] =~= none.push(finding));
    none.lemma_filter_push(finding, stays());
    assert(none.filter(stays()) =~= none);
}

/// The findings of the first pass all stay.
proof fn lemma_extra_stays(
    shape: MessageShapeView,
    members: Seq<(Seq<char>, Json)>,
    path: Seq<Segment>,
    n: int,
)
    ensures
        extra_findings(shape, members, path, n).filter(stays()) == extra_findings(
            shape,
            members,
            path,
            n,
        ),
    decreases n,
{
    reveal(Seq::filter);
    if n > 0 {
        lemma_extra_stays(shape, members, path, n - 1);
        let before = extra_findings(shape, members, path, n - 1);
        let key = members[n - 1].0;
        if !shape.declares(key) {
            before.lemma_filter_push(
                plain_finding(path.push(Segment::Field(key)), FindingKind::AdditionalField),
                stays(),
            );
        }
    }
}

/// The findings of the second pass all go.
proof fn lemma_missing_goes(
    shape: MessageShapeView,
    members: Seq<(Seq<char>, Json)>,
    path: Seq<Segment>,
    n: int,
)
    ensures
        missing_findings(shape, members, path, n).filter(stays()) == Seq::<FindingView>::empty(),
    decreases n,
{
    reveal(Seq::filter);
    if n > 0 {
        lemma_missing_goes(shape, members, path, n - 1);
        let before = missing_findings(shape, members, path, n - 1);
        let field = shape.fields[n - 1];
        before.lemma_filter_push(
            plain_finding(path.push(Segment::Field(field.name)), FindingKind::MissingField),
            stays(),
        );
    }
}

/// Ignoring missing fields takes the `MissingField` findings out of the
/// findings at an object, at every depth, and changes nothing else.
pub proof fn lemma_ignoring_missing_at_object(
    schema: SchemaView,
    shape: int,
    members: Seq<(Seq<char>, Json)>,
    path: Seq<Segment>,
)
    ensures
        object_findings(schema, shape, members, path, true) == object_findings(
            schema,
            shape,
            members,
            path,
            false,
        ).filter(stays()),
    decreases members, schema.shapes[shape].fields.len() + 1,
{
    let declared = schema.shapes[shape];
    let extra = extra_findings(declared, members, path, members.len() as int);
    let missing = missing_findings(declared, members, path, declared.fields.len() as int);
    let strict = typed_findings(
        schema,
        declared.fields,
        members,
        path,
        false,
        declared.fields.len() as int,
    );
    lemma_extra_stays(declared, members, path, members.len() as int);
    lemma_missing_goes(declared, members, path, declared.fields.len() as int);
    lemma_ignoring_missing_at_fields(
        schema,
        declared.fields,
        members,
        path,
        declared.fields.len() as int,
    );
    Seq::filter_distributes_over_add(extra, missing, stays());
    Seq::filter_distributes_over_add(extra + missing, strict, stays());
    assert(object_findings(schema, shape, members, path, true) =~= object_findings(
        schema,
        shape,
        members,
        path,
        false,
    ).filter(stays()));
}

/// Ignoring missing fields in the third pass.
pub proof fn lemma_ignoring_missing_at_fields(
    schema: SchemaView,
    fields: Seq<FieldSpecView>,
    members: Seq<(Seq<char>, Json)>,
    path: Seq<Segment>,
    n: int,
)
    ensures
        typed_findings(schema, fields, members, path, true, n) == typed_findings(
            schema,
            fields,
            members,
            path,
            false,
            n,
        ).filter(stays()),
    decreases members, n,
{
    reveal(Seq::filter);
    if n > 0 {
        lemma_ignoring_missing_at_fields(schema, fields, members, path, n - 1);
        let field = fields[n - 1];
        let at = member_position(members, field.name);
        if 0 <= at < members.len() {
            let below = path.push(Segment::Field(field.name));
            lemma_ignoring_missing_at_value(schema, field, members[at].1, below);
            Seq::filter_distributes_over_add(
                typed_findings(schema, fields, members, path, false, n - 1),
                field_findings(schema, field, members[at].1, below, false),
                stays(),
            );
        }
    }
}

/// Ignoring missing fields below the value under a field.
pub proof fn lemma_ignoring_missing_at_value(
    schema: SchemaView,
    field: FieldSpecView,
    value: Json,
    path: Seq<Segment>,
)
    ensures
        field_findings(schema, field, value, path, true) == field_findings(
            schema,
            field,
            value,
            path,
            false,
        ).filter(stays()),
    decreases value, 1int,
{
    match field.cardinality {
        Cardinality::Single => {
            lemma_ignoring_missing_at_single(schema, field.ty, field.optional, value, path);
        },
        Cardinality::Repeated => {
            match value {
                Json::Array(items) => {
                    lemma_ignoring_missing_at_items(
                        schema,
                        field.ty,
                        field.optional,
                        items,
                        path,
                        items.len() as int,
                    );
                },
                _ => {
                    lemma_one_stays(plain_finding(path, FindingKind::MissingArrayField));
                },
            }
        },
    }
}

/// Ignoring missing fields below the items of an array.
pub proof fn lemma_ignoring_missing_at_items(
    schema: SchemaView,
    ty: FieldType,
    optional: bool,
    items: Seq<Json>,
    path: Seq<Segment>,
    n: int,
)
    ensures
        item_findings(schema, ty, optional, items, path, true, n) == item_findings(
            schema,
            ty,
            optional,
            items,
            path,
            false,
            n,
        ).filter(stays()),
    decreases items, n,
{
    reveal(Seq::filter);
    if 0 < n <= items.len() {
        lemma_ignoring_missing_at_items(schema, ty, optional, items, path, n - 1);
        let below = path.push(Segment::Index((n - 1) as nat));
        lemma_ignoring_missing_at_single(schema, ty, optional, items[n - 1], below);
        Seq::filter_distributes_over_add(
            item_findings(schema, ty, optional, items, path, false, n - 1),
            single_findings(schema, ty, optional, items[n - 1], below, false),
            stays(),
        );
    }
}

/// Ignoring missing fields below one value.
pub proof fn lemma_ignoring_missing_at_single(
    schema: SchemaView,
    ty: FieldType,
    optional: bool,
    value: Json,
    path: Seq<Segment>,
)
    ensures
        single_findings(schema, ty, optional, value, path, true) == single_findings(
            schema,
            ty,
            optional,
            value,
            path,
            false,
        ).filter(stays()),
    decreases value, 0int,
{
    reveal(Seq::filter);
    match ty {
        FieldType::Scalar(kind) => {
            if !scalar_accepts(kind, optional, value) {
                lemma_one_stays(
                    wrong_type_finding(
                        path,
                        scalar_name(kind),
                        value.kind(),
                    ),
                );
            }
        },
        FieldType::Message(target) => {
            match value {
                Json::Object(members) => {
                    lemma_ignoring_missing_at_object(schema, target as int, members, path);
                },
                _ => {
                    lemma_one_stays(
                        wrong_type_finding(
                            path,
                            kind_name(JsonKind::Object),
                            value.kind(),
                        ),
                    );
                },
            }
        },
    }
}

/// Ignoring missing fields takes the `MissingField` findings out of the
/// findings of a document and changes nothing else.
pub proof fn lemma_ignoring_missing(schema: SchemaView, value: Json)
    ensures
        document_findings(schema, value, true) == document_findings(schema, value, false).filter(
            stays(),
        ),
{
    match value {
        Json::Object(members) => {
            lemma_ignoring_missing_at_object(schema, schema.root, members, Seq::empty());
        },
        _ => {
            lemma_one_stays(plain_finding(Seq::empty(), FindingKind::TypeMismatch));
        },
    }
}

/// Validation is a function of its inputs: two runs on the same schema,
/// the same document and the same options return the same findings in the
/// same order, or fail alike.
pub proof fn lemma_validation_is_deterministic(
    schema: &Schema,
    value: &JsonValue,
    options: ValidationOptions,
    again_schema: &Schema,
    again_value: &JsonValue,
    first: Result<Vec<Finding>, FatalError>,
    second: Result<Vec<Finding>, FatalError>,
)
    requires
        schema@ == again_schema@,
        value@ == again_value@,
        outcome_view(first) == validation_outcome(schema@, value@, options),
        outcome_view(second) == validation_outcome(again_schema@, again_value@, options),
    ensures
        outcome_view(first) == outcome_view(second),
{
}

/// A document that conforms to the schema is validated without findings.
pub proof fn lemma_conforming_document(schema: SchemaView, value: Json, options: ValidationOptions)
    requires
        document_conforms(schema, value),
        document_depth(schema, value) <= options.max_depth,
    ensures
        validation_outcome(schema, value, options) == Ok::<Seq<FindingView>, FatalError>(
            Seq::empty(),
        ),
{
    lemma_conforming_object(
        schema,
        schema.root,
        value->Object_0,
        Seq::empty(),
        options.ignore_missing,
    );
}

/// A document conforms to the schema exactly when its validation, missing
/// fields not ignored, has no findings.
pub proof fn lemma_conformance_is_absence_of_findings(schema: SchemaView, value: Json)
    ensures
        document_conforms(schema, value) <==> document_findings(schema, value, false) == Seq::<
            FindingView,
        >::empty(),
{
    match value {
        Json::Object(members) => {
            if document_conforms(schema, value) {
                lemma_conforming_object(schema, schema.root, members, Seq::empty(), false);
            }
            if document_findings(schema, value, false) == Seq::<FindingView>::empty() {
                lemma_clean_object(schema, schema.root, members, Seq::empty());
            }
        },
        _ => {
            assert(document_findings(schema, value, false).len() == 1);
        },
    }
}

/// A conforming document from which the member of a required field of the
/// root is taken out is validated with exactly one finding, `MissingField`
/// at that field; with none where missing fields are ignored.
pub proof fn lemma_document_without_required_field(
    schema: SchemaView,
    members: Seq<(Seq<char>, Json)>,
    lacking: int,
    options: ValidationOptions,
)
    requires
        schema.wf(),
        member_keys(members).no_duplicates(),
        document_conforms(schema, Json::Object(members)),
        document_depth(schema, Json::Object(members)) <= options.max_depth,
        0 <= lacking < schema.shapes[schema.root].fields.len(),
        !schema.shapes[schema.root].fields[lacking].optional,
    ensures
        has_member(members, schema.shapes[schema.root].fields[lacking].name),
        validation_outcome(
            schema,
            Json::Object(
                members.remove(
                    member_position(members, schema.shapes[schema.root].fields[lacking].name),
                ),
            ),
            options,
        ) == Ok::<Seq<FindingView>, FatalError>(
            if options.ignore_missing {
                Seq::empty()
            } else {
                seq![
                    plain_finding(
                        seq![Segment::Field(schema.shapes[schema.root].fields[lacking].name)],
                        FindingKind::MissingField,
                    ),
                ]
            },
        ),
{
    lemma_object_without_required_field(schema, schema.root, members, Seq::empty(), lacking);
    let name = schema.shapes[schema.root].fields[lacking].name;
    assert(Seq::<Segment>::empty().push(Segment::Field(name)) =~= seq![Segment::Field(name)]);
}

/// A conforming document to which a member under a key that the root does
/// not declare is added, wherever and whatever its value, is validated
/// with exactly one finding, `AdditionalField` at that key.
pub proof fn lemma_document_with_unknown_key(
    schema: SchemaView,
    members: Seq<(Seq<char>, Json)>,
    at: int,
    key: Seq<char>,
    value: Json,
    options: ValidationOptions,
)
    requires
        document_conforms(schema, Json::Object(members)),
        document_depth(schema, Json::Object(members)) <= options.max_depth,
        !schema.shapes[schema.root].declares(key),
        0 <= at <= members.len(),
    ensures
        validation_outcome(schema, Json::Object(members.insert(at, (key, value))), options) == Ok::<
            Seq<FindingView>,
            FatalError,
        >(seq![plain_finding(seq![Segment::Field(key)], FindingKind::AdditionalField)]),
{
    lemma_object_with_unknown_key(
        schema,
        schema.root,
        members,
        Seq::empty(),
        options.ignore_missing,
        at,
        key,
        value,
    );
    assert(Seq::<Segment>::empty().push(Segment::Field(key)) =~= seq![Segment::Field(key)]);
}

/// In a document that conforms, the value under a field of the root is
/// changed: the findings are those at the new value under that field.
pub proof fn lemma_document_with_changed_value(
    schema: SchemaView,
    members: Seq<(Seq<char>, Json)>,
    changed: int,
    value: Json,
    ignore_missing: bool,
)
    requires
        schema.wf(),
        document_conforms(schema, Json::Object(members)),
        0 <= changed < schema.shapes[schema.root].fields.len(),
        has_member(members, schema.shapes[schema.root].fields[changed].name),
    ensures
        document_findings(
            schema,
            Json::Object(
                members.update(
                    member_position(members, schema.shapes[schema.root].fields[changed].name),
                    (schema.shapes[schema.root].fields[changed].name, value),
                ),
            ),
            ignore_missing,
        ) == field_findings(
            schema,
            schema.shapes[schema.root].fields[changed],
            value,
            seq![Segment::Field(schema.shapes[schema.root].fields[changed].name)],
            ignore_missing,
        ),
{
    let name = schema.shapes[schema.root].fields[changed].name;
    lemma_object_with_changed_value(
        schema,
        schema.root,
        members,
        Seq::empty(),
        ignore_missing,
        changed,
        value,
    );
    assert(Seq::<Segment>::empty().push(Segment::Field(name)) =~= seq![Segment::Field(name)]);
}

/// In a document that conforms, the value under a repeated field of the
/// root is replaced by one that is no array: the one finding is
/// `MissingArrayField` at that field.
pub proof fn lemma_repeated_field_without_array(
    schema: SchemaView,
    members: Seq<(Seq<char>, Json)>,
    changed: int,
    value: Json,
    ignore_missing: bool,
)
    requires
        schema.wf(),
        document_conforms(schema, Json::Object(members)),
        0 <= changed < schema.shapes[schema.root].fields.len(),
        has_member(members, schema.shapes[schema.root].fields[changed].name),
        schema.shapes[schema.root].fields[changed].cardinality is Repeated,
        !(value is Array),
    ensures
        document_findings(
            schema,
            Json::Object(
                members.update(
                    member_position(members, schema.shapes[schema.root].fields[changed].name),
                    (schema.shapes[schema.root].fields[changed].name, value),
                ),
            ),
            ignore_missing,
        ) == seq![
            plain_finding(
                seq![Segment::Field(schema.shapes[schema.root].fields[changed].name)],
                FindingKind::MissingArrayField,
            ),
        ],
{
    lemma_document_with_changed_value(schema, members, changed, value, ignore_missing);
}

/// In a document that conforms, the array under a repeated scalar field of
/// the root is replaced by one in which a single item is not accepted: the
/// one finding is `WrongDataType` at that item, and it names the kind that
/// was expected and the kind that was found.
pub proof fn lemma_repeated_scalar_with_wrong_item(
    schema: SchemaView,
    members: Seq<(Seq<char>, Json)>,
    changed: int,
    items: Seq<Json>,
    wrong: int,
    ignore_missing: bool,
)
    requires
        schema.wf(),
        document_conforms(schema, Json::Object(members)),
        0 <= changed < schema.shapes[schema.root].fields.len(),
        has_member(members, schema.shapes[schema.root].fields[changed].name),
        schema.shapes[schema.root].fields[changed].cardinality is Repeated,
        schema.shapes[schema.root].fields[changed].ty is Scalar,
        0 <= wrong < items.len(),
        forall|i: int|
            0 <= i < items.len() ==> (i != wrong <==> scalar_accepts(
                schema.shapes[schema.root].fields[changed].ty->Scalar_0,
                schema.shapes[schema.root].fields[changed].optional,
                #[trigger] items[i],
            )),
    ensures
        document_findings(
            schema,
            Json::Object(
                members.update(
                    member_position(members, schema.shapes[schema.root].fields[changed].name),
                    (schema.shapes[schema.root].fields[changed].name, Json::Array(items)),
                ),
            ),
            ignore_missing,
        ) == seq![
            wrong_type_finding(
                seq![
                    Segment::Field(schema.shapes[schema.root].fields[changed].name),
                    Segment::Index(wrong as nat),
                ],
                scalar_name(schema.shapes[schema.root].fields[changed].ty->Scalar_0),
                items[wrong].kind(),
            ),
        ],
{
    let field = schema.shapes[schema.root].fields[changed];
    let at = seq![Segment::Field(field.name)];
    lemma_document_with_changed_value(
        schema,
        members,
        changed,
        Json::Array(items),
        ignore_missing,
    );
    assert forall|i: int| 0 <= i < items.len() && i != wrong implies single_conforms(
        schema,
        field.ty,
        field.optional,
        #[trigger] items[i],
    ) by {
        assert(scalar_accepts(field.ty->Scalar_0, field.optional, items[i]));
    }
    lemma_items_with_one_wrong(
        schema,
        field.ty,
        field.optional,
        items,
        at,
        ignore_missing,
        wrong,
        items.len() as int,
    );
    assert(!scalar_accepts(field.ty->Scalar_0, field.optional, items[wrong]));
    assert(at.push(Segment::Index(wrong as nat)) =~= seq![
        Segment::Field(field.name),
        Segment::Index(wrong as nat),
    ]);
}

/// In a document that conforms, the object under a message field of the
/// root is replaced by one that conforms to the field's shape but for the
/// member of a required field, which is taken out: the one finding is
/// `MissingField` at that field below the field of the root.
pub proof fn lemma_nested_object_without_required_field(
    schema: SchemaView,
    members: Seq<(Seq<char>, Json)>,
    changed: int,
    inner: Seq<(Seq<char>, Json)>,
    lacking: int,
)
    requires
        schema.wf(),
        document_conforms(schema, Json::Object(members)),
        0 <= changed < schema.shapes[schema.root].fields.len(),
        has_member(members, schema.shapes[schema.root].fields[changed].name),
        schema.shapes[schema.root].fields[changed].cardinality is Single,
        schema.shapes[schema.root].fields[changed].ty is Message,
        member_keys(inner).no_duplicates(),
        object_conforms(
            schema,
            schema.shapes[schema.root].fields[changed].ty->Message_0 as int,
            inner,
        ),
        0 <= lacking < schema.shapes[schema.shapes[schema.root].fields[changed].ty->Message_0
            as int].fields.len(),
        !schema.shapes[schema.shapes[schema.root].fields[changed].ty->Message_0
            as int].fields[lacking].optional,
    ensures
        ({
            let field = schema.shapes[schema.root].fields[changed];
            let below = schema.shapes[field.ty->Message_0 as int].fields[lacking];
            document_findings(
                schema,
                Json::Object(
                    members.update(
                        member_position(members, field.name),
                        (
                            field.name,
                            Json::Object(inner.remove(member_position(inner, below.name))),
                        ),
                    ),
                ),
                false,
            ) == seq![
                plain_finding(
                    seq![Segment::Field(field.name), Segment::Field(below.name)],
                    FindingKind::MissingField,
                ),
            ]
        }),
{
    let field = schema.shapes[schema.root].fields[changed];
    let target = field.ty->Message_0 as int;
    let below = schema.shapes[target].fields[lacking];
    let at = seq![Segment::Field(field.name)];
    assert(!schema.dangles_at(schema.root, changed));
    lemma_object_without_required_field(schema, target, inner, at, lacking);
    lemma_document_with_changed_value(
        schema,
        members,
        changed,
        Json::Object(inner.remove(member_position(inner, below.name))),
        false,
    );
    assert(at.push(Segment::Field(below.name)) =~= seq![
        Segment::Field(field.name),
        Segment::Field(below.name),
    ]);
}

/// A document whose root is no object is validated with exactly one
/// finding, `TypeMismatch` at the empty path, whatever the schema.
pub proof fn lemma_root_must_be_object(schema: SchemaView, value: Json, options: ValidationOptions)
    requires
        !(value is Object),
    ensures
        validation_outcome(schema, value, options) == Ok::<Seq<FindingView>, FatalError>(
            seq![plain_finding(Seq::empty(), FindingKind::TypeMismatch)],
        ),
{
}

} // verus!
