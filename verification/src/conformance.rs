//! What it means for a document to conform to a shape, stated on its own
//! terms rather than through the findings of a validation.

use vstd::prelude::*;
use crate::json::{Json, member_position};
use crate::rules::scalar_accepts;
use crate::schema::{Cardinality, FieldSpecView, FieldType, SchemaView};

verus! {

/// An object conforms to a shape when each of its keys is declared, each
/// required field has a member, and the value under each field that has a
/// member conforms to the field.
pub open spec fn object_conforms(
    schema: SchemaView,
    shape: int,
    members: Seq<(Seq<char>, Json)>,
) -> bool
    decreases members, 2int,
{
    let declared = schema.shapes[shape];
    &&& forall|i: int|
        0 <= i < members.len() ==> declared.declares((#[trigger] members[i]).0)
    &&& forall|k: int|
        0 <= k < declared.fields.len() ==> field_satisfied(
            schema,
            #[trigger] declared.fields[k],
            members,
        )
}

/// The field has a member whose value conforms, or it is optional and has
/// none.
pub open spec fn field_satisfied(
    schema: SchemaView,
    field: FieldSpecView,
    members: Seq<(Seq<char>, Json)>,
) -> bool
    decreases members, 1int,
{
    let at = member_position(members, field.name);
    if 0 <= at < members.len() {
        value_conforms(schema, field, members[at].1)
    } else {
        field.optional
    }
}

/// The value conforms to the field: to its type where the field is single,
/// and as an array of such values where it is repeated.
pub open spec fn value_conforms(schema: SchemaView, field: FieldSpecView, value: Json) -> bool
    decreases value, 1int,
{
    match field.cardinality {
        Cardinality::Single => single_conforms(schema, field.ty, field.optional, value),
        Cardinality::Repeated => match value {
            Json::Array(items) => forall|i: int|
                0 <= i < items.len() ==> single_conforms(
                    schema,
                    field.ty,
                    field.optional,
                    #[trigger] items[i],
                ),
            _ => false,
        },
    }
}

/// The value conforms to the type: a scalar that the kind accepts, or an
/// object that conforms to the shape referred to.
pub open spec fn single_conforms(
    schema: SchemaView,
    ty: FieldType,
    optional: bool,
    value: Json,
) -> bool
    decreases value, 0int,
{
    match ty {
        FieldType::Scalar(kind) => scalar_accepts(kind, optional, value),
        FieldType::Message(target) => match value {
            Json::Object(members) => object_conforms(schema, target as int, members),
            _ => false,
        },
    }
}

/// A document conforms to a schema when it is an object that conforms to
/// the root shape.
pub open spec fn document_conforms(schema: SchemaView, value: Json) -> bool {
    match value {
        Json::Object(members) => object_conforms(schema, schema.root, members),
        _ => false,
    }
}

} // verus!
