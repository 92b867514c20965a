//! Message shapes: the schema side of a validation.

use vstd::prelude::*;
use crate::names::{first_index, first_index_from, occurs};

verus! {

/// The scalar types a field can be declared with.
#[derive(Clone, Copy, Debug, PartialEq, Eq, Structural)]
pub enum ScalarKind {
    String,
    Int,
    Float,
    Bool,
    Bytes,
}

/// Whether a field holds one value or a list of values.
#[derive(Clone, Copy, Debug, PartialEq, Eq, Structural)]
pub enum Cardinality {
    Single,
    Repeated,
}

/// The declared type of a field: a scalar, or the message shape stored at
/// the given position of the schema.
#[derive(Clone, Copy, Debug, PartialEq, Eq, Structural)]
pub enum FieldType {
    Scalar(ScalarKind),
    Message(usize),
}


/// One field of a message shape.
#[derive(Debug, PartialEq, Eq)]
pub struct FieldSpec {
    pub name: String,
    pub ty: FieldType,
    pub cardinality: Cardinality,
    /// An optional field may be absent from a document.
    pub optional: bool,
}

/// The mathematical model of a [`FieldSpec`].
pub struct FieldSpecView {
    pub name: Seq<char>,
    pub ty: FieldType,
    pub cardinality: Cardinality,
    pub optional: bool,
}

impl View for FieldSpec {
    type V = FieldSpecView;

    open spec fn view(&self) -> FieldSpecView {
        FieldSpecView {
            name: self.name@,
            ty: self.ty,
            cardinality: self.cardinality,
            optional: self.optional,
        }
    }
}

/// A named list of fields, in declaration order.
#[derive(Debug, PartialEq, Eq)]
pub struct MessageShape {
    pub name: String,
    pub fields: Vec<FieldSpec>,
}

/// The mathematical model of a [`MessageShape`].
pub struct MessageShapeView {
    pub name: Seq<char>,
    pub fields: Seq<FieldSpecView>,
}

impl View for MessageShape {
    type V = MessageShapeView;

    open spec fn view(&self) -> MessageShapeView {
        MessageShapeView { name: self.name@, fields: self.fields@.map_values(|f: FieldSpec| f@) }
    }
}

impl MessageShapeView {
    /// The names of the fields, in declaration order.
    pub open spec fn field_names(self) -> Seq<Seq<char>> {
        Seq::new(self.fields.len(), |i: int| self.fields[i].name)
    }

    /// Whether the shape declares a field called `name`.
    pub open spec fn declares(self, name: Seq<char>) -> bool {
        occurs(self.field_names(), name)
    }
}

/// The mathematical model of a [`Schema`].
pub struct SchemaView {
    pub shapes: Seq<MessageShapeView>,
    pub root: int,
}

impl SchemaView {
    /// The root is one of the shapes.
    pub open spec fn has_root(self) -> bool {
        0 <= self.root < self.shapes.len()
    }

    /// The field `f` of the shape `s` refers to a shape that the schema
    /// does not hold.
    pub open spec fn dangles_at(self, s: int, f: int) -> bool {
        &&& 0 <= s < self.shapes.len()
        &&& 0 <= f < self.shapes[s].fields.len()
        &&& self.shapes[s].fields[f].ty matches FieldType::Message(target)
        &&& target >= self.shapes.len()
    }

    /// Every message-typed field refers to a shape of the schema.
    pub open spec fn closed_under_references(self) -> bool {
        forall|s: int, f: int| !self.dangles_at(s, f)
    }

    /// Within each shape, no two fields share a name.
    pub open spec fn distinct_field_names(self) -> bool {
        forall|s: int|
            0 <= s < self.shapes.len() ==> (#[trigger] self.shapes[s]).field_names().no_duplicates()
    }

    /// The invariant of a schema.
    pub open spec fn wf(self) -> bool {
        &&& self.has_root()
        &&& self.closed_under_references()
        &&& self.distinct_field_names()
    }
}

/// Why a list of shapes is no schema.
#[derive(Clone, Copy, Debug, PartialEq, Eq, Structural)]
pub enum SchemaError {
    /// The root is none of the shapes.
    MissingRoot,
    /// A message-typed field refers to a shape that is not there.
    DanglingReference,
    /// Two fields of one shape share a name.
    DuplicateFieldName,
}

/// The models of a list of shapes.
pub open spec fn shapes_view(shapes: Seq<MessageShape>) -> Seq<MessageShapeView> {
    shapes.map_values(|s: MessageShape| s@)
}

/// What is wrong with a would-be schema, if anything: the first of a
/// missing root, a dangling reference and a repeated field name.
pub open spec fn schema_defect(schema: SchemaView) -> Option<SchemaError> {
    if !schema.has_root() {
        Some(SchemaError::MissingRoot)
    } else if !schema.closed_under_references() {
        Some(SchemaError::DanglingReference)
    } else if !schema.distinct_field_names() {
        Some(SchemaError::DuplicateFieldName)
    } else {
        None
    }
}

/// A set of message shapes that refer to each other by position, one of
/// them the root. A shape may refer to itself.
#[derive(Debug, PartialEq, Eq)]
pub struct Schema {
    shapes: Vec<MessageShape>,
    root: usize,
}

impl View for Schema {
    type V = SchemaView;

    closed spec fn view(&self) -> SchemaView {
        SchemaView { shapes: shapes_view(self.shapes@), root: self.root as int }
    }
}

impl MessageShape {
    /// The position of the field called `name`, if the shape declares one.
    pub fn position_of(&self, name: &String) -> (found: Option<usize>)
        ensures
            match found {
                Some(at) => self@.declares(name@) && at == first_index(self@.field_names(), name@),
                None => !self@.declares(name@),
            },
    {
        let ghost names = self@.field_names();
        let mut i: usize = 0;
        while i < self.fields.len()
            invariant
                i <= self.fields.len(),
                names == self@.field_names(),
                first_index(names, name@) == first_index_from(names, name@, i as int),
            decreases self.fields.len() - i,
        {
            assert(names[i as int] == self.fields[i as int].name@);
            if self.fields[i].name == *name {
                return Some(i);
            }
            i += 1;
        }
        None
    }

    /// Whether every message-typed field refers to one of `count` shapes.
    fn refers_below(&self, count: usize) -> (closed: bool)
        ensures
            closed <==> forall|f: int|
                0 <= f < self@.fields.len() ==> match (#[trigger] self@.fields[f]).ty {
                    FieldType::Message(target) => target < count,
                    FieldType::Scalar(_) => true,
                },
    {
        let mut f: usize = 0;
        while f < self.fields.len()
            invariant
                f <= self.fields.len(),
                forall|g: int|
                    0 <= g < f ==> match (#[trigger] self@.fields[g]).ty {
                        FieldType::Message(target) => target < count,
                        FieldType::Scalar(_) => true,
                    },
            decreases self.fields.len() - f,
        {
            match self.fields[f].ty {
                FieldType::Message(target) => {
                    if target >= count {
                        assert(self@.fields[f as int].ty == FieldType::Message(target));
                        return false;
                    }
                },
                FieldType::Scalar(_) => {},
            }
            f += 1;
        }
        true
    }

    /// Whether no two fields share a name.
    pub fn has_distinct_names(&self) -> (distinct: bool)
        ensures
            distinct == self@.field_names().no_duplicates(),
    {
        let ghost names = self@.field_names();
        let mut j: usize = 0;
        while j < self.fields.len()
            invariant
                j <= self.fields.len(),
                names == self@.field_names(),
                forall|a: int, b: int| 0 <= a < b < j ==> names[a] != names[b],
            decreases self.fields.len() - j,
        {
            let mut i: usize = 0;
            while i < j
                invariant
                    i <= j < self.fields.len(),
                    names == self@.field_names(),
                    forall|a: int| 0 <= a < i ==> names[a] != names[j as int],
                decreases j - i,
            {
                if self.fields[i].name == self.fields[j].name {
                    assert(names[i as int] == names[j as int]);
                    return false;
                }
                i += 1;
            }
            j += 1;
        }
        assert forall|a: int, b: int|
            0 <= a < names.len() && 0 <= b < names.len() && a != b implies names[a] != names[b] by {
            if a < b {
            } else {
                assert(names[b] != names[a]);
            }
        }
        true
    }
}

impl Schema {
    #[verifier::type_invariant]
    spec fn inv(self) -> bool {
        self@.wf()
    }

    /// Makes a schema of `shapes`, with the shape at `root` as its root.
    ///
    /// Fails where `root` is no position of `shapes`, where a field refers
    /// to a position that is none, or where a shape has two fields of one
    /// name.
    pub fn new(shapes: Vec<MessageShape>, root: usize) -> (made: Result<Schema, SchemaError>)
        ensures
            match made {
                Ok(schema) => schema@ == (SchemaView { shapes: shapes_view(shapes@), root: root as int })
                    && schema@.wf(),
                Err(error) => schema_defect(
                    SchemaView { shapes: shapes_view(shapes@), root: root as int },
                ) == Some(error),
            },
    {
        let ghost view = SchemaView { shapes: shapes_view(shapes@), root: root as int };
        if root >= shapes.len() {
            return Err(SchemaError::MissingRoot);
        }
        let mut s: usize = 0;
        while s < shapes.len()
            invariant
                s <= shapes.len(),
                view == (SchemaView { shapes: shapes_view(shapes@), root: root as int }),
                view.has_root(),
                forall|t: int, f: int| 0 <= t < s ==> !view.dangles_at(t, f),
            decreases shapes.len() - s,
        {
            if !shapes[s].refers_below(shapes.len()) {
                let ghost f = choose|f: int|
                    0 <= f < shapes[s as int]@.fields.len() && !(match (
                    #[trigger] shapes[s as int]@.fields[f]).ty {
                        FieldType::Message(target) => target < shapes.len(),
                        FieldType::Scalar(_) => true,
                    });
                assert(view.dangles_at(s as int, f));
                return Err(SchemaError::DanglingReference);
            }
            assert forall|f: int| !view.dangles_at(s as int, f) by {
                if 0 <= f < shapes[s as int]@.fields.len() {
                    assert(match (#[trigger] shapes[s as int]@.fields[f]).ty {
                        FieldType::Message(target) => target < shapes.len(),
                        FieldType::Scalar(_) => true,
                    });
                }
            }
            s += 1;
        }
        assert(view.closed_under_references());
        let mut s: usize = 0;
        while s < shapes.len()
            invariant
                s <= shapes.len(),
                view == (SchemaView { shapes: shapes_view(shapes@), root: root as int }),
                view.has_root(),
                view.closed_under_references(),
                forall|t: int| 0 <= t < s ==> (#[trigger] view.shapes[t]).field_names().no_duplicates(),
            decreases shapes.len() - s,
        {
            if !shapes[s].has_distinct_names() {
                assert(!view.shapes[s as int].field_names().no_duplicates());
                return Err(SchemaError::DuplicateFieldName);
            }
            s += 1;
        }
        Ok(Schema { shapes, root })
    }

    /// The position of the root shape.
    pub fn root(&self) -> (root: usize)
        ensures
            root == self@.root,
            self@.wf(),
    {
        proof {
            use_type_invariant(self);
        }
        self.root
    }

    /// The number of shapes.
    pub fn len(&self) -> (n: usize)
        ensures
            n == self@.shapes.len(),
            self@.wf(),
    {
        proof {
            use_type_invariant(self);
        }
        self.shapes.len()
    }

    /// The shape at `position`.
    pub fn shape(&self, position: usize) -> (shape: &MessageShape)
        requires
            position < self@.shapes.len(),
        ensures
            shape@ == self@.shapes[position as int],
            self@.wf(),
    {
        proof {
            use_type_invariant(self);
        }
        &self.shapes[position]
    }
}

} // verus!
