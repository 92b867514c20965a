//! Message declarations as a schema compiler hands them over: files that
//! declare messages inside messages, fields typed by wire type, messages
//! referred to by their full names. Listing the messages under their full
//! names and resolving the references gives a [`Schema`].

use vstd::prelude::*;
use crate::names::{first_index, first_index_from};
use crate::schema::{
    Cardinality, FieldSpec, FieldSpecView, FieldType, MessageShape, MessageShapeView, ScalarKind,
    Schema, SchemaError, SchemaView, schema_defect, shapes_view,
};

verus! {

/// How often a declared field may occur.
#[derive(Clone, Copy, Debug, PartialEq, Eq, Structural)]
pub enum Label {
    Optional,
    Required,
    Repeated,
}

/// The declared type of a field.
#[derive(Clone, Copy, Debug, PartialEq, Eq, Structural)]
pub enum WireType {
    Double,
    Float,
    Int64,
    UInt64,
    Int32,
    Fixed64,
    Fixed32,
    Bool,
    String,
    Group,
    Message,
    Bytes,
    UInt32,
    Enum,
    SFixed32,
    SFixed64,
    SInt32,
    SInt64,
}

/// One field of a declared message.
#[derive(Debug, PartialEq, Eq)]
pub struct FieldDeclaration {
    pub name: String,
    pub label: Label,
    pub wire_type: WireType,
    /// The full name of the message, for a field of message or group type.
    pub message_name: String,
    /// The field tracks its presence though its file's syntax is `proto3`.
    pub proto3_optional: bool,
}

/// The mathematical model of a [`FieldDeclaration`].
pub struct FieldDeclarationView {
    pub name: Seq<char>,
    pub label: Label,
    pub wire_type: WireType,
    pub message_name: Seq<char>,
    pub proto3_optional: bool,
}

impl View for FieldDeclaration {
    type V = FieldDeclarationView;

    open spec fn view(&self) -> FieldDeclarationView {
        FieldDeclarationView {
            name: self.name@,
            label: self.label,
            wire_type: self.wire_type,
            message_name: self.message_name@,
            proto3_optional: self.proto3_optional,
        }
    }
}

/// A declared message, under its full name.
#[derive(Debug, PartialEq, Eq)]
pub struct MessageDeclaration {
    pub name: String,
    /// The syntax of the file that declares the message is `proto3`.
    pub proto3: bool,
    pub fields: Vec<FieldDeclaration>,
}

/// The mathematical model of a [`MessageDeclaration`].
pub struct MessageDeclarationView {
    pub name: Seq<char>,
    pub proto3: bool,
    pub fields: Seq<FieldDeclarationView>,
}

impl View for MessageDeclaration {
    type V = MessageDeclarationView;

    open spec fn view(&self) -> MessageDeclarationView {
        MessageDeclarationView {
            name: self.name@,
            proto3: self.proto3,
            fields: self.fields@.map_values(|f: FieldDeclaration| f@),
        }
    }
}

/// The models of a list of declarations.
pub open spec fn declarations_view(declarations: Seq<MessageDeclaration>) -> Seq<
    MessageDeclarationView,
> {
    declarations.map_values(|d: MessageDeclaration| d@)
}

/// The names of the declared messages, in order.
pub open spec fn declared_names(declarations: Seq<MessageDeclarationView>) -> Seq<Seq<char>> {
    Seq::new(declarations.len(), |i: int| declarations[i].name)
}

/// The scalar kind that a document must hold for a wire type; none for
/// messages and groups. The integer types of every width and encoding are
/// `Int`, the two floating types are `Float`, and an enumeration is held by
/// the name of its value, a `String`.
pub open spec fn scalar_of(wire_type: WireType) -> Option<ScalarKind> {
    match wire_type {
        WireType::Double | WireType::Float => Some(ScalarKind::Float),
        WireType::Int64
        | WireType::UInt64
        | WireType::Int32
        | WireType::Fixed64
        | WireType::Fixed32
        | WireType::UInt32
        | WireType::SFixed32
        | WireType::SFixed64
        | WireType::SInt32
        | WireType::SInt64 => Some(ScalarKind::Int),
        WireType::Bool => Some(ScalarKind::Bool),
        WireType::String | WireType::Enum => Some(ScalarKind::String),
        WireType::Bytes => Some(ScalarKind::Bytes),
        WireType::Group | WireType::Message => None,
    }
}

/// A declared field as a field of a shape. A message type is referred to by
/// the position of the first declaration of its name, which is the number
/// of declarations where the name is not declared. A field is optional
/// where its label says so and it tracks presence: always outside `proto3`,
/// and in `proto3` where it is marked so.
pub open spec fn resolved_field(
    names: Seq<Seq<char>>,
    proto3: bool,
    field: FieldDeclarationView,
) -> FieldSpecView {
    FieldSpecView {
        name: field.name,
        ty: match scalar_of(field.wire_type) {
            Some(kind) => FieldType::Scalar(kind),
            None => FieldType::Message(first_index(names, field.message_name) as usize),
        },
        cardinality: if field.label is Repeated {
            Cardinality::Repeated
        } else {
            Cardinality::Single
        },
        optional: field.label is Optional && (!proto3 || field.proto3_optional),
    }
}

/// A declared message as a shape.
pub open spec fn resolved_shape(
    names: Seq<Seq<char>>,
    declaration: MessageDeclarationView,
) -> MessageShapeView {
    MessageShapeView {
        name: declaration.name,
        fields: Seq::new(
            declaration.fields.len(),
            |k: int| resolved_field(names, declaration.proto3, declaration.fields[k]),
        ),
    }
}

/// The declarations as a schema whose root is the message called `root`.
pub open spec fn resolved(declarations: Seq<MessageDeclarationView>, root: Seq<char>) -> SchemaView {
    let names = declared_names(declarations);
    SchemaView {
        shapes: Seq::new(declarations.len(), |i: int| resolved_shape(names, declarations[i])),
        root: first_index(names, root),
    }
}

/// The scalar kind for a wire type, if it is no message type.
pub fn scalar_kind_of(wire_type: WireType) -> (kind: Option<ScalarKind>)
    ensures
        kind == scalar_of(wire_type),
{
    match wire_type {
        WireType::Double | WireType::Float => Some(ScalarKind::Float),
        WireType::Int64
        | WireType::UInt64
        | WireType::Int32
        | WireType::Fixed64
        | WireType::Fixed32
        | WireType::UInt32
        | WireType::SFixed32
        | WireType::SFixed64
        | WireType::SInt32
        | WireType::SInt64 => Some(ScalarKind::Int),
        WireType::Bool => Some(ScalarKind::Bool),
        WireType::String | WireType::Enum => Some(ScalarKind::String),
        WireType::Bytes => Some(ScalarKind::Bytes),
        WireType::Group | WireType::Message => None,
    }
}

/// The position of the first declaration called `name`; the number of
/// declarations where there is none.
pub fn find_declaration(declarations: &Vec<MessageDeclaration>, name: &String) -> (at: usize)
    ensures
        at == first_index(declared_names(declarations_view(declarations@)), name@),
        at <= declarations.len(),
{
    let ghost names = declared_names(declarations_view(declarations@));
    let mut i: usize = 0;
    while i < declarations.len()
        invariant
            i <= declarations.len(),
            names == declared_names(declarations_view(declarations@)),
            first_index(names, name@) == first_index_from(names, name@, i as int),
        decreases declarations.len() - i,
    {
        assert(names[i as int] == declarations[i as int].name@);
        if declarations[i].name == *name {
            return i;
        }
        i += 1;
    }
    i
}

/// The field of a shape for a declared field.
fn resolve_field(declarations: &Vec<MessageDeclaration>, proto3: bool, field: &FieldDeclaration) -> (spec:
    FieldSpec)
    ensures
        spec@ == resolved_field(
            declared_names(declarations_view(declarations@)),
            proto3,
            field@,
        ),
{
    let ty = match scalar_kind_of(field.wire_type) {
        Some(kind) => FieldType::Scalar(kind),
        None => FieldType::Message(find_declaration(declarations, &field.message_name)),
    };
    let cardinality = match field.label {
        Label::Repeated => Cardinality::Repeated,
        _ => Cardinality::Single,
    };
    let optional = match field.label {
        Label::Optional => !proto3 || field.proto3_optional,
        _ => false,
    };
    FieldSpec { name: field.name.clone(), ty, cardinality, optional }
}

/// The shape for a declared message.
fn resolve_shape(declarations: &Vec<MessageDeclaration>, declaration: &MessageDeclaration) -> (shape:
    MessageShape)
    ensures
        shape@ == resolved_shape(declared_names(declarations_view(declarations@)), declaration@),
{
    let ghost names = declared_names(declarations_view(declarations@));
    let mut fields: Vec<FieldSpec> = Vec::new();
    let mut k: usize = 0;
    while k < declaration.fields.len()
        invariant
            k <= declaration.fields.len(),
            names == declared_names(declarations_view(declarations@)),
            fields@.len() == k,
            forall|j: int|
                0 <= j < k ==> (#[trigger] fields@[j])@ == resolved_field(
                    names,
                    declaration.proto3,
                    declaration@.fields[j],
                ),
        decreases declaration.fields.len() - k,
    {
        let field = resolve_field(declarations, declaration.proto3, &declaration.fields[k]);
        assert(declaration@.fields[k as int] == declaration.fields[k as int]@);
        fields.push(field);
        k += 1;
    }
    let shape = MessageShape { name: declaration.name.clone(), fields };
    assert(shape@.fields =~= resolved_shape(names, declaration@).fields);
    shape
}

/// Makes a schema of the declared messages, with the message called `root`
/// as its root.
///
/// Fails with `MissingRoot` where no message is called `root`, else with
/// `DanglingReference` where a field names a message that is not declared,
/// else with `DuplicateFieldName` where a message has two fields of one
/// name.
pub fn resolve(declarations: &Vec<MessageDeclaration>, root: &String) -> (made: Result<
    Schema,
    SchemaError,
>)
    ensures
        match made {
            Ok(schema) => schema@ == resolved(declarations_view(declarations@), root@)
                && schema@.wf(),
            Err(error) => schema_defect(resolved(declarations_view(declarations@), root@))
                == Some(error),
        },
{
    let ghost names = declared_names(declarations_view(declarations@));
    let mut shapes: Vec<MessageShape> = Vec::new();
    let mut i: usize = 0;
    while i < declarations.len()
        invariant
            i <= declarations.len(),
            names == declared_names(declarations_view(declarations@)),
            shapes@.len() == i,
            forall|j: int|
                0 <= j < i ==> (#[trigger] shapes@[j])@ == resolved_shape(
                    names,
                    declarations@[j]@,
                ),
        decreases declarations.len() - i,
    {
        let shape = resolve_shape(declarations, &declarations[i]);
        shapes.push(shape);
        i += 1;
    }
    let root_at = find_declaration(declarations, root);
    assert(shapes_view(shapes@) =~= resolved(declarations_view(declarations@), root@).shapes);
    Schema::new(shapes, root_at)
}

/// A message as a file declares it: under its simple name, with the
/// messages that are declared inside it.
#[derive(Debug, PartialEq, Eq)]
pub struct MessageNode {
    pub name: String,
    pub fields: Vec<FieldDeclaration>,
    pub nested: Vec<MessageNode>,
}

/// The mathematical model of a [`MessageNode`].
pub struct MessageNodeView {
    pub name: Seq<char>,
    pub fields: Seq<FieldDeclarationView>,
    pub nested: Seq<MessageNodeView>,
}

/// The models of a list of fields.
pub open spec fn fields_view(fields: Seq<FieldDeclaration>) -> Seq<FieldDeclarationView> {
    fields.map_values(|f: FieldDeclaration| f@)
}

/// The models of a list of nodes.
pub open spec fn nodes_view(nodes: Seq<MessageNode>) -> Seq<MessageNodeView>
    decreases nodes,
{
    Seq::new(
        nodes.len(),
        |i: int|
            if 0 <= i < nodes.len() {
                nodes[i].view()
            } else {
                MessageNodeView { name: Seq::empty(), fields: Seq::empty(), nested: Seq::empty() }
            },
    )
}

impl View for MessageNode {
    type V = MessageNodeView;

    open spec fn view(&self) -> MessageNodeView
        decreases self,
    {
        MessageNodeView {
            name: self.name@,
            fields: fields_view(self.fields@),
            nested: nodes_view(self.nested@),
        }
    }
}

/// A schema file: its name, its package, its syntax, and the messages that
/// it declares at its top level.
#[derive(Debug, PartialEq, Eq)]
pub struct FileNode {
    pub name: String,
    pub package: String,
    pub syntax: String,
    pub messages: Vec<MessageNode>,
}

/// The mathematical model of a [`FileNode`].
pub struct FileNodeView {
    pub name: Seq<char>,
    pub package: Seq<char>,
    pub syntax: Seq<char>,
    pub messages: Seq<MessageNodeView>,
}

impl View for FileNode {
    type V = FileNodeView;

    open spec fn view(&self) -> FileNodeView {
        FileNodeView {
            name: self.name@,
            package: self.package@,
            syntax: self.syntax@,
            messages: nodes_view(self.messages@),
        }
    }
}

/// The models of a list of files.
pub open spec fn files_view(files: Seq<FileNode>) -> Seq<FileNodeView> {
    files.map_values(|f: FileNode| f@)
}

/// The names of the files, in order.
pub open spec fn file_names(files: Seq<FileNodeView>) -> Seq<Seq<char>> {
    Seq::new(files.len(), |i: int| files[i].name)
}

/// The full name of what is called `name` in `scope`.
pub open spec fn qualified(scope: Seq<char>, name: Seq<char>) -> Seq<char> {
    scope + "."@ + name
}

/// The scope of the top level of a file: its package behind a dot, or
/// nothing where it has no package.
pub open spec fn file_scope(package: Seq<char>) -> Seq<char> {
    if package.len() == 0 {
        Seq::empty()
    } else {
        "."@ + package
    }
}

/// The declaration of a message and those of the messages inside it, at
/// any depth, each under its full name, a message before what it holds.
pub open spec fn node_declarations(
    scope: Seq<char>,
    proto3: bool,
    node: MessageNodeView,
) -> Seq<MessageDeclarationView>
    decreases node, 0int,
{
    let name = qualified(scope, node.name);
    seq![MessageDeclarationView { name, proto3, fields: node.fields }] + nodes_declarations(
        name,
        proto3,
        node.nested,
        node.nested.len() as int,
    )
}

/// The declarations of the first `n` of the messages in one scope.
pub open spec fn nodes_declarations(
    scope: Seq<char>,
    proto3: bool,
    nodes: Seq<MessageNodeView>,
    n: int,
) -> Seq<MessageDeclarationView>
    decreases nodes, n,
{
    if n <= 0 || n > nodes.len() {
        Seq::empty()
    } else {
        nodes_declarations(scope, proto3, nodes, n - 1) + node_declarations(
            scope,
            proto3,
            nodes[n - 1],
        )
    }
}

/// The declarations of one file.
pub open spec fn file_declarations(file: FileNodeView) -> Seq<MessageDeclarationView> {
    nodes_declarations(
        file_scope(file.package),
        file.syntax == "proto3"@,
        file.messages,
        file.messages.len() as int,
    )
}

/// The declarations of the first `n` files.
pub open spec fn files_declarations(files: Seq<FileNodeView>, n: int) -> Seq<
    MessageDeclarationView,
>
    decreases n,
{
    if n <= 0 {
        Seq::empty()
    } else {
        files_declarations(files, n - 1) + file_declarations(files[n - 1])
    }
}

/// The full name of the first message of the first file called `input`;
/// none where there is no such file or it declares no message.
pub open spec fn first_message_name(files: Seq<FileNodeView>, input: Seq<char>) -> Option<
    Seq<char>,
> {
    let at = first_index(file_names(files), input);
    if 0 <= at < files.len() && files[at].messages.len() > 0 {
        Some(qualified(file_scope(files[at].package), files[at].messages[0].name))
    } else {
        None
    }
}

/// The schema of a set of files whose root is the first message of the
/// file called `input`; none where there is no such message.
pub open spec fn files_schema(files: Seq<FileNodeView>, input: Seq<char>) -> Option<SchemaView> {
    match first_message_name(files, input) {
        Some(root) => Some(resolved(files_declarations(files, files.len() as int), root)),
        None => None,
    }
}

impl FieldDeclaration {
    /// A copy of this declaration.
    pub fn duplicate(&self) -> (copy: FieldDeclaration)
        ensures
            copy@ == self@,
    {
        FieldDeclaration {
            name: self.name.clone(),
            label: self.label,
            wire_type: self.wire_type,
            message_name: self.message_name.clone(),
            proto3_optional: self.proto3_optional,
        }
    }
}

/// Copies of the declarations.
fn duplicate_fields(fields: &Vec<FieldDeclaration>) -> (copy: Vec<FieldDeclaration>)
    ensures
        fields_view(copy@) == fields_view(fields@),
{
    let mut copy: Vec<FieldDeclaration> = Vec::new();
    let mut k: usize = 0;
    while k < fields.len()
        invariant
            k <= fields.len(),
            copy@.len() == k,
            forall|j: int| 0 <= j < k ==> (#[trigger] copy@[j])@ == fields@[j]@,
        decreases fields.len() - k,
    {
        copy.push(fields[k].duplicate());
        k += 1;
    }
    assert(fields_view(copy@) =~= fields_view(fields@));
    copy
}

/// `name` in `scope`, under its full name.
fn qualify(scope: &String, name: &String) -> (full: String)
    ensures
        full@ == qualified(scope@, name@),
{
    let mut full = scope.clone();
    full.append(".");
    full.append(name.as_str());
    full
}

/// The scope of the top level of a file.
fn scope_of(file: &FileNode) -> (scope: String)
    ensures
        scope@ == file_scope(file@.package),
{
    let mut scope = String::new();
    if !file.package.as_str().is_empty() {
        scope.append(".");
        scope.append(file.package.as_str());
    }
    assert(scope@ =~= file_scope(file@.package));
    scope
}

/// Appends the declaration of a message and those of the messages inside
/// it.
fn declare_node(
    scope: &String,
    proto3: bool,
    node: &MessageNode,
    declared: &mut Vec<MessageDeclaration>,
)
    ensures
        declarations_view(final(declared)@) == declarations_view(old(declared)@)
            + node_declarations(scope@, proto3, node@),
    decreases node@,
{
    let ghost before = declarations_view(declared@);
    let ghost inner = nodes_view(node.nested@);
    let name = qualify(scope, &node.name);
    let declaration = MessageDeclaration {
        name: name.clone(),
        proto3,
        fields: duplicate_fields(&node.fields),
    };
    let ghost own = MessageDeclarationView { name: name@, proto3, fields: node@.fields };
    assert(declaration@ == own) by {
        assert(declaration@.fields =~= own.fields);
    }
    declared.push(declaration);
    assert(declarations_view(declared@) =~= before + seq![own]);
    let mut i: usize = 0;
    while i < node.nested.len()
        invariant
            i <= node.nested.len(),
            inner == nodes_view(node.nested@),
            node@.nested == inner,
            declarations_view(declared@) == before + seq![own] + nodes_declarations(
                name@,
                proto3,
                inner,
                i as int,
            ),
        decreases node.nested.len() - i,
    {
        proof {
            assert(inner[i as int] == node.nested[i as int]@);
            assert(decreases_to!(node@ => node@.nested));
            assert(decreases_to!(inner => inner[i as int]));
        }
        declare_node(&name, proto3, &node.nested[i], declared);
        assert(declarations_view(declared@) =~= before + seq![own] + nodes_declarations(
            name@,
            proto3,
            inner,
            i + 1,
        ));
        i += 1;
    }
    assert(declarations_view(declared@) =~= before + node_declarations(scope@, proto3, node@));
}

/// The declarations of all messages of all files, each under its full
/// name: file by file, and in a file message by message, each before the
/// messages inside it.
pub fn declare_files(files: &Vec<FileNode>) -> (declared: Vec<MessageDeclaration>)
    ensures
        declarations_view(declared@) == files_declarations(
            files_view(files@),
            files.len() as int,
        ),
{
    let mut declared: Vec<MessageDeclaration> = Vec::new();
    let proto3_syntax: String = "proto3".to_owned();
    let mut n: usize = 0;
    assert(declarations_view(declared@) =~= files_declarations(files_view(files@), 0));
    while n < files.len()
        invariant
            n <= files.len(),
            proto3_syntax@ == "proto3"@,
            declarations_view(declared@) == files_declarations(files_view(files@), n as int),
        decreases files.len() - n,
    {
        let file = &files[n];
        let ghost before = declarations_view(declared@);
        let ghost messages = nodes_view(file.messages@);
        assert(files_view(files@)[n as int] == file@);
        let proto3 = file.syntax == proto3_syntax;
        let scope = scope_of(file);
        let mut i: usize = 0;
        while i < file.messages.len()
            invariant
                i <= file.messages.len(),
                messages == nodes_view(file.messages@),
                declarations_view(declared@) == before + nodes_declarations(
                    scope@,
                    proto3,
                    messages,
                    i as int,
                ),
            decreases file.messages.len() - i,
        {
            assert(messages[i as int] == file.messages[i as int]@);
            declare_node(&scope, proto3, &file.messages[i], &mut declared);
            assert(declarations_view(declared@) =~= before + nodes_declarations(
                scope@,
                proto3,
                messages,
                i + 1,
            ));
            i += 1;
        }
        n += 1;
    }
    declared
}

/// The position of the first file called `name`; the number of files where
/// there is none.
pub fn find_file(files: &Vec<FileNode>, name: &String) -> (at: usize)
    ensures
        at == first_index(file_names(files_view(files@)), name@),
        at <= files.len(),
{
    let ghost names = file_names(files_view(files@));
    let mut i: usize = 0;
    while i < files.len()
        invariant
            i <= files.len(),
            names == file_names(files_view(files@)),
            first_index(names, name@) == first_index_from(names, name@, i as int),
        decreases files.len() - i,
    {
        assert(names[i as int] == files[i as int].name@);
        if files[i].name == *name {
            return i;
        }
        i += 1;
    }
    i
}

/// Makes a schema of the messages of a set of files, with the first
/// message of the file called `input` as its root.
///
/// Fails with `MissingRoot` where no file is called `input` or the first
/// such file declares no message, and else as [`resolve`] fails.
pub fn schema_of_files(files: &Vec<FileNode>, input: &String) -> (made: Result<
    Schema,
    SchemaError,
>)
    ensures
        match made {
            Ok(schema) => files_schema(files_view(files@), input@) == Some(schema@)
                && schema@.wf(),
            Err(error) => match files_schema(files_view(files@), input@) {
                Some(schema) => schema_defect(schema) == Some(error),
                None => error == SchemaError::MissingRoot,
            },
        },
{
    let at = find_file(files, input);
    if at >= files.len() {
        return Err(SchemaError::MissingRoot);
    }
    let file = &files[at];
    assert(files_view(files@)[at as int] == file@);
    if file.messages.len() == 0 {
        return Err(SchemaError::MissingRoot);
    }
    assert(nodes_view(file.messages@)[0] == file.messages[0]@);
    let scope = scope_of(file);
    let root = qualify(&scope, &file.messages[0].name);
    let declared = declare_files(files);
    resolve(&declared, &root)
}

} // verus!
