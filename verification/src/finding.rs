//! Findings: the divergences a validation reports, each with the path of
//! the place in the document where it was found.

use vstd::prelude::*;

verus! {

/// One step of a path into a document: into the member of an object, or
/// into the item of an array.
#[derive(Debug, PartialEq, Eq)]
pub enum PathSegment {
    Field(String),
    Index(usize),
}

/// The mathematical model of a [`PathSegment`].
pub enum Segment {
    Field(Seq<char>),
    Index(nat),
}

impl View for PathSegment {
    type V = Segment;

    open spec fn view(&self) -> Segment {
        match self {
            PathSegment::Field(name) => Segment::Field(name@),
            PathSegment::Index(i) => Segment::Index(*i as nat),
        }
    }
}

impl PathSegment {
    /// A copy of this segment.
    pub fn duplicate(&self) -> (copy: PathSegment)
        ensures
            copy == *self,
    {
        match self {
            PathSegment::Field(name) => PathSegment::Field(name.clone()),
            PathSegment::Index(i) => PathSegment::Index(*i),
        }
    }
}

/// The place of a value in a document: the steps that lead to it from the
/// root. The root itself has the empty path.
#[derive(Debug, PartialEq, Eq)]
pub struct FieldPath {
    pub segments: Vec<PathSegment>,
}

impl View for FieldPath {
    type V = Seq<Segment>;

    open spec fn view(&self) -> Seq<Segment> {
        self.segments@.map_values(|s: PathSegment| s@)
    }
}

impl FieldPath {
    /// The path of the root.
    pub fn new() -> (path: FieldPath)
        ensures
            path@ == Seq::<Segment>::empty(),
    {
        let path = FieldPath { segments: Vec::new() };
        assert(path@ =~= Seq::<Segment>::empty());
        path
    }

    /// The number of steps.
    pub fn len(&self) -> (n: usize)
        ensures
            n == self@.len(),
    {
        self.segments.len()
    }

    /// Takes one more step.
    pub fn push(&mut self, segment: PathSegment)
        ensures
            final(self)@ == old(self)@.push(segment@),
    {
        self.segments.push(segment);
        assert(self@ =~= old(self)@.push(segment@));
    }

    /// Takes the last step back, if there is one.
    pub fn pop(&mut self)
        ensures
            final(self)@ == if old(self)@.len() > 0 {
                old(self)@.drop_last()
            } else {
                old(self)@
            },
    {
        self.segments.pop();
        assert(self@ =~= if old(self)@.len() > 0 {
            old(self)@.drop_last()
        } else {
            old(self)@
        });
    }

    /// A copy of this path.
    pub fn duplicate(&self) -> (copy: FieldPath)
        ensures
            copy@ == self@,
    {
        let mut segments: Vec<PathSegment> = Vec::new();
        let mut i: usize = 0;
        while i < self.segments.len()
            invariant
                i <= self.segments.len(),
                segments@ == self.segments@.take(i as int),
            decreases self.segments.len() - i,
        {
            segments.push(self.segments[i].duplicate());
            i += 1;
            assert(segments@ =~= self.segments@.take(i as int));
        }
        assert(segments@ =~= self.segments@);
        FieldPath { segments }
    }
}

/// The kinds of divergence between a document and a schema.
#[derive(Clone, Copy, Debug, PartialEq, Eq, Structural)]
pub enum FindingKind {
    /// The object has a key that the shape does not declare.
    AdditionalField,
    /// The object lacks a field that the shape requires.
    MissingField,
    /// The value under a field is not of the field's declared type.
    WrongDataType,
    /// The value under a repeated field is not an array.
    MissingArrayField,
    /// The document's root is not an object.
    TypeMismatch,
}

/// One divergence: where, of which kind, and in words where there is more
/// to say.
#[derive(Debug, PartialEq, Eq)]
pub struct Finding {
    pub path: FieldPath,
    pub kind: FindingKind,
    pub detail: Option<String>,
}

/// The mathematical model of a [`Finding`].
pub struct FindingView {
    pub path: Seq<Segment>,
    pub kind: FindingKind,
    pub detail: Option<Seq<char>>,
}

impl View for Finding {
    type V = FindingView;

    open spec fn view(&self) -> FindingView {
        FindingView {
            path: self.path@,
            kind: self.kind,
            detail: match self.detail {
                Some(text) => Some(text@),
                None => None,
            },
        }
    }
}

/// The models of a list of findings, in order.
pub open spec fn findings_view(findings: Seq<Finding>) -> Seq<FindingView> {
    findings.map_values(|f: Finding| f@)
}

/// Appending a finding appends its model.
pub proof fn lemma_findings_view_push(findings: Seq<Finding>, finding: Finding)
    ensures
        findings_view(findings.push(finding)) == findings_view(findings).push(finding@),
{
    assert(findings_view(findings.push(finding)) =~= findings_view(findings).push(finding@));
}

} // verus!
