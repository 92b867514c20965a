//! Findings as text: one line for each, and the exit status that goes with
//! them.

use vstd::prelude::*;
use crate::finding::{Finding, FindingKind, FindingView, FieldPath, PathSegment, Segment, findings_view};

verus! {

/// The line that reports a validation without findings.
pub const SUCCESS_LINE: &'static str = "JSON is valid against the Protobuf schema.";

/// The decimal digit for `d`.
pub open spec fn digit_char(d: int) -> char {
    if d == 0 {
        '0'
    } else if d == 1 {
        '1'
    } else if d == 2 {
        '2'
    } else if d == 3 {
        '3'
    } else if d == 4 {
        '4'
    } else if d == 5 {
        '5'
    } else if d == 6 {
        '6'
    } else if d == 7 {
        '7'
    } else if d == 8 {
        '8'
    } else {
        '9'
    }
}

/// A number in decimal, without sign or leading zeros.
pub open spec fn decimal_text(n: nat) -> Seq<char>
    decreases n,
{
    if n < 10 {
        seq![digit_char(n as int)]
    } else {
        decimal_text(n / 10).push(digit_char((n % 10) as int))
    }
}

/// A path as text: member names joined by dots, an array index in square
/// brackets behind what it indexes, as in `orders[2].id`.
pub open spec fn path_text(path: Seq<Segment>) -> Seq<char>
    decreases path.len(),
{
    if path.len() == 0 {
        Seq::empty()
    } else {
        let before = path_text(path.drop_last());
        match path.last() {
            Segment::Field(name) => if path.len() == 1 {
                name
            } else {
                before + "."@ + name
            },
            Segment::Index(i) => before + "["@ + decimal_text(i) + "]"@,
        }
    }
}

/// The name of a kind of finding.
pub open spec fn kind_text(kind: FindingKind) -> Seq<char> {
    match kind {
        FindingKind::AdditionalField => "AdditionalField"@,
        FindingKind::MissingField => "MissingField"@,
        FindingKind::WrongDataType => "WrongDataType"@,
        FindingKind::MissingArrayField => "MissingArrayField"@,
        FindingKind::TypeMismatch => "TypeMismatch"@,
    }
}

/// The line for a finding: path, colon, kind, and the detail in round
/// brackets where there is one.
pub open spec fn finding_text(finding: FindingView) -> Seq<char> {
    path_text(finding.path) + ": "@ + kind_text(finding.kind) + match finding.detail {
        Some(detail) => " ("@ + detail + ")"@,
        None => Seq::empty(),
    }
}

/// The lines for a list of findings: one for each, in order, or the
/// success line where there is none.
pub open spec fn report_text(findings: Seq<FindingView>) -> Seq<Seq<char>> {
    if findings.len() == 0 {
        seq![SUCCESS_LINE@]
    } else {
        findings.map_values(|f: FindingView| finding_text(f))
    }
}

/// The texts of a list of lines.
pub open spec fn lines_view(lines: Seq<String>) -> Seq<Seq<char>> {
    lines.map_values(|line: String| line@)
}

/// The text of one decimal digit.
fn digit_label(d: usize) -> (label: &'static str)
    requires
        d < 10,
    ensures
        label@ == seq![digit_char(d as int)],
{
    proof {
        reveal_strlit("0");
        reveal_strlit("1");
        reveal_strlit("2");
        reveal_strlit("3");
        reveal_strlit("4");
        reveal_strlit("5");
        reveal_strlit("6");
        reveal_strlit("7");
        reveal_strlit("8");
        reveal_strlit("9");
    }
    let label = if d == 0 {
        "0"
    } else if d == 1 {
        "1"
    } else if d == 2 {
        "2"
    } else if d == 3 {
        "3"
    } else if d == 4 {
        "4"
    } else if d == 5 {
        "5"
    } else if d == 6 {
        "6"
    } else if d == 7 {
        "7"
    } else if d == 8 {
        "8"
    } else {
        "9"
    };
    assert(label@ =~= seq![digit_char(d as int)]);
    label
}

/// Appends `n` in decimal.
fn append_decimal(text: &mut String, n: usize)
    ensures
        final(text)@ == old(text)@ + decimal_text(n as nat),
    decreases n,
{
    if n >= 10 {
        append_decimal(text, n / 10);
    }
    text.append(digit_label(n % 10));
    assert(text@ =~= old(text)@ + decimal_text(n as nat));
}

impl FindingKind {
    /// The name of this kind.
    pub fn name(self) -> (name: &'static str)
        ensures
            name@ == kind_text(self),
    {
        match self {
            FindingKind::AdditionalField => "AdditionalField",
            FindingKind::MissingField => "MissingField",
            FindingKind::WrongDataType => "WrongDataType",
            FindingKind::MissingArrayField => "MissingArrayField",
            FindingKind::TypeMismatch => "TypeMismatch",
        }
    }
}

impl FieldPath {
    /// This path as text.
    pub fn render(&self) -> (text: String)
        ensures
            text@ == path_text(self@),
    {
        let mut text = String::new();
        let mut i: usize = 0;
        assert(self@.take(0) =~= Seq::<Segment>::empty());
        while i < self.segments.len()
            invariant
                i <= self.segments.len(),
                self@.len() == self.segments.len(),
                text@ == path_text(self@.take(i as int)),
            decreases self.segments.len() - i,
        {
            let ghost upto = self@.take(i + 1);
            assert(upto.drop_last() =~= self@.take(i as int));
            assert(upto.last() == self.segments[i as int]@);
            match &self.segments[i] {
                PathSegment::Field(name) => {
                    if i > 0 {
                        text.append(".");
                    }
                    text.append(name.as_str());
                    assert(text@ =~= path_text(upto));
                },
                PathSegment::Index(index) => {
                    text.append("[");
                    append_decimal(&mut text, *index);
                    text.append("]");
                    assert(text@ =~= path_text(upto));
                },
            }
            i += 1;
        }
        assert(self@.take(i as int) =~= self@);
        text
    }
}

impl Finding {
    /// The line that reports this finding.
    pub fn render(&self) -> (line: String)
        ensures
            line@ == finding_text(self@),
    {
        let mut line = self.path.render();
        line.append(": ");
        line.append(self.kind.name());
        match &self.detail {
            Some(detail) => {
                line.append(" (");
                line.append(detail.as_str());
                line.append(")");
                assert(line@ =~= finding_text(self@));
            },
            None => {
                assert(line@ =~= finding_text(self@));
            },
        }
        line
    }
}

/// The lines that report the findings of a validation.
pub fn render_report(findings: &Vec<Finding>) -> (lines: Vec<String>)
    ensures
        lines_view(lines@) == report_text(findings_view(findings@)),
{
    let mut lines: Vec<String> = Vec::new();
    if findings.len() == 0 {
        lines.push(SUCCESS_LINE.to_owned());
        assert(lines_view(lines@) =~= report_text(
            findings_view(findings@),
        ));
        return lines;
    }
    let mut i: usize = 0;
    while i < findings.len()
        invariant
            i <= findings.len(),
            lines@.len() == i,
            forall|k: int| 0 <= k < i ==> (#[trigger] lines@[k])@ == finding_text(findings@[k]@),
        decreases findings.len() - i,
    {
        lines.push(findings[i].render());
        i += 1;
    }
    assert(lines_view(lines@) =~= report_text(findings_view(findings@)));
    lines
}

/// The exit status for the findings of a validation: zero where there is
/// none, one otherwise.
pub fn exit_code(findings: &Vec<Finding>) -> (code: i32)
    ensures
        code == if findings@.len() == 0 {
            0i32
        } else {
            1i32
        },
{
    if findings.len() == 0 {
        0
    } else {
        1
    }
}

} // verus!
