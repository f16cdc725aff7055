//! The diagnostic record, its rendering, and the report lines the
//! command-line driver prints.

use vstd::prelude::*;

use crate::ast::Span;
use crate::text::{col_at, dec_str, line_at, offset_to_line_col, u64_to_string};

verus! {

/// The mathematical content of one diagnostic.
#[verifier::ext_equal]
pub struct DiagV {
    pub file: Seq<char>,
    pub line: nat,
    pub col: nat,
    pub message: Seq<char>,
    pub rule: Seq<char>,
}

/// One finding: where it is, what it says, and under which rule.
/// `line` and `column` are 1-based.
#[derive(Debug, Clone)]
pub struct LintDiagnostic {
    pub file: String,
    pub line: usize,
    pub column: usize,
    pub message: String,
    pub rule: String,
}

impl View for LintDiagnostic {
    type V = DiagV;

    open spec fn view(&self) -> DiagV {
        DiagV {
            file: self.file@,
            line: self.line as nat,
            col: self.column as nat,
            message: self.message@,
            rule: self.rule@,
        }
    }
}

/// The diagnostic for a message at `span` of `src`, its position
/// derived from the span's start offset.
pub open spec fn diag_at(
    file: Seq<char>,
    src: Seq<char>,
    span: Span,
    message: Seq<char>,
    rule: Seq<char>,
) -> DiagV {
    DiagV {
        file: file,
        line: line_at(src, span.start as int),
        col: col_at(src, span.start as int),
        message: message,
        rule: rule,
    }
}

impl LintDiagnostic {
    /// Builds a diagnostic, converting the span's start offset into a
    /// line and column of `source`.
    pub fn new(file: &str, source: &str, span: Span, message: &str, rule: &str) -> (r: Self)
        requires
            source@.len() < usize::MAX,
        ensures
            r@ == diag_at(file@, source@, span, message@, rule@),
    {
        let (line, column) = offset_to_line_col(source, span.start as usize);
        LintDiagnostic {
            file: String::from_str(file),
            line,
            column,
            message: String::from_str(message),
            rule: String::from_str(rule),
        }
    }
}

/// The message for a step promise that is never awaited.
pub open spec fn await_msg(name: Seq<char>) -> Seq<char> {
    "`"@ + name
        + "` must be awaited. Not awaiting creates a dangling Promise that can cause race conditions and swallowed errors."@
}

/// The message for a step call nested inside another step's callback.
pub open spec fn nested_msg(inner: Seq<char>, outer: Seq<char>) -> Seq<char> {
    "`"@ + inner + "` is nested inside `"@ + outer
        + "`. Nested steps are discouraged as they can cause unexpected behavior during workflow replay."@
}

/// Builds the must-be-awaited message for the named step call.
pub fn make_await_msg(name: &str) -> (m: String)
    ensures
        m@ == await_msg(name@),
{
    let mut m = String::from_str("`");
    m.append(name);
    m.append(
        "` must be awaited. Not awaiting creates a dangling Promise that can cause race conditions and swallowed errors.",
    );
    proof {
        assert(m@ =~= await_msg(name@));
    }
    m
}

/// Builds the nested-step message naming the inner and the enclosing
/// step call.
pub fn make_nested_msg(inner: &str, outer: &str) -> (m: String)
    ensures
        m@ == nested_msg(inner@, outer@),
{
    let mut m = String::from_str("`");
    m.append(inner);
    m.append("` is nested inside `");
    m.append(outer);
    m.append(
        "`. Nested steps are discouraged as they can cause unexpected behavior during workflow replay.",
    );
    proof {
        assert(m@ =~= nested_msg(inner@, outer@));
    }
    m
}

/// One printed report line for a diagnostic:
/// `file:line:column - message [rule]`.
pub open spec fn diag_line(d: DiagV) -> Seq<char> {
    d.file + ":"@ + dec_str(d.line) + ":"@ + dec_str(d.col) + " - "@ + d.message + " ["@ + d.rule
        + "]"@
}

/// Renders one diagnostic as its report line.
pub fn format_diagnostic(d: &LintDiagnostic) -> (s: String)
    ensures
        s@ == diag_line(d@),
{
    let mut s = d.file.clone();
    s.append(":");
    let line_digits = u64_to_string(d.line as u64);
    s.append(line_digits.as_str());
    s.append(":");
    let col_digits = u64_to_string(d.column as u64);
    s.append(col_digits.as_str());
    s.append(" - ");
    s.append(d.message.as_str());
    s.append(" [");
    s.append(d.rule.as_str());
    s.append("]");
    proof {
        assert(s@ =~= diag_line(d@));
    }
    s
}

/// The summary line when no diagnostic was produced.
pub open spec fn clean_summary(files: nat) -> Seq<char> {
    "No issues found ("@ + dec_str(files) + " files checked)"@
}

/// The summary line when diagnostics were produced.
pub open spec fn issues_summary(issues: nat, files: nat) -> Seq<char> {
    "Found "@ + dec_str(issues) + " issue(s) in "@ + dec_str(files) + " file(s) checked"@
}

/// Renders the summary for a run over `files` files that produced
/// `issues` diagnostics.
pub fn format_summary(issues: usize, files: usize) -> (s: String)
    ensures
        issues == 0 ==> s@ == clean_summary(files as nat),
        issues != 0 ==> s@ == issues_summary(issues as nat, files as nat),
{
    if issues == 0 {
        let mut s = String::from_str("No issues found (");
        let files_digits = u64_to_string(files as u64);
        s.append(files_digits.as_str());
        s.append(" files checked)");
        proof {
            assert(s@ =~= clean_summary(files as nat));
        }
        s
    } else {
        let mut s = String::from_str("Found ");
        let issues_digits = u64_to_string(issues as u64);
        s.append(issues_digits.as_str());
        s.append(" issue(s) in ");
        let files_digits = u64_to_string(files as u64);
        s.append(files_digits.as_str());
        s.append(" file(s) checked");
        proof {
            assert(s@ =~= issues_summary(issues as nat, files as nat));
        }
        s
    }
}

} // verus!
