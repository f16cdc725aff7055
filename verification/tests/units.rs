//! Unit tests of the library's pieces: position arithmetic, report
//! formatting, the promise tracker, and the step-identity classifier,
//! each on hand-built values with exact expected results.

use cashmere::ast::{Class, ClassElement, Declarator, Expr, Function, ImportSpecifier, Param, Pattern, Program, Span, Stmt};
use cashmere::diagnostics::{format_diagnostic, format_summary, LintDiagnostic};
use cashmere::linter::lint;
use cashmere::symbols::build_workflow_step_symbols;
use cashmere::text::offset_to_line_col;
use cashmere::tracker::StepPromiseTracker;

fn sp(start: u32, end: u32) -> Span {
    Span { start, end }
}

#[test]
fn test_offset_to_line_col_positions() {
    let source = "ab\ncd\n\nxyz";
    assert_eq!(offset_to_line_col(source, 0), (1, 1));
    assert_eq!(offset_to_line_col(source, 1), (1, 2));
    assert_eq!(offset_to_line_col(source, 3), (2, 1));
    assert_eq!(offset_to_line_col(source, 4), (2, 2));
    assert_eq!(offset_to_line_col(source, 6), (3, 1));
    assert_eq!(offset_to_line_col(source, 7), (4, 1));
    assert_eq!(offset_to_line_col(source, 9), (4, 3));
    // An offset past the end means the position after the whole text.
    assert_eq!(offset_to_line_col(source, 1000), (4, 4));
}

#[test]
fn test_format_summary_exact() {
    assert_eq!(format_summary(0, 1).as_str(), "No issues found (1 files checked)");
    assert_eq!(format_summary(0, 12).as_str(), "No issues found (12 files checked)");
    assert_eq!(format_summary(1, 1).as_str(), "Found 1 issue(s) in 1 file(s) checked");
    assert_eq!(format_summary(205, 37).as_str(), "Found 205 issue(s) in 37 file(s) checked");
}

#[test]
fn test_format_diagnostic_exact() {
    let source = "first\nstep.do()";
    let d = LintDiagnostic::new("a.ts", source, sp(6, 15), "`step.do` must be awaited.", "await-step");
    assert_eq!(d.line, 2);
    assert_eq!(d.column, 1);
    assert_eq!(
        format_diagnostic(&d).as_str(),
        "a.ts:2:1 - `step.do` must be awaited. [await-step]"
    );
}

#[test]
fn test_tracker_assigned_then_marked_by_var() {
    let mut t = StepPromiseTracker::new();
    t.record_assigned_step("p", sp(10, 20), String::from("step.do"));
    t.mark_awaited_by_var("p");
    let unawaited = t.get_unawaited_steps();
    assert!(unawaited.is_empty());
}

#[test]
fn test_tracker_assigned_never_awaited_reported() {
    let mut t = StepPromiseTracker::new();
    t.record_assigned_step("p", sp(10, 20), String::from("step.do"));
    t.record_assigned_step("q", sp(30, 40), String::from("step.sleep"));
    t.mark_awaited_by_var("q");
    let unawaited = t.get_unawaited_steps();
    assert_eq!(unawaited.len(), 1);
    assert_eq!(unawaited[0].0, sp(10, 20));
    assert_eq!(unawaited[0].1.as_str(), "step.do");
}

#[test]
fn test_tracker_unknown_var_mark_changes_nothing() {
    let mut t = StepPromiseTracker::new();
    t.record_assigned_step("p", sp(10, 20), String::from("step.do"));
    t.mark_awaited_by_var("other");
    let unawaited = t.get_unawaited_steps();
    assert_eq!(unawaited.len(), 1);
}

#[test]
fn test_tracker_rebinding_keeps_newest_span() {
    // Rebinding a variable overwrites only the variable-to-span
    // mapping: the superseded span is no longer reachable from the
    // variable map and is not reported.
    let mut t = StepPromiseTracker::new();
    t.record_assigned_step("p", sp(10, 20), String::from("step.do"));
    t.record_assigned_step("p", sp(30, 40), String::from("step.do"));
    t.mark_awaited_by_var("p");
    let unawaited = t.get_unawaited_steps();
    assert!(unawaited.is_empty());
}

#[test]
fn test_tracker_unassigned_filtered_by_awaited() {
    // Drain reports every recorded span absent from the awaited set:
    // an unassigned span that was awaited by span is not reported.
    let mut t = StepPromiseTracker::new();
    t.record_unassigned_unawaited_step(sp(10, 20), String::from("step.do"));
    t.record_unassigned_unawaited_step(sp(30, 40), String::from("step.sleep"));
    t.mark_awaited_by_span(sp(10, 20));
    let unawaited = t.get_unawaited_steps();
    assert_eq!(unawaited.len(), 1);
    assert_eq!(unawaited[0].0, sp(30, 40));
    assert_eq!(unawaited[0].1.as_str(), "step.sleep");
}

#[test]
fn test_tracker_fallback_name() {
    // A variable-held span without a recorded method name is reported
    // under a name synthesized from the variable.
    let t = StepPromiseTracker {
        var_to_step_span: vec![(String::from("p"), sp(10, 20))],
        step_span_to_name: Vec::new(),
        awaited_step_spans: Vec::new(),
        unassigned_unawaited_steps: Vec::new(),
    };
    let unawaited = t.get_unawaited_steps();
    assert_eq!(unawaited.len(), 1);
    assert_eq!(unawaited[0].1.as_str(), "step (var: p)");
}

fn step_param(sym: u32) -> Param {
    Param {
        type_ref_name: Some(String::from("WorkflowStep")),
        pattern: Pattern::Name { name: String::from("step"), sym: Some(sym) },
    }
}

#[test]
fn test_classifier_annotation_path() {
    // A parameter typed exactly `WorkflowStep` is classified; one with
    // any other type name is not.
    let program = Program {
        body: vec![
            Stmt::Func(Function { params: vec![step_param(7)], body: Some(vec![]) }),
            Stmt::Func(Function {
                params: vec![Param {
                    type_ref_name: Some(String::from("WS")),
                    pattern: Pattern::Name { name: String::from("step"), sym: Some(8) },
                }],
                body: Some(vec![]),
            }),
        ],
    };
    let symbols = build_workflow_step_symbols(&program);
    assert!(symbols.contains(7));
    assert!(!symbols.contains(8));
}

#[test]
fn test_classifier_inference_path() {
    // The second parameter of `run` in a class extending the imported
    // base class is classified, by local alias.
    let program = Program {
        body: vec![
            Stmt::Import {
                source: String::from("cloudflare:workers"),
                specifiers: Some(vec![ImportSpecifier::Named {
                    imported: String::from("WorkflowEntrypoint"),
                    local: String::from("WE"),
                    sym: Some(1),
                }]),
            },
            Stmt::Class(Class {
                super_class: Some(Box::new(Expr::Ident { name: String::from("WE"), sym: Some(1) })),
                body: vec![ClassElement::Method {
                    name: Some(String::from("run")),
                    value: Function {
                        params: vec![
                            Param {
                                type_ref_name: None,
                                pattern: Pattern::Name { name: String::from("event"), sym: Some(2) },
                            },
                            Param {
                                type_ref_name: None,
                                pattern: Pattern::Name { name: String::from("step"), sym: Some(3) },
                            },
                        ],
                        body: Some(vec![]),
                    },
                }],
            }),
        ],
    };
    let symbols = build_workflow_step_symbols(&program);
    assert!(symbols.contains(3));
    assert!(!symbols.contains(2));
}

#[test]
fn test_classifier_import_from_other_module_not_recognized() {
    let program = Program {
        body: vec![
            Stmt::Import {
                source: String::from("some:other"),
                specifiers: Some(vec![ImportSpecifier::Named {
                    imported: String::from("WorkflowEntrypoint"),
                    local: String::from("WorkflowEntrypoint"),
                    sym: Some(1),
                }]),
            },
            Stmt::Class(Class {
                super_class: Some(Box::new(Expr::Ident {
                    name: String::from("WorkflowEntrypoint"),
                    sym: Some(1),
                })),
                body: vec![ClassElement::Method {
                    name: Some(String::from("run")),
                    value: Function {
                        params: vec![
                            Param {
                                type_ref_name: None,
                                pattern: Pattern::Name { name: String::from("event"), sym: Some(2) },
                            },
                            Param {
                                type_ref_name: None,
                                pattern: Pattern::Name { name: String::from("step"), sym: Some(3) },
                            },
                        ],
                        body: Some(vec![]),
                    },
                }],
            }),
        ],
    };
    let symbols = build_workflow_step_symbols(&program);
    assert!(!symbols.contains(3));
}

#[test]
fn test_lint_is_deterministic_and_stateless() {
    // Two runs over the same model give the same report: nothing is
    // shared between invocations.
    let source = "line one\nstep.do('x')";
    let make_program = || Program {
        body: vec![Stmt::Func(Function {
            params: vec![step_param(7)],
            body: Some(vec![Stmt::Expr(Expr::Call {
                callee: Box::new(Expr::StaticMember {
                    object: Box::new(Expr::Ident { name: String::from("step"), sym: Some(7) }),
                    property: String::from("do"),
                }),
                args: vec![],
                span: sp(9, 21),
            })]),
        })],
    };
    let first = lint(&make_program(), source, "model.ts");
    let second = lint(&make_program(), source, "model.ts");
    assert_eq!(first.len(), second.len());
    for (a, b) in first.iter().zip(second.iter()) {
        assert_eq!(format_diagnostic(a).as_str(), format_diagnostic(b).as_str());
    }
}

#[test]
fn test_lint_on_model_bare_step_call() {
    // A bare step call in a typed workflow body, built directly as a
    // model value.
    let source = "line one\nstep.do('x')";
    let call = Expr::Call {
        callee: Box::new(Expr::StaticMember {
            object: Box::new(Expr::Ident { name: String::from("step"), sym: Some(7) }),
            property: String::from("do"),
        }),
        args: vec![],
        span: sp(9, 21),
    };
    let program = Program {
        body: vec![Stmt::Func(Function {
            params: vec![step_param(7)],
            body: Some(vec![Stmt::Expr(call)]),
        })],
    };
    let diags = lint(&program, source, "model.ts");
    assert_eq!(diags.len(), 1);
    assert_eq!(diags[0].rule.as_str(), "await-step");
    assert_eq!(diags[0].line, 2);
    assert_eq!(diags[0].column, 1);
    assert_eq!(
        diags[0].message.as_str(),
        "`step.do` must be awaited. Not awaiting creates a dangling Promise that can cause race conditions and swallowed errors.",
    );
}
