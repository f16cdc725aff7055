//! End-to-end tests: each parses workflow source with the oxc parser
//! and binder, converts the tree into the linter's model, runs the
//! lint, and checks the report the command-line driver would print.

use cashmere::ast as m;
use cashmere::diagnostics::{format_diagnostic, format_summary, LintDiagnostic};
use oxc_allocator::Allocator;
use oxc_ast::ast as ox;
use oxc_parser::Parser;
use oxc_semantic::{Semantic, SemanticBuilder};
use oxc_span::{GetSpan, SourceType};

fn bind_sym(b: &ox::BindingIdentifier) -> Option<u32> {
    b.symbol_id.get().map(|s| s.index() as u32)
}

fn resolve_ref(id: &ox::IdentifierReference, sem: &Semantic) -> Option<u32> {
    id.reference_id
        .get()
        .and_then(|rid| sem.scoping().get_reference(rid).symbol_id())
        .map(|s| s.index() as u32)
}

fn convert_span(sp: oxc_span::Span) -> m::Span {
    m::Span { start: sp.start, end: sp.end }
}

fn convert_pattern(p: &ox::BindingPattern) -> m::Pattern {
    match p {
        ox::BindingPattern::BindingIdentifier(b) => m::Pattern::Name {
            name: b.name.as_str().to_string(),
            sym: bind_sym(b),
        },
        _ => m::Pattern::Other,
    }
}

fn convert_param(p: &ox::FormalParameter) -> m::Param {
    // A direct reference to a named type is one whose identifier covers
    // the whole annotated type: qualified names and `typeof` queries are
    // not direct references.
    let type_ref_name = p.type_annotation.as_ref().and_then(|ta| {
        let t = &ta.type_annotation;
        match t.get_identifier_reference() {
            Some(id) if id.span == t.span() => Some(id.name.as_str().to_string()),
            _ => None,
        }
    });
    let pattern = if p.initializer.is_some() {
        m::Pattern::Other
    } else {
        convert_pattern(&p.pattern)
    };
    m::Param { type_ref_name, pattern }
}

fn convert_params(ps: &ox::FormalParameters, _sem: &Semantic) -> Vec<m::Param> {
    ps.items.iter().map(convert_param).collect()
}

fn convert_function(f: &ox::Function, sem: &Semantic) -> m::Function {
    m::Function {
        params: convert_params(&f.params, sem),
        body: f.body.as_ref().map(|b| convert_stmts(&b.statements, sem)),
    }
}

fn convert_class(c: &ox::Class, sem: &Semantic) -> m::Class {
    m::Class {
        super_class: c.super_class.as_ref().map(|e| Box::new(convert_expr(e, sem))),
        body: c.body.body.iter().map(|el| convert_class_element(el, sem)).collect(),
    }
}

fn convert_class_element(el: &ox::ClassElement, sem: &Semantic) -> m::ClassElement {
    match el {
        ox::ClassElement::MethodDefinition(md) => m::ClassElement::Method {
            name: match &md.key {
                ox::PropertyKey::StaticIdentifier(id) => Some(id.name.as_str().to_string()),
                _ => None,
            },
            value: convert_function(&md.value, sem),
        },
        ox::ClassElement::PropertyDefinition(pd) => m::ClassElement::Property {
            init: pd.value.as_ref().map(|e| convert_expr(e, sem)),
        },
        ox::ClassElement::StaticBlock(sb) => m::ClassElement::StaticBlock(
            convert_stmts(&sb.body, sem),
        ),
        _ => m::ClassElement::Other,
    }
}

fn convert_declarators(ds: &[ox::VariableDeclarator], sem: &Semantic) -> Vec<m::Declarator> {
    ds.iter()
        .map(|d| m::Declarator {
            pattern: convert_pattern(&d.id),
            init: d.init.as_ref().map(|e| convert_expr(e, sem)),
        })
        .collect()
}

fn convert_arg(a: &ox::Argument, sem: &Semantic) -> m::Arg {
    match a {
        ox::Argument::SpreadElement(sp) => m::Arg::Spread(convert_expr(&sp.argument, sem)),
        _ => match a.as_expression() {
            Some(e) => m::Arg::Plain(convert_expr(e, sem)),
            None => m::Arg::Plain(m::Expr::Other),
        },
    }
}

fn convert_expr(e: &ox::Expression, sem: &Semantic) -> m::Expr {
    match e {
        ox::Expression::Identifier(id) => m::Expr::Ident {
            name: id.name.as_str().to_string(),
            sym: resolve_ref(id, sem),
        },
        ox::Expression::CallExpression(c) => m::Expr::Call {
            callee: Box::new(convert_expr(&c.callee, sem)),
            args: c.arguments.iter().map(|a| convert_arg(a, sem)).collect(),
            span: convert_span(c.span),
        },
        ox::Expression::AwaitExpression(a) => {
            m::Expr::Await(Box::new(convert_expr(&a.argument, sem)))
        }
        ox::Expression::ArrowFunctionExpression(a) => m::Expr::Arrow {
            params: convert_params(&a.params, sem),
            body: convert_stmts(&a.body.statements, sem),
        },
        ox::Expression::FunctionExpression(f) => m::Expr::Func(convert_function(f, sem)),
        ox::Expression::ClassExpression(c) => m::Expr::ClassExpr(convert_class(c, sem)),
        ox::Expression::ArrayExpression(arr) => m::Expr::Array(
            arr.elements
                .iter()
                .map(|el| match el {
                    ox::ArrayExpressionElement::SpreadElement(sp) => {
                        m::ArrayElem::Spread(convert_expr(&sp.argument, sem))
                    }
                    ox::ArrayExpressionElement::Elision(_) => m::ArrayElem::Elision,
                    _ => match el.as_expression() {
                        Some(inner) => m::ArrayElem::Plain(convert_expr(inner, sem)),
                        None => m::ArrayElem::Plain(m::Expr::Other),
                    },
                })
                .collect(),
        ),
        ox::Expression::ObjectExpression(o) => m::Expr::Object(
            o.properties
                .iter()
                .map(|p| match p {
                    ox::ObjectPropertyKind::ObjectProperty(op) => m::Prop::Property {
                        value: convert_expr(&op.value, sem),
                    },
                    ox::ObjectPropertyKind::SpreadProperty(sp) => {
                        m::Prop::Spread(convert_expr(&sp.argument, sem))
                    }
                })
                .collect(),
        ),
        ox::Expression::ConditionalExpression(c) => m::Expr::Conditional {
            test: Box::new(convert_expr(&c.test, sem)),
            consequent: Box::new(convert_expr(&c.consequent, sem)),
            alternate: Box::new(convert_expr(&c.alternate, sem)),
        },
        ox::Expression::BinaryExpression(b) => m::Expr::Binary {
            left: Box::new(convert_expr(&b.left, sem)),
            right: Box::new(convert_expr(&b.right, sem)),
        },
        ox::Expression::LogicalExpression(l) => m::Expr::Logical {
            left: Box::new(convert_expr(&l.left, sem)),
            right: Box::new(convert_expr(&l.right, sem)),
        },
        ox::Expression::AssignmentExpression(a) => m::Expr::Assign {
            right: Box::new(convert_expr(&a.right, sem)),
        },
        ox::Expression::SequenceExpression(s) => m::Expr::Sequence(
            s.expressions.iter().map(|x| convert_expr(x, sem)).collect(),
        ),
        ox::Expression::ParenthesizedExpression(p) => {
            m::Expr::Paren(Box::new(convert_expr(&p.expression, sem)))
        }
        ox::Expression::UnaryExpression(u) => {
            m::Expr::Unary(Box::new(convert_expr(&u.argument, sem)))
        }
        ox::Expression::NewExpression(n) => m::Expr::New {
            callee: Box::new(convert_expr(&n.callee, sem)),
            args: n.arguments.iter().map(|a| convert_arg(a, sem)).collect(),
        },
        ox::Expression::StaticMemberExpression(sm) => m::Expr::StaticMember {
            object: Box::new(convert_expr(&sm.object, sem)),
            property: sm.property.name.as_str().to_string(),
        },
        ox::Expression::ComputedMemberExpression(cm) => m::Expr::ComputedMember {
            object: Box::new(convert_expr(&cm.object, sem)),
            index: Box::new(convert_expr(&cm.expression, sem)),
        },
        ox::Expression::PrivateFieldExpression(pf) => m::Expr::PrivateField {
            object: Box::new(convert_expr(&pf.object, sem)),
        },
        ox::Expression::TaggedTemplateExpression(t) => m::Expr::TaggedTemplate {
            tag: Box::new(convert_expr(&t.tag, sem)),
        },
        ox::Expression::TemplateLiteral(t) => m::Expr::Template(
            t.expressions.iter().map(|x| convert_expr(x, sem)).collect(),
        ),
        ox::Expression::YieldExpression(y) => m::Expr::Yield(
            y.argument.as_ref().map(|a| Box::new(convert_expr(a, sem))),
        ),
        _ => m::Expr::Other,
    }
}

fn convert_decl(d: &ox::Declaration, sem: &Semantic) -> m::Decl {
    match d {
        ox::Declaration::FunctionDeclaration(f) => m::Decl::Func(convert_function(f, sem)),
        ox::Declaration::ClassDeclaration(c) => m::Decl::Class(convert_class(c, sem)),
        ox::Declaration::VariableDeclaration(v) => {
            m::Decl::Var(convert_declarators(&v.declarations, sem))
        }
        _ => m::Decl::Other,
    }
}

fn convert_stmt(s: &ox::Statement, sem: &Semantic) -> m::Stmt {
    match s {
        ox::Statement::ExpressionStatement(es) => m::Stmt::Expr(convert_expr(&es.expression, sem)),
        ox::Statement::VariableDeclaration(vd) => {
            m::Stmt::Var(convert_declarators(&vd.declarations, sem))
        }
        ox::Statement::FunctionDeclaration(f) => m::Stmt::Func(convert_function(f, sem)),
        ox::Statement::ClassDeclaration(c) => m::Stmt::Class(convert_class(c, sem)),
        ox::Statement::BlockStatement(b) => m::Stmt::Block(convert_stmts(&b.body, sem)),
        ox::Statement::IfStatement(i) => m::Stmt::If {
            test: convert_expr(&i.test, sem),
            consequent: Box::new(convert_stmt(&i.consequent, sem)),
            alternate: i.alternate.as_ref().map(|a| Box::new(convert_stmt(a, sem))),
        },
        ox::Statement::WhileStatement(w) => m::Stmt::While {
            test: convert_expr(&w.test, sem),
            body: Box::new(convert_stmt(&w.body, sem)),
        },
        ox::Statement::ForStatement(f) => m::Stmt::For {
            init: match &f.init {
                Some(ox::ForStatementInit::VariableDeclaration(vd)) => {
                    Some(convert_declarators(&vd.declarations, sem))
                }
                _ => None,
            },
            body: Box::new(convert_stmt(&f.body, sem)),
        },
        ox::Statement::ForInStatement(f) => m::Stmt::ForIn {
            body: Box::new(convert_stmt(&f.body, sem)),
        },
        ox::Statement::ForOfStatement(f) => m::Stmt::ForOf {
            right: convert_expr(&f.right, sem),
            body: Box::new(convert_stmt(&f.body, sem)),
        },
        ox::Statement::ReturnStatement(r) => {
            m::Stmt::Return(r.argument.as_ref().map(|a| convert_expr(a, sem)))
        }
        ox::Statement::TryStatement(t) => m::Stmt::Try {
            block: convert_stmts(&t.block.body, sem),
            handler: t.handler.as_ref().map(|h| convert_stmts(&h.body.body, sem)),
            finalizer: t.finalizer.as_ref().map(|f| convert_stmts(&f.body, sem)),
        },
        ox::Statement::SwitchStatement(sw) => m::Stmt::Switch {
            discriminant: convert_expr(&sw.discriminant, sem),
            cases: sw.cases.iter().map(|c| convert_stmts(&c.consequent, sem)).collect(),
        },
        ox::Statement::ExportDefaultDeclaration(ed) => match &ed.declaration {
            ox::ExportDefaultDeclarationKind::FunctionDeclaration(f) => {
                m::Stmt::ExportDefaultFunc(convert_function(f, sem))
            }
            ox::ExportDefaultDeclarationKind::ClassDeclaration(c) => {
                m::Stmt::ExportDefaultClass(convert_class(c, sem))
            }
            kind => match kind.as_expression() {
                Some(e) => m::Stmt::ExportDefaultExpr(convert_expr(e, sem)),
                None => m::Stmt::Other,
            },
        },
        ox::Statement::ExportNamedDeclaration(en) => m::Stmt::ExportNamed(
            en.declaration.as_ref().map(|d| convert_decl(d, sem)),
        ),
        ox::Statement::ImportDeclaration(imp) => m::Stmt::Import {
            source: imp.source.value.as_str().to_string(),
            specifiers: imp.specifiers.as_ref().map(|specs| {
                specs
                    .iter()
                    .map(|sp| match sp {
                        ox::ImportDeclarationSpecifier::ImportSpecifier(is) => {
                            m::ImportSpecifier::Named {
                                imported: is.imported.name().as_str().to_string(),
                                local: is.local.name.as_str().to_string(),
                                sym: bind_sym(&is.local),
                            }
                        }
                        _ => m::ImportSpecifier::Other,
                    })
                    .collect()
            }),
        },
        _ => m::Stmt::Other,
    }
}

fn convert_stmts(ss: &[ox::Statement], sem: &Semantic) -> Vec<m::Stmt> {
    ss.iter().map(|s| convert_stmt(s, sem)).collect()
}

fn convert_program(p: &ox::Program, sem: &Semantic) -> m::Program {
    m::Program { body: convert_stmts(&p.body, sem) }
}

fn lint_text(source: &str, file_name: &str) -> Vec<LintDiagnostic> {
    let source_type = SourceType::from_path(file_name).unwrap_or_default();
    let allocator = Allocator::default();
    let ret = Parser::new(&allocator, source, source_type).parse();
    let sem_ret = SemanticBuilder::new().build(&ret.program);
    let program = convert_program(&ret.program, &sem_ret.semantic);
    cashmere::linter::lint(&program, source, file_name)
}

/// Lints one file and renders the report the command-line driver
/// prints for it: one line per diagnostic, a blank line, a summary.
fn run_lint(source: &str, file_name: &str) -> (Vec<LintDiagnostic>, String) {
    let diags = lint_text(source, file_name);
    let mut out = String::new();
    for d in &diags {
        out.push_str(format_diagnostic(d).as_str());
        out.push('\n');
    }
    out.push('\n');
    out.push_str(format_summary(diags.len(), 1).as_str());
    out.push('\n');
    (diags, out)
}

#[test]
fn test_unawaited_step_do_is_flagged() {
    // TypeScript code with unawaited step.do() call
    // No import needed - WorkflowStep comes from ambient declarations
    let typescript_code = r#"
export class MyWorkflow {
    async run(step: WorkflowStep) {
        // This should be flagged - step.do() is not awaited
        step.do('send-email', async () => {
            return { sent: true };
        });

        // This is fine - properly awaited
        await step.do('save-to-db', async () => {
            return { saved: true };
        });
    }
}
"#;

    let expected_output = r#"
:5:9 - `step.do` must be awaited. Not awaiting creates a dangling Promise that can cause race conditions and swallowed errors. [await-step]

Found 1 issue(s) in 1 file(s) checked
"#;

    let (diags, stdout) = run_lint(typescript_code, "test.ts");

    assert!(
        stdout.contains(":5:9 - `step.do` must be awaited."),
        "Expected line 5, column 9 error for unawaited step.do()\nActual output:\n{}",
        stdout
    );
    assert!(
        stdout.contains("[await-step]"),
        "Expected [await-step] rule name in output\nActual output:\n{}",
        stdout
    );
    assert!(
        stdout.contains("Found 1 issue(s)"),
        "Expected exactly 1 issue\nActual output:\n{}",
        stdout
    );

    // Issues found: a driver would exit non-zero
    assert!(!diags.is_empty());

    println!("=== Input TypeScript ===");
    println!("{}", typescript_code);
    println!("=== Expected Output (key parts) ==={}", expected_output);
    println!("=== Actual Output ===");
    println!("{}", stdout);
}

#[test]
fn test_awaited_step_do_passes() {
    let typescript_code = r#"
export class MyWorkflow {
    async run(step: WorkflowStep) {
        await step.do('task-1', async () => {
            return { done: true };
        });

        const result = await step.do('task-2', async () => {
            return { value: 42 };
        });

        await step.sleep('wait', '1 hour');
    }
}
"#;

    let expected_output = r#"
No issues found (1 files checked)
"#;

    let (diags, stdout) = run_lint(typescript_code, "test.ts");

    assert!(
        stdout.contains("No issues found"),
        "Expected no issues for properly awaited code\nActual output:\n{}",
        stdout
    );
    assert!(diags.is_empty());

    println!("=== Input TypeScript ===");
    println!("{}", typescript_code);
    println!("=== Expected Output ==={}", expected_output);
    println!("=== Actual Output ===");
    println!("{}", stdout);
}

#[test]
fn test_unawaited_step_sleep_is_flagged() {
    let typescript_code = r#"
async function workflow(step: WorkflowStep) {
    // This should be flagged - step.sleep() is not awaited
    step.sleep('pause', '30 seconds');
}
"#;

    let expected_output = r#"
:4:5 - `step.sleep` must be awaited. Not awaiting creates a dangling Promise that can cause race conditions and swallowed errors. [await-step]

Found 1 issue(s) in 1 file(s) checked
"#;

    let (diags, stdout) = run_lint(typescript_code, "test.ts");

    assert!(
        stdout.contains(":4:5 - `step.sleep` must be awaited."),
        "Expected line 4, column 5 error for unawaited step.sleep()\nActual output:\n{}",
        stdout
    );
    assert!(
        stdout.contains("Found 1 issue(s)"),
        "Expected exactly 1 issue\nActual output:\n{}",
        stdout
    );
    assert!(!diags.is_empty());

    println!("=== Input TypeScript ===");
    println!("{}", typescript_code);
    println!("=== Expected Output (key parts) ==={}", expected_output);
    println!("=== Actual Output ===");
    println!("{}", stdout);
}

#[test]
fn test_step_promise_awaited_later_passes() {
    let typescript_code = r#"
async function workflow(step: WorkflowStep) {
    const p = step.do('task-1', async () => {
        return { done: true };
    });
    // Some other code
    const x = 1 + 2;
    // Now await the promise
    await p;
}
"#;

    let (diags, stdout) = run_lint(typescript_code, "test.ts");

    assert!(
        stdout.contains("No issues found"),
        "Expected no issues when step promise is awaited later\nActual output:\n{}",
        stdout
    );
    assert!(diags.is_empty());

    println!("=== Input TypeScript ===");
    println!("{}", typescript_code);
    println!("=== Actual Output ===");
    println!("{}", stdout);
}

#[test]
fn test_step_promises_awaited_with_promise_all_passes() {
    let typescript_code = r#"
async function workflow(step: WorkflowStep) {
    const p1 = step.do('task-1', async () => {
        return { done: true };
    });
    const p2 = step.do('task-2', async () => {
        return { done: true };
    });
    const p3 = step.sleep('pause', '1 second');

    await Promise.all([p1, p2, p3]);
}
"#;

    let (diags, stdout) = run_lint(typescript_code, "test.ts");

    assert!(
        stdout.contains("No issues found"),
        "Expected no issues when step promises are awaited via Promise.all\nActual output:\n{}",
        stdout
    );
    assert!(diags.is_empty());

    println!("=== Input TypeScript ===");
    println!("{}", typescript_code);
    println!("=== Actual Output ===");
    println!("{}", stdout);
}

#[test]
fn test_step_promises_awaited_with_promise_race_passes() {
    let typescript_code = r#"
async function workflow(step: WorkflowStep) {
    const p1 = step.do('task-1', async () => {
        return { done: true };
    });
    const p2 = step.do('task-2', async () => {
        return { done: true };
    });

    await Promise.race([p1, p2]);
}
"#;

    let (diags, stdout) = run_lint(typescript_code, "test.ts");

    assert!(
        stdout.contains("No issues found"),
        "Expected no issues when step promises are awaited via Promise.race\nActual output:\n{}",
        stdout
    );
    assert!(diags.is_empty());

    println!("=== Input TypeScript ===");
    println!("{}", typescript_code);
    println!("=== Actual Output ===");
    println!("{}", stdout);
}

#[test]
fn test_step_promises_awaited_with_promise_allsettled_passes() {
    let typescript_code = r#"
async function workflow(step: WorkflowStep) {
    const p1 = step.do('task-1', async () => {
        return { done: true };
    });
    const p2 = step.do('task-2', async () => {
        return { done: true };
    });

    await Promise.allSettled([p1, p2]);
}
"#;

    let (diags, stdout) = run_lint(typescript_code, "test.ts");

    assert!(
        stdout.contains("No issues found"),
        "Expected no issues when step promises are awaited via Promise.allSettled\nActual output:\n{}",
        stdout
    );
    assert!(diags.is_empty());

    println!("=== Input TypeScript ===");
    println!("{}", typescript_code);
    println!("=== Actual Output ===");
    println!("{}", stdout);
}

#[test]
fn test_step_promise_assigned_but_never_awaited_is_flagged() {
    let typescript_code = r#"
async function workflow(step: WorkflowStep) {
    const p = step.do('task-1', async () => {
        return { done: true };
    });
    // p is never awaited!
    const x = 1 + 2;
}
"#;

    let (diags, stdout) = run_lint(typescript_code, "test.ts");

    assert!(
        stdout.contains("`step.do` must be awaited."),
        "Expected error for step promise that is never awaited\nActual output:\n{}",
        stdout
    );
    assert!(
        stdout.contains("Found 1 issue(s)"),
        "Expected exactly 1 issue\nActual output:\n{}",
        stdout
    );
    assert!(!diags.is_empty());

    println!("=== Input TypeScript ===");
    println!("{}", typescript_code);
    println!("=== Actual Output ===");
    println!("{}", stdout);
}

#[test]
fn test_step_calls_directly_in_promise_all_passes() {
    let typescript_code = r#"
async function workflow(step: WorkflowStep) {
    await Promise.all([
        step.sleep("blah", "3 minutes"),
        step.sleep("wait on something", "4 minutes"),
        step.waitForEvent("wait for human approval", {
            timeout: "5 minutes",
            type: "human_approval",
        }),
    ]);
}
"#;

    let (diags, stdout) = run_lint(typescript_code, "test.ts");

    assert!(
        stdout.contains("No issues found"),
        "Expected no issues when step calls are directly in Promise.all\nActual output:\n{}",
        stdout
    );
    assert!(diags.is_empty());

    println!("=== Input TypeScript ===");
    println!("{}", typescript_code);
    println!("=== Actual Output ===");
    println!("{}", stdout);
}

#[test]
fn test_partial_await_only_one_promise_awaited() {
    let typescript_code = r#"
async function workflow(step: WorkflowStep) {
    const p1 = step.do('task-1', async () => {
        return { done: true };
    });
    const p2 = step.do('task-2', async () => {
        return { done: true };
    });
    // Only p1 is awaited
    await p1;
}
"#;

    let (diags, stdout) = run_lint(typescript_code, "test.ts");

    assert!(
        stdout.contains("`step.do` must be awaited."),
        "Expected error for p2 step promise that is never awaited\nActual output:\n{}",
        stdout
    );
    assert!(
        stdout.contains("Found 1 issue(s)"),
        "Expected exactly 1 issue (for p2)\nActual output:\n{}",
        stdout
    );
    assert!(!diags.is_empty());

    println!("=== Input TypeScript ===");
    println!("{}", typescript_code);
    println!("=== Actual Output ===");
    println!("{}", stdout);
}

#[test]
fn test_nested_step_do_in_step_do_is_flagged() {
    let typescript_code = r#"
async function workflow(step: WorkflowStep) {
    await step.do('outer', async () => {
        await step.do('inner', async () => {
            return { done: true };
        });
    });
}
"#;

    let (diags, stdout) = run_lint(typescript_code, "test.ts");

    assert!(
        stdout.contains("nested inside"),
        "Expected nested step error\nActual output:\n{}",
        stdout
    );
    assert!(
        stdout.contains("[nested-step]"),
        "Expected [nested-step] rule name\nActual output:\n{}",
        stdout
    );
    assert!(!diags.is_empty());

    println!("=== Input TypeScript ===");
    println!("{}", typescript_code);
    println!("=== Actual Output ===");
    println!("{}", stdout);
}

#[test]
fn test_nested_step_sleep_in_step_do_is_flagged() {
    let typescript_code = r#"
async function workflow(step: WorkflowStep) {
    await step.do('outer', async () => {
        await step.sleep('wait', '1 second');
    });
}
"#;

    let (diags, stdout) = run_lint(typescript_code, "test.ts");

    assert!(
        stdout.contains("`step.sleep` is nested inside `step.do`"),
        "Expected nested step.sleep error\nActual output:\n{}",
        stdout
    );
    assert!(
        stdout.contains("[nested-step]"),
        "Expected [nested-step] rule name\nActual output:\n{}",
        stdout
    );
    assert!(!diags.is_empty());

    println!("=== Input TypeScript ===");
    println!("{}", typescript_code);
    println!("=== Actual Output ===");
    println!("{}", stdout);
}

#[test]
fn test_nested_step_wait_for_event_in_step_do_is_flagged() {
    let typescript_code = r#"
async function workflow(step: WorkflowStep) {
    await step.do('outer', async () => {
        await step.waitForEvent('event', { timeout: '1 minute' });
    });
}
"#;

    let (diags, stdout) = run_lint(typescript_code, "test.ts");

    assert!(
        stdout.contains("`step.waitForEvent` is nested inside `step.do`"),
        "Expected nested step.waitForEvent error\nActual output:\n{}",
        stdout
    );
    assert!(
        stdout.contains("[nested-step]"),
        "Expected [nested-step] rule name\nActual output:\n{}",
        stdout
    );
    assert!(!diags.is_empty());

    println!("=== Input TypeScript ===");
    println!("{}", typescript_code);
    println!("=== Actual Output ===");
    println!("{}", stdout);
}

#[test]
fn test_nested_step_in_conditional_is_flagged() {
    let typescript_code = r#"
async function workflow(step: WorkflowStep) {
    await step.do('outer', async () => {
        if (someCondition) {
            await step.do('inner', async () => {});
        }
    });
}
"#;

    let (diags, stdout) = run_lint(typescript_code, "test.ts");

    assert!(
        stdout.contains("nested inside"),
        "Expected nested step error even in conditional\nActual output:\n{}",
        stdout
    );
    assert!(
        stdout.contains("[nested-step]"),
        "Expected [nested-step] rule name\nActual output:\n{}",
        stdout
    );
    assert!(!diags.is_empty());

    println!("=== Input TypeScript ===");
    println!("{}", typescript_code);
    println!("=== Actual Output ===");
    println!("{}", stdout);
}

#[test]
fn test_nested_step_in_inline_function_is_flagged() {
    let typescript_code = r#"
async function workflow(step: WorkflowStep) {
    await step.do('outer', async () => {
        const helper = async () => {
            await step.do('inner', async () => {});
        };
        await helper();
    });
}
"#;

    let (diags, stdout) = run_lint(typescript_code, "test.ts");

    assert!(
        stdout.contains("nested inside"),
        "Expected nested step error in inline function\nActual output:\n{}",
        stdout
    );
    assert!(
        stdout.contains("[nested-step]"),
        "Expected [nested-step] rule name\nActual output:\n{}",
        stdout
    );
    assert!(!diags.is_empty());

    println!("=== Input TypeScript ===");
    println!("{}", typescript_code);
    println!("=== Actual Output ===");
    println!("{}", stdout);
}

#[test]
fn test_deeply_nested_step_callbacks_flagged() {
    // Triple nesting: outer -> middle -> inner
    let typescript_code = r#"
async function workflow(step: WorkflowStep) {
    await step.do('outer', async () => {
        await step.do('middle', async () => {
            await step.do('inner', async () => {});
        });
    });
}
"#;

    let (diags, stdout) = run_lint(typescript_code, "test.ts");

    assert!(
        stdout.contains("[nested-step]"),
        "Expected [nested-step] rule name\nActual output:\n{}",
        stdout
    );
    // Count occurrences of "nested inside"
    let nested_count = stdout.matches("nested inside").count();
    assert!(
        nested_count >= 2,
        "Expected at least 2 nested step errors, found {}\nActual output:\n{}",
        nested_count,
        stdout
    );
    assert!(!diags.is_empty());

    println!("=== Input TypeScript ===");
    println!("{}", typescript_code);
    println!("=== Actual Output ===");
    println!("{}", stdout);
}

#[test]
fn test_sequential_steps_pass() {
    let typescript_code = r#"
async function workflow(step: WorkflowStep) {
    await step.do('first', async () => {
        return { done: true };
    });
    await step.sleep('wait', '1 second');
    await step.do('second', async () => {
        return { done: true };
    });
}
"#;

    let (diags, stdout) = run_lint(typescript_code, "test.ts");

    assert!(
        stdout.contains("No issues found"),
        "Expected no issues for sequential steps\nActual output:\n{}",
        stdout
    );
    assert!(diags.is_empty());

    println!("=== Input TypeScript ===");
    println!("{}", typescript_code);
    println!("=== Actual Output ===");
    println!("{}", stdout);
}

#[test]
fn test_step_sleep_outside_callback_passes() {
    let typescript_code = r#"
async function workflow(step: WorkflowStep) {
    await step.sleep('wait', '1 second');
    await step.waitForEvent('event', { timeout: '1 minute' });
}
"#;

    let (diags, stdout) = run_lint(typescript_code, "test.ts");

    assert!(
        stdout.contains("No issues found"),
        "Expected no issues for steps outside callbacks\nActual output:\n{}",
        stdout
    );
    assert!(diags.is_empty());

    println!("=== Input TypeScript ===");
    println!("{}", typescript_code);
    println!("=== Actual Output ===");
    println!("{}", stdout);
}

#[test]
fn test_unrelated_step_object_not_flagged() {
    // This should NOT be flagged - "step" is just a regular object
    let typescript_code = r#"
const step = {
    do: async (name: string, fn: () => void) => { fn(); },
    sleep: async (name: string, duration: string) => {}
};

async function someFunction() {
    // These should NOT trigger errors - step is not a WorkflowStep
    step.do('task', async () => {});
    step.sleep('wait', '1 second');
}
"#;

    let (diags, stdout) = run_lint(typescript_code, "test.ts");

    assert!(
        stdout.contains("No issues found"),
        "Expected no issues for unrelated 'step' object\nActual output:\n{}",
        stdout
    );
    assert!(diags.is_empty());

    println!("=== Input TypeScript ===");
    println!("{}", typescript_code);
    println!("=== Actual Output ===");
    println!("{}", stdout);
}

#[test]
fn test_javascript_workflow_entrypoint_class_detected() {
    // JavaScript file (no type annotations) with class extending WorkflowEntrypoint
    let javascript_code = r#"
import { WorkflowEntrypoint } from "cloudflare:workers";

export class MyWorkflow extends WorkflowEntrypoint {
    async run(event, step) {
        // This should be flagged - step.do() is not awaited
        step.do('task', async () => {});
    }
}
"#;

    let (diags, stdout) = run_lint(javascript_code, "test.js");

    assert!(
        stdout.contains("`step.do` must be awaited."),
        "Expected error for unawaited step.do() in JS workflow\nActual output:\n{}",
        stdout
    );
    assert!(
        stdout.contains("[await-step]"),
        "Expected [await-step] rule name\nActual output:\n{}",
        stdout
    );
    assert!(!diags.is_empty());

    println!("=== Input JavaScript ===");
    println!("{}", javascript_code);
    println!("=== Actual Output ===");
    println!("{}", stdout);
}

#[test]
fn test_javascript_workflow_entrypoint_awaited_passes() {
    let javascript_code = r#"
import { WorkflowEntrypoint } from "cloudflare:workers";

export class MyWorkflow extends WorkflowEntrypoint {
    async run(event, step) {
        await step.do('task', async () => {});
        await step.sleep('wait', '1 second');
    }
}
"#;

    let (diags, stdout) = run_lint(javascript_code, "test.js");

    assert!(
        stdout.contains("No issues found"),
        "Expected no issues for properly awaited JS workflow\nActual output:\n{}",
        stdout
    );
    assert!(diags.is_empty());

    println!("=== Input JavaScript ===");
    println!("{}", javascript_code);
    println!("=== Actual Output ===");
    println!("{}", stdout);
}

#[test]
fn test_different_type_name_not_flagged() {
    // If the type annotation is not literally "WorkflowStep", it should NOT be flagged
    let typescript_code = r#"
type WS = {
    do(name: string, fn: () => void): Promise<void>;
    sleep(name: string, duration: string): Promise<void>;
};

async function workflow(step: WS) {
    // This should NOT be flagged - type is "WS", not "WorkflowStep"
    step.do('task', async () => {});
}
"#;

    let (diags, stdout) = run_lint(typescript_code, "test.ts");

    assert!(
        stdout.contains("No issues found"),
        "Expected no issues when type is not 'WorkflowStep'\nActual output:\n{}",
        stdout
    );
    assert!(diags.is_empty());

    println!("=== Input TypeScript ===");
    println!("{}", typescript_code);
    println!("=== Actual Output ===");
    println!("{}", stdout);
}

#[test]
fn test_sleep_in_do_exactly_one_nested_and_no_await_step() {
    // Awaited sleep inside an awaited do callback: exactly one
    // nested-step diagnostic and no await-step diagnostic.
    let typescript_code = r#"
async function workflow(step: WorkflowStep) {
    await step.do('outer', async () => { await step.sleep('w', '1s'); });
}
"#;

    let (diags, _stdout) = run_lint(typescript_code, "test.ts");

    assert_eq!(diags.len(), 1);
    assert_eq!(diags[0].rule.as_str(), "nested-step");
}

#[test]
fn test_triple_nesting_exactly_two_nested() {
    // Each nested level reports itself once against its innermost
    // enclosing callback: the middle and inner calls, so exactly two.
    let typescript_code = r#"
async function workflow(step: WorkflowStep) {
    await step.do('outer', async () => {
        await step.do('middle', async () => {
            await step.do('inner', async () => {});
        });
    });
}
"#;

    let (diags, _stdout) = run_lint(typescript_code, "test.ts");

    let nested: Vec<_> = diags.iter().filter(|d| d.rule.as_str() == "nested-step").collect();
    assert_eq!(nested.len(), 2);
    assert!(diags.iter().all(|d| d.rule.as_str() == "nested-step"));
}

#[test]
fn test_expression_bodied_arrow_has_own_scope() {
    // An expression-bodied arrow tracks the step call it returns in a
    // scope of its own, so the bare call is reported there even though
    // the arrow itself is never called.
    let typescript_code = r#"
async function workflow(step: WorkflowStep) {
    const f = async () => step.do('x', async () => {});
    await f();
}
"#;

    let (diags, stdout) = run_lint(typescript_code, "test.ts");

    assert_eq!(diags.len(), 1, "Actual output:\n{}", stdout);
    assert_eq!(diags[0].rule.as_str(), "await-step");
}

#[test]
fn test_redeclared_variable_superseded_span_not_reported() {
    // Redeclaring a variable overwrites only the variable-to-span
    // mapping: awaiting the variable afterwards settles the newest
    // call, and the superseded call is not diagnosed.
    let typescript_code = r#"
async function workflow(step: WorkflowStep) {
    var p = step.do('a', async () => {});
    var p = step.do('b', async () => {});
    await p;
}
"#;

    let (diags, stdout) = run_lint(typescript_code, "test.ts");

    assert!(diags.is_empty(), "Actual output:\n{}", stdout);
}

#[test]
fn test_destructured_step_call_reported_as_bare() {
    // A step-call initializer under a destructuring pattern falls
    // through to ordinary handling: it is reported as an unawaited
    // bare call.
    let typescript_code = r#"
async function workflow(step: WorkflowStep) {
    const { result } = step.do('x', async () => { return { result: 1 }; });
}
"#;

    let (diags, stdout) = run_lint(typescript_code, "test.ts");

    assert_eq!(diags.len(), 1, "Actual output:\n{}", stdout);
    assert_eq!(diags[0].rule.as_str(), "await-step");
}

#[test]
fn test_await_parenthesized_step_call_passes() {
    // The awaited flag passes through parentheses.
    let typescript_code = r#"
async function workflow(step: WorkflowStep) {
    await (step.sleep('w', '1s'));
}
"#;

    let (diags, stdout) = run_lint(typescript_code, "test.ts");

    assert!(diags.is_empty(), "Actual output:\n{}", stdout);
}

#[test]
fn test_sleep_until_is_a_step_method() {
    let typescript_code = r#"
async function workflow(step: WorkflowStep) {
    step.sleepUntil('later', someDate);
}
"#;

    let (diags, stdout) = run_lint(typescript_code, "test.ts");

    assert_eq!(diags.len(), 1, "Actual output:\n{}", stdout);
    assert!(diags[0].message.as_str().contains("`step.sleepUntil` must be awaited."));
}

#[test]
fn test_static_block_is_its_own_scope() {
    // A class static block is function-like: a bare step call inside
    // it is tracked and reported in the block's own scope.
    let typescript_code = r#"
async function workflow(step: WorkflowStep) {
    class Helper {
        static {
            step.do('init', async () => {});
        }
    }
}
"#;

    let (diags, stdout) = run_lint(typescript_code, "test.ts");

    assert_eq!(diags.len(), 1, "Actual output:\n{}", stdout);
    assert_eq!(diags[0].rule.as_str(), "await-step");
}

#[test]
fn test_defaulted_step_parameter_not_classified() {
    // A defaulted parameter is not one plain bound name, so it is not
    // classified even under the step type's name.
    let typescript_code = r#"
async function workflow(step: WorkflowStep = fallback) {
    step.do('task', async () => {});
}
"#;

    let (diags, stdout) = run_lint(typescript_code, "test.ts");

    assert!(diags.is_empty(), "Actual output:\n{}", stdout);
}

#[test]
fn test_renamed_entrypoint_import_detected() {
    // A renamed import of the base class still drives the inference
    // path.
    let javascript_code = r#"
import { WorkflowEntrypoint as Base } from "cloudflare:workers";

export class MyWorkflow extends Base {
    async run(event, step) {
        step.sleep('wait', '1 second');
    }
}
"#;

    let (diags, stdout) = run_lint(javascript_code, "test.js");

    assert_eq!(diags.len(), 1, "Actual output:\n{}", stdout);
    assert_eq!(diags[0].rule.as_str(), "await-step");
}

#[test]
fn test_workflow_step_type_always_detected() {
    // Any parameter typed as "WorkflowStep" is detected, wherever the
    // type is defined: the detection is by literal name.
    let typescript_code = r#"
// Even with a local interface, if it's named WorkflowStep, it will be detected
// This is intentional - we trust that "WorkflowStep" means the Cloudflare Workflows type
interface WorkflowStep {
    do(name: string, fn: () => void): Promise<void>;
    sleep(name: string, duration: string): Promise<void>;
}

async function workflow(step: WorkflowStep) {
    // This WILL be flagged because the type is named "WorkflowStep"
    step.do('task', async () => {});
}
"#;

    let (diags, stdout) = run_lint(typescript_code, "test.ts");

    assert!(
        stdout.contains("`step.do` must be awaited."),
        "Expected error for unawaited step.do() with WorkflowStep type\nActual output:\n{}",
        stdout
    );
    assert!(!diags.is_empty());

    println!("=== Input TypeScript ===");
    println!("{}", typescript_code);
    println!("=== Actual Output ===");
    println!("{}", stdout);
}
