//! The executable traversal. It mirrors the specification walk node
//! for node: every method's contract states that it performs exactly
//! the transition the specification walker describes.

use vstd::prelude::*;

use crate::ast::{Arg, ArrayElem, Class, ClassElement, Decl, Declarator, Expr, Pattern, Program, Prop, Span, Stmt};
use crate::diagnostics::{make_await_msg, make_nested_msg, LintDiagnostic};
use crate::state::{
    rendered_drain, st_add_diag, st_mark_span, st_mark_var, st_pop_callback, st_pop_report,
    st_push_callback, st_push_tracker, st_record_assigned, st_record_unassigned, state_init, CtxV,
    StateV,
};
use crate::symbols::{build_workflow_step_symbols, syms_all, WorkflowStepSymbols};
use crate::tracker::{names_view, tracker_drained, StepPromiseTracker};
use crate::text::str_eq;
use crate::walk::{
    array_idents, await_effect, is_promise_combinator, is_step_call, is_step_do,
    lint_spec, mark_vars, step_method_name, walk_array_elems, walk_call_args,
    walk_cases, walk_class, walk_class_elems, walk_decl, walk_declarator, walk_declarators,
    walk_do_args, walk_expr, walk_fn_body, walk_new_args, walk_program, walk_props, walk_seq_exprs,
    walk_stmt, walk_stmts, walk_template,
};

verus! {

/// One traversal over one file: the accumulated diagnostics, the
/// stack of per-scope promise trackers, and the stack of enclosing
/// step-callback names.
pub struct Linter {
    pub source: String,
    pub file_path: String,
    pub diagnostics: Vec<LintDiagnostic>,
    pub tracker_stack: Vec<StepPromiseTracker>,
    pub step_callback_stack: Vec<String>,
    pub workflow_step_symbols: WorkflowStepSymbols,
}

impl Linter {
    /// The changing part of the linter as the specification walker
    /// sees it.
    pub open spec fn st(&self) -> StateV {
        StateV {
            diags: self.diagnostics@.map_values(|d: LintDiagnostic| d@),
            trackers: self.tracker_stack@.map_values(|t: StepPromiseTracker| t@),
            callbacks: self.step_callback_stack@.map_values(|s: String| s@),
        }
    }

    /// The fixed part: file name, source text, and step identities.
    pub open spec fn ctx(&self) -> CtxV {
        CtxV {
            file: self.file_path@,
            src: self.source@,
            steps: syms_all(self.workflow_step_symbols@),
        }
    }

    /// The source text fits the machine's index range.
    pub open spec fn wf(&self) -> bool {
        self.source@.len() < usize::MAX
    }

    /// A fresh traversal over one file.
    pub fn new(source: &str, file_path: &str, workflow_step_symbols: WorkflowStepSymbols) -> (r:
        Self)
        requires
            source@.len() < usize::MAX,
        ensures
            r.st() == state_init(),
            r.ctx() == (CtxV {
                file: file_path@,
                src: source@,
                steps: syms_all(workflow_step_symbols@),
            }),
            r.wf(),
    {
        let r = Linter {
            source: String::from_str(source),
            file_path: String::from_str(file_path),
            diagnostics: Vec::new(),
            tracker_stack: Vec::new(),
            step_callback_stack: Vec::new(),
            workflow_step_symbols,
        };
        proof {
            assert(r.st() =~= state_init());
        }
        r
    }

    /// Opens a scope: pushes a fresh tracker.
    pub fn push_tracker(&mut self)
        ensures
            final(self).st() == st_push_tracker(old(self).st()),
            final(self).ctx() == old(self).ctx(),
    {
        self.tracker_stack.push(StepPromiseTracker::new());
        proof {
            assert(self.st() =~= st_push_tracker(old(self).st()));
        }
    }

    /// Closes a scope: drains the top tracker into diagnostics, one
    /// per step call that was never awaited.
    #[verifier::loop_isolation(false)]
    pub fn pop_tracker_and_report(&mut self)
        requires
            old(self).wf(),
        ensures
            final(self).st() == st_pop_report(old(self).ctx(), old(self).st()),
            final(self).ctx() == old(self).ctx(),
    {
        if self.tracker_stack.len() == 0 {
            return ;
        }
        let tracker = match self.tracker_stack.pop() {
            Some(t) => t,
            None => {
                return ;
            },
        };
        let unawaited = tracker.get_unawaited_steps();
        let ghost items = tracker_drained(tracker@);
        let ghost ctx = old(self).ctx();
        let ghost diags0 = self.st().diags;
        proof {
            assert(items.take(0) =~= Seq::<(Span, Seq<char>)>::empty());
            assert(rendered_drain(ctx, items.take(0)) =~= Seq::<crate::diagnostics::DiagV>::empty());
            assert(diags0 + rendered_drain(ctx, items.take(0)) =~= diags0);
        }
        let mut i: usize = 0;
        while i < unawaited.len()
            invariant
                i <= unawaited.len(),
                items.len() == unawaited.len(),
                names_view(unawaited@) == items,
                self.st().diags == diags0 + rendered_drain(ctx, items.take(i as int)),
                self.st().trackers == old(self).st().trackers.drop_last(),
                self.st().callbacks == old(self).st().callbacks,
                self.ctx() == old(self).ctx(),
                self.wf(),
            decreases unawaited.len() - i,
        {
            let span = unawaited[i].0;
            let name = &unawaited[i].1;
            proof {
                assert(items[i as int] == (unawaited@[i as int].0, unawaited@[i as int].1@));
            }
            let message = make_await_msg(name.as_str());
            let d = LintDiagnostic::new(
                self.file_path.as_str(),
                self.source.as_str(),
                span,
                message.as_str(),
                "await-step",
            );
            let ghost dprev = self.st().diags;
            self.diagnostics.push(d);
            proof {
                assert(self.st().diags =~= dprev.push(d@));
                assert(items.take(i + 1).drop_last() =~= items.take(i as int));
                assert(rendered_drain(ctx, items.take(i + 1)) =~= rendered_drain(
                    ctx,
                    items.take(i as int),
                ).push(crate::state::render_unawaited(ctx, items[i as int])));
                assert(self.st().diags =~= diags0 + rendered_drain(ctx, items.take(i + 1)));
            }
            i = i + 1;
        }
        proof {
            assert(items.take(items.len() as int) =~= items);
            assert(self.st() =~= st_pop_report(ctx, old(self).st()));
        }
    }

    /// Enters a step-callback argument.
    fn push_callback(&mut self, method: &str)
        ensures
            final(self).st() == st_push_callback(old(self).st(), method@),
            final(self).ctx() == old(self).ctx(),
    {
        self.step_callback_stack.push(String::from_str(method));
        proof {
            assert(self.st() =~= st_push_callback(old(self).st(), method@));
        }
    }

    /// Leaves a step-callback argument.
    fn pop_callback(&mut self)
        ensures
            final(self).st() == st_pop_callback(old(self).st()),
            final(self).ctx() == old(self).ctx(),
    {
        if self.step_callback_stack.len() > 0 {
            self.step_callback_stack.pop();
            proof {
                assert(self.st() =~= st_pop_callback(old(self).st()));
            }
        } else {
            proof {
                assert(self.st() =~= st_pop_callback(old(self).st()));
            }
        }
    }

    /// Marks a variable's step call awaited in the current scope.
    fn mark_var_top(&mut self, name: &str)
        ensures
            final(self).st() == st_mark_var(old(self).st(), name@),
            final(self).ctx() == old(self).ctx(),
    {
        if self.tracker_stack.len() > 0 {
            let mut t = match self.tracker_stack.pop() {
                Some(t) => t,
                None => {
                    return ;
                },
            };
            t.mark_awaited_by_var(name);
            self.tracker_stack.push(t);
            proof {
                assert(self.st() =~= st_mark_var(old(self).st(), name@));
            }
        } else {
            proof {
                assert(self.st() =~= st_mark_var(old(self).st(), name@));
            }
        }
    }

    /// Marks a step-call span awaited in the current scope.
    fn mark_span_top(&mut self, span: Span)
        ensures
            final(self).st() == st_mark_span(old(self).st(), span),
            final(self).ctx() == old(self).ctx(),
    {
        if self.tracker_stack.len() > 0 {
            let mut t = match self.tracker_stack.pop() {
                Some(t) => t,
                None => {
                    return ;
                },
            };
            t.mark_awaited_by_span(span);
            self.tracker_stack.push(t);
            proof {
                assert(self.st() =~= st_mark_span(old(self).st(), span));
            }
        } else {
            proof {
                assert(self.st() =~= st_mark_span(old(self).st(), span));
            }
        }
    }

    /// Records a bare unawaited step call in the current scope.
    fn record_unassigned_top(&mut self, span: Span, name: String)
        ensures
            final(self).st() == st_record_unassigned(old(self).st(), span, name@),
            final(self).ctx() == old(self).ctx(),
    {
        if self.tracker_stack.len() > 0 {
            let mut t = match self.tracker_stack.pop() {
                Some(t) => t,
                None => {
                    return ;
                },
            };
            t.record_unassigned_unawaited_step(span, name);
            self.tracker_stack.push(t);
            proof {
                assert(self.st() =~= st_record_unassigned(old(self).st(), span, name@));
            }
        } else {
            proof {
                assert(self.st() =~= st_record_unassigned(old(self).st(), span, name@));
            }
        }
    }

    /// Records an assigned step call in the current scope.
    fn record_assigned_top(&mut self, var_name: &str, span: Span, name: String)
        ensures
            final(self).st() == st_record_assigned(old(self).st(), var_name@, span, name@),
            final(self).ctx() == old(self).ctx(),
    {
        if self.tracker_stack.len() > 0 {
            let mut t = match self.tracker_stack.pop() {
                Some(t) => t,
                None => {
                    return ;
                },
            };
            t.record_assigned_step(var_name, span, name);
            self.tracker_stack.push(t);
            proof {
                assert(self.st() =~= st_record_assigned(old(self).st(), var_name@, span, name@));
            }
        } else {
            proof {
                assert(self.st() =~= st_record_assigned(old(self).st(), var_name@, span, name@));
            }
        }
    }

    /// Whether a callee is a step method call, by method name and the
    /// qualifier's classified identity.
    pub fn is_step_method_call(&self, callee: &Expr) -> (r: bool)
        ensures
            r == is_step_call(self.ctx(), *callee),
    {
        match callee {
            Expr::StaticMember { object, property } => match &**object {
                Expr::Ident { name: _, sym } => {
                    let named = str_eq(property.as_str(), "do") || str_eq(
                        property.as_str(),
                        "sleep",
                    ) || str_eq(property.as_str(), "waitForEvent") || str_eq(
                        property.as_str(),
                        "sleepUntil",
                    );
                    if named {
                        match sym {
                            Some(s) => self.workflow_step_symbols.contains(*s),
                            None => false,
                        }
                    } else {
                        false
                    }
                },
                _ => false,
            },
            _ => false,
        }
    }

    /// Whether a callee is specifically a step `do` call.
    pub fn is_step_do_call(&self, callee: &Expr) -> (r: bool)
        ensures
            r == is_step_do(self.ctx(), *callee),
    {
        match callee {
            Expr::StaticMember { object, property } => match &**object {
                Expr::Ident { name: _, sym } => {
                    if str_eq(property.as_str(), "do") {
                        match sym {
                            Some(s) => self.workflow_step_symbols.contains(*s),
                            None => false,
                        }
                    } else {
                        false
                    }
                },
                _ => false,
            },
            _ => false,
        }
    }

    /// The reporting name of a step call: `qualifier.method`, the
    /// qualifier defaulting to `step`.
    pub fn get_step_method_name(&self, callee: &Expr) -> (r: String)
        ensures
            r@ == step_method_name(*callee),
    {
        match callee {
            Expr::StaticMember { object, property } => match &**object {
                Expr::Ident { name, .. } => {
                    let mut r = name.clone();
                    r.append(".");
                    r.append(property.as_str());
                    proof {
                        assert(r@ =~= step_method_name(*callee));
                    }
                    r
                },
                _ => {
                    let mut r = String::from_str("step.");
                    r.append(property.as_str());
                    proof {
                        assert(r@ =~= step_method_name(*callee));
                    }
                    r
                },
            },
            _ => String::from_str("step.do"),
        }
    }

    /// Whether a callee is a promise-combinator call, by literal name.
    pub fn is_promise_combinator_call(&self, callee: &Expr) -> (r: bool)
        ensures
            r == is_promise_combinator(*callee),
    {
        match callee {
            Expr::StaticMember { object, property } => {
                let named = str_eq(property.as_str(), "all") || str_eq(property.as_str(), "race")
                    || str_eq(property.as_str(), "allSettled") || str_eq(property.as_str(), "any");
                if named {
                    match &**object {
                        Expr::Ident { name, .. } => str_eq(name.as_str(), "Promise"),
                        _ => false,
                    }
                } else {
                    false
                }
            },
            _ => false,
        }
    }

    /// The names of the bare identifier elements of an array literal.
    #[verifier::loop_isolation(false)]
    pub fn extract_identifiers_from_array(&self, elems: &Vec<ArrayElem>) -> (r: Vec<String>)
        ensures
            r@.map_values(|s: String| s@) == array_idents(elems@),
    {
        let mut identifiers: Vec<String> = Vec::new();
        let ghost es = elems@;
        let mut i: usize = 0;
        proof {
            assert(es.skip(0) =~= es);
            assert(identifiers@.map_values(|s: String| s@) =~= Seq::<Seq<char>>::empty());
        }
        while i < elems.len()
            invariant
                i <= elems.len(),
                identifiers@.map_values(|s: String| s@) + array_idents(es.skip(i as int))
                    == array_idents(es),
            decreases elems.len() - i,
        {
            proof {
                assert(es.skip(i as int)[0] == es[i as int]);
                assert(es.skip(i as int).drop_first() =~= es.skip(i + 1));
            }
            match &elems[i] {
                ArrayElem::Plain(Expr::Ident { name, .. }) => {
                    let ghost prev = identifiers@;
                    identifiers.push(name.clone());
                    proof {
                        assert(identifiers@.map_values(|s: String| s@) =~= prev.map_values(
                            |s: String| s@,
                        ) + seq![name@]);
                        assert(identifiers@.map_values(|s: String| s@) + array_idents(
                            es.skip(i + 1),
                        ) =~= array_idents(es));
                    }
                },
                _ => {},
            }
            i = i + 1;
        }
        proof {
            assert(es.skip(es.len() as int) =~= Seq::<ArrayElem>::empty());
            assert(identifiers@.map_values(|s: String| s@) + Seq::<Seq<char>>::empty()
                =~= identifiers@.map_values(|s: String| s@));
        }
        identifiers
    }

    /// The side effect of an `await` on the current tracker: a bare
    /// identifier or the bare identifier elements of a combinator's
    /// array argument are marked awaited.
    #[verifier::loop_isolation(false)]
    pub fn handle_await_expression(&mut self, arg: &Expr)
        ensures
            final(self).st() == await_effect(old(self).st(), *arg),
            final(self).ctx() == old(self).ctx(),
    {
        match arg {
            Expr::Ident { name, .. } => {
                self.mark_var_top(name.as_str());
            },
            Expr::Call { callee, args, .. } => {
                if self.is_promise_combinator_call(callee) && args.len() > 0 {
                    match &args[0] {
                        Arg::Plain(Expr::Array(elems)) => {
                            let identifiers = self.extract_identifiers_from_array(elems);
                            let ghost names = array_idents(elems@);
                            let ghost st0 = self.st();
                            proof {
                                assert(names.skip(0) =~= names);
                            }
                            let mut i: usize = 0;
                            while i < identifiers.len()
                                invariant
                                    i <= identifiers.len(),
                                    names.len() == identifiers.len(),
                                    mark_vars(self.st(), names.skip(i as int)) == mark_vars(
                                        st0,
                                        names,
                                    ),
                                    self.ctx() == old(self).ctx(),
                                    self.wf() == old(self).wf(),
                                decreases identifiers.len() - i,
                            {
                                proof {
                                    assert(names.skip(i as int)[0] == names[i as int]);
                                    assert(names.skip(i as int).drop_first() =~= names.skip(i + 1));
                                    assert(names[i as int] == identifiers@[i as int]@);
                                }
                                self.mark_var_top(identifiers[i].as_str());
                                i = i + 1;
                            }
                            proof {
                                assert(names.skip(names.len() as int) =~= Seq::<Seq<char>>::empty());
                            }
                        },
                        _ => {},
                    }
                }
            },
            _ => {},
        }
    }

    /// Hands back everything the traversal found, in traversal order.
    pub fn into_diagnostics(self) -> (r: Vec<LintDiagnostic>)
        ensures
            r@.map_values(|d: LintDiagnostic| d@) == self.st().diags,
    {
        self.diagnostics
    }
}

impl Linter {
    /// Walks a statement list left to right.
    #[verifier::loop_isolation(false)]
    pub fn lint_statements(&mut self, stmts: &Vec<Stmt>)
        requires
            old(self).wf(),
        ensures
            final(self).st() == walk_stmts(old(self).ctx(), old(self).st(), stmts@),
            final(self).ctx() == old(self).ctx(),
        decreases stmts@,
    {
        let ghost ctx = self.ctx();
        let ghost st0 = self.st();
        let ghost ss = stmts@;
        proof {
            assert(ss.skip(0) =~= ss);
        }
        let mut i: usize = 0;
        while i < stmts.len()
            invariant
                i <= stmts.len(),
                walk_stmts(ctx, self.st(), ss.skip(i as int)) == walk_stmts(ctx, st0, ss),
                self.ctx() == ctx,
                self.wf(),
            decreases stmts.len() - i,
        {
            proof {
                assert(ss.skip(i as int)[0] == ss[i as int]);
                assert(ss.skip(i as int).drop_first() =~= ss.skip(i + 1));
                assert(decreases_to!(ss => ss[i as int]));
            }
            self.lint_statement(&stmts[i]);
            i = i + 1;
        }
        proof {
            assert(ss.skip(ss.len() as int) =~= Seq::<Stmt>::empty());
        }
    }

    /// Walks one statement. Statement position never makes an
    /// expression awaited.
    #[verifier::loop_isolation(false)]
    pub fn lint_statement(&mut self, stmt: &Stmt)
        requires
            old(self).wf(),
        ensures
            final(self).st() == walk_stmt(old(self).ctx(), old(self).st(), *stmt),
            final(self).ctx() == old(self).ctx(),
        decreases *stmt,
    {
        let ghost ctx = self.ctx();
        let ghost st0 = self.st();
        match stmt {
            Stmt::Expr(e) => {
                proof {
                    assert(decreases_to!(*stmt => *e));
                }
                self.lint_expression(e, false);
            },
            Stmt::Var(decls) => {
                proof {
                    assert(decreases_to!(*stmt => *decls));
                    assert(decreases_to!(*decls => decls@));
                }
                self.lint_variable_declaration(decls);
            },
            Stmt::Func(f) => {
                proof {
                    assert(decreases_to!(*stmt => *f));
                    assert(decreases_to!(*f => f.body));
                }
                self.lint_function_body(&f.body);
            },
            Stmt::Class(c) => {
                proof {
                    assert(decreases_to!(*stmt => *c));
                }
                self.lint_class(c);
            },
            Stmt::Block(b) => {
                proof {
                    assert(decreases_to!(*stmt => *b));
                    assert(decreases_to!(*b => b@));
                }
                self.lint_statements(b);
            },
            Stmt::If { test, consequent, alternate } => {
                proof {
                    assert(decreases_to!(*stmt => *test));
                    assert(decreases_to!(*stmt => *consequent));
                }
                self.lint_expression(test, false);
                self.lint_statement(consequent);
                match alternate {
                    Some(alt) => {
                        proof {
                            assert(decreases_to!(*stmt => *alternate));
                            assert(decreases_to!(*alternate => *alt));
                        }
                        self.lint_statement(alt);
                    },
                    None => {},
                }
            },
            Stmt::While { test, body } => {
                proof {
                    assert(decreases_to!(*stmt => *test));
                    assert(decreases_to!(*stmt => *body));
                }
                self.lint_expression(test, false);
                self.lint_statement(body);
            },
            Stmt::For { init, body } => {
                match init {
                    Some(decls) => {
                        proof {
                            assert(decreases_to!(*stmt => *init));
                            assert(decreases_to!(*init => *decls));
                            assert(decreases_to!(*decls => decls@));
                        }
                        self.lint_variable_declaration(decls);
                    },
                    None => {},
                }
                proof {
                    assert(decreases_to!(*stmt => *body));
                }
                self.lint_statement(body);
            },
            Stmt::ForIn { body } => {
                proof {
                    assert(decreases_to!(*stmt => *body));
                }
                self.lint_statement(body);
            },
            Stmt::ForOf { right, body } => {
                proof {
                    assert(decreases_to!(*stmt => *right));
                    assert(decreases_to!(*stmt => *body));
                }
                self.lint_expression(right, false);
                self.lint_statement(body);
            },
            Stmt::Return(arg) => {
                match arg {
                    Some(e) => {
                        proof {
                            assert(decreases_to!(*stmt => *arg));
                            assert(decreases_to!(*arg => *e));
                        }
                        self.lint_expression(e, false);
                    },
                    None => {},
                }
            },
            Stmt::Try { block, handler, finalizer } => {
                proof {
                    assert(decreases_to!(*stmt => *block));
                    assert(decreases_to!(*block => block@));
                }
                self.lint_statements(block);
                match handler {
                    Some(h) => {
                        proof {
                            assert(decreases_to!(*stmt => *handler));
                            assert(decreases_to!(*handler => *h));
                            assert(decreases_to!(*h => h@));
                        }
                        self.lint_statements(h);
                    },
                    None => {},
                }
                match finalizer {
                    Some(f) => {
                        proof {
                            assert(decreases_to!(*stmt => *finalizer));
                            assert(decreases_to!(*finalizer => *f));
                            assert(decreases_to!(*f => f@));
                        }
                        self.lint_statements(f);
                    },
                    None => {},
                }
            },
            Stmt::Switch { discriminant, cases } => {
                proof {
                    assert(decreases_to!(*stmt => *discriminant));
                }
                self.lint_expression(discriminant, false);
                let ghost cs = cases@;
                let ghost st1 = self.st();
                proof {
                    assert(cs.skip(0) =~= cs);
                }
                let mut i: usize = 0;
                while i < cases.len()
                    invariant
                        i <= cases.len(),
                        walk_cases(ctx, self.st(), cs.skip(i as int)) == walk_cases(ctx, st1, cs),
                        self.ctx() == ctx,
                        self.wf(),
                    decreases cases.len() - i,
                {
                    proof {
                        assert(cs.skip(i as int)[0] == cs[i as int]);
                        assert(cs.skip(i as int).drop_first() =~= cs.skip(i + 1));
                        assert(decreases_to!(*stmt => *cases));
                        assert(decreases_to!(*cases => cs));
                        assert(decreases_to!(cs => cs[i as int]));
                        assert(decreases_to!(cs[i as int] => cs[i as int]@));
                    }
                    self.lint_statements(&cases[i]);
                    i = i + 1;
                }
                proof {
                    assert(cs.skip(cs.len() as int) =~= Seq::<Vec<Stmt>>::empty());
                }
            },
            Stmt::ExportDefaultFunc(f) => {
                proof {
                    assert(decreases_to!(*stmt => *f));
                    assert(decreases_to!(*f => f.body));
                }
                self.lint_function_body(&f.body);
            },
            Stmt::ExportDefaultClass(c) => {
                proof {
                    assert(decreases_to!(*stmt => *c));
                }
                self.lint_class(c);
            },
            Stmt::ExportDefaultExpr(e) => {
                proof {
                    assert(decreases_to!(*stmt => *e));
                }
                self.lint_expression(e, false);
            },
            Stmt::ExportNamed(d) => {
                match d {
                    Some(decl) => {
                        proof {
                            assert(decreases_to!(*stmt => *d));
                            assert(decreases_to!(*d => *decl));
                        }
                        self.lint_declaration(decl);
                    },
                    None => {},
                }
            },
            _ => {},
        }
    }

    /// Walks an exported declaration.
    pub fn lint_declaration(&mut self, decl: &Decl)
        requires
            old(self).wf(),
        ensures
            final(self).st() == walk_decl(old(self).ctx(), old(self).st(), *decl),
            final(self).ctx() == old(self).ctx(),
        decreases *decl,
    {
        match decl {
            Decl::Func(f) => {
                proof {
                    assert(decreases_to!(*decl => *f));
                    assert(decreases_to!(*f => f.body));
                }
                self.lint_function_body(&f.body);
            },
            Decl::Class(c) => {
                proof {
                    assert(decreases_to!(*decl => *c));
                }
                self.lint_class(c);
            },
            Decl::Var(decls) => {
                proof {
                    assert(decreases_to!(*decl => *decls));
                    assert(decreases_to!(*decls => decls@));
                }
                self.lint_variable_declaration(decls);
            },
            Decl::Other => {},
        }
    }

    /// Walks a declarator list left to right.
    #[verifier::loop_isolation(false)]
    pub fn lint_variable_declaration(&mut self, decls: &Vec<Declarator>)
        requires
            old(self).wf(),
        ensures
            final(self).st() == walk_declarators(old(self).ctx(), old(self).st(), decls@),
            final(self).ctx() == old(self).ctx(),
        decreases decls@,
    {
        let ghost ctx = self.ctx();
        let ghost st0 = self.st();
        let ghost ds = decls@;
        proof {
            assert(ds.skip(0) =~= ds);
        }
        let mut i: usize = 0;
        while i < decls.len()
            invariant
                i <= decls.len(),
                walk_declarators(ctx, self.st(), ds.skip(i as int)) == walk_declarators(
                    ctx,
                    st0,
                    ds,
                ),
                self.ctx() == ctx,
                self.wf(),
            decreases decls.len() - i,
        {
            proof {
                assert(ds.skip(i as int)[0] == ds[i as int]);
                assert(ds.skip(i as int).drop_first() =~= ds.skip(i + 1));
                assert(decreases_to!(ds => ds[i as int]));
            }
            self.lint_declarator(&decls[i]);
            i = i + 1;
        }
        proof {
            assert(ds.skip(ds.len() as int) =~= Seq::<Declarator>::empty());
        }
    }

    /// Walks one declarator. A step-call initializer bound to one
    /// plain name is recorded as assigned and only its arguments are
    /// linted; any other initializer is an ordinary unawaited
    /// expression.
    fn lint_declarator(&mut self, d: &Declarator)
        requires
            old(self).wf(),
        ensures
            final(self).st() == walk_declarator(old(self).ctx(), old(self).st(), *d),
            final(self).ctx() == old(self).ctx(),
        decreases *d,
    {
        match &d.init {
            Some(init) => {
                proof {
                    assert(decreases_to!(*d => d.init));
                    assert(decreases_to!(d.init => *init));
                }
                match init {
                    Expr::Call { callee, args, span } => {
                        if self.is_step_method_call(callee) {
                            match &d.pattern {
                                Pattern::Name { name, .. } => {
                                    let method_name = self.get_step_method_name(callee);
                                    self.record_assigned_top(name.as_str(), *span, method_name);
                                    proof {
                                        assert(decreases_to!(*init => *args));
                                        assert(decreases_to!(*args => args@));
                                    }
                                    self.lint_call_arguments(args);
                                },
                                Pattern::Other => {
                                    self.lint_expression(init, false);
                                },
                            }
                        } else {
                            self.lint_expression(init, false);
                        }
                    },
                    _ => {
                        self.lint_expression(init, false);
                    },
                }
            },
            None => {},
        }
    }

    /// Walks the elements of a class body: method bodies and static
    /// blocks in scopes of their own, property values as ordinary
    /// expressions.
    #[verifier::loop_isolation(false)]
    pub fn lint_class(&mut self, class: &Class)
        requires
            old(self).wf(),
        ensures
            final(self).st() == walk_class(old(self).ctx(), old(self).st(), *class),
            final(self).ctx() == old(self).ctx(),
        decreases *class,
    {
        let ghost ctx = self.ctx();
        let ghost st0 = self.st();
        let ghost es = class.body@;
        proof {
            assert(es.skip(0) =~= es);
        }
        let mut i: usize = 0;
        while i < class.body.len()
            invariant
                i <= class.body.len(),
                walk_class_elems(ctx, self.st(), es.skip(i as int)) == walk_class_elems(
                    ctx,
                    st0,
                    es,
                ),
                self.ctx() == ctx,
                self.wf(),
            decreases class.body.len() - i,
        {
            proof {
                assert(es.skip(i as int)[0] == es[i as int]);
                assert(es.skip(i as int).drop_first() =~= es.skip(i + 1));
                assert(decreases_to!(*class => class.body));
                assert(decreases_to!(class.body => es));
                assert(decreases_to!(es => es[i as int]));
            }
            match &class.body[i] {
                ClassElement::Method { value, .. } => {
                    proof {
                        assert(decreases_to!(es[i as int] => *value));
                        assert(decreases_to!(*value => value.body));
                    }
                    self.lint_function_body(&value.body);
                },
                ClassElement::Property { init } => {
                    match init {
                        Some(e) => {
                            proof {
                                assert(decreases_to!(es[i as int] => *init));
                                assert(decreases_to!(*init => *e));
                            }
                            self.lint_expression(e, false);
                        },
                        None => {},
                    }
                },
                ClassElement::StaticBlock(b) => {
                    self.push_tracker();
                    proof {
                        assert(decreases_to!(es[i as int] => *b));
                        assert(decreases_to!(*b => b@));
                    }
                    self.lint_statements(b);
                    self.pop_tracker_and_report();
                },
                ClassElement::Other => {},
            }
            i = i + 1;
        }
        proof {
            assert(es.skip(es.len() as int) =~= Seq::<ClassElement>::empty());
        }
    }

    /// Walks a function body in a scope of its own; an absent body is
    /// nothing.
    pub fn lint_function_body(&mut self, body: &Option<Vec<Stmt>>)
        requires
            old(self).wf(),
        ensures
            final(self).st() == walk_fn_body(old(self).ctx(), old(self).st(), *body),
            final(self).ctx() == old(self).ctx(),
        decreases *body,
    {
        match body {
            Some(b) => {
                self.push_tracker();
                proof {
                    assert(decreases_to!(*body => *b));
                    assert(decreases_to!(*b => b@));
                }
                self.lint_statements(b);
                self.pop_tracker_and_report();
            },
            None => {},
        }
    }

    /// Walks every argument of a call, nothing awaited.
    #[verifier::loop_isolation(false)]
    pub fn lint_call_arguments(&mut self, args: &Vec<Arg>)
        requires
            old(self).wf(),
        ensures
            final(self).st() == walk_call_args(old(self).ctx(), old(self).st(), args@),
            final(self).ctx() == old(self).ctx(),
        decreases args@,
    {
        let ghost ctx = self.ctx();
        let ghost st0 = self.st();
        let ghost a = args@;
        proof {
            assert(a.skip(0) =~= a);
        }
        let mut i: usize = 0;
        while i < args.len()
            invariant
                i <= args.len(),
                walk_call_args(ctx, self.st(), a.skip(i as int)) == walk_call_args(ctx, st0, a),
                self.ctx() == ctx,
                self.wf(),
            decreases args.len() - i,
        {
            proof {
                assert(a.skip(i as int)[0] == a[i as int]);
                assert(a.skip(i as int).drop_first() =~= a.skip(i + 1));
                assert(decreases_to!(a => a[i as int]));
            }
            match &args[i] {
                Arg::Spread(e) => {
                    proof {
                        assert(decreases_to!(a[i as int] => *e));
                    }
                    self.lint_expression(e, false);
                },
                Arg::Plain(e) => {
                    proof {
                        assert(decreases_to!(a[i as int] => *e));
                    }
                    self.lint_expression(e, false);
                },
            }
            i = i + 1;
        }
        proof {
            assert(a.skip(a.len() as int) =~= Seq::<Arg>::empty());
        }
    }

    /// Walks the arguments of a step `do` call: the second positional
    /// argument is the callback and is walked under a pushed callback
    /// context.
    #[verifier::loop_isolation(false)]
    pub fn lint_step_do_with_callback(&mut self, args: &Vec<Arg>, method_name: &str)
        requires
            old(self).wf(),
        ensures
            final(self).st() == walk_do_args(
                old(self).ctx(),
                old(self).st(),
                args@,
                0,
                method_name@,
            ),
            final(self).ctx() == old(self).ctx(),
        decreases args@,
    {
        let ghost ctx = self.ctx();
        let ghost st0 = self.st();
        let ghost a = args@;
        proof {
            assert(a.skip(0) =~= a);
        }
        let mut i: usize = 0;
        while i < args.len()
            invariant
                i <= args.len(),
                walk_do_args(ctx, self.st(), a.skip(i as int), i as int, method_name@)
                    == walk_do_args(ctx, st0, a, 0, method_name@),
                self.ctx() == ctx,
                self.wf(),
            decreases args.len() - i,
        {
            proof {
                assert(a.skip(i as int)[0] == a[i as int]);
                assert(a.skip(i as int).drop_first() =~= a.skip(i + 1));
                assert(decreases_to!(a => a[i as int]));
            }
            match &args[i] {
                Arg::Plain(e) => {
                    proof {
                        assert(decreases_to!(a[i as int] => *e));
                    }
                    if i == 1 {
                        self.push_callback(method_name);
                        self.lint_expression(e, false);
                        self.pop_callback();
                    } else {
                        self.lint_expression(e, false);
                    }
                },
                Arg::Spread(e) => {
                    proof {
                        assert(decreases_to!(a[i as int] => *e));
                    }
                    self.lint_expression(e, false);
                },
            }
            i = i + 1;
        }
        proof {
            assert(a.skip(a.len() as int) =~= Seq::<Arg>::empty());
        }
    }

    /// Walks the plain arguments of a `new` expression.
    #[verifier::loop_isolation(false)]
    fn lint_new_arguments(&mut self, args: &Vec<Arg>)
        requires
            old(self).wf(),
        ensures
            final(self).st() == walk_new_args(old(self).ctx(), old(self).st(), args@),
            final(self).ctx() == old(self).ctx(),
        decreases args@,
    {
        let ghost ctx = self.ctx();
        let ghost st0 = self.st();
        let ghost a = args@;
        proof {
            assert(a.skip(0) =~= a);
        }
        let mut i: usize = 0;
        while i < args.len()
            invariant
                i <= args.len(),
                walk_new_args(ctx, self.st(), a.skip(i as int)) == walk_new_args(ctx, st0, a),
                self.ctx() == ctx,
                self.wf(),
            decreases args.len() - i,
        {
            proof {
                assert(a.skip(i as int)[0] == a[i as int]);
                assert(a.skip(i as int).drop_first() =~= a.skip(i + 1));
                assert(decreases_to!(a => a[i as int]));
            }
            match &args[i] {
                Arg::Plain(e) => {
                    proof {
                        assert(decreases_to!(a[i as int] => *e));
                    }
                    self.lint_expression(e, false);
                },
                Arg::Spread(_) => {},
            }
            i = i + 1;
        }
        proof {
            assert(a.skip(a.len() as int) =~= Seq::<Arg>::empty());
        }
    }

    /// Walks array elements; each inherits the awaited flag.
    #[verifier::loop_isolation(false)]
    fn lint_array_elements(&mut self, elems: &Vec<ArrayElem>, is_awaited: bool)
        requires
            old(self).wf(),
        ensures
            final(self).st() == walk_array_elems(
                old(self).ctx(),
                old(self).st(),
                elems@,
                is_awaited,
            ),
            final(self).ctx() == old(self).ctx(),
        decreases elems@,
    {
        let ghost ctx = self.ctx();
        let ghost st0 = self.st();
        let ghost es = elems@;
        proof {
            assert(es.skip(0) =~= es);
        }
        let mut i: usize = 0;
        while i < elems.len()
            invariant
                i <= elems.len(),
                walk_array_elems(ctx, self.st(), es.skip(i as int), is_awaited)
                    == walk_array_elems(ctx, st0, es, is_awaited),
                self.ctx() == ctx,
                self.wf(),
            decreases elems.len() - i,
        {
            proof {
                assert(es.skip(i as int)[0] == es[i as int]);
                assert(es.skip(i as int).drop_first() =~= es.skip(i + 1));
                assert(decreases_to!(es => es[i as int]));
            }
            match &elems[i] {
                ArrayElem::Spread(e) => {
                    proof {
                        assert(decreases_to!(es[i as int] => *e));
                    }
                    self.lint_expression(e, is_awaited);
                },
                ArrayElem::Plain(e) => {
                    proof {
                        assert(decreases_to!(es[i as int] => *e));
                    }
                    self.lint_expression(e, is_awaited);
                },
                ArrayElem::Elision => {},
            }
            i = i + 1;
        }
        proof {
            assert(es.skip(es.len() as int) =~= Seq::<ArrayElem>::empty());
        }
    }

    /// Walks object properties, nothing awaited.
    #[verifier::loop_isolation(false)]
    fn lint_object_properties(&mut self, props: &Vec<Prop>)
        requires
            old(self).wf(),
        ensures
            final(self).st() == walk_props(old(self).ctx(), old(self).st(), props@),
            final(self).ctx() == old(self).ctx(),
        decreases props@,
    {
        let ghost ctx = self.ctx();
        let ghost st0 = self.st();
        let ghost ps = props@;
        proof {
            assert(ps.skip(0) =~= ps);
        }
        let mut i: usize = 0;
        while i < props.len()
            invariant
                i <= props.len(),
                walk_props(ctx, self.st(), ps.skip(i as int)) == walk_props(ctx, st0, ps),
                self.ctx() == ctx,
                self.wf(),
            decreases props.len() - i,
        {
            proof {
                assert(ps.skip(i as int)[0] == ps[i as int]);
                assert(ps.skip(i as int).drop_first() =~= ps.skip(i + 1));
                assert(decreases_to!(ps => ps[i as int]));
            }
            match &props[i] {
                Prop::Property { value } => {
                    proof {
                        assert(decreases_to!(ps[i as int] => *value));
                    }
                    self.lint_expression(value, false);
                },
                Prop::Spread(e) => {
                    proof {
                        assert(decreases_to!(ps[i as int] => *e));
                    }
                    self.lint_expression(e, false);
                },
            }
            i = i + 1;
        }
        proof {
            assert(ps.skip(ps.len() as int) =~= Seq::<Prop>::empty());
        }
    }

    /// Walks sequence-expression elements; only the last inherits the
    /// awaited flag.
    #[verifier::loop_isolation(false)]
    fn lint_sequence_exprs(&mut self, exprs: &Vec<Expr>, is_awaited: bool)
        requires
            old(self).wf(),
        ensures
            final(self).st() == walk_seq_exprs(old(self).ctx(), old(self).st(), exprs@, is_awaited),
            final(self).ctx() == old(self).ctx(),
        decreases exprs@,
    {
        let ghost ctx = self.ctx();
        let ghost st0 = self.st();
        let ghost es = exprs@;
        proof {
            assert(es.skip(0) =~= es);
        }
        let mut i: usize = 0;
        while i < exprs.len()
            invariant
                i <= exprs.len(),
                walk_seq_exprs(ctx, self.st(), es.skip(i as int), is_awaited) == walk_seq_exprs(
                    ctx,
                    st0,
                    es,
                    is_awaited,
                ),
                self.ctx() == ctx,
                self.wf(),
            decreases exprs.len() - i,
        {
            proof {
                assert(es.skip(i as int)[0] == es[i as int]);
                assert(es.skip(i as int).drop_first() =~= es.skip(i + 1));
                assert(decreases_to!(es => es[i as int]));
            }
            let last = i + 1 == exprs.len();
            self.lint_expression(&exprs[i], last && is_awaited);
            proof {
                if last {
                    assert(es.skip(i as int).len() == 1);
                }
            }
            i = i + 1;
        }
        proof {
            assert(es.skip(es.len() as int) =~= Seq::<Expr>::empty());
        }
    }

    /// Walks template-literal expressions, nothing awaited.
    #[verifier::loop_isolation(false)]
    fn lint_template_exprs(&mut self, exprs: &Vec<Expr>)
        requires
            old(self).wf(),
        ensures
            final(self).st() == walk_template(old(self).ctx(), old(self).st(), exprs@),
            final(self).ctx() == old(self).ctx(),
        decreases exprs@,
    {
        let ghost ctx = self.ctx();
        let ghost st0 = self.st();
        let ghost es = exprs@;
        proof {
            assert(es.skip(0) =~= es);
        }
        let mut i: usize = 0;
        while i < exprs.len()
            invariant
                i <= exprs.len(),
                walk_template(ctx, self.st(), es.skip(i as int)) == walk_template(ctx, st0, es),
                self.ctx() == ctx,
                self.wf(),
            decreases exprs.len() - i,
        {
            proof {
                assert(es.skip(i as int)[0] == es[i as int]);
                assert(es.skip(i as int).drop_first() =~= es.skip(i + 1));
                assert(decreases_to!(es => es[i as int]));
            }
            self.lint_expression(&exprs[i], false);
            i = i + 1;
        }
        proof {
            assert(es.skip(es.len() as int) =~= Seq::<Expr>::empty());
        }
    }

    /// Walks one expression under the awaited flag. Step calls are
    /// reported as nested when a callback context encloses them, and
    /// are marked awaited or recorded according to the flag.
    pub fn lint_expression(&mut self, expr: &Expr, is_awaited: bool)
        requires
            old(self).wf(),
        ensures
            final(self).st() == walk_expr(old(self).ctx(), old(self).st(), *expr, is_awaited),
            final(self).ctx() == old(self).ctx(),
        decreases *expr,
    {
        match expr {
            Expr::Await(inner) => {
                proof {
                    assert(decreases_to!(*expr => *inner));
                }
                self.handle_await_expression(inner);
                self.lint_expression(inner, true);
            },
            Expr::Call { callee, args, span } => {
                proof {
                    assert(decreases_to!(*expr => *callee));
                    assert(decreases_to!(*expr => *args));
                    assert(decreases_to!(*args => args@));
                }
                if self.is_step_method_call(callee) {
                    let method_name = self.get_step_method_name(callee);
                    if self.step_callback_stack.len() > 0 {
                        let outer = self.step_callback_stack[self.step_callback_stack.len()
                            - 1].clone();
                        proof {
                            assert(outer@ == old(self).st().callbacks.last());
                        }
                        let message = make_nested_msg(method_name.as_str(), outer.as_str());
                        let d = LintDiagnostic::new(
                            self.file_path.as_str(),
                            self.source.as_str(),
                            *span,
                            message.as_str(),
                            "nested-step",
                        );
                        let ghost dprev = self.st();
                        self.diagnostics.push(d);
                        proof {
                            assert(self.st() =~= st_add_diag(dprev, d@));
                        }
                    }
                    if is_awaited {
                        self.mark_span_top(*span);
                    } else {
                        self.record_unassigned_top(*span, method_name.clone());
                    }
                    if self.is_step_do_call(callee) {
                        self.lint_step_do_with_callback(args, method_name.as_str());
                    } else {
                        self.lint_call_arguments(args);
                    }
                } else {
                    let combinator = is_awaited && self.is_promise_combinator_call(callee);
                    if combinator {
                        self.lint_expression(callee, false);
                        if args.len() > 0 {
                            match &args[0] {
                                Arg::Plain(first) => {
                                    proof {
                                        assert(decreases_to!(args@ => args@[0]));
                                        assert(decreases_to!(args@[0] => *first));
                                    }
                                    self.lint_expression(first, true);
                                },
                                Arg::Spread(_) => {},
                            }
                        }
                    } else {
                        self.lint_expression(callee, false);
                        self.lint_call_arguments(args);
                    }
                }
            },
            Expr::Arrow { body, .. } => {
                self.push_tracker();
                proof {
                    assert(decreases_to!(*expr => *body));
                    assert(decreases_to!(*body => body@));
                }
                self.lint_statements(body);
                self.pop_tracker_and_report();
            },
            Expr::Func(f) => {
                proof {
                    assert(decreases_to!(*expr => *f));
                    assert(decreases_to!(*f => f.body));
                }
                self.lint_function_body(&f.body);
            },
            Expr::ClassExpr(c) => {
                proof {
                    assert(decreases_to!(*expr => *c));
                }
                self.lint_class(c);
            },
            Expr::Array(elems) => {
                proof {
                    assert(decreases_to!(*expr => *elems));
                    assert(decreases_to!(*elems => elems@));
                }
                self.lint_array_elements(elems, is_awaited);
            },
            Expr::Object(props) => {
                proof {
                    assert(decreases_to!(*expr => *props));
                    assert(decreases_to!(*props => props@));
                }
                self.lint_object_properties(props);
            },
            Expr::Conditional { test, consequent, alternate } => {
                proof {
                    assert(decreases_to!(*expr => *test));
                    assert(decreases_to!(*expr => *consequent));
                    assert(decreases_to!(*expr => *alternate));
                }
                self.lint_expression(test, false);
                self.lint_expression(consequent, is_awaited);
                self.lint_expression(alternate, is_awaited);
            },
            Expr::Binary { left, right } => {
                proof {
                    assert(decreases_to!(*expr => *left));
                    assert(decreases_to!(*expr => *right));
                }
                self.lint_expression(left, false);
                self.lint_expression(right, false);
            },
            Expr::Logical { left, right } => {
                proof {
                    assert(decreases_to!(*expr => *left));
                    assert(decreases_to!(*expr => *right));
                }
                self.lint_expression(left, false);
                self.lint_expression(right, false);
            },
            Expr::Assign { right } => {
                proof {
                    assert(decreases_to!(*expr => *right));
                }
                self.lint_expression(right, false);
            },
            Expr::Sequence(es) => {
                proof {
                    assert(decreases_to!(*expr => *es));
                    assert(decreases_to!(*es => es@));
                }
                self.lint_sequence_exprs(es, is_awaited);
            },
            Expr::Paren(inner) => {
                proof {
                    assert(decreases_to!(*expr => *inner));
                }
                self.lint_expression(inner, is_awaited);
            },
            Expr::Unary(arg) => {
                proof {
                    assert(decreases_to!(*expr => *arg));
                }
                self.lint_expression(arg, false);
            },
            Expr::New { callee, args } => {
                proof {
                    assert(decreases_to!(*expr => *callee));
                    assert(decreases_to!(*expr => *args));
                    assert(decreases_to!(*args => args@));
                }
                self.lint_expression(callee, false);
                self.lint_new_arguments(args);
            },
            Expr::StaticMember { object, .. } => {
                proof {
                    assert(decreases_to!(*expr => *object));
                }
                self.lint_expression(object, false);
            },
            Expr::ComputedMember { object, index } => {
                proof {
                    assert(decreases_to!(*expr => *object));
                    assert(decreases_to!(*expr => *index));
                }
                self.lint_expression(object, false);
                self.lint_expression(index, false);
            },
            Expr::PrivateField { object } => {
                proof {
                    assert(decreases_to!(*expr => *object));
                }
                self.lint_expression(object, false);
            },
            Expr::TaggedTemplate { tag } => {
                proof {
                    assert(decreases_to!(*expr => *tag));
                }
                self.lint_expression(tag, false);
            },
            Expr::Template(es) => {
                proof {
                    assert(decreases_to!(*expr => *es));
                    assert(decreases_to!(*es => es@));
                }
                self.lint_template_exprs(es);
            },
            Expr::Yield(arg) => {
                match arg {
                    Some(a) => {
                        proof {
                            assert(decreases_to!(*expr => *arg));
                            assert(decreases_to!(*arg => *a));
                        }
                        self.lint_expression(a, false);
                    },
                    None => {},
                }
            },
            _ => {},
        }
    }

    /// Walks a whole program in one top-level scope.
    pub fn lint_program(&mut self, program: &Program)
        requires
            old(self).wf(),
        ensures
            final(self).st() == walk_program(old(self).ctx(), old(self).st(), *program),
            final(self).ctx() == old(self).ctx(),
    {
        self.push_tracker();
        self.lint_statements(&program.body);
        self.pop_tracker_and_report();
    }
}

/// Lints one parsed source file: classifies the step identities, then
/// walks the tree once, returning every diagnostic in traversal
/// order.
pub fn lint(program: &Program, source: &str, file_path: &str) -> (r: Vec<LintDiagnostic>)
    requires
        source@.len() < usize::MAX,
    ensures
        r@.map_values(|d: LintDiagnostic| d@) == lint_spec(*program, source@, file_path@),
{
    let workflow_step_symbols = build_workflow_step_symbols(program);
    let mut linter = Linter::new(source, file_path, workflow_step_symbols);
    linter.lint_program(program);
    linter.into_diagnostics()
}

} // verus!
