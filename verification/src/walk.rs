//! The specification of the traversal: one context-sensitive walk over
//! the syntax tree, threading the `awaited` flag, the tracker stack,
//! and the callback-nesting stack, and accumulating diagnostics.

use vstd::prelude::*;

use crate::ast::{Arg, ArrayElem, Class, ClassElement, Decl, Declarator, Expr, Pattern, Program, Prop, Stmt};
use crate::diagnostics::{diag_at, nested_msg, DiagV};
use crate::state::{
    st_add_diag, st_mark_span, st_mark_var, st_pop_callback, st_pop_report, st_push_callback,
    st_push_tracker, st_record_assigned, st_record_unassigned, state_init, CtxV, StateV,
};
use crate::symbols::step_syms_of;

verus! {

/// The qualifier name, its resolved identity, and the method name of a
/// callee of the form `qualifier.method`.
pub open spec fn callee_parts(callee: Expr) -> Option<(Seq<char>, Option<u32>, Seq<char>)> {
    match callee {
        Expr::StaticMember { object, property } => match *object {
            Expr::Ident { name, sym } => Some((name@, sym, property@)),
            _ => None,
        },
        _ => None,
    }
}

/// Whether a method name is one of the step operations.
pub open spec fn is_step_method_name(m: Seq<char>) -> bool {
    m == "do"@ || m == "sleep"@ || m == "waitForEvent"@ || m == "sleepUntil"@
}

/// Whether a callee is a step method call: `qualifier.method` with a
/// step method name, whose qualifier resolves to a classified step
/// identity.
pub open spec fn is_step_call(ctx: CtxV, callee: Expr) -> bool {
    match callee_parts(callee) {
        Some(parts) => is_step_method_name(parts.2) && match parts.1 {
            Some(s) => ctx.steps.contains(s),
            None => false,
        },
        None => false,
    }
}

/// Whether a callee is specifically a step `do` call, whose second
/// argument is a callback.
pub open spec fn is_step_do(ctx: CtxV, callee: Expr) -> bool {
    match callee_parts(callee) {
        Some(parts) => parts.2 == "do"@ && match parts.1 {
            Some(s) => ctx.steps.contains(s),
            None => false,
        },
        None => false,
    }
}

/// The name under which a step call is reported: `qualifier.method`,
/// with the qualifier defaulting to `step`.
pub open spec fn step_method_name(callee: Expr) -> Seq<char> {
    match callee {
        Expr::StaticMember { object, property } => match *object {
            Expr::Ident { name, .. } => name@ + "."@ + property@,
            _ => "step."@ + property@,
        },
        _ => "step.do"@,
    }
}

/// Whether a callee is a promise-combinator call: `all`, `race`,
/// `allSettled` or `any` on the well-known aggregator object, by
/// literal name.
pub open spec fn is_promise_combinator(callee: Expr) -> bool {
    match callee {
        Expr::StaticMember { object, property } => (property@ == "all"@ || property@ == "race"@
            || property@ == "allSettled"@ || property@ == "any"@) && match *object {
            Expr::Ident { name, .. } => name@ == "Promise"@,
            _ => false,
        },
        _ => false,
    }
}

/// The names of the bare identifier elements of an array literal, in
/// order.
pub open spec fn array_idents(elems: Seq<ArrayElem>) -> Seq<Seq<char>>
    decreases elems.len(),
{
    if elems.len() == 0 {
        Seq::empty()
    } else {
        let rest = array_idents(elems.drop_first());
        match elems[0] {
            ArrayElem::Plain(e) => match e {
                Expr::Ident { name, .. } => seq![name@] + rest,
                _ => rest,
            },
            _ => rest,
        }
    }
}

/// Marks each named variable's step call awaited, in order.
pub open spec fn mark_vars(st: StateV, names: Seq<Seq<char>>) -> StateV
    decreases names.len(),
{
    if names.len() == 0 {
        st
    } else {
        mark_vars(st_mark_var(st, names[0]), names.drop_first())
    }
}

/// The side effect of `await <arg>` on the current tracker: a bare
/// identifier marks that variable awaited; a promise-combinator call
/// whose first argument is an array literal marks every bare
/// identifier element awaited.
pub open spec fn await_effect(st: StateV, arg: Expr) -> StateV {
    match arg {
        Expr::Ident { name, .. } => st_mark_var(st, name@),
        Expr::Call { callee, args, .. } => if is_promise_combinator(*callee) && args@.len() > 0 {
            match args@[0] {
                Arg::Plain(e) => match e {
                    Expr::Array(elems) => mark_vars(st, array_idents(elems@)),
                    _ => st,
                },
                Arg::Spread(_) => st,
            }
        } else {
            st
        },
        _ => st,
    }
}

/// The statements of a program walked in one top-level scope.
pub open spec fn walk_program(ctx: CtxV, st: StateV, p: Program) -> StateV {
    st_pop_report(ctx, walk_stmts(ctx, st_push_tracker(st), p.body@))
}

/// Every diagnostic of one whole run over a parsed program.
pub open spec fn lint_spec(p: Program, src: Seq<char>, file: Seq<char>) -> Seq<DiagV> {
    let ctx = CtxV { file: file, src: src, steps: step_syms_of(p.body@) };
    walk_program(ctx, state_init(), p).diags
}

/// A statement list walked left to right.
pub open spec fn walk_stmts(ctx: CtxV, st: StateV, ss: Seq<Stmt>) -> StateV
    decreases ss,
{
    if ss.len() == 0 {
        st
    } else {
        walk_stmts(ctx, walk_stmt(ctx, st, ss[0]), ss.drop_first())
    }
}

/// A function body walked in a scope of its own; an absent body is
/// nothing.
pub open spec fn walk_fn_body(ctx: CtxV, st: StateV, body: Option<Vec<Stmt>>) -> StateV
    decreases body,
{
    match body {
        Some(b) => st_pop_report(ctx, walk_stmts(ctx, st_push_tracker(st), b@)),
        None => st,
    }
}

/// One statement walked. Statement position never makes an expression
/// awaited.
pub open spec fn walk_stmt(ctx: CtxV, st: StateV, s: Stmt) -> StateV
    decreases s,
{
    match s {
        Stmt::Expr(e) => walk_expr(ctx, st, e, false),
        Stmt::Var(ds) => walk_declarators(ctx, st, ds@),
        Stmt::Func(f) => walk_fn_body(ctx, st, f.body),
        Stmt::Class(c) => walk_class(ctx, st, c),
        Stmt::Block(b) => walk_stmts(ctx, st, b@),
        Stmt::If { test, consequent, alternate } => {
            let st1 = walk_stmt(ctx, walk_expr(ctx, st, test, false), *consequent);
            match alternate {
                Some(alt) => walk_stmt(ctx, st1, *alt),
                None => st1,
            }
        },
        Stmt::While { test, body } => walk_stmt(ctx, walk_expr(ctx, st, test, false), *body),
        Stmt::For { init, body } => {
            let st1 = match init {
                Some(ds) => walk_declarators(ctx, st, ds@),
                None => st,
            };
            walk_stmt(ctx, st1, *body)
        },
        Stmt::ForIn { body } => walk_stmt(ctx, st, *body),
        Stmt::ForOf { right, body } => walk_stmt(ctx, walk_expr(ctx, st, right, false), *body),
        Stmt::Return(arg) => match arg {
            Some(e) => walk_expr(ctx, st, e, false),
            None => st,
        },
        Stmt::Try { block, handler, finalizer } => {
            let st1 = walk_stmts(ctx, st, block@);
            let st2 = match handler {
                Some(h) => walk_stmts(ctx, st1, h@),
                None => st1,
            };
            match finalizer {
                Some(f) => walk_stmts(ctx, st2, f@),
                None => st2,
            }
        },
        Stmt::Switch { discriminant, cases } => walk_cases(
            ctx,
            walk_expr(ctx, st, discriminant, false),
            cases@,
        ),
        Stmt::ExportDefaultFunc(f) => walk_fn_body(ctx, st, f.body),
        Stmt::ExportDefaultClass(c) => walk_class(ctx, st, c),
        Stmt::ExportDefaultExpr(e) => walk_expr(ctx, st, e, false),
        Stmt::ExportNamed(d) => match d {
            Some(decl) => walk_decl(ctx, st, decl),
            None => st,
        },
        _ => st,
    }
}

/// The consequent statement lists of a switch, walked in order.
pub open spec fn walk_cases(ctx: CtxV, st: StateV, cases: Seq<Vec<Stmt>>) -> StateV
    decreases cases,
{
    if cases.len() == 0 {
        st
    } else {
        walk_cases(ctx, walk_stmts(ctx, st, cases[0]@), cases.drop_first())
    }
}

/// An exported declaration walked.
pub open spec fn walk_decl(ctx: CtxV, st: StateV, d: Decl) -> StateV
    decreases d,
{
    match d {
        Decl::Func(f) => walk_fn_body(ctx, st, f.body),
        Decl::Class(c) => walk_class(ctx, st, c),
        Decl::Var(ds) => walk_declarators(ctx, st, ds@),
        Decl::Other => st,
    }
}

/// A declarator list walked left to right.
pub open spec fn walk_declarators(ctx: CtxV, st: StateV, ds: Seq<Declarator>) -> StateV
    decreases ds,
{
    if ds.len() == 0 {
        st
    } else {
        walk_declarators(ctx, walk_declarator(ctx, st, ds[0]), ds.drop_first())
    }
}

/// One declarator walked. A step-call initializer bound to one plain
/// name is recorded as assigned and only its arguments are linted;
/// any other initializer is walked as an ordinary unawaited
/// expression.
pub open spec fn walk_declarator(ctx: CtxV, st: StateV, d: Declarator) -> StateV
    decreases d,
{
    match d.init {
        Some(init) => match init {
            Expr::Call { callee, args, span } => if is_step_call(ctx, *callee) {
                match d.pattern {
                    Pattern::Name { name, .. } => walk_call_args(
                        ctx,
                        st_record_assigned(st, name@, span, step_method_name(*callee)),
                        args@,
                    ),
                    Pattern::Other => walk_expr(ctx, st, init, false),
                }
            } else {
                walk_expr(ctx, st, init, false)
            },
            _ => walk_expr(ctx, st, init, false),
        },
        None => st,
    }
}

/// The elements of a class body walked. Method bodies and static
/// blocks get scopes of their own; property values are ordinary
/// expressions.
pub open spec fn walk_class(ctx: CtxV, st: StateV, c: Class) -> StateV
    decreases c,
{
    walk_class_elems(ctx, st, c.body@)
}

/// A class-element list walked left to right.
pub open spec fn walk_class_elems(ctx: CtxV, st: StateV, es: Seq<ClassElement>) -> StateV
    decreases es,
{
    if es.len() == 0 {
        st
    } else {
        let st1 = match es[0] {
            ClassElement::Method { value, .. } => walk_fn_body(ctx, st, value.body),
            ClassElement::Property { init } => match init {
                Some(e) => walk_expr(ctx, st, e, false),
                None => st,
            },
            ClassElement::StaticBlock(b) => st_pop_report(
                ctx,
                walk_stmts(ctx, st_push_tracker(st), b@),
            ),
            ClassElement::Other => st,
        };
        walk_class_elems(ctx, st1, es.drop_first())
    }
}

/// A call-argument list walked, nothing awaited.
pub open spec fn walk_call_args(ctx: CtxV, st: StateV, args: Seq<Arg>) -> StateV
    decreases args,
{
    if args.len() == 0 {
        st
    } else {
        let st1 = match args[0] {
            Arg::Spread(e) => walk_expr(ctx, st, e, false),
            Arg::Plain(e) => walk_expr(ctx, st, e, false),
        };
        walk_call_args(ctx, st1, args.drop_first())
    }
}

/// The arguments of a step `do` call: the second positional argument
/// is the callback and is walked under a pushed callback context; the
/// others are ordinary arguments. `pos` is the position of the head
/// of `args` in the full argument list.
pub open spec fn walk_do_args(
    ctx: CtxV,
    st: StateV,
    args: Seq<Arg>,
    pos: int,
    method: Seq<char>,
) -> StateV
    decreases args,
{
    if args.len() == 0 {
        st
    } else {
        let st1 = match args[0] {
            Arg::Plain(e) => if pos == 1 {
                st_pop_callback(walk_expr(ctx, st_push_callback(st, method), e, false))
            } else {
                walk_expr(ctx, st, e, false)
            },
            Arg::Spread(e) => walk_expr(ctx, st, e, false),
        };
        walk_do_args(ctx, st1, args.drop_first(), pos + 1, method)
    }
}

/// The arguments of a `new` expression: plain arguments are walked,
/// spread arguments are not.
pub open spec fn walk_new_args(ctx: CtxV, st: StateV, args: Seq<Arg>) -> StateV
    decreases args,
{
    if args.len() == 0 {
        st
    } else {
        let st1 = match args[0] {
            Arg::Plain(e) => walk_expr(ctx, st, e, false),
            Arg::Spread(_) => st,
        };
        walk_new_args(ctx, st1, args.drop_first())
    }
}

/// Array elements walked; each element inherits the awaited flag, so
/// step calls inside an awaited combinator's array count as awaited.
pub open spec fn walk_array_elems(
    ctx: CtxV,
    st: StateV,
    elems: Seq<ArrayElem>,
    awaited: bool,
) -> StateV
    decreases elems,
{
    if elems.len() == 0 {
        st
    } else {
        let st1 = match elems[0] {
            ArrayElem::Spread(e) => walk_expr(ctx, st, e, awaited),
            ArrayElem::Plain(e) => walk_expr(ctx, st, e, awaited),
            ArrayElem::Elision => st,
        };
        walk_array_elems(ctx, st1, elems.drop_first(), awaited)
    }
}

/// Object properties walked, nothing awaited.
pub open spec fn walk_props(ctx: CtxV, st: StateV, props: Seq<Prop>) -> StateV
    decreases props,
{
    if props.len() == 0 {
        st
    } else {
        let st1 = match props[0] {
            Prop::Property { value } => walk_expr(ctx, st, value, false),
            Prop::Spread(e) => walk_expr(ctx, st, e, false),
        };
        walk_props(ctx, st1, props.drop_first())
    }
}

/// Sequence-expression elements walked; only the last inherits the
/// awaited flag.
pub open spec fn walk_seq_exprs(ctx: CtxV, st: StateV, es: Seq<Expr>, awaited: bool) -> StateV
    decreases es,
{
    if es.len() == 0 {
        st
    } else if es.len() == 1 {
        walk_expr(ctx, st, es[0], awaited)
    } else {
        walk_seq_exprs(ctx, walk_expr(ctx, st, es[0], false), es.drop_first(), awaited)
    }
}

/// Template-literal expressions walked, nothing awaited.
pub open spec fn walk_template(ctx: CtxV, st: StateV, es: Seq<Expr>) -> StateV
    decreases es,
{
    if es.len() == 0 {
        st
    } else {
        walk_template(ctx, walk_expr(ctx, st, es[0], false), es.drop_first())
    }
}

/// One expression walked under the awaited flag. This is the heart of
/// the traversal: step calls are recorded or marked awaited, nested
/// step calls are reported, and the flag follows exactly the
/// positions through which an awaited value flows.
pub open spec fn walk_expr(ctx: CtxV, st: StateV, e: Expr, awaited: bool) -> StateV
    decreases e,
{
    match e {
        Expr::Await(inner) => walk_expr(ctx, await_effect(st, *inner), *inner, true),
        Expr::Call { callee, args, span } => if is_step_call(ctx, *callee) {
            let name = step_method_name(*callee);
            let st1 = if st.callbacks.len() > 0 {
                st_add_diag(
                    st,
                    diag_at(
                        ctx.file,
                        ctx.src,
                        span,
                        nested_msg(name, st.callbacks.last()),
                        "nested-step"@,
                    ),
                )
            } else {
                st
            };
            let st2 = if awaited {
                st_mark_span(st1, span)
            } else {
                st_record_unassigned(st1, span, name)
            };
            if is_step_do(ctx, *callee) {
                walk_do_args(ctx, st2, args@, 0, name)
            } else {
                walk_call_args(ctx, st2, args@)
            }
        } else if awaited && is_promise_combinator(*callee) {
            let st1 = walk_expr(ctx, st, *callee, false);
            if args@.len() > 0 {
                match args@[0] {
                    Arg::Plain(first) => walk_expr(ctx, st1, first, true),
                    Arg::Spread(_) => st1,
                }
            } else {
                st1
            }
        } else {
            walk_call_args(ctx, walk_expr(ctx, st, *callee, false), args@)
        },
        Expr::Arrow { body, .. } => st_pop_report(ctx, walk_stmts(ctx, st_push_tracker(st), body@)),
        Expr::Func(f) => walk_fn_body(ctx, st, f.body),
        Expr::ClassExpr(c) => walk_class(ctx, st, c),
        Expr::Array(elems) => walk_array_elems(ctx, st, elems@, awaited),
        Expr::Object(props) => walk_props(ctx, st, props@),
        Expr::Conditional { test, consequent, alternate } => walk_expr(
            ctx,
            walk_expr(ctx, walk_expr(ctx, st, *test, false), *consequent, awaited),
            *alternate,
            awaited,
        ),
        Expr::Binary { left, right } => walk_expr(
            ctx,
            walk_expr(ctx, st, *left, false),
            *right,
            false,
        ),
        Expr::Logical { left, right } => walk_expr(
            ctx,
            walk_expr(ctx, st, *left, false),
            *right,
            false,
        ),
        Expr::Assign { right } => walk_expr(ctx, st, *right, false),
        Expr::Sequence(es) => walk_seq_exprs(ctx, st, es@, awaited),
        Expr::Paren(inner) => walk_expr(ctx, st, *inner, awaited),
        Expr::Unary(arg) => walk_expr(ctx, st, *arg, false),
        Expr::New { callee, args } => walk_new_args(
            ctx,
            walk_expr(ctx, st, *callee, false),
            args@,
        ),
        Expr::StaticMember { object, .. } => walk_expr(ctx, st, *object, false),
        Expr::ComputedMember { object, index } => walk_expr(
            ctx,
            walk_expr(ctx, st, *object, false),
            *index,
            false,
        ),
        Expr::PrivateField { object } => walk_expr(ctx, st, *object, false),
        Expr::TaggedTemplate { tag } => walk_expr(ctx, st, *tag, false),
        Expr::Template(es) => walk_template(ctx, st, es@),
        Expr::Yield(arg) => match arg {
            Some(a) => walk_expr(ctx, st, *a, false),
            None => st,
        },
        _ => st,
    }
}

} // verus!
