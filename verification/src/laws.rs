//! The laws of the linter: what holds of every tracker, every
//! classification, and every traversal, stated and proved over the
//! same specification functions the executable code is verified
//! against.

use vstd::prelude::*;

use crate::assoc::{assoc_get, assoc_has, lemma_find_key, lemma_upsert_get, upsert};
use crate::ast::{Arg, ArrayElem, Class, ClassElement, Decl, Declarator, Expr, Param, Pattern, Prop, Span, Stmt};
use crate::state::{
    st_add_diag, st_mark_span, st_mark_var, st_pop_callback, st_pop_report, st_push_callback,
    st_push_tracker, st_record_assigned, st_record_unassigned, CtxV, StateV,
};
use crate::symbols::{param_step_sym, params_step_syms, stmt_typed_syms, typed_step_syms};
use crate::tracker::{
    drain_unassigned, drain_vars, report_name, tracker_drained, tracker_mark_span,
    tracker_mark_var, tracker_record_assigned, tracker_record_unassigned, TrackerV,
};
use crate::walk::{
    await_effect, mark_vars, walk_array_elems, walk_call_args, walk_cases, walk_class,
    walk_class_elems, walk_decl, walk_declarator, walk_declarators, walk_do_args, walk_expr,
    walk_fn_body, walk_new_args, walk_props, walk_seq_exprs, walk_stmt, walk_stmts, walk_template,
};

verus! {

broadcast use
    vstd::seq_lib::lemma_seq_contains_after_push,
    vstd::seq_lib::lemma_seq_concat_contains_all_elements,
;

/// No entry of the variable map whose span was marked awaited is ever
/// drained.
proof fn lemma_drain_vars_excludes(
    vars: Seq<(Seq<char>, Span)>,
    names: Seq<(Span, Seq<char>)>,
    awaited: Seq<Span>,
)
    ensures
        forall|j: int|
            0 <= j < drain_vars(vars, names, awaited).len() ==> !awaited.contains(
                #[trigger] drain_vars(vars, names, awaited)[j].0,
            ),
    decreases vars.len(),
{
    if vars.len() > 0 {
        lemma_drain_vars_excludes(vars.drop_first(), names, awaited);
        let d = drain_vars(vars, names, awaited);
        let dr = drain_vars(vars.drop_first(), names, awaited);
        assert forall|j: int| 0 <= j < d.len() implies !awaited.contains(d[j].0) by {
            if !awaited.contains(vars[0].1) {
                if j == 0 {
                    assert(d[j].0 == vars[0].1);
                } else {
                    assert(d[j] == dr[j - 1]);
                }
            } else {
                assert(d[j] == dr[j]);
            }
        }
    }
}

/// No unassigned entry whose span was marked awaited is ever drained.
proof fn lemma_drain_unassigned_excludes(unassigned: Seq<(Span, Seq<char>)>, awaited: Seq<Span>)
    ensures
        forall|j: int|
            0 <= j < drain_unassigned(unassigned, awaited).len() ==> !awaited.contains(
                #[trigger] drain_unassigned(unassigned, awaited)[j].0,
            ),
    decreases unassigned.len(),
{
    if unassigned.len() > 0 {
        lemma_drain_unassigned_excludes(unassigned.drop_first(), awaited);
        let d = drain_unassigned(unassigned, awaited);
        let dr = drain_unassigned(unassigned.drop_first(), awaited);
        assert forall|j: int| 0 <= j < d.len() implies !awaited.contains(d[j].0) by {
            if !awaited.contains(unassigned[0].0) {
                if j == 0 {
                    assert(d[j].0 == unassigned[0].0);
                } else {
                    assert(d[j] == dr[j - 1]);
                }
            } else {
                assert(d[j] == dr[j]);
            }
        }
    }
}

/// A span marked awaited is never reported: nothing the tracker
/// drains on scope exit carries an awaited span.
pub proof fn lemma_drained_excludes_awaited(t: TrackerV)
    ensures
        forall|j: int|
            0 <= j < tracker_drained(t).len() ==> !t.awaited.contains(
                #[trigger] tracker_drained(t)[j].0,
            ),
{
    lemma_drain_vars_excludes(t.vars, t.names, t.awaited);
    lemma_drain_unassigned_excludes(t.unassigned, t.awaited);
    assert forall|j: int| 0 <= j < tracker_drained(t).len() implies !t.awaited.contains(
        tracker_drained(t)[j].0,
    ) by {
        let dv = drain_vars(t.vars, t.names, t.awaited);
        if j < dv.len() {
            assert(tracker_drained(t)[j] == dv[j]);
        } else {
            assert(tracker_drained(t)[j] == drain_unassigned(t.unassigned, t.awaited)[j
                - dv.len()]);
        }
    }
}

/// Every variable-held span absent from the awaited set is drained,
/// under its reporting name.
pub proof fn lemma_drain_vars_complete(
    vars: Seq<(Seq<char>, Span)>,
    names: Seq<(Span, Seq<char>)>,
    awaited: Seq<Span>,
    j: int,
)
    requires
        0 <= j < vars.len(),
        !awaited.contains(vars[j].1),
    ensures
        drain_vars(vars, names, awaited).contains(
            (vars[j].1, report_name(names, vars[j].0, vars[j].1)),
        ),
    decreases vars.len(),
{
    if j == 0 {
        let item = (vars[0].1, report_name(names, vars[0].0, vars[0].1));
        assert(drain_vars(vars, names, awaited)[0] == item);
    } else {
        lemma_drain_vars_complete(vars.drop_first(), names, awaited, j - 1);
        assert(vars.drop_first()[j - 1] == vars[j]);
    }
}

/// Every unassigned entry whose span is absent from the awaited set
/// is drained.
pub proof fn lemma_drain_unassigned_complete(
    unassigned: Seq<(Span, Seq<char>)>,
    awaited: Seq<Span>,
    j: int,
)
    requires
        0 <= j < unassigned.len(),
        !awaited.contains(unassigned[j].0),
    ensures
        drain_unassigned(unassigned, awaited).contains(unassigned[j]),
    decreases unassigned.len(),
{
    if j == 0 {
        assert(drain_unassigned(unassigned, awaited)[0] == unassigned[0]);
    } else {
        lemma_drain_unassigned_complete(unassigned.drop_first(), awaited, j - 1);
        assert(unassigned.drop_first()[j - 1] == unassigned[j]);
    }
}

/// A recorded span absent from the awaited set at drain time is
/// reported: drained output covers both the variable map and the
/// unassigned list.
pub proof fn lemma_drained_complete(t: TrackerV, sp: Span)
    requires
        !t.awaited.contains(sp),
        (exists|j: int| 0 <= j < t.vars.len() && (#[trigger] t.vars[j]).1 == sp) || (exists|j: int|
            0 <= j < t.unassigned.len() && (#[trigger] t.unassigned[j]).0 == sp),
    ensures
        exists|k: int| 0 <= k < tracker_drained(t).len() && (#[trigger] tracker_drained(t)[k]).0
            == sp,
{
    if exists|j: int| 0 <= j < t.vars.len() && (#[trigger] t.vars[j]).1 == sp {
        let j = choose|j: int| 0 <= j < t.vars.len() && (#[trigger] t.vars[j]).1 == sp;
        lemma_drain_vars_complete(t.vars, t.names, t.awaited, j);
        let item = (t.vars[j].1, report_name(t.names, t.vars[j].0, t.vars[j].1));
        let dv = drain_vars(t.vars, t.names, t.awaited);
        let k = choose|k: int| 0 <= k < dv.len() && dv[k] == item;
        assert(tracker_drained(t)[k] == item);
    } else {
        let j = choose|j: int| 0 <= j < t.unassigned.len() && (#[trigger] t.unassigned[j]).0 == sp;
        lemma_drain_unassigned_complete(t.unassigned, t.awaited, j);
        let du = drain_unassigned(t.unassigned, t.awaited);
        let k = choose|k: int| 0 <= k < du.len() && du[k] == t.unassigned[j];
        let dv = drain_vars(t.vars, t.names, t.awaited);
        assert(tracker_drained(t)[dv.len() + k] == t.unassigned[j]);
    }
}

/// Awaiting a variable awaits exactly the step call it holds: marking
/// by variable puts that span in the awaited set.
pub proof fn lemma_mark_var_awaits(t: TrackerV, v: Seq<char>)
    requires
        assoc_has(t.vars, v),
    ensures
        tracker_mark_var(t, v).awaited.contains(assoc_get(t.vars, v)),
{
}

/// Recording an assigned step call binds the variable to the span and
/// the span to its reporting name.
pub proof fn lemma_record_assigned_binds(t: TrackerV, v: Seq<char>, sp: Span, name: Seq<char>)
    ensures
        assoc_has(tracker_record_assigned(t, v, sp, name).vars, v),
        assoc_get(tracker_record_assigned(t, v, sp, name).vars, v) == sp,
        assoc_has(tracker_record_assigned(t, v, sp, name).names, sp),
        assoc_get(tracker_record_assigned(t, v, sp, name).names, sp) == name,
{
    lemma_upsert_get(t.vars, v, sp);
    lemma_upsert_get(t.names, sp, name);
}

/// A parameter's identity is classified exactly when its declared
/// type is literally the recognized step type and it binds one plain
/// resolved name: the parameter-list set holds precisely those
/// identities.
pub proof fn lemma_params_step_syms_iff(ps: Seq<Param>, s: u32)
    ensures
        params_step_syms(ps).contains(s) <==> exists|i: int|
            0 <= i < ps.len() && param_step_sym(#[trigger] ps[i]) == Some(s),
    decreases ps.len(),
{
    if ps.len() > 0 {
        lemma_params_step_syms_iff(ps.drop_first(), s);
        if params_step_syms(ps).contains(s) {
            if param_step_sym(ps[0]) == Some(s) {
                assert(0 <= 0 < ps.len() && param_step_sym(ps[0]) == Some(s));
            } else {
                assert(params_step_syms(ps.drop_first()).contains(s));
                let i = choose|i: int|
                    0 <= i < ps.drop_first().len() && param_step_sym(
                        #[trigger] ps.drop_first()[i],
                    ) == Some(s);
                assert(ps[i + 1] == ps.drop_first()[i]);
            }
        }
        if exists|i: int| 0 <= i < ps.len() && param_step_sym(#[trigger] ps[i]) == Some(s) {
            let i = choose|i: int| 0 <= i < ps.len() && param_step_sym(#[trigger] ps[i]) == Some(s);
            if i == 0 {
                assert(params_step_syms(ps).contains(s));
            } else {
                assert(ps.drop_first()[i - 1] == ps[i]);
                assert(params_step_syms(ps.drop_first()).contains(s));
            }
        }
    }
}

/// One tracker grown from another: no awaited mark is lost and no
/// unassigned record is lost or changed.
pub open spec fn tracker_extends(t: TrackerV, u: TrackerV) -> bool {
    &&& (forall|sp: Span| t.awaited.contains(sp) ==> u.awaited.contains(sp))
    &&& u.unassigned.len() >= t.unassigned.len()
    &&& (forall|j: int| 0 <= j < t.unassigned.len() ==> u.unassigned[j] == t.unassigned[j])
}

/// One traversal state grown from another by walking some subtree:
/// diagnostics are only appended, the callback stack is restored, the
/// tracker stack keeps its depth, every outer scope's tracker is
/// untouched, and the innermost scope's tracker only grows.
pub open spec fn extends_state(st: StateV, r: StateV) -> bool {
    &&& r.diags.len() >= st.diags.len()
    &&& (forall|j: int| 0 <= j < st.diags.len() ==> r.diags[j] == st.diags[j])
    &&& r.callbacks == st.callbacks
    &&& r.trackers.len() == st.trackers.len()
    &&& (forall|k: int| 0 <= k < st.trackers.len() - 1 ==> r.trackers[k] == st.trackers[k])
    &&& (st.trackers.len() > 0 ==> tracker_extends(st.trackers.last(), r.trackers.last()))
}

/// Growing is reflexive.
pub proof fn lemma_extends_refl(st: StateV)
    ensures
        extends_state(st, st),
{
}

/// Growing is transitive.
pub proof fn lemma_extends_trans(a: StateV, b: StateV, c: StateV)
    requires
        extends_state(a, b),
        extends_state(b, c),
    ensures
        extends_state(a, c),
{
}

/// Every single tracker operation on the innermost scope grows the
/// state.
proof fn lemma_ops_extend(st: StateV, v: Seq<char>, sp: Span, name: Seq<char>)
    ensures
        extends_state(st, st_mark_var(st, v)),
        extends_state(st, st_mark_span(st, sp)),
        extends_state(st, st_record_unassigned(st, sp, name)),
        extends_state(st, st_record_assigned(st, v, sp, name)),
{
    if st.trackers.len() > 0 {
        let t = st.trackers.last();
        assert(tracker_extends(t, tracker_mark_var(t, v)));
        assert(tracker_extends(t, tracker_mark_span(t, sp)));
        assert(tracker_extends(t, tracker_record_unassigned(t, sp, name)));
        assert(tracker_extends(t, tracker_record_assigned(t, v, sp, name)));
    }
}

/// Appending a diagnostic grows the state.
proof fn lemma_add_diag_extends(st: StateV, d: crate::diagnostics::DiagV)
    ensures
        extends_state(st, st_add_diag(st, d)),
{
    if st.trackers.len() > 0 {
        assert(tracker_extends(st.trackers.last(), st.trackers.last()));
    }
}

/// Marking a list of variables grows the state.
proof fn lemma_mark_vars_extends(st: StateV, names: Seq<Seq<char>>)
    ensures
        extends_state(st, mark_vars(st, names)),
    decreases names.len(),
{
    if names.len() == 0 {
        lemma_extends_refl(st);
    } else {
        lemma_ops_extend(st, names[0], Span { start: 0, end: 0 }, Seq::empty());
        lemma_mark_vars_extends(st_mark_var(st, names[0]), names.drop_first());
        lemma_extends_trans(st, st_mark_var(st, names[0]), mark_vars(st, names));
    }
}

/// The side effect of an await grows the state.
proof fn lemma_await_effect_extends(st: StateV, arg: Expr)
    ensures
        extends_state(st, await_effect(st, arg)),
{
    lemma_extends_refl(st);
    match arg {
        Expr::Ident { name, .. } => {
            lemma_ops_extend(st, name@, Span { start: 0, end: 0 }, Seq::empty());
        },
        Expr::Call { callee, args, .. } => {
            if crate::walk::is_promise_combinator(*callee) && args@.len() > 0 {
                match args@[0] {
                    Arg::Plain(e) => match e {
                        Expr::Array(elems) => {
                            lemma_mark_vars_extends(st, crate::walk::array_idents(elems@));
                        },
                        _ => {},
                    },
                    Arg::Spread(_) => {},
                }
            }
        },
        _ => {},
    }
}

/// A scope walked inside a fresh tracker grows the state: the scope's
/// own tracker is pushed, drained and dropped, and every already-open
/// scope comes out exactly as it went in.
proof fn lemma_scope_extends(ctx: CtxV, st: StateV, ss: Seq<Stmt>)
    ensures
        extends_state(st, st_pop_report(ctx, walk_stmts(ctx, st_push_tracker(st), ss))),
        st.trackers.len() > 0 ==> st_pop_report(
            ctx,
            walk_stmts(ctx, st_push_tracker(st), ss),
        ).trackers.last() == st.trackers.last(),
    decreases ss, 1int,
{
    let st1 = st_push_tracker(st);
    lemma_walk_stmts_extends(ctx, st1, ss);
    let w = walk_stmts(ctx, st1, ss);
    let r = st_pop_report(ctx, w);
    assert(w.trackers.len() == st.trackers.len() + 1);
    assert(r.trackers =~= w.trackers.drop_last());
    assert forall|k: int| 0 <= k < st.trackers.len() implies w.trackers[k] == st1.trackers[k] by {}
    assert forall|j: int| 0 <= j < st.diags.len() implies r.diags[j] == st.diags[j] by {
        assert(w.diags[j] == st.diags[j]);
        assert(r.diags[j] == w.diags[j]);
    }
    if st.trackers.len() > 0 {
        assert(r.trackers.last() == st.trackers.last());
        assert(tracker_extends(st.trackers.last(), r.trackers.last()));
    }
}

/// Walking a statement list grows the state.
pub proof fn lemma_walk_stmts_extends(ctx: CtxV, st: StateV, ss: Seq<Stmt>)
    ensures
        extends_state(st, walk_stmts(ctx, st, ss)),
    decreases ss, 0int,
{
    if ss.len() == 0 {
        lemma_extends_refl(st);
    } else {
        lemma_walk_stmt_extends(ctx, st, ss[0]);
        lemma_walk_stmts_extends(ctx, walk_stmt(ctx, st, ss[0]), ss.drop_first());
        lemma_extends_trans(st, walk_stmt(ctx, st, ss[0]), walk_stmts(ctx, st, ss));
    }
}

/// Walking a function body grows the state.
proof fn lemma_walk_fn_body_extends(ctx: CtxV, st: StateV, body: Option<Vec<Stmt>>)
    ensures
        extends_state(st, walk_fn_body(ctx, st, body)),
    decreases body, 0int,
{
    match body {
        Some(b) => {
            lemma_scope_extends(ctx, st, b@);
        },
        None => {
            lemma_extends_refl(st);
        },
    }
}

/// Walking one statement grows the state.
pub proof fn lemma_walk_stmt_extends(ctx: CtxV, st: StateV, s: Stmt)
    ensures
        extends_state(st, walk_stmt(ctx, st, s)),
    decreases s, 0int,
{
    lemma_extends_refl(st);
    match s {
        Stmt::Expr(e) => {
            lemma_walk_expr_extends(ctx, st, e, false);
        },
        Stmt::Var(ds) => {
            lemma_walk_declarators_extends(ctx, st, ds@);
        },
        Stmt::Func(f) => {
            lemma_walk_fn_body_extends(ctx, st, f.body);
        },
        Stmt::Class(c) => {
            lemma_walk_class_extends(ctx, st, c);
        },
        Stmt::Block(b) => {
            lemma_walk_stmts_extends(ctx, st, b@);
        },
        Stmt::If { test, consequent, alternate } => {
            lemma_walk_expr_extends(ctx, st, test, false);
            let st1 = walk_expr(ctx, st, test, false);
            lemma_walk_stmt_extends(ctx, st1, *consequent);
            let st2 = walk_stmt(ctx, st1, *consequent);
            lemma_extends_trans(st, st1, st2);
            match alternate {
                Some(alt) => {
                    lemma_walk_stmt_extends(ctx, st2, *alt);
                    lemma_extends_trans(st, st2, walk_stmt(ctx, st2, *alt));
                },
                None => {},
            }
        },
        Stmt::While { test, body } => {
            lemma_walk_expr_extends(ctx, st, test, false);
            let st1 = walk_expr(ctx, st, test, false);
            lemma_walk_stmt_extends(ctx, st1, *body);
            lemma_extends_trans(st, st1, walk_stmt(ctx, st1, *body));
        },
        Stmt::For { init, body } => {
            let st1 = match init {
                Some(ds) => walk_declarators(ctx, st, ds@),
                None => st,
            };
            match init {
                Some(ds) => {
                    lemma_walk_declarators_extends(ctx, st, ds@);
                },
                None => {},
            }
            lemma_walk_stmt_extends(ctx, st1, *body);
            lemma_extends_trans(st, st1, walk_stmt(ctx, st1, *body));
        },
        Stmt::ForIn { body } => {
            lemma_walk_stmt_extends(ctx, st, *body);
        },
        Stmt::ForOf { right, body } => {
            lemma_walk_expr_extends(ctx, st, right, false);
            let st1 = walk_expr(ctx, st, right, false);
            lemma_walk_stmt_extends(ctx, st1, *body);
            lemma_extends_trans(st, st1, walk_stmt(ctx, st1, *body));
        },
        Stmt::Return(arg) => {
            match arg {
                Some(e) => {
                    lemma_walk_expr_extends(ctx, st, e, false);
                },
                None => {},
            }
        },
        Stmt::Try { block, handler, finalizer } => {
            lemma_walk_stmts_extends(ctx, st, block@);
            let st1 = walk_stmts(ctx, st, block@);
            let st2 = match handler {
                Some(h) => walk_stmts(ctx, st1, h@),
                None => st1,
            };
            match handler {
                Some(h) => {
                    lemma_walk_stmts_extends(ctx, st1, h@);
                },
                None => {},
            }
            lemma_extends_trans(st, st1, st2);
            match finalizer {
                Some(f) => {
                    lemma_walk_stmts_extends(ctx, st2, f@);
                    lemma_extends_trans(st, st2, walk_stmts(ctx, st2, f@));
                },
                None => {},
            }
        },
        Stmt::Switch { discriminant, cases } => {
            lemma_walk_expr_extends(ctx, st, discriminant, false);
            let st1 = walk_expr(ctx, st, discriminant, false);
            lemma_walk_cases_extends(ctx, st1, cases@);
            lemma_extends_trans(st, st1, walk_cases(ctx, st1, cases@));
        },
        Stmt::ExportDefaultFunc(f) => {
            lemma_walk_fn_body_extends(ctx, st, f.body);
        },
        Stmt::ExportDefaultClass(c) => {
            lemma_walk_class_extends(ctx, st, c);
        },
        Stmt::ExportDefaultExpr(e) => {
            lemma_walk_expr_extends(ctx, st, e, false);
        },
        Stmt::ExportNamed(d) => {
            match d {
                Some(decl) => {
                    lemma_walk_decl_extends(ctx, st, decl);
                },
                None => {},
            }
        },
        _ => {},
    }
}

/// Walking the case lists of a switch grows the state.
proof fn lemma_walk_cases_extends(ctx: CtxV, st: StateV, cases: Seq<Vec<Stmt>>)
    ensures
        extends_state(st, walk_cases(ctx, st, cases)),
    decreases cases, 0int,
{
    if cases.len() == 0 {
        lemma_extends_refl(st);
    } else {
        lemma_walk_stmts_extends(ctx, st, cases[0]@);
        let st1 = walk_stmts(ctx, st, cases[0]@);
        lemma_walk_cases_extends(ctx, st1, cases.drop_first());
        lemma_extends_trans(st, st1, walk_cases(ctx, st1, cases.drop_first()));
    }
}

/// Walking an exported declaration grows the state.
proof fn lemma_walk_decl_extends(ctx: CtxV, st: StateV, d: Decl)
    ensures
        extends_state(st, walk_decl(ctx, st, d)),
    decreases d, 0int,
{
    lemma_extends_refl(st);
    match d {
        Decl::Func(f) => {
            lemma_walk_fn_body_extends(ctx, st, f.body);
        },
        Decl::Class(c) => {
            lemma_walk_class_extends(ctx, st, c);
        },
        Decl::Var(ds) => {
            lemma_walk_declarators_extends(ctx, st, ds@);
        },
        Decl::Other => {},
    }
}

/// Walking a declarator list grows the state.
proof fn lemma_walk_declarators_extends(ctx: CtxV, st: StateV, ds: Seq<Declarator>)
    ensures
        extends_state(st, walk_declarators(ctx, st, ds)),
    decreases ds, 0int,
{
    if ds.len() == 0 {
        lemma_extends_refl(st);
    } else {
        lemma_walk_declarator_extends(ctx, st, ds[0]);
        let st1 = walk_declarator(ctx, st, ds[0]);
        lemma_walk_declarators_extends(ctx, st1, ds.drop_first());
        lemma_extends_trans(st, st1, walk_declarators(ctx, st1, ds.drop_first()));
    }
}

/// Walking one declarator grows the state.
proof fn lemma_walk_declarator_extends(ctx: CtxV, st: StateV, d: Declarator)
    ensures
        extends_state(st, walk_declarator(ctx, st, d)),
    decreases d, 0int,
{
    lemma_extends_refl(st);
    match d.init {
        Some(init) => {
            match init {
                Expr::Call { callee, args, span } => {
                    if crate::walk::is_step_call(ctx, *callee) {
                        match d.pattern {
                            Pattern::Name { name, .. } => {
                                let st1 = st_record_assigned(
                                    st,
                                    name@,
                                    span,
                                    crate::walk::step_method_name(*callee),
                                );
                                lemma_ops_extend(
                                    st,
                                    name@,
                                    span,
                                    crate::walk::step_method_name(*callee),
                                );
                                lemma_walk_call_args_extends(ctx, st1, args@);
                                lemma_extends_trans(st, st1, walk_call_args(ctx, st1, args@));
                            },
                            Pattern::Other => {
                                lemma_walk_expr_extends(ctx, st, init, false);
                            },
                        }
                    } else {
                        lemma_walk_expr_extends(ctx, st, init, false);
                    }
                },
                _ => {
                    lemma_walk_expr_extends(ctx, st, init, false);
                },
            }
        },
        None => {},
    }
}

/// Walking a class grows the state.
proof fn lemma_walk_class_extends(ctx: CtxV, st: StateV, c: Class)
    ensures
        extends_state(st, walk_class(ctx, st, c)),
    decreases c, 1int,
{
    lemma_walk_class_elems_extends(ctx, st, c.body@);
}

/// Walking a class-element list grows the state.
proof fn lemma_walk_class_elems_extends(ctx: CtxV, st: StateV, es: Seq<ClassElement>)
    ensures
        extends_state(st, walk_class_elems(ctx, st, es)),
    decreases es, 0int,
{
    if es.len() == 0 {
        lemma_extends_refl(st);
    } else {
        let st1 = match es[0] {
            ClassElement::Method { value, .. } => walk_fn_body(ctx, st, value.body),
            ClassElement::Property { init } => match init {
                Some(e) => walk_expr(ctx, st, e, false),
                None => st,
            },
            ClassElement::StaticBlock(b) => st_pop_report(
                ctx,
                walk_stmts(ctx, st_push_tracker(st), b@),
            ),
            ClassElement::Other => st,
        };
        lemma_extends_refl(st);
        match es[0] {
            ClassElement::Method { value, .. } => {
                lemma_walk_fn_body_extends(ctx, st, value.body);
            },
            ClassElement::Property { init } => {
                match init {
                    Some(e) => {
                        lemma_walk_expr_extends(ctx, st, e, false);
                    },
                    None => {},
                }
            },
            ClassElement::StaticBlock(b) => {
                lemma_scope_extends(ctx, st, b@);
            },
            ClassElement::Other => {},
        }
        lemma_walk_class_elems_extends(ctx, st1, es.drop_first());
        lemma_extends_trans(st, st1, walk_class_elems(ctx, st1, es.drop_first()));
    }
}

/// Walking a call-argument list grows the state.
proof fn lemma_walk_call_args_extends(ctx: CtxV, st: StateV, args: Seq<Arg>)
    ensures
        extends_state(st, walk_call_args(ctx, st, args)),
    decreases args, 0int,
{
    if args.len() == 0 {
        lemma_extends_refl(st);
    } else {
        let st1 = match args[0] {
            Arg::Spread(e) => walk_expr(ctx, st, e, false),
            Arg::Plain(e) => walk_expr(ctx, st, e, false),
        };
        match args[0] {
            Arg::Spread(e) => {
                lemma_walk_expr_extends(ctx, st, e, false);
            },
            Arg::Plain(e) => {
                lemma_walk_expr_extends(ctx, st, e, false);
            },
        }
        lemma_walk_call_args_extends(ctx, st1, args.drop_first());
        lemma_extends_trans(st, st1, walk_call_args(ctx, st1, args.drop_first()));
    }
}

/// Walking the arguments of a step `do` call grows the state; the
/// callback context pushed for the callback argument is popped again.
proof fn lemma_walk_do_args_extends(ctx: CtxV, st: StateV, args: Seq<Arg>, pos: int, m: Seq<char>)
    ensures
        extends_state(st, walk_do_args(ctx, st, args, pos, m)),
    decreases args, 0int,
{
    if args.len() == 0 {
        lemma_extends_refl(st);
    } else {
        let st1 = match args[0] {
            Arg::Plain(e) => if pos == 1 {
                st_pop_callback(walk_expr(ctx, st_push_callback(st, m), e, false))
            } else {
                walk_expr(ctx, st, e, false)
            },
            Arg::Spread(e) => walk_expr(ctx, st, e, false),
        };
        match args[0] {
            Arg::Plain(e) => {
                if pos == 1 {
                    let pushed = st_push_callback(st, m);
                    lemma_walk_expr_extends(ctx, pushed, e, false);
                    let w = walk_expr(ctx, pushed, e, false);
                    assert(w.callbacks == pushed.callbacks);
                    assert(st_pop_callback(w).callbacks =~= st.callbacks);
                    assert(extends_state(st, st1));
                } else {
                    lemma_walk_expr_extends(ctx, st, e, false);
                }
            },
            Arg::Spread(e) => {
                lemma_walk_expr_extends(ctx, st, e, false);
            },
        }
        lemma_walk_do_args_extends(ctx, st1, args.drop_first(), pos + 1, m);
        lemma_extends_trans(st, st1, walk_do_args(ctx, st1, args.drop_first(), pos + 1, m));
    }
}

/// Walking the arguments of a `new` expression grows the state.
proof fn lemma_walk_new_args_extends(ctx: CtxV, st: StateV, args: Seq<Arg>)
    ensures
        extends_state(st, walk_new_args(ctx, st, args)),
    decreases args, 0int,
{
    if args.len() == 0 {
        lemma_extends_refl(st);
    } else {
        let st1 = match args[0] {
            Arg::Plain(e) => walk_expr(ctx, st, e, false),
            Arg::Spread(_) => st,
        };
        lemma_extends_refl(st);
        match args[0] {
            Arg::Plain(e) => {
                lemma_walk_expr_extends(ctx, st, e, false);
            },
            Arg::Spread(_) => {},
        }
        lemma_walk_new_args_extends(ctx, st1, args.drop_first());
        lemma_extends_trans(st, st1, walk_new_args(ctx, st1, args.drop_first()));
    }
}

/// Walking array elements grows the state.
proof fn lemma_walk_array_elems_extends(ctx: CtxV, st: StateV, elems: Seq<ArrayElem>, aw: bool)
    ensures
        extends_state(st, walk_array_elems(ctx, st, elems, aw)),
    decreases elems, 0int,
{
    if elems.len() == 0 {
        lemma_extends_refl(st);
    } else {
        let st1 = match elems[0] {
            ArrayElem::Spread(e) => walk_expr(ctx, st, e, aw),
            ArrayElem::Plain(e) => walk_expr(ctx, st, e, aw),
            ArrayElem::Elision => st,
        };
        lemma_extends_refl(st);
        match elems[0] {
            ArrayElem::Spread(e) => {
                lemma_walk_expr_extends(ctx, st, e, aw);
            },
            ArrayElem::Plain(e) => {
                lemma_walk_expr_extends(ctx, st, e, aw);
            },
            ArrayElem::Elision => {},
        }
        lemma_walk_array_elems_extends(ctx, st1, elems.drop_first(), aw);
        lemma_extends_trans(st, st1, walk_array_elems(ctx, st1, elems.drop_first(), aw));
    }
}

/// Walking object properties grows the state.
proof fn lemma_walk_props_extends(ctx: CtxV, st: StateV, props: Seq<Prop>)
    ensures
        extends_state(st, walk_props(ctx, st, props)),
    decreases props, 0int,
{
    if props.len() == 0 {
        lemma_extends_refl(st);
    } else {
        let st1 = match props[0] {
            Prop::Property { value } => walk_expr(ctx, st, value, false),
            Prop::Spread(e) => walk_expr(ctx, st, e, false),
        };
        match props[0] {
            Prop::Property { value } => {
                lemma_walk_expr_extends(ctx, st, value, false);
            },
            Prop::Spread(e) => {
                lemma_walk_expr_extends(ctx, st, e, false);
            },
        }
        lemma_walk_props_extends(ctx, st1, props.drop_first());
        lemma_extends_trans(st, st1, walk_props(ctx, st1, props.drop_first()));
    }
}

/// Walking sequence-expression elements grows the state.
proof fn lemma_walk_seq_exprs_extends(ctx: CtxV, st: StateV, es: Seq<Expr>, aw: bool)
    ensures
        extends_state(st, walk_seq_exprs(ctx, st, es, aw)),
    decreases es, 0int,
{
    if es.len() == 0 {
        lemma_extends_refl(st);
    } else if es.len() == 1 {
        lemma_walk_expr_extends(ctx, st, es[0], aw);
    } else {
        lemma_walk_expr_extends(ctx, st, es[0], false);
        let st1 = walk_expr(ctx, st, es[0], false);
        lemma_walk_seq_exprs_extends(ctx, st1, es.drop_first(), aw);
        lemma_extends_trans(st, st1, walk_seq_exprs(ctx, st1, es.drop_first(), aw));
    }
}

/// Walking template-literal expressions grows the state.
proof fn lemma_walk_template_extends(ctx: CtxV, st: StateV, es: Seq<Expr>)
    ensures
        extends_state(st, walk_template(ctx, st, es)),
    decreases es, 0int,
{
    if es.len() == 0 {
        lemma_extends_refl(st);
    } else {
        lemma_walk_expr_extends(ctx, st, es[0], false);
        let st1 = walk_expr(ctx, st, es[0], false);
        lemma_walk_template_extends(ctx, st1, es.drop_first());
        lemma_extends_trans(st, st1, walk_template(ctx, st1, es.drop_first()));
    }
}

/// Walking any expression grows the state: diagnostics are only
/// appended, the stacks balance, and recorded facts persist.
pub proof fn lemma_walk_expr_extends(ctx: CtxV, st: StateV, e: Expr, aw: bool)
    ensures
        extends_state(st, walk_expr(ctx, st, e, aw)),
    decreases e, 2int,
{
    lemma_extends_refl(st);
    match e {
        Expr::Await(inner) => {
            lemma_await_effect_extends(st, *inner);
            let st1 = await_effect(st, *inner);
            lemma_walk_expr_extends(ctx, st1, *inner, true);
            lemma_extends_trans(st, st1, walk_expr(ctx, st1, *inner, true));
        },
        Expr::Call { callee, args, span } => {
            if crate::walk::is_step_call(ctx, *callee) {
                let name = crate::walk::step_method_name(*callee);
                let st1 = if st.callbacks.len() > 0 {
                    st_add_diag(
                        st,
                        crate::diagnostics::diag_at(
                            ctx.file,
                            ctx.src,
                            span,
                            crate::diagnostics::nested_msg(name, st.callbacks.last()),
                            "nested-step"@,
                        ),
                    )
                } else {
                    st
                };
                if st.callbacks.len() > 0 {
                    lemma_add_diag_extends(
                        st,
                        crate::diagnostics::diag_at(
                            ctx.file,
                            ctx.src,
                            span,
                            crate::diagnostics::nested_msg(name, st.callbacks.last()),
                            "nested-step"@,
                        ),
                    );
                }
                let st2 = if aw {
                    st_mark_span(st1, span)
                } else {
                    st_record_unassigned(st1, span, name)
                };
                lemma_ops_extend(st1, Seq::empty(), span, name);
                lemma_extends_trans(st, st1, st2);
                if crate::walk::is_step_do(ctx, *callee) {
                    lemma_walk_do_args_extends(ctx, st2, args@, 0, name);
                    lemma_extends_trans(st, st2, walk_do_args(ctx, st2, args@, 0, name));
                } else {
                    lemma_walk_call_args_extends(ctx, st2, args@);
                    lemma_extends_trans(st, st2, walk_call_args(ctx, st2, args@));
                }
            } else if aw && crate::walk::is_promise_combinator(*callee) {
                lemma_walk_expr_extends(ctx, st, *callee, false);
                let st1 = walk_expr(ctx, st, *callee, false);
                if args@.len() > 0 {
                    match args@[0] {
                        Arg::Plain(first) => {
                            lemma_walk_expr_extends(ctx, st1, first, true);
                            lemma_extends_trans(st, st1, walk_expr(ctx, st1, first, true));
                        },
                        Arg::Spread(_) => {},
                    }
                }
            } else {
                lemma_walk_expr_extends(ctx, st, *callee, false);
                let st1 = walk_expr(ctx, st, *callee, false);
                lemma_walk_call_args_extends(ctx, st1, args@);
                lemma_extends_trans(st, st1, walk_call_args(ctx, st1, args@));
            }
        },
        Expr::Arrow { body, .. } => {
            lemma_scope_extends(ctx, st, body@);
        },
        Expr::Func(f) => {
            lemma_walk_fn_body_extends(ctx, st, f.body);
        },
        Expr::ClassExpr(c) => {
            lemma_walk_class_extends(ctx, st, c);
        },
        Expr::Array(elems) => {
            lemma_walk_array_elems_extends(ctx, st, elems@, aw);
        },
        Expr::Object(props) => {
            lemma_walk_props_extends(ctx, st, props@);
        },
        Expr::Conditional { test, consequent, alternate } => {
            lemma_walk_expr_extends(ctx, st, *test, false);
            let st1 = walk_expr(ctx, st, *test, false);
            lemma_walk_expr_extends(ctx, st1, *consequent, aw);
            let st2 = walk_expr(ctx, st1, *consequent, aw);
            lemma_extends_trans(st, st1, st2);
            lemma_walk_expr_extends(ctx, st2, *alternate, aw);
            lemma_extends_trans(st, st2, walk_expr(ctx, st2, *alternate, aw));
        },
        Expr::Binary { left, right } => {
            lemma_walk_expr_extends(ctx, st, *left, false);
            let st1 = walk_expr(ctx, st, *left, false);
            lemma_walk_expr_extends(ctx, st1, *right, false);
            lemma_extends_trans(st, st1, walk_expr(ctx, st1, *right, false));
        },
        Expr::Logical { left, right } => {
            lemma_walk_expr_extends(ctx, st, *left, false);
            let st1 = walk_expr(ctx, st, *left, false);
            lemma_walk_expr_extends(ctx, st1, *right, false);
            lemma_extends_trans(st, st1, walk_expr(ctx, st1, *right, false));
        },
        Expr::Assign { right } => {
            lemma_walk_expr_extends(ctx, st, *right, false);
        },
        Expr::Sequence(es) => {
            lemma_walk_seq_exprs_extends(ctx, st, es@, aw);
        },
        Expr::Paren(inner) => {
            lemma_walk_expr_extends(ctx, st, *inner, aw);
        },
        Expr::Unary(arg) => {
            lemma_walk_expr_extends(ctx, st, *arg, false);
        },
        Expr::New { callee, args } => {
            lemma_walk_expr_extends(ctx, st, *callee, false);
            let st1 = walk_expr(ctx, st, *callee, false);
            lemma_walk_new_args_extends(ctx, st1, args@);
            lemma_extends_trans(st, st1, walk_new_args(ctx, st1, args@));
        },
        Expr::StaticMember { object, .. } => {
            lemma_walk_expr_extends(ctx, st, *object, false);
        },
        Expr::ComputedMember { object, index } => {
            lemma_walk_expr_extends(ctx, st, *object, false);
            let st1 = walk_expr(ctx, st, *object, false);
            lemma_walk_expr_extends(ctx, st1, *index, false);
            lemma_extends_trans(st, st1, walk_expr(ctx, st1, *index, false));
        },
        Expr::PrivateField { object } => {
            lemma_walk_expr_extends(ctx, st, *object, false);
        },
        Expr::TaggedTemplate { tag } => {
            lemma_walk_expr_extends(ctx, st, *tag, false);
        },
        Expr::Template(es) => {
            lemma_walk_template_extends(ctx, st, es@);
        },
        Expr::Yield(arg) => {
            match arg {
                Some(a) => {
                    lemma_walk_expr_extends(ctx, st, *a, false);
                },
                None => {},
            }
        },
        _ => {},
    }
}

/// Whether `target` sits in directly-awaited position inside `e`:
/// `e` is `target` itself, or reaches it through any nesting of
/// parentheses, conditional branches, and last-of-sequence positions.
pub open spec fn direct_operand(e: Expr, target: Expr) -> bool
    decreases e,
{
    ||| e == target
    ||| match e {
        Expr::Paren(inner) => direct_operand(*inner, target),
        Expr::Conditional { consequent, alternate, .. } => direct_operand(*consequent, target)
            || direct_operand(*alternate, target),
        Expr::Sequence(es) => es@.len() > 0 && direct_operand(es@.last(), target),
        _ => false,
    }
}

/// Whether an expression is a step call, and which span it carries.
pub open spec fn is_step_call_expr(ctx: CtxV, call: Expr, sp: Span) -> bool {
    match call {
        Expr::Call { callee, span, .. } => crate::walk::is_step_call(ctx, *callee) && span == sp,
        _ => false,
    }
}

/// A step call walked in directly-awaited position ends with its span
/// in the enclosing scope's awaited set.
proof fn law_direct_operand_marked_seq(ctx: CtxV, st: StateV, es: Seq<Expr>, call: Expr, sp: Span)
    requires
        st.trackers.len() > 0,
        is_step_call_expr(ctx, call, sp),
        es.len() > 0,
        direct_operand(es.last(), call),
    ensures
        walk_seq_exprs(ctx, st, es, true).trackers.len() == st.trackers.len(),
        walk_seq_exprs(ctx, st, es, true).trackers.last().awaited.contains(sp),
    decreases es, 1int,
{
    if es.len() == 1 {
        law_direct_operand_marked(ctx, st, es[0], call, sp);
    } else {
        lemma_walk_expr_extends(ctx, st, es[0], false);
        let st1 = walk_expr(ctx, st, es[0], false);
        assert(es.drop_first().last() == es.last());
        law_direct_operand_marked_seq(ctx, st1, es.drop_first(), call, sp);
    }
}

/// A step call walked with the awaited flag set — reached through any
/// nesting of parentheses, conditional branches and last-of-sequence
/// positions — is marked awaited in the enclosing scope, and the mark
/// survives the rest of the node's walk.
pub proof fn law_direct_operand_marked(ctx: CtxV, st: StateV, e: Expr, call: Expr, sp: Span)
    requires
        st.trackers.len() > 0,
        is_step_call_expr(ctx, call, sp),
        direct_operand(e, call),
    ensures
        walk_expr(ctx, st, e, true).trackers.len() == st.trackers.len(),
        walk_expr(ctx, st, e, true).trackers.last().awaited.contains(sp),
    decreases e, 2int,
{
    lemma_walk_expr_extends(ctx, st, e, true);
    if e == call {
        match e {
            Expr::Call { callee, args, span } => {
                let name = crate::walk::step_method_name(*callee);
                let st1 = if st.callbacks.len() > 0 {
                    st_add_diag(
                        st,
                        crate::diagnostics::diag_at(
                            ctx.file,
                            ctx.src,
                            span,
                            crate::diagnostics::nested_msg(name, st.callbacks.last()),
                            "nested-step"@,
                        ),
                    )
                } else {
                    st
                };
                let st2 = st_mark_span(st1, span);
                assert(st2.trackers.last().awaited.contains(sp));
                if crate::walk::is_step_do(ctx, *callee) {
                    lemma_walk_do_args_extends(ctx, st2, args@, 0, name);
                } else {
                    lemma_walk_call_args_extends(ctx, st2, args@);
                }
            },
            _ => {},
        }
    } else {
        match e {
            Expr::Paren(inner) => {
                law_direct_operand_marked(ctx, st, *inner, call, sp);
            },
            Expr::Conditional { test, consequent, alternate } => {
                lemma_walk_expr_extends(ctx, st, *test, false);
                let st1 = walk_expr(ctx, st, *test, false);
                if direct_operand(*consequent, call) {
                    law_direct_operand_marked(ctx, st1, *consequent, call, sp);
                    let st2 = walk_expr(ctx, st1, *consequent, true);
                    lemma_walk_expr_extends(ctx, st2, *alternate, true);
                } else {
                    lemma_walk_expr_extends(ctx, st1, *consequent, true);
                    let st2 = walk_expr(ctx, st1, *consequent, true);
                    law_direct_operand_marked(ctx, st2, *alternate, call, sp);
                }
            },
            Expr::Sequence(es) => {
                law_direct_operand_marked_seq(ctx, st, es@, call, sp);
            },
            _ => {},
        }
    }
}

/// A step call that is the direct operand of an `await` — through any
/// nesting of parentheses, conditional branches and last-of-sequence
/// positions — never yields a must-be-awaited diagnostic from the
/// scope it was awaited in: the await marks its span, the mark is
/// never lost, and the drain never reports a marked span.
pub proof fn law_awaited_step_not_reported(ctx: CtxV, st: StateV, awaited: Expr, call: Expr, sp: Span)
    requires
        st.trackers.len() > 0,
        is_step_call_expr(ctx, call, sp),
        match awaited {
            Expr::Await(operand) => direct_operand(*operand, call),
            _ => false,
        },
    ensures
        ({
            let r = walk_expr(ctx, st, awaited, true);
            &&& r.trackers.len() == st.trackers.len()
            &&& r.trackers.last().awaited.contains(sp)
            &&& forall|j: int|
                0 <= j < tracker_drained(r.trackers.last()).len() ==> (#[trigger] tracker_drained(
                    r.trackers.last(),
                )[j]).0 != sp
        }),
{
    match awaited {
        Expr::Await(operand) => {
            let st1 = await_effect(st, *operand);
            lemma_await_effect_extends(st, *operand);
            law_direct_operand_marked(ctx, st1, *operand, call, sp);
            let r = walk_expr(ctx, st1, *operand, true);
            lemma_drained_excludes_awaited(r.trackers.last());
        },
        _ => {},
    }
}

/// An awaited mark persists to the end of its scope: whatever
/// statements follow before the scope closes, the marked span stays
/// in the awaited set and the scope's drain never reports it.
pub proof fn law_awaited_mark_persists(ctx: CtxV, st: StateV, rest: Seq<Stmt>, sp: Span)
    requires
        st.trackers.len() > 0,
        st.trackers.last().awaited.contains(sp),
    ensures
        ({
            let r = walk_stmts(ctx, st, rest);
            &&& r.trackers.len() == st.trackers.len()
            &&& r.trackers.last().awaited.contains(sp)
            &&& forall|j: int|
                0 <= j < tracker_drained(r.trackers.last()).len() ==> (#[trigger] tracker_drained(
                    r.trackers.last(),
                )[j]).0 != sp
        }),
{
    lemma_walk_stmts_extends(ctx, st, rest);
    lemma_drained_excludes_awaited(walk_stmts(ctx, st, rest).trackers.last());
}

/// A bare step call walked without the awaited flag is recorded in
/// the enclosing scope's unassigned list, under its reporting name,
/// and the record survives the rest of the node's walk; if its span
/// is still absent from the awaited set when the scope closes, it is
/// drained (`lemma_drained_complete`), and the drain reports nothing
/// that was marked awaited (`lemma_drained_excludes_awaited`).
pub proof fn law_bare_step_recorded(ctx: CtxV, st: StateV, call: Expr, sp: Span)
    requires
        st.trackers.len() > 0,
        is_step_call_expr(ctx, call, sp),
    ensures
        ({
            let r = walk_expr(ctx, st, call, false);
            &&& r.trackers.len() == st.trackers.len()
            &&& exists|j: int|
                0 <= j < r.trackers.last().unassigned.len() && (
                #[trigger] r.trackers.last().unassigned[j]) == (
                    sp,
                    match call {
                        Expr::Call { callee, .. } => crate::walk::step_method_name(*callee),
                        _ => Seq::<char>::empty(),
                    },
                )
        }),
{
    match call {
        Expr::Call { callee, args, span } => {
            let name = crate::walk::step_method_name(*callee);
            let st1 = if st.callbacks.len() > 0 {
                st_add_diag(
                    st,
                    crate::diagnostics::diag_at(
                        ctx.file,
                        ctx.src,
                        span,
                        crate::diagnostics::nested_msg(name, st.callbacks.last()),
                        "nested-step"@,
                    ),
                )
            } else {
                st
            };
            let st2 = st_record_unassigned(st1, span, name);
            let idx = st1.trackers.last().unassigned.len();
            assert(st2.trackers.last().unassigned[idx as int] == (sp, name));
            if crate::walk::is_step_do(ctx, *callee) {
                lemma_walk_do_args_extends(ctx, st2, args@, 0, name);
            } else {
                lemma_walk_call_args_extends(ctx, st2, args@);
            }
            let r = walk_expr(ctx, st, call, false);
            assert(r.trackers.last().unassigned[idx as int] == (sp, name));
        },
        _ => {},
    }
}

/// A step call walked under at least one enclosing step-callback
/// context reports itself exactly once at its own node, whatever the
/// awaited flag: the first diagnostic the node appends is the
/// nested-step diagnostic naming this call and the innermost
/// enclosing method, and the rest of the walk never changes an
/// appended diagnostic.
pub proof fn law_nested_step_reported(ctx: CtxV, st: StateV, call: Expr, sp: Span, aw: bool)
    requires
        st.callbacks.len() > 0,
        is_step_call_expr(ctx, call, sp),
    ensures
        ({
            let r = walk_expr(ctx, st, call, aw);
            &&& r.diags.len() > st.diags.len()
            &&& r.diags[st.diags.len() as int] == crate::diagnostics::diag_at(
                ctx.file,
                ctx.src,
                sp,
                crate::diagnostics::nested_msg(
                    match call {
                        Expr::Call { callee, .. } => crate::walk::step_method_name(*callee),
                        _ => Seq::<char>::empty(),
                    },
                    st.callbacks.last(),
                ),
                "nested-step"@,
            )
        }),
{
    match call {
        Expr::Call { callee, args, span } => {
            let name = crate::walk::step_method_name(*callee);
            let d = crate::diagnostics::diag_at(
                ctx.file,
                ctx.src,
                span,
                crate::diagnostics::nested_msg(name, st.callbacks.last()),
                "nested-step"@,
            );
            let st1 = st_add_diag(st, d);
            assert(st1.diags[st.diags.len() as int] == d);
            let st2 = if aw {
                st_mark_span(st1, span)
            } else {
                st_record_unassigned(st1, span, name)
            };
            lemma_ops_extend(st1, Seq::empty(), span, name);
            if crate::walk::is_step_do(ctx, *callee) {
                lemma_walk_do_args_extends(ctx, st2, args@, 0, name);
                lemma_extends_trans(st1, st2, walk_do_args(ctx, st2, args@, 0, name));
            } else {
                lemma_walk_call_args_extends(ctx, st2, args@);
                lemma_extends_trans(st1, st2, walk_call_args(ctx, st2, args@));
            }
        },
        _ => {},
    }
}

/// Awaiting a variable as a bare identifier marks exactly the step
/// call the variable holds in the enclosing scope, and the mark makes
/// the drain skip that span.
pub proof fn law_await_var_marks(ctx: CtxV, st: StateV, awaited: Expr, v: Seq<char>, sp: Span)
    requires
        st.trackers.len() > 0,
        assoc_has(st.trackers.last().vars, v),
        assoc_get(st.trackers.last().vars, v) == sp,
        match awaited {
            Expr::Await(operand) => match *operand {
                Expr::Ident { name, .. } => name@ == v,
                _ => false,
            },
            _ => false,
        },
    ensures
        ({
            let r = walk_expr(ctx, st, awaited, true);
            &&& r.trackers.len() == st.trackers.len()
            &&& r.trackers.last().awaited.contains(sp)
            &&& forall|j: int|
                0 <= j < tracker_drained(r.trackers.last()).len() ==> (#[trigger] tracker_drained(
                    r.trackers.last(),
                )[j]).0 != sp
        }),
{
    match awaited {
        Expr::Await(operand) => {
            lemma_mark_var_awaits(st.trackers.last(), v);
            let st1 = await_effect(st, *operand);
            let r = walk_expr(ctx, st1, *operand, true);
            lemma_drained_excludes_awaited(r.trackers.last());
        },
        _ => {},
    }
}

/// A variable rebound by a later recording keeps only its newest
/// span: recording is an upsert, so lookup after recording yields the
/// new span and every other variable's binding is untouched.
pub proof fn law_rebinding_overwrites(t: TrackerV, v: Seq<char>, sp: Span, name: Seq<char>, v2: Seq<char>)
    requires
        v2 != v,
    ensures
        assoc_get(tracker_record_assigned(t, v, sp, name).vars, v) == sp,
        assoc_has(t.vars, v2) ==> assoc_get(tracker_record_assigned(t, v, sp, name).vars, v2)
            == assoc_get(t.vars, v2),
{
    lemma_upsert_get(t.vars, v, sp);
    crate::assoc::lemma_upsert_other(t.vars, v, sp, v2);
}

/// Whether an expression contains no step call under this
/// classification. Calls on an object merely named like the step
/// qualifier, whose identity was never classified, are step-free.
pub open spec fn expr_step_free(ctx: CtxV, e: Expr) -> bool
    decreases e,
{
    match e {
        Expr::Call { callee, args, .. } => !crate::walk::is_step_call(ctx, *callee)
            && expr_step_free(ctx, *callee) && args_step_free(ctx, args@),
        Expr::Await(inner) => expr_step_free(ctx, *inner),
        Expr::Arrow { body, .. } => stmts_step_free(ctx, body@),
        Expr::Func(f) => fn_body_step_free(ctx, f.body),
        Expr::ClassExpr(c) => class_elems_step_free(ctx, c.body@),
        Expr::Array(elems) => array_elems_step_free(ctx, elems@),
        Expr::Object(props) => props_step_free(ctx, props@),
        Expr::Conditional { test, consequent, alternate } => expr_step_free(ctx, *test)
            && expr_step_free(ctx, *consequent) && expr_step_free(ctx, *alternate),
        Expr::Binary { left, right } => expr_step_free(ctx, *left) && expr_step_free(ctx, *right),
        Expr::Logical { left, right } => expr_step_free(ctx, *left) && expr_step_free(ctx, *right),
        Expr::Assign { right } => expr_step_free(ctx, *right),
        Expr::Sequence(es) => exprs_step_free(ctx, es@),
        Expr::Paren(inner) => expr_step_free(ctx, *inner),
        Expr::Unary(arg) => expr_step_free(ctx, *arg),
        Expr::New { callee, args } => expr_step_free(ctx, *callee) && args_step_free(ctx, args@),
        Expr::StaticMember { object, .. } => expr_step_free(ctx, *object),
        Expr::ComputedMember { object, index } => expr_step_free(ctx, *object) && expr_step_free(
            ctx,
            *index,
        ),
        Expr::PrivateField { object } => expr_step_free(ctx, *object),
        Expr::TaggedTemplate { tag } => expr_step_free(ctx, *tag),
        Expr::Template(es) => exprs_step_free(ctx, es@),
        Expr::Yield(arg) => match arg {
            Some(a) => expr_step_free(ctx, *a),
            None => true,
        },
        _ => true,
    }
}

pub open spec fn exprs_step_free(ctx: CtxV, es: Seq<Expr>) -> bool
    decreases es,
{
    if es.len() == 0 {
        true
    } else {
        expr_step_free(ctx, es[0]) && exprs_step_free(ctx, es.drop_first())
    }
}

pub open spec fn args_step_free(ctx: CtxV, args: Seq<Arg>) -> bool
    decreases args,
{
    if args.len() == 0 {
        true
    } else {
        (match args[0] {
            Arg::Spread(e) => expr_step_free(ctx, e),
            Arg::Plain(e) => expr_step_free(ctx, e),
        }) && args_step_free(ctx, args.drop_first())
    }
}

pub open spec fn array_elems_step_free(ctx: CtxV, elems: Seq<ArrayElem>) -> bool
    decreases elems,
{
    if elems.len() == 0 {
        true
    } else {
        (match elems[0] {
            ArrayElem::Spread(e) => expr_step_free(ctx, e),
            ArrayElem::Plain(e) => expr_step_free(ctx, e),
            ArrayElem::Elision => true,
        }) && array_elems_step_free(ctx, elems.drop_first())
    }
}

pub open spec fn props_step_free(ctx: CtxV, props: Seq<Prop>) -> bool
    decreases props,
{
    if props.len() == 0 {
        true
    } else {
        (match props[0] {
            Prop::Property { value } => expr_step_free(ctx, value),
            Prop::Spread(e) => expr_step_free(ctx, e),
        }) && props_step_free(ctx, props.drop_first())
    }
}

pub open spec fn fn_body_step_free(ctx: CtxV, body: Option<Vec<Stmt>>) -> bool
    decreases body,
{
    match body {
        Some(b) => stmts_step_free(ctx, b@),
        None => true,
    }
}

pub open spec fn declarators_step_free(ctx: CtxV, ds: Seq<Declarator>) -> bool
    decreases ds,
{
    if ds.len() == 0 {
        true
    } else {
        (match ds[0].init {
            Some(init) => expr_step_free(ctx, init),
            None => true,
        }) && declarators_step_free(ctx, ds.drop_first())
    }
}

pub open spec fn class_elems_step_free(ctx: CtxV, es: Seq<ClassElement>) -> bool
    decreases es,
{
    if es.len() == 0 {
        true
    } else {
        (match es[0] {
            ClassElement::Method { value, .. } => fn_body_step_free(ctx, value.body),
            ClassElement::Property { init } => match init {
                Some(e) => expr_step_free(ctx, e),
                None => true,
            },
            ClassElement::StaticBlock(b) => stmts_step_free(ctx, b@),
            ClassElement::Other => true,
        }) && class_elems_step_free(ctx, es.drop_first())
    }
}

pub open spec fn decl_step_free(ctx: CtxV, d: Decl) -> bool
    decreases d,
{
    match d {
        Decl::Func(f) => fn_body_step_free(ctx, f.body),
        Decl::Class(c) => class_elems_step_free(ctx, c.body@),
        Decl::Var(ds) => declarators_step_free(ctx, ds@),
        Decl::Other => true,
    }
}

pub open spec fn cases_step_free(ctx: CtxV, cases: Seq<Vec<Stmt>>) -> bool
    decreases cases,
{
    if cases.len() == 0 {
        true
    } else {
        stmts_step_free(ctx, cases[0]@) && cases_step_free(ctx, cases.drop_first())
    }
}

pub open spec fn stmt_step_free(ctx: CtxV, s: Stmt) -> bool
    decreases s,
{
    match s {
        Stmt::Expr(e) => expr_step_free(ctx, e),
        Stmt::Var(ds) => declarators_step_free(ctx, ds@),
        Stmt::Func(f) => fn_body_step_free(ctx, f.body),
        Stmt::Class(c) => class_elems_step_free(ctx, c.body@),
        Stmt::Block(b) => stmts_step_free(ctx, b@),
        Stmt::If { test, consequent, alternate } => expr_step_free(ctx, test) && stmt_step_free(
            ctx,
            *consequent,
        ) && (match alternate {
            Some(alt) => stmt_step_free(ctx, *alt),
            None => true,
        }),
        Stmt::While { test, body } => expr_step_free(ctx, test) && stmt_step_free(ctx, *body),
        Stmt::For { init, body } => (match init {
            Some(ds) => declarators_step_free(ctx, ds@),
            None => true,
        }) && stmt_step_free(ctx, *body),
        Stmt::ForIn { body } => stmt_step_free(ctx, *body),
        Stmt::ForOf { right, body } => expr_step_free(ctx, right) && stmt_step_free(ctx, *body),
        Stmt::Return(arg) => match arg {
            Some(e) => expr_step_free(ctx, e),
            None => true,
        },
        Stmt::Try { block, handler, finalizer } => stmts_step_free(ctx, block@) && (match handler {
            Some(h) => stmts_step_free(ctx, h@),
            None => true,
        }) && (match finalizer {
            Some(f) => stmts_step_free(ctx, f@),
            None => true,
        }),
        Stmt::Switch { discriminant, cases } => expr_step_free(ctx, discriminant)
            && cases_step_free(ctx, cases@),
        Stmt::ExportDefaultFunc(f) => fn_body_step_free(ctx, f.body),
        Stmt::ExportDefaultClass(c) => class_elems_step_free(ctx, c.body@),
        Stmt::ExportDefaultExpr(e) => expr_step_free(ctx, e),
        Stmt::ExportNamed(d) => match d {
            Some(decl) => decl_step_free(ctx, decl),
            None => true,
        },
        _ => true,
    }
}

pub open spec fn stmts_step_free(ctx: CtxV, ss: Seq<Stmt>) -> bool
    decreases ss,
{
    if ss.len() == 0 {
        true
    } else {
        stmt_step_free(ctx, ss[0]) && stmts_step_free(ctx, ss.drop_first())
    }
}

/// A tracker with nothing recorded in its variable map or unassigned
/// list; such a tracker drains to nothing.
pub open spec fn tracker_unrecorded(t: TrackerV) -> bool {
    t.vars.len() == 0 && t.unassigned.len() == 0
}

/// Every open scope's tracker has nothing recorded.
pub open spec fn all_unrecorded(st: StateV) -> bool {
    forall|k: int| 0 <= k < st.trackers.len() ==> tracker_unrecorded(#[trigger] st.trackers[k])
}

/// A subtree walk was quiet: it appended no diagnostic, recorded
/// nothing, and kept the tracker depth.
pub open spec fn quiet(st: StateV, r: StateV) -> bool {
    &&& r.diags == st.diags
    &&& all_unrecorded(r)
    &&& r.trackers.len() == st.trackers.len()
}

/// The marks an await leaves in the awaited set touch neither the
/// diagnostics nor anything recorded.
proof fn lemma_marks_quiet(st: StateV, v: Seq<char>, sp: Span)
    requires
        all_unrecorded(st),
    ensures
        quiet(st, st_mark_var(st, v)),
        quiet(st, st_mark_span(st, sp)),
{
    if st.trackers.len() > 0 {
        assert forall|k: int|
            0 <= k < st_mark_var(st, v).trackers.len() implies tracker_unrecorded(
            st_mark_var(st, v).trackers[k],
        ) by {
            assert(tracker_unrecorded(st.trackers[k]));
        }
        assert forall|k: int|
            0 <= k < st_mark_span(st, sp).trackers.len() implies tracker_unrecorded(
            st_mark_span(st, sp).trackers[k],
        ) by {
            assert(tracker_unrecorded(st.trackers[k]));
        }
    }
}

proof fn lemma_mark_vars_quiet(st: StateV, names: Seq<Seq<char>>)
    requires
        all_unrecorded(st),
    ensures
        quiet(st, mark_vars(st, names)),
    decreases names.len(),
{
    if names.len() > 0 {
        lemma_marks_quiet(st, names[0], Span { start: 0, end: 0 });
        lemma_mark_vars_quiet(st_mark_var(st, names[0]), names.drop_first());
    }
}

proof fn lemma_await_effect_quiet(st: StateV, arg: Expr)
    requires
        all_unrecorded(st),
    ensures
        quiet(st, await_effect(st, arg)),
{
    match arg {
        Expr::Ident { name, .. } => {
            lemma_marks_quiet(st, name@, Span { start: 0, end: 0 });
        },
        Expr::Call { callee, args, .. } => {
            if crate::walk::is_promise_combinator(*callee) && args@.len() > 0 {
                match args@[0] {
                    Arg::Plain(e) => match e {
                        Expr::Array(elems) => {
                            lemma_mark_vars_quiet(st, crate::walk::array_idents(elems@));
                        },
                        _ => {},
                    },
                    Arg::Spread(_) => {},
                }
            }
        },
        _ => {},
    }
}

/// A scope over step-free statements opens, stays empty, drains to
/// nothing, and closes.
proof fn lemma_scope_quiet(ctx: CtxV, st: StateV, ss: Seq<Stmt>)
    requires
        all_unrecorded(st),
        stmts_step_free(ctx, ss),
    ensures
        quiet(st, st_pop_report(ctx, walk_stmts(ctx, st_push_tracker(st), ss))),
    decreases ss, 1int,
{
    let st1 = st_push_tracker(st);
    assert(all_unrecorded(st1)) by {
        assert forall|k: int| 0 <= k < st1.trackers.len() implies tracker_unrecorded(
            st1.trackers[k],
        ) by {
            if k < st.trackers.len() {
                assert(tracker_unrecorded(st.trackers[k]));
            }
        }
    }
    lemma_walk_stmts_quiet(ctx, st1, ss);
    let w = walk_stmts(ctx, st1, ss);
    let top = w.trackers.last();
    assert(tracker_unrecorded(top));
    assert(tracker_drained(top) =~= Seq::<(Span, Seq<char>)>::empty());
    assert(crate::state::rendered_drain(ctx, tracker_drained(top)) =~= Seq::<
        crate::diagnostics::DiagV,
    >::empty());
    let r = st_pop_report(ctx, w);
    assert(r.diags =~= w.diags);
    assert(all_unrecorded(r)) by {
        assert forall|k: int| 0 <= k < r.trackers.len() implies tracker_unrecorded(
            r.trackers[k],
        ) by {
            assert(r.trackers[k] == w.trackers[k]);
        }
    }
}

proof fn lemma_walk_stmts_quiet(ctx: CtxV, st: StateV, ss: Seq<Stmt>)
    requires
        all_unrecorded(st),
        stmts_step_free(ctx, ss),
    ensures
        quiet(st, walk_stmts(ctx, st, ss)),
    decreases ss, 0int,
{
    if ss.len() > 0 {
        lemma_walk_stmt_quiet(ctx, st, ss[0]);
        lemma_walk_stmts_quiet(ctx, walk_stmt(ctx, st, ss[0]), ss.drop_first());
    }
}

proof fn lemma_walk_fn_body_quiet(ctx: CtxV, st: StateV, body: Option<Vec<Stmt>>)
    requires
        all_unrecorded(st),
        fn_body_step_free(ctx, body),
    ensures
        quiet(st, walk_fn_body(ctx, st, body)),
    decreases body, 0int,
{
    match body {
        Some(b) => {
            lemma_scope_quiet(ctx, st, b@);
        },
        None => {},
    }
}

#[verifier::rlimit(100)]
proof fn lemma_walk_stmt_quiet(ctx: CtxV, st: StateV, s: Stmt)
    requires
        all_unrecorded(st),
        stmt_step_free(ctx, s),
    ensures
        quiet(st, walk_stmt(ctx, st, s)),
    decreases s, 0int,
{
    match s {
        Stmt::Expr(e) => {
            lemma_walk_expr_quiet(ctx, st, e, false);
        },
        Stmt::Var(ds) => {
            lemma_walk_declarators_quiet(ctx, st, ds@);
        },
        Stmt::Func(f) => {
            lemma_walk_fn_body_quiet(ctx, st, f.body);
        },
        Stmt::Class(c) => {
            lemma_walk_class_quiet(ctx, st, c);
        },
        Stmt::Block(b) => {
            lemma_walk_stmts_quiet(ctx, st, b@);
        },
        Stmt::If { test, consequent, alternate } => {
            lemma_walk_expr_quiet(ctx, st, test, false);
            let st1 = walk_expr(ctx, st, test, false);
            lemma_walk_stmt_quiet(ctx, st1, *consequent);
            let st2 = walk_stmt(ctx, st1, *consequent);
            match alternate {
                Some(alt) => {
                    lemma_walk_stmt_quiet(ctx, st2, *alt);
                },
                None => {},
            }
        },
        Stmt::While { test, body } => {
            lemma_walk_expr_quiet(ctx, st, test, false);
            lemma_walk_stmt_quiet(ctx, walk_expr(ctx, st, test, false), *body);
        },
        Stmt::For { init, body } => {
            let st1 = match init {
                Some(ds) => walk_declarators(ctx, st, ds@),
                None => st,
            };
            match init {
                Some(ds) => {
                    lemma_walk_declarators_quiet(ctx, st, ds@);
                },
                None => {},
            }
            lemma_walk_stmt_quiet(ctx, st1, *body);
        },
        Stmt::ForIn { body } => {
            lemma_walk_stmt_quiet(ctx, st, *body);
        },
        Stmt::ForOf { right, body } => {
            lemma_walk_expr_quiet(ctx, st, right, false);
            lemma_walk_stmt_quiet(ctx, walk_expr(ctx, st, right, false), *body);
        },
        Stmt::Return(arg) => {
            match arg {
                Some(e) => {
                    lemma_walk_expr_quiet(ctx, st, e, false);
                },
                None => {},
            }
        },
        Stmt::Try { block, handler, finalizer } => {
            lemma_walk_stmts_quiet(ctx, st, block@);
            let st1 = walk_stmts(ctx, st, block@);
            let st2 = match handler {
                Some(h) => walk_stmts(ctx, st1, h@),
                None => st1,
            };
            match handler {
                Some(h) => {
                    lemma_walk_stmts_quiet(ctx, st1, h@);
                },
                None => {},
            }
            match finalizer {
                Some(f) => {
                    lemma_walk_stmts_quiet(ctx, st2, f@);
                },
                None => {},
            }
        },
        Stmt::Switch { discriminant, cases } => {
            lemma_walk_expr_quiet(ctx, st, discriminant, false);
            lemma_walk_cases_quiet(ctx, walk_expr(ctx, st, discriminant, false), cases@);
        },
        Stmt::ExportDefaultFunc(f) => {
            lemma_walk_fn_body_quiet(ctx, st, f.body);
        },
        Stmt::ExportDefaultClass(c) => {
            lemma_walk_class_quiet(ctx, st, c);
        },
        Stmt::ExportDefaultExpr(e) => {
            lemma_walk_expr_quiet(ctx, st, e, false);
        },
        Stmt::ExportNamed(d) => {
            match d {
                Some(decl) => {
                    lemma_walk_decl_quiet(ctx, st, decl);
                },
                None => {},
            }
        },
        _ => {},
    }
}

proof fn lemma_walk_cases_quiet(ctx: CtxV, st: StateV, cases: Seq<Vec<Stmt>>)
    requires
        all_unrecorded(st),
        cases_step_free(ctx, cases),
    ensures
        quiet(st, walk_cases(ctx, st, cases)),
    decreases cases, 0int,
{
    if cases.len() > 0 {
        lemma_walk_stmts_quiet(ctx, st, cases[0]@);
        lemma_walk_cases_quiet(ctx, walk_stmts(ctx, st, cases[0]@), cases.drop_first());
    }
}

proof fn lemma_walk_decl_quiet(ctx: CtxV, st: StateV, d: Decl)
    requires
        all_unrecorded(st),
        decl_step_free(ctx, d),
    ensures
        quiet(st, walk_decl(ctx, st, d)),
    decreases d, 0int,
{
    match d {
        Decl::Func(f) => {
            lemma_walk_fn_body_quiet(ctx, st, f.body);
        },
        Decl::Class(c) => {
            lemma_walk_class_quiet(ctx, st, c);
        },
        Decl::Var(ds) => {
            lemma_walk_declarators_quiet(ctx, st, ds@);
        },
        Decl::Other => {},
    }
}

proof fn lemma_walk_declarators_quiet(ctx: CtxV, st: StateV, ds: Seq<Declarator>)
    requires
        all_unrecorded(st),
        declarators_step_free(ctx, ds),
    ensures
        quiet(st, walk_declarators(ctx, st, ds)),
    decreases ds, 0int,
{
    if ds.len() > 0 {
        lemma_walk_declarator_quiet(ctx, st, ds[0]);
        lemma_walk_declarators_quiet(ctx, walk_declarator(ctx, st, ds[0]), ds.drop_first());
    }
}

proof fn lemma_walk_declarator_quiet(ctx: CtxV, st: StateV, d: Declarator)
    requires
        all_unrecorded(st),
        match d.init {
            Some(init) => expr_step_free(ctx, init),
            None => true,
        },
    ensures
        quiet(st, walk_declarator(ctx, st, d)),
    decreases d, 0int,
{
    match d.init {
        Some(init) => {
            lemma_walk_expr_quiet(ctx, st, init, false);
        },
        None => {},
    }
}

proof fn lemma_walk_class_quiet(ctx: CtxV, st: StateV, c: Class)
    requires
        all_unrecorded(st),
        class_elems_step_free(ctx, c.body@),
    ensures
        quiet(st, walk_class(ctx, st, c)),
    decreases c, 1int,
{
    lemma_walk_class_elems_quiet(ctx, st, c.body@);
}

proof fn lemma_walk_class_elems_quiet(ctx: CtxV, st: StateV, es: Seq<ClassElement>)
    requires
        all_unrecorded(st),
        class_elems_step_free(ctx, es),
    ensures
        quiet(st, walk_class_elems(ctx, st, es)),
    decreases es, 0int,
{
    if es.len() > 0 {
        let st1 = match es[0] {
            ClassElement::Method { value, .. } => walk_fn_body(ctx, st, value.body),
            ClassElement::Property { init } => match init {
                Some(e) => walk_expr(ctx, st, e, false),
                None => st,
            },
            ClassElement::StaticBlock(b) => st_pop_report(
                ctx,
                walk_stmts(ctx, st_push_tracker(st), b@),
            ),
            ClassElement::Other => st,
        };
        match es[0] {
            ClassElement::Method { value, .. } => {
                lemma_walk_fn_body_quiet(ctx, st, value.body);
            },
            ClassElement::Property { init } => {
                match init {
                    Some(e) => {
                        lemma_walk_expr_quiet(ctx, st, e, false);
                    },
                    None => {},
                }
            },
            ClassElement::StaticBlock(b) => {
                lemma_scope_quiet(ctx, st, b@);
            },
            ClassElement::Other => {},
        }
        lemma_walk_class_elems_quiet(ctx, st1, es.drop_first());
    }
}

proof fn lemma_walk_call_args_quiet(ctx: CtxV, st: StateV, args: Seq<Arg>)
    requires
        all_unrecorded(st),
        args_step_free(ctx, args),
    ensures
        quiet(st, walk_call_args(ctx, st, args)),
    decreases args, 0int,
{
    if args.len() > 0 {
        let st1 = match args[0] {
            Arg::Spread(e) => walk_expr(ctx, st, e, false),
            Arg::Plain(e) => walk_expr(ctx, st, e, false),
        };
        match args[0] {
            Arg::Spread(e) => {
                lemma_walk_expr_quiet(ctx, st, e, false);
            },
            Arg::Plain(e) => {
                lemma_walk_expr_quiet(ctx, st, e, false);
            },
        }
        lemma_walk_call_args_quiet(ctx, st1, args.drop_first());
    }
}

proof fn lemma_walk_new_args_quiet(ctx: CtxV, st: StateV, args: Seq<Arg>)
    requires
        all_unrecorded(st),
        args_step_free(ctx, args),
    ensures
        quiet(st, walk_new_args(ctx, st, args)),
    decreases args, 0int,
{
    if args.len() > 0 {
        let st1 = match args[0] {
            Arg::Plain(e) => walk_expr(ctx, st, e, false),
            Arg::Spread(_) => st,
        };
        match args[0] {
            Arg::Plain(e) => {
                lemma_walk_expr_quiet(ctx, st, e, false);
            },
            Arg::Spread(_) => {},
        }
        lemma_walk_new_args_quiet(ctx, st1, args.drop_first());
    }
}

proof fn lemma_walk_array_elems_quiet(ctx: CtxV, st: StateV, elems: Seq<ArrayElem>, aw: bool)
    requires
        all_unrecorded(st),
        array_elems_step_free(ctx, elems),
    ensures
        quiet(st, walk_array_elems(ctx, st, elems, aw)),
    decreases elems, 0int,
{
    if elems.len() > 0 {
        let st1 = match elems[0] {
            ArrayElem::Spread(e) => walk_expr(ctx, st, e, aw),
            ArrayElem::Plain(e) => walk_expr(ctx, st, e, aw),
            ArrayElem::Elision => st,
        };
        match elems[0] {
            ArrayElem::Spread(e) => {
                lemma_walk_expr_quiet(ctx, st, e, aw);
            },
            ArrayElem::Plain(e) => {
                lemma_walk_expr_quiet(ctx, st, e, aw);
            },
            ArrayElem::Elision => {},
        }
        lemma_walk_array_elems_quiet(ctx, st1, elems.drop_first(), aw);
    }
}

proof fn lemma_walk_props_quiet(ctx: CtxV, st: StateV, props: Seq<Prop>)
    requires
        all_unrecorded(st),
        props_step_free(ctx, props),
    ensures
        quiet(st, walk_props(ctx, st, props)),
    decreases props, 0int,
{
    if props.len() > 0 {
        let st1 = match props[0] {
            Prop::Property { value } => walk_expr(ctx, st, value, false),
            Prop::Spread(e) => walk_expr(ctx, st, e, false),
        };
        match props[0] {
            Prop::Property { value } => {
                lemma_walk_expr_quiet(ctx, st, value, false);
            },
            Prop::Spread(e) => {
                lemma_walk_expr_quiet(ctx, st, e, false);
            },
        }
        lemma_walk_props_quiet(ctx, st1, props.drop_first());
    }
}

proof fn lemma_walk_seq_exprs_quiet(ctx: CtxV, st: StateV, es: Seq<Expr>, aw: bool)
    requires
        all_unrecorded(st),
        exprs_step_free(ctx, es),
    ensures
        quiet(st, walk_seq_exprs(ctx, st, es, aw)),
    decreases es, 0int,
{
    if es.len() == 1 {
        lemma_walk_expr_quiet(ctx, st, es[0], aw);
    } else if es.len() > 1 {
        lemma_walk_expr_quiet(ctx, st, es[0], false);
        lemma_walk_seq_exprs_quiet(ctx, walk_expr(ctx, st, es[0], false), es.drop_first(), aw);
    }
}

proof fn lemma_walk_template_quiet(ctx: CtxV, st: StateV, es: Seq<Expr>)
    requires
        all_unrecorded(st),
        exprs_step_free(ctx, es),
    ensures
        quiet(st, walk_template(ctx, st, es)),
    decreases es, 0int,
{
    if es.len() > 0 {
        lemma_walk_expr_quiet(ctx, st, es[0], false);
        lemma_walk_template_quiet(ctx, walk_expr(ctx, st, es[0], false), es.drop_first());
    }
}

/// A step-free expression's walk is quiet: without step calls nothing
/// is reported and nothing is recorded.
#[verifier::rlimit(100)]
pub proof fn lemma_walk_expr_quiet(ctx: CtxV, st: StateV, e: Expr, aw: bool)
    requires
        all_unrecorded(st),
        expr_step_free(ctx, e),
    ensures
        quiet(st, walk_expr(ctx, st, e, aw)),
    decreases e, 2int,
{
    match e {
        Expr::Await(inner) => {
            lemma_await_effect_quiet(st, *inner);
            lemma_walk_expr_quiet(ctx, await_effect(st, *inner), *inner, true);
        },
        Expr::Call { callee, args, .. } => {
            assert(!crate::walk::is_step_call(ctx, *callee));
            assert(expr_step_free(ctx, *callee));
            assert(args_step_free(ctx, args@));
            if aw && crate::walk::is_promise_combinator(*callee) {
                lemma_walk_expr_quiet(ctx, st, *callee, false);
                let st1 = walk_expr(ctx, st, *callee, false);
                if args@.len() > 0 {
                    match args@[0] {
                        Arg::Plain(first) => {
                            assert(expr_step_free(ctx, first));
                            lemma_walk_expr_quiet(ctx, st1, first, true);
                        },
                        Arg::Spread(_) => {},
                    }
                }
            } else {
                lemma_walk_expr_quiet(ctx, st, *callee, false);
                lemma_walk_call_args_quiet(ctx, walk_expr(ctx, st, *callee, false), args@);
            }
        },
        Expr::Arrow { body, .. } => {
            lemma_scope_quiet(ctx, st, body@);
        },
        Expr::Func(f) => {
            lemma_walk_fn_body_quiet(ctx, st, f.body);
        },
        Expr::ClassExpr(c) => {
            lemma_walk_class_quiet(ctx, st, c);
        },
        Expr::Array(elems) => {
            lemma_walk_array_elems_quiet(ctx, st, elems@, aw);
        },
        Expr::Object(props) => {
            lemma_walk_props_quiet(ctx, st, props@);
        },
        Expr::Conditional { test, consequent, alternate } => {
            lemma_walk_expr_quiet(ctx, st, *test, false);
            let st1 = walk_expr(ctx, st, *test, false);
            lemma_walk_expr_quiet(ctx, st1, *consequent, aw);
            lemma_walk_expr_quiet(ctx, walk_expr(ctx, st1, *consequent, aw), *alternate, aw);
        },
        Expr::Binary { left, right } => {
            lemma_walk_expr_quiet(ctx, st, *left, false);
            lemma_walk_expr_quiet(ctx, walk_expr(ctx, st, *left, false), *right, false);
        },
        Expr::Logical { left, right } => {
            lemma_walk_expr_quiet(ctx, st, *left, false);
            lemma_walk_expr_quiet(ctx, walk_expr(ctx, st, *left, false), *right, false);
        },
        Expr::Assign { right } => {
            lemma_walk_expr_quiet(ctx, st, *right, false);
        },
        Expr::Sequence(es) => {
            lemma_walk_seq_exprs_quiet(ctx, st, es@, aw);
        },
        Expr::Paren(inner) => {
            lemma_walk_expr_quiet(ctx, st, *inner, aw);
        },
        Expr::Unary(arg) => {
            lemma_walk_expr_quiet(ctx, st, *arg, false);
        },
        Expr::New { callee, args } => {
            lemma_walk_expr_quiet(ctx, st, *callee, false);
            lemma_walk_new_args_quiet(ctx, walk_expr(ctx, st, *callee, false), args@);
        },
        Expr::StaticMember { object, .. } => {
            lemma_walk_expr_quiet(ctx, st, *object, false);
        },
        Expr::ComputedMember { object, index } => {
            lemma_walk_expr_quiet(ctx, st, *object, false);
            lemma_walk_expr_quiet(ctx, walk_expr(ctx, st, *object, false), *index, false);
        },
        Expr::PrivateField { object } => {
            lemma_walk_expr_quiet(ctx, st, *object, false);
        },
        Expr::TaggedTemplate { tag } => {
            lemma_walk_expr_quiet(ctx, st, *tag, false);
        },
        Expr::Template(es) => {
            lemma_walk_template_quiet(ctx, st, es@);
        },
        Expr::Yield(arg) => {
            match arg {
                Some(a) => {
                    lemma_walk_expr_quiet(ctx, st, *a, false);
                },
                None => {},
            }
        },
        _ => {
        },
    }
}

/// One state grown from another without rebinding any variable of the
/// innermost open scope.
pub open spec fn keeps_vars(st: StateV, r: StateV) -> bool {
    &&& r.trackers.len() == st.trackers.len()
    &&& (st.trackers.len() > 0 ==> r.trackers.last().vars == st.trackers.last().vars)
}

proof fn lemma_mark_vars_keep_vars(st: StateV, names: Seq<Seq<char>>)
    ensures
        keeps_vars(st, mark_vars(st, names)),
    decreases names.len(),
{
    if names.len() > 0 {
        lemma_mark_vars_keep_vars(st_mark_var(st, names[0]), names.drop_first());
    }
}

proof fn lemma_await_effect_keeps_vars(st: StateV, arg: Expr)
    ensures
        keeps_vars(st, await_effect(st, arg)),
{
    match arg {
        Expr::Call { callee, args, .. } => {
            if crate::walk::is_promise_combinator(*callee) && args@.len() > 0 {
                match args@[0] {
                    Arg::Plain(e) => match e {
                        Expr::Array(elems) => {
                            lemma_mark_vars_keep_vars(st, crate::walk::array_idents(elems@));
                        },
                        _ => {},
                    },
                    Arg::Spread(_) => {},
                }
            }
        },
        _ => {},
    }
}

/// A scope walked inside a fresh tracker hands every already-open
/// scope's tracker back exactly as it was.
proof fn lemma_scope_keeps_vars(ctx: CtxV, st: StateV, ss: Seq<Stmt>)
    ensures
        keeps_vars(st, st_pop_report(ctx, walk_stmts(ctx, st_push_tracker(st), ss))),
    decreases ss, 2int,
{
    lemma_scope_extends(ctx, st, ss);
}

proof fn lemma_walk_fn_body_keeps_vars(ctx: CtxV, st: StateV, body: Option<Vec<Stmt>>)
    ensures
        keeps_vars(st, walk_fn_body(ctx, st, body)),
    decreases body, 0int,
{
    match body {
        Some(b) => {
            lemma_scope_keeps_vars(ctx, st, b@);
        },
        None => {},
    }
}

proof fn lemma_walk_class_keeps_vars(ctx: CtxV, st: StateV, c: Class)
    ensures
        keeps_vars(st, walk_class(ctx, st, c)),
    decreases c, 1int,
{
    lemma_walk_class_elems_keep_vars(ctx, st, c.body@);
}

proof fn lemma_walk_class_elems_keep_vars(ctx: CtxV, st: StateV, es: Seq<ClassElement>)
    ensures
        keeps_vars(st, walk_class_elems(ctx, st, es)),
    decreases es, 0int,
{
    if es.len() > 0 {
        let st1 = match es[0] {
            ClassElement::Method { value, .. } => walk_fn_body(ctx, st, value.body),
            ClassElement::Property { init } => match init {
                Some(e) => walk_expr(ctx, st, e, false),
                None => st,
            },
            ClassElement::StaticBlock(b) => st_pop_report(
                ctx,
                walk_stmts(ctx, st_push_tracker(st), b@),
            ),
            ClassElement::Other => st,
        };
        match es[0] {
            ClassElement::Method { value, .. } => {
                lemma_walk_fn_body_keeps_vars(ctx, st, value.body);
            },
            ClassElement::Property { init } => {
                match init {
                    Some(e) => {
                        lemma_walk_expr_keeps_vars(ctx, st, e, false);
                    },
                    None => {},
                }
            },
            ClassElement::StaticBlock(b) => {
                lemma_scope_keeps_vars(ctx, st, b@);
            },
            ClassElement::Other => {},
        }
        lemma_walk_class_elems_keep_vars(ctx, st1, es.drop_first());
    }
}

proof fn lemma_walk_call_args_keep_vars(ctx: CtxV, st: StateV, args: Seq<Arg>)
    ensures
        keeps_vars(st, walk_call_args(ctx, st, args)),
    decreases args, 0int,
{
    if args.len() > 0 {
        let st1 = match args[0] {
            Arg::Spread(e) => walk_expr(ctx, st, e, false),
            Arg::Plain(e) => walk_expr(ctx, st, e, false),
        };
        match args[0] {
            Arg::Spread(e) => {
                lemma_walk_expr_keeps_vars(ctx, st, e, false);
            },
            Arg::Plain(e) => {
                lemma_walk_expr_keeps_vars(ctx, st, e, false);
            },
        }
        lemma_walk_call_args_keep_vars(ctx, st1, args.drop_first());
    }
}

proof fn lemma_walk_do_args_keep_vars(ctx: CtxV, st: StateV, args: Seq<Arg>, pos: int, mname: Seq<char>)
    ensures
        keeps_vars(st, walk_do_args(ctx, st, args, pos, mname)),
    decreases args, 0int,
{
    if args.len() > 0 {
        let st1 = match args[0] {
            Arg::Plain(e) => if pos == 1 {
                st_pop_callback(walk_expr(ctx, st_push_callback(st, mname), e, false))
            } else {
                walk_expr(ctx, st, e, false)
            },
            Arg::Spread(e) => walk_expr(ctx, st, e, false),
        };
        match args[0] {
            Arg::Plain(e) => {
                if pos == 1 {
                    lemma_walk_expr_keeps_vars(ctx, st_push_callback(st, mname), e, false);
                } else {
                    lemma_walk_expr_keeps_vars(ctx, st, e, false);
                }
            },
            Arg::Spread(e) => {
                lemma_walk_expr_keeps_vars(ctx, st, e, false);
            },
        }
        lemma_walk_do_args_keep_vars(ctx, st1, args.drop_first(), pos + 1, mname);
    }
}

proof fn lemma_walk_new_args_keep_vars(ctx: CtxV, st: StateV, args: Seq<Arg>)
    ensures
        keeps_vars(st, walk_new_args(ctx, st, args)),
    decreases args, 0int,
{
    if args.len() > 0 {
        let st1 = match args[0] {
            Arg::Plain(e) => walk_expr(ctx, st, e, false),
            Arg::Spread(_) => st,
        };
        match args[0] {
            Arg::Plain(e) => {
                lemma_walk_expr_keeps_vars(ctx, st, e, false);
            },
            Arg::Spread(_) => {},
        }
        lemma_walk_new_args_keep_vars(ctx, st1, args.drop_first());
    }
}

proof fn lemma_walk_array_elems_keep_vars(ctx: CtxV, st: StateV, elems: Seq<ArrayElem>, aw: bool)
    ensures
        keeps_vars(st, walk_array_elems(ctx, st, elems, aw)),
    decreases elems, 0int,
{
    if elems.len() > 0 {
        let st1 = match elems[0] {
            ArrayElem::Spread(e) => walk_expr(ctx, st, e, aw),
            ArrayElem::Plain(e) => walk_expr(ctx, st, e, aw),
            ArrayElem::Elision => st,
        };
        match elems[0] {
            ArrayElem::Spread(e) => {
                lemma_walk_expr_keeps_vars(ctx, st, e, aw);
            },
            ArrayElem::Plain(e) => {
                lemma_walk_expr_keeps_vars(ctx, st, e, aw);
            },
            ArrayElem::Elision => {},
        }
        lemma_walk_array_elems_keep_vars(ctx, st1, elems.drop_first(), aw);
    }
}

proof fn lemma_walk_props_keep_vars(ctx: CtxV, st: StateV, props: Seq<Prop>)
    ensures
        keeps_vars(st, walk_props(ctx, st, props)),
    decreases props, 0int,
{
    if props.len() > 0 {
        let st1 = match props[0] {
            Prop::Property { value } => walk_expr(ctx, st, value, false),
            Prop::Spread(e) => walk_expr(ctx, st, e, false),
        };
        match props[0] {
            Prop::Property { value } => {
                lemma_walk_expr_keeps_vars(ctx, st, value, false);
            },
            Prop::Spread(e) => {
                lemma_walk_expr_keeps_vars(ctx, st, e, false);
            },
        }
        lemma_walk_props_keep_vars(ctx, st1, props.drop_first());
    }
}

proof fn lemma_walk_seq_exprs_keep_vars(ctx: CtxV, st: StateV, es: Seq<Expr>, aw: bool)
    ensures
        keeps_vars(st, walk_seq_exprs(ctx, st, es, aw)),
    decreases es, 0int,
{
    if es.len() == 1 {
        lemma_walk_expr_keeps_vars(ctx, st, es[0], aw);
    } else if es.len() > 1 {
        lemma_walk_expr_keeps_vars(ctx, st, es[0], false);
        lemma_walk_seq_exprs_keep_vars(ctx, walk_expr(ctx, st, es[0], false), es.drop_first(), aw);
    }
}

proof fn lemma_walk_template_keep_vars(ctx: CtxV, st: StateV, es: Seq<Expr>)
    ensures
        keeps_vars(st, walk_template(ctx, st, es)),
    decreases es, 0int,
{
    if es.len() > 0 {
        lemma_walk_expr_keeps_vars(ctx, st, es[0], false);
        lemma_walk_template_keep_vars(ctx, walk_expr(ctx, st, es[0], false), es.drop_first());
    }
}

/// Walking an expression never rebinds a variable of the enclosing
/// scope: the variable map of the innermost open tracker comes out
/// exactly as it went in. Bindings are made by declarators alone.
pub proof fn lemma_walk_expr_keeps_vars(ctx: CtxV, st: StateV, e: Expr, aw: bool)
    ensures
        keeps_vars(st, walk_expr(ctx, st, e, aw)),
    decreases e, 3int,
{
    match e {
        Expr::Await(inner) => {
            lemma_await_effect_keeps_vars(st, *inner);
            lemma_walk_expr_keeps_vars(ctx, await_effect(st, *inner), *inner, true);
        },
        Expr::Call { callee, args, span } => {
            if crate::walk::is_step_call(ctx, *callee) {
                let name = crate::walk::step_method_name(*callee);
                let st1 = if st.callbacks.len() > 0 {
                    st_add_diag(
                        st,
                        crate::diagnostics::diag_at(
                            ctx.file,
                            ctx.src,
                            span,
                            crate::diagnostics::nested_msg(name, st.callbacks.last()),
                            "nested-step"@,
                        ),
                    )
                } else {
                    st
                };
                let st2 = if aw {
                    st_mark_span(st1, span)
                } else {
                    st_record_unassigned(st1, span, name)
                };
                assert(keeps_vars(st, st2));
                if crate::walk::is_step_do(ctx, *callee) {
                    lemma_walk_do_args_keep_vars(ctx, st2, args@, 0, name);
                } else {
                    lemma_walk_call_args_keep_vars(ctx, st2, args@);
                }
            } else if aw && crate::walk::is_promise_combinator(*callee) {
                lemma_walk_expr_keeps_vars(ctx, st, *callee, false);
                let st1 = walk_expr(ctx, st, *callee, false);
                if args@.len() > 0 {
                    match args@[0] {
                        Arg::Plain(first) => {
                            lemma_walk_expr_keeps_vars(ctx, st1, first, true);
                        },
                        Arg::Spread(_) => {},
                    }
                }
            } else {
                lemma_walk_expr_keeps_vars(ctx, st, *callee, false);
                lemma_walk_call_args_keep_vars(ctx, walk_expr(ctx, st, *callee, false), args@);
            }
        },
        Expr::Arrow { body, .. } => {
            lemma_scope_keeps_vars(ctx, st, body@);
        },
        Expr::Func(f) => {
            lemma_walk_fn_body_keeps_vars(ctx, st, f.body);
        },
        Expr::ClassExpr(c) => {
            lemma_walk_class_keeps_vars(ctx, st, c);
        },
        Expr::Array(elems) => {
            lemma_walk_array_elems_keep_vars(ctx, st, elems@, aw);
        },
        Expr::Object(props) => {
            lemma_walk_props_keep_vars(ctx, st, props@);
        },
        Expr::Conditional { test, consequent, alternate } => {
            lemma_walk_expr_keeps_vars(ctx, st, *test, false);
            let st1 = walk_expr(ctx, st, *test, false);
            lemma_walk_expr_keeps_vars(ctx, st1, *consequent, aw);
            lemma_walk_expr_keeps_vars(ctx, walk_expr(ctx, st1, *consequent, aw), *alternate, aw);
        },
        Expr::Binary { left, right } => {
            lemma_walk_expr_keeps_vars(ctx, st, *left, false);
            lemma_walk_expr_keeps_vars(ctx, walk_expr(ctx, st, *left, false), *right, false);
        },
        Expr::Logical { left, right } => {
            lemma_walk_expr_keeps_vars(ctx, st, *left, false);
            lemma_walk_expr_keeps_vars(ctx, walk_expr(ctx, st, *left, false), *right, false);
        },
        Expr::Assign { right } => {
            lemma_walk_expr_keeps_vars(ctx, st, *right, false);
        },
        Expr::Sequence(es) => {
            lemma_walk_seq_exprs_keep_vars(ctx, st, es@, aw);
        },
        Expr::Paren(inner) => {
            lemma_walk_expr_keeps_vars(ctx, st, *inner, aw);
        },
        Expr::Unary(arg) => {
            lemma_walk_expr_keeps_vars(ctx, st, *arg, false);
        },
        Expr::New { callee, args } => {
            lemma_walk_expr_keeps_vars(ctx, st, *callee, false);
            lemma_walk_new_args_keep_vars(ctx, walk_expr(ctx, st, *callee, false), args@);
        },
        Expr::StaticMember { object, .. } => {
            lemma_walk_expr_keeps_vars(ctx, st, *object, false);
        },
        Expr::ComputedMember { object, index } => {
            lemma_walk_expr_keeps_vars(ctx, st, *object, false);
            lemma_walk_expr_keeps_vars(ctx, walk_expr(ctx, st, *object, false), *index, false);
        },
        Expr::PrivateField { object } => {
            lemma_walk_expr_keeps_vars(ctx, st, *object, false);
        },
        Expr::TaggedTemplate { tag } => {
            lemma_walk_expr_keeps_vars(ctx, st, *tag, false);
        },
        Expr::Template(es) => {
            lemma_walk_template_keep_vars(ctx, st, es@);
        },
        Expr::Yield(arg) => {
            match arg {
                Some(a) => {
                    lemma_walk_expr_keeps_vars(ctx, st, *a, false);
                },
                None => {},
            }
        },
        _ => {},
    }
}

/// A declarator binding one plain name to a step call leaves the
/// scope with that name bound to exactly that call's span: the
/// binding is recorded before the call's arguments are walked, and
/// the arguments walk never rebinds a variable of the scope.
/// Awaiting the variable afterwards then marks exactly that span
/// (`law_await_var_marks`), and a marked span is never drained
/// (`lemma_drained_excludes_awaited`); a span never marked before the
/// scope closes is drained (`lemma_drained_complete`).
pub proof fn law_assigned_step_binds(ctx: CtxV, st: StateV, d: Declarator, v: Seq<char>, sp: Span)
    requires
        st.trackers.len() > 0,
        match d.pattern {
            Pattern::Name { name, .. } => name@ == v,
            Pattern::Other => false,
        },
        match d.init {
            Some(init) => is_step_call_expr(ctx, init, sp),
            None => false,
        },
    ensures
        ({
            let r = walk_declarator(ctx, st, d);
            &&& r.trackers.len() == st.trackers.len()
            &&& assoc_has(r.trackers.last().vars, v)
            &&& assoc_get(r.trackers.last().vars, v) == sp
        }),
{
    match d.init {
        Some(init) => match init {
            Expr::Call { callee, args, span } => {
                let name = crate::walk::step_method_name(*callee);
                let st1 = st_record_assigned(st, v, span, name);
                lemma_upsert_get(st.trackers.last().vars, v, span);
                lemma_walk_call_args_keep_vars(ctx, st1, args@);
            },
            _ => {},
        },
        None => {},
    }
}

/// Awaiting a promise-combinator call whose array argument lists a
/// variable marks the step call that variable holds: every bare
/// identifier element is treated as awaited.
pub proof fn law_await_combinator_marks(
    st: StateV,
    names: Seq<Seq<char>>,
    v: Seq<char>,
    sp: Span,
)
    requires
        st.trackers.len() > 0,
        assoc_has(st.trackers.last().vars, v),
        assoc_get(st.trackers.last().vars, v) == sp,
        names.contains(v),
    ensures
        mark_vars(st, names).trackers.len() == st.trackers.len(),
        mark_vars(st, names).trackers.last().awaited.contains(sp),
    decreases names.len(),
{
    let st1 = st_mark_var(st, names[0]);
    assert(st1.trackers.len() == st.trackers.len());
    assert(st1.trackers.last().vars == st.trackers.last().vars);
    if names[0] == v {
        lemma_mark_var_awaits(st.trackers.last(), v);
        lemma_mark_vars_extends(st1, names.drop_first());
    } else {
        assert(names.drop_first().contains(v)) by {
            let i = choose|i: int| 0 <= i < names.len() && names[i] == v;
            assert(names.drop_first()[i - 1] == v);
        }
        law_await_combinator_marks(st1, names.drop_first(), v, sp);
    }
}

/// A program without a single step call — for instance one whose only
/// `step`-named object is an unrelated value whose identity never
/// entered the classification — produces no diagnostics at all.
pub proof fn law_step_free_program_clean(p: crate::ast::Program, src: Seq<char>, file: Seq<char>)
    requires
        stmts_step_free(
            CtxV { file: file, src: src, steps: crate::symbols::step_syms_of(p.body@) },
            p.body@,
        ),
    ensures
        crate::walk::lint_spec(p, src, file) == Seq::<crate::diagnostics::DiagV>::empty(),
{
    let ctx = CtxV { file: file, src: src, steps: crate::symbols::step_syms_of(p.body@) };
    let st0 = crate::state::state_init();
    assert(all_unrecorded(st0));
    lemma_scope_quiet(ctx, st0, p.body@);
}

/// An identity is in the annotation-based classification exactly when
/// some scanned top-level statement contributes it.
pub proof fn lemma_typed_step_syms_iff(body: Seq<Stmt>, s: u32)
    ensures
        typed_step_syms(body).contains(s) <==> exists|i: int|
            0 <= i < body.len() && stmt_typed_syms(#[trigger] body[i]).contains(s),
    decreases body.len(),
{
    if body.len() > 0 {
        lemma_typed_step_syms_iff(body.drop_first(), s);
        if typed_step_syms(body).contains(s) {
            if stmt_typed_syms(body[0]).contains(s) {
                assert(0 <= 0 < body.len() && stmt_typed_syms(body[0]).contains(s));
            } else {
                let i = choose|i: int|
                    0 <= i < body.drop_first().len() && stmt_typed_syms(
                        #[trigger] body.drop_first()[i],
                    ).contains(s);
                assert(body[i + 1] == body.drop_first()[i]);
            }
        }
        if exists|i: int| 0 <= i < body.len() && stmt_typed_syms(#[trigger] body[i]).contains(s) {
            let i = choose|i: int|
                0 <= i < body.len() && stmt_typed_syms(#[trigger] body[i]).contains(s);
            if i == 0 {
                assert(typed_step_syms(body).contains(s));
            } else {
                assert(body.drop_first()[i - 1] == body[i]);
                assert(typed_step_syms(body.drop_first()).contains(s));
            }
        }
    }
}

} // verus!
