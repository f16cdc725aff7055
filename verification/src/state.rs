//! The mathematical state the traversal threads through the program:
//! accumulated diagnostics, the stack of per-scope promise trackers,
//! and the stack of enclosing step-callback names.

use vstd::prelude::*;

use crate::ast::Span;
use crate::diagnostics::{await_msg, diag_at, DiagV};
use crate::tracker::{
    tracker_drained, tracker_empty, tracker_mark_span, tracker_mark_var, tracker_record_assigned,
    tracker_record_unassigned, TrackerV,
};

verus! {

/// What one traversal reads but never changes: the file name, the
/// source text, and the identities classified as steps.
#[verifier::ext_equal]
pub struct CtxV {
    pub file: Seq<char>,
    pub src: Seq<char>,
    pub steps: Set<u32>,
}

/// The traversal state.
#[verifier::ext_equal]
pub struct StateV {
    pub diags: Seq<DiagV>,
    pub trackers: Seq<TrackerV>,
    pub callbacks: Seq<Seq<char>>,
}

/// The state before any node was visited.
pub open spec fn state_init() -> StateV {
    StateV { diags: Seq::empty(), trackers: Seq::empty(), callbacks: Seq::empty() }
}

/// A new empty tracker pushed for an entered scope.
pub open spec fn st_push_tracker(st: StateV) -> StateV {
    StateV { trackers: st.trackers.push(tracker_empty()), ..st }
}

/// One drained entry rendered as its must-be-awaited diagnostic.
pub open spec fn render_unawaited(ctx: CtxV, item: (Span, Seq<char>)) -> DiagV {
    diag_at(ctx.file, ctx.src, item.0, await_msg(item.1), "await-step"@)
}

/// A drained tracker rendered as diagnostics, in drain order.
pub open spec fn rendered_drain(ctx: CtxV, items: Seq<(Span, Seq<char>)>) -> Seq<DiagV> {
    items.map_values(|it: (Span, Seq<char>)| render_unawaited(ctx, it))
}

/// Leaving a scope: the top tracker is drained into diagnostics and
/// discarded. Without an open scope nothing changes.
pub open spec fn st_pop_report(ctx: CtxV, st: StateV) -> StateV {
    if st.trackers.len() == 0 {
        st
    } else {
        StateV {
            diags: st.diags + rendered_drain(ctx, tracker_drained(st.trackers.last())),
            trackers: st.trackers.drop_last(),
            ..st
        }
    }
}

/// An operation applied to the innermost open scope's tracker; with no
/// open scope nothing changes.
pub open spec fn st_update_top(st: StateV, t: TrackerV) -> StateV {
    if st.trackers.len() == 0 {
        st
    } else {
        StateV { trackers: st.trackers.update(st.trackers.len() - 1, t), ..st }
    }
}

/// Marks a variable's step call awaited in the current scope.
pub open spec fn st_mark_var(st: StateV, var: Seq<char>) -> StateV {
    if st.trackers.len() == 0 {
        st
    } else {
        st_update_top(st, tracker_mark_var(st.trackers.last(), var))
    }
}

/// Marks a step-call span awaited in the current scope.
pub open spec fn st_mark_span(st: StateV, span: Span) -> StateV {
    if st.trackers.len() == 0 {
        st
    } else {
        st_update_top(st, tracker_mark_span(st.trackers.last(), span))
    }
}

/// Records a bare unawaited step call in the current scope.
pub open spec fn st_record_unassigned(st: StateV, span: Span, name: Seq<char>) -> StateV {
    if st.trackers.len() == 0 {
        st
    } else {
        st_update_top(st, tracker_record_unassigned(st.trackers.last(), span, name))
    }
}

/// Records an assigned step call in the current scope.
pub open spec fn st_record_assigned(st: StateV, var: Seq<char>, span: Span, name: Seq<char>) -> StateV {
    if st.trackers.len() == 0 {
        st
    } else {
        st_update_top(st, tracker_record_assigned(st.trackers.last(), var, span, name))
    }
}

/// Enters a step-callback argument: its method name is pushed on the
/// callback stack.
pub open spec fn st_push_callback(st: StateV, method: Seq<char>) -> StateV {
    StateV { callbacks: st.callbacks.push(method), ..st }
}

/// Leaves a step-callback argument.
pub open spec fn st_pop_callback(st: StateV) -> StateV {
    if st.callbacks.len() == 0 {
        st
    } else {
        StateV { callbacks: st.callbacks.drop_last(), ..st }
    }
}

/// Appends one diagnostic.
pub open spec fn st_add_diag(st: StateV, d: DiagV) -> StateV {
    StateV { diags: st.diags.push(d), ..st }
}

} // verus!
