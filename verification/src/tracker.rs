//! The per-scope promise-state tracker: which step calls were created
//! in the scope, which variables hold them, and which were awaited.
//! On scope exit the tracker is drained into the step calls that must
//! be reported.

use vstd::prelude::*;

use crate::assoc::{assoc_get, assoc_has, find_key, lemma_find_key, upsert};
use crate::ast::Span;
use crate::text::str_eq;

verus! {

/// The mathematical content of one tracker.
#[verifier::ext_equal]
pub struct TrackerV {
    /// Variable name to the span of the step call last assigned to it.
    pub vars: Seq<(Seq<char>, Span)>,
    /// Step-call span to the method name used to report it.
    pub names: Seq<(Span, Seq<char>)>,
    /// Spans of step calls that were awaited.
    pub awaited: Seq<Span>,
    /// Step calls neither assigned to a variable nor directly awaited.
    pub unassigned: Seq<(Span, Seq<char>)>,
}

/// A tracker with nothing recorded.
pub open spec fn tracker_empty() -> TrackerV {
    TrackerV { vars: Seq::empty(), names: Seq::empty(), awaited: Seq::empty(), unassigned: Seq::empty() }
}

/// Recording an assigned step call binds the variable to the span and
/// the span to its reporting name; a rebound variable keeps only its
/// newest span.
pub open spec fn tracker_record_assigned(
    t: TrackerV,
    var: Seq<char>,
    span: Span,
    name: Seq<char>,
) -> TrackerV {
    TrackerV { vars: upsert(t.vars, var, span), names: upsert(t.names, span, name), ..t }
}

/// Recording a bare, unawaited step call appends it to the unassigned
/// list.
pub open spec fn tracker_record_unassigned(t: TrackerV, span: Span, name: Seq<char>) -> TrackerV {
    TrackerV { unassigned: t.unassigned.push((span, name)), ..t }
}

/// Marking a span awaited adds it to the awaited spans.
pub open spec fn tracker_mark_span(t: TrackerV, span: Span) -> TrackerV {
    TrackerV { awaited: t.awaited.push(span), ..t }
}

/// Marking a variable awaited resolves it through the variable map;
/// an unknown variable changes nothing.
pub open spec fn tracker_mark_var(t: TrackerV, var: Seq<char>) -> TrackerV {
    if assoc_has(t.vars, var) {
        TrackerV { awaited: t.awaited.push(assoc_get(t.vars, var)), ..t }
    } else {
        t
    }
}

/// The name under which a drained span is reported: its recorded
/// method name, or one synthesized from the variable that held it.
pub open spec fn report_name(names: Seq<(Span, Seq<char>)>, var: Seq<char>, span: Span) -> Seq<
    char,
> {
    if assoc_has(names, span) {
        assoc_get(names, span)
    } else {
        "step (var: "@ + var + ")"@
    }
}

/// The entries of the variable map whose spans were never awaited,
/// each with its reporting name, in map order.
pub open spec fn drain_vars(
    vars: Seq<(Seq<char>, Span)>,
    names: Seq<(Span, Seq<char>)>,
    awaited: Seq<Span>,
) -> Seq<(Span, Seq<char>)>
    decreases vars.len(),
{
    if vars.len() == 0 {
        Seq::empty()
    } else {
        let rest = drain_vars(vars.drop_first(), names, awaited);
        if !awaited.contains(vars[0].1) {
            seq![(vars[0].1, report_name(names, vars[0].0, vars[0].1))] + rest
        } else {
            rest
        }
    }
}

/// The unassigned entries whose spans were never awaited, in record
/// order.
pub open spec fn drain_unassigned(
    unassigned: Seq<(Span, Seq<char>)>,
    awaited: Seq<Span>,
) -> Seq<(Span, Seq<char>)>
    decreases unassigned.len(),
{
    if unassigned.len() == 0 {
        Seq::empty()
    } else {
        let rest = drain_unassigned(unassigned.drop_first(), awaited);
        if !awaited.contains(unassigned[0].0) {
            seq![unassigned[0]] + rest
        } else {
            rest
        }
    }
}

/// Everything the tracker reports on scope exit: every recorded span
/// absent from the awaited set, assigned entries first.
pub open spec fn tracker_drained(t: TrackerV) -> Seq<(Span, Seq<char>)> {
    drain_vars(t.vars, t.names, t.awaited) + drain_unassigned(t.unassigned, t.awaited)
}

/// The view of the variable map.
pub open spec fn vars_view(s: Seq<(String, Span)>) -> Seq<(Seq<char>, Span)> {
    s.map_values(|p: (String, Span)| (p.0@, p.1))
}

/// The view of the span-to-name map.
pub open spec fn names_view(s: Seq<(Span, String)>) -> Seq<(Span, Seq<char>)> {
    s.map_values(|p: (Span, String)| (p.0, p.1@))
}

/// Tracks step promise calls within one function-like scope.
#[derive(Debug)]
pub struct StepPromiseTracker {
    pub var_to_step_span: Vec<(String, Span)>,
    pub step_span_to_name: Vec<(Span, String)>,
    pub awaited_step_spans: Vec<Span>,
    pub unassigned_unawaited_steps: Vec<(Span, String)>,
}

impl View for StepPromiseTracker {
    type V = TrackerV;

    open spec fn view(&self) -> TrackerV {
        TrackerV {
            vars: vars_view(self.var_to_step_span@),
            names: names_view(self.step_span_to_name@),
            awaited: self.awaited_step_spans@,
            unassigned: names_view(self.unassigned_unawaited_steps@),
        }
    }
}

/// The index of the first entry for this variable name, if any.
fn find_var_index(m: &Vec<(String, Span)>, k: &str) -> (r: Option<usize>)
    ensures
        match r {
            Some(i) => i == find_key(vars_view(m@), k@),
            None => find_key(vars_view(m@), k@) == -1,
        },
{
    proof {
        lemma_find_key(vars_view(m@), k@);
    }
    let mut i: usize = 0;
    while i < m.len()
        invariant
            i <= m.len(),
            vars_view(m@).len() == m.len(),
            forall|j: int| 0 <= j < i ==> vars_view(m@)[j].0 != k@,
            find_key(vars_view(m@), k@) == -1 || 0 <= find_key(vars_view(m@), k@) < m.len(),
            find_key(vars_view(m@), k@) >= 0 ==> vars_view(m@)[find_key(vars_view(m@), k@)].0
                == k@,
            find_key(vars_view(m@), k@) >= 0 ==> forall|j: int|
                0 <= j < find_key(vars_view(m@), k@) ==> vars_view(m@)[j].0 != k@,
            find_key(vars_view(m@), k@) == -1 ==> forall|j: int|
                0 <= j < m.len() ==> vars_view(m@)[j].0 != k@,
        decreases m.len() - i,
    {
        if str_eq(m[i].0.as_str(), k) {
            proof {
                assert(vars_view(m@)[i as int].0 == k@);
            }
            return Some(i);
        }
        i = i + 1;
    }
    None
}

/// The index of the first entry for this span, if any.
fn find_span_index(m: &Vec<(Span, String)>, k: Span) -> (r: Option<usize>)
    ensures
        match r {
            Some(i) => i == find_key(names_view(m@), k),
            None => find_key(names_view(m@), k) == -1,
        },
{
    proof {
        lemma_find_key(names_view(m@), k);
    }
    let mut i: usize = 0;
    while i < m.len()
        invariant
            i <= m.len(),
            names_view(m@).len() == m.len(),
            forall|j: int| 0 <= j < i ==> names_view(m@)[j].0 != k,
            find_key(names_view(m@), k) == -1 || 0 <= find_key(names_view(m@), k) < m.len(),
            find_key(names_view(m@), k) >= 0 ==> names_view(m@)[find_key(names_view(m@), k)].0
                == k,
            find_key(names_view(m@), k) >= 0 ==> forall|j: int|
                0 <= j < find_key(names_view(m@), k) ==> names_view(m@)[j].0 != k,
            find_key(names_view(m@), k) == -1 ==> forall|j: int|
                0 <= j < m.len() ==> names_view(m@)[j].0 != k,
        decreases m.len() - i,
    {
        if m[i].0 == k {
            proof {
                assert(names_view(m@)[i as int].0 == k);
            }
            return Some(i);
        }
        i = i + 1;
    }
    None
}

/// Whether the span was marked awaited.
fn contains_span(v: &Vec<Span>, s: Span) -> (r: bool)
    ensures
        r == v@.contains(s),
{
    let mut i: usize = 0;
    while i < v.len()
        invariant
            i <= v.len(),
            forall|j: int| 0 <= j < i ==> v@[j] != s,
        decreases v.len() - i,
    {
        if v[i] == s {
            return true;
        }
        i = i + 1;
    }
    false
}

impl StepPromiseTracker {
    /// A tracker with nothing recorded.
    pub fn new() -> (r: Self)
        ensures
            r@ == tracker_empty(),
    {
        let r = StepPromiseTracker {
            var_to_step_span: Vec::new(),
            step_span_to_name: Vec::new(),
            awaited_step_spans: Vec::new(),
            unassigned_unawaited_steps: Vec::new(),
        };
        proof {
            assert(r@ =~= tracker_empty());
        }
        r
    }

    /// Records a step call assigned to a variable.
    pub fn record_assigned_step(&mut self, var_name: &str, span: Span, method_name: String)
        ensures
            final(self)@ == tracker_record_assigned(old(self)@, var_name@, span, method_name@),
    {
        proof {
            lemma_find_key(vars_view(self.var_to_step_span@), var_name@);
            lemma_find_key(names_view(self.step_span_to_name@), span);
        }
        match find_var_index(&self.var_to_step_span, var_name) {
            Some(i) => {
                self.var_to_step_span[i] = (String::from_str(var_name), span);
            },
            None => {
                self.var_to_step_span.push((String::from_str(var_name), span));
            },
        }
        proof {
            lemma_find_key(names_view(self.step_span_to_name@), span);
        }
        match find_span_index(&self.step_span_to_name, span) {
            Some(i) => {
                self.step_span_to_name[i] = (span, method_name);
            },
            None => {
                self.step_span_to_name.push((span, method_name));
            },
        }
        proof {
            assert(vars_view(self.var_to_step_span@) =~= upsert(
                vars_view(old(self).var_to_step_span@),
                var_name@,
                span,
            ));
            assert(names_view(self.step_span_to_name@) =~= upsert(
                names_view(old(self).step_span_to_name@),
                span,
                method_name@,
            ));
            assert(self@ =~= tracker_record_assigned(old(self)@, var_name@, span, method_name@));
        }
    }

    /// Records a step call that was neither assigned nor directly
    /// awaited.
    pub fn record_unassigned_unawaited_step(&mut self, span: Span, method_name: String)
        ensures
            final(self)@ == tracker_record_unassigned(old(self)@, span, method_name@),
    {
        self.unassigned_unawaited_steps.push((span, method_name));
        proof {
            assert(names_view(self.unassigned_unawaited_steps@) =~= old(
                self,
            )@.unassigned.push((span, method_name@)));
            assert(self@ =~= tracker_record_unassigned(old(self)@, span, method_name@));
        }
    }

    /// Marks a step call awaited by its span.
    pub fn mark_awaited_by_span(&mut self, span: Span)
        ensures
            final(self)@ == tracker_mark_span(old(self)@, span),
    {
        self.awaited_step_spans.push(span);
        proof {
            assert(self@ =~= tracker_mark_span(old(self)@, span));
        }
    }

    /// Marks awaited the step call a variable holds, if the variable
    /// is known.
    pub fn mark_awaited_by_var(&mut self, var_name: &str)
        ensures
            final(self)@ == tracker_mark_var(old(self)@, var_name@),
    {
        proof {
            lemma_find_key(vars_view(self.var_to_step_span@), var_name@);
        }
        match find_var_index(&self.var_to_step_span, var_name) {
            Some(i) => {
                let span = self.var_to_step_span[i].1;
                self.awaited_step_spans.push(span);
                proof {
                    assert(self@ =~= tracker_mark_var(old(self)@, var_name@));
                }
            },
            None => {
                proof {
                    assert(self@ =~= tracker_mark_var(old(self)@, var_name@));
                }
            },
        }
    }

    /// The reporting name for a drained span: its recorded method
    /// name, or one synthesized from the variable.
    fn lookup_report_name(&self, var_name: &str, span: Span) -> (r: String)
        ensures
            r@ == report_name(self@.names, var_name@, span),
    {
        match find_span_index(&self.step_span_to_name, span) {
            Some(i) => {
                proof {
                    lemma_find_key(self@.names, span);
                }
                self.step_span_to_name[i].1.clone()
            },
            None => {
                let mut r = String::from_str("step (var: ");
                r.append(var_name);
                r.append(")");
                proof {
                    assert(r@ =~= report_name(self@.names, var_name@, span));
                }
                r
            },
        }
    }

    /// Every recorded step call absent from the awaited set, each with
    /// its reporting name: assigned entries in map order, then
    /// unassigned entries in record order.
    #[verifier::loop_isolation(false)]
    pub fn get_unawaited_steps(&self) -> (r: Vec<(Span, String)>)
        ensures
            names_view(r@) == tracker_drained(self@),
    {
        let mut r: Vec<(Span, String)> = Vec::new();
        let ghost vars = self@.vars;
        let ghost names = self@.names;
        let ghost awaited = self@.awaited;
        let mut i: usize = 0;
        proof {
            assert(names_view(r@) =~= Seq::<(Span, Seq<char>)>::empty());
            assert(vars.skip(0) =~= vars);
        }
        while i < self.var_to_step_span.len()
            invariant
                i <= self.var_to_step_span.len(),
                vars.len() == self.var_to_step_span.len(),
                names_view(r@) + drain_vars(vars.skip(i as int), names, awaited) == drain_vars(
                    vars,
                    names,
                    awaited,
                ),
            decreases self.var_to_step_span.len() - i,
        {
            let var_name = &self.var_to_step_span[i].0;
            let span = self.var_to_step_span[i].1;
            proof {
                assert(vars.skip(i as int)[0] == vars[i as int]);
                assert(vars.skip(i as int).drop_first() =~= vars.skip(i + 1));
                assert(vars[i as int] == (
                    self.var_to_step_span@[i as int].0@,
                    self.var_to_step_span@[i as int].1,
                ));
                assert(vars[i as int].1 == span);
                assert(vars[i as int].0 == var_name@);
            }
            if !contains_span(&self.awaited_step_spans, span) {
                let name = self.lookup_report_name(var_name.as_str(), span);
                let ghost r_prev = r@;
                r.push((span, name));
                proof {
                    assert(names_view(r@) =~= names_view(r_prev) + seq![
                        (span, report_name(names, var_name@, span)),
                    ]);
                    assert(names_view(r@) + drain_vars(vars.skip(i + 1), names, awaited)
                        =~= drain_vars(vars, names, awaited));
                }
            } else {
                proof {
                    assert(drain_vars(vars.skip(i as int), names, awaited) == drain_vars(
                        vars.skip(i + 1),
                        names,
                        awaited,
                    ));
                }
            }
            i = i + 1;
        }
        proof {
            assert(vars.skip(vars.len() as int) =~= Seq::<(Seq<char>, Span)>::empty());
            assert(names_view(r@) =~= drain_vars(vars, names, awaited));
        }
        let mut j: usize = 0;
        let ghost unassigned = self@.unassigned;
        proof {
            assert(unassigned.skip(0) =~= unassigned);
        }
        while j < self.unassigned_unawaited_steps.len()
            invariant
                j <= self.unassigned_unawaited_steps.len(),
                unassigned.len() == self.unassigned_unawaited_steps.len(),
                names_view(r@) + drain_unassigned(unassigned.skip(j as int), awaited) == drain_vars(
                    vars,
                    names,
                    awaited,
                ) + drain_unassigned(unassigned, awaited),
            decreases self.unassigned_unawaited_steps.len() - j,
        {
            let span = self.unassigned_unawaited_steps[j].0;
            proof {
                assert(unassigned.skip(j as int)[0] == unassigned[j as int]);
                assert(unassigned.skip(j as int).drop_first() =~= unassigned.skip(j + 1));
                assert(unassigned[j as int] == (
                    self.unassigned_unawaited_steps@[j as int].0,
                    self.unassigned_unawaited_steps@[j as int].1@,
                ));
                assert(unassigned[j as int].0 == span);
            }
            if !contains_span(&self.awaited_step_spans, span) {
                let name = self.unassigned_unawaited_steps[j].1.clone();
                let ghost r_prev = r@;
                r.push((span, name));
                proof {
                    assert(names_view(r@) =~= names_view(r_prev) + seq![unassigned[j as int]]);
                    assert(names_view(r@) + drain_unassigned(unassigned.skip(j + 1), awaited)
                        =~= drain_vars(vars, names, awaited) + drain_unassigned(
                        unassigned,
                        awaited,
                    ));
                }
            } else {
                proof {
                    assert(drain_unassigned(unassigned.skip(j as int), awaited)
                        == drain_unassigned(unassigned.skip(j + 1), awaited));
                }
            }
            j = j + 1;
        }
        proof {
            assert(unassigned.skip(unassigned.len() as int) =~= Seq::<(Span, Seq<char>)>::empty());
            assert(names_view(r@) =~= tracker_drained(self@));
        }
        r
    }
}

} // verus!
