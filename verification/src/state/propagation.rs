//! The propagation of a changed value to the listeners that need it.

use crate::state::lemmas::{lemma_attach_well_formed, lemma_store_well_formed};
use crate::state::model::{
    failed, requested, EventView, GraphView, InvocationView, ListenerKey, OutcomeView,
};
use crate::state::scope_graph::{
    applied, events, keys, names, unresolved_error, AppliedMutation, ListenerId, ScopeGraph,
    ScopeGraphError, ScopeGraphEvent, ScopeIndex,
};
use vstd::prelude::*;

verus! {

/// One call of a listener that is due: which listener, and the current value
/// of each variable that it needs, in the order in which it named them.
#[derive(Debug, PartialEq, Eq)]
pub struct Invocation {
    pub listener: ListenerId,
    pub values: Vec<(String, String)>,
}

/// What a listener answered to a call: the changes of the tree that it asks
/// for, or the message of its failure.
#[derive(Debug, PartialEq, Eq)]
pub struct ListenerOutcome {
    pub listener: ListenerId,
    pub result: Result<Vec<ScopeGraphEvent>, String>,
}

/// What a pass did: the listeners it called, in order; the failures among
/// them, each a `ListenerEvalError`; and what became of each queued change.
#[derive(Debug, PartialEq, Eq)]
pub struct PropagationReport {
    pub invoked: Vec<ListenerId>,
    pub failures: Vec<ScopeGraphError>,
    pub applied: Vec<AppliedMutation>,
}

/// A registered listener, and the report of its first call.
#[derive(Debug, PartialEq, Eq)]
pub struct Registration {
    pub listener: ListenerId,
    pub report: PropagationReport,
}

/// A call that was made, with its answer. It is used in contracts only.
pub struct ListenerCall {
    pub listener: ListenerId,
    pub values: Vec<(String, String)>,
    pub answer: Result<Vec<ScopeGraphEvent>, String>,
}

/// Names with values as the model has them.
pub open spec fn pairs(list: Seq<(String, String)>) -> Seq<(Seq<char>, Seq<char>)> {
    list.map_values(|p: (String, String)| (p.0@, p.1@))
}

/// An answer as the model has it.
pub open spec fn answer_view(answer: Result<Vec<ScopeGraphEvent>, String>) -> Result<
    Seq<EventView>,
    Seq<char>,
> {
    match answer {
        Ok(changes) => Ok(events(changes@)),
        Err(message) => Err(message@),
    }
}

impl View for Invocation {
    type V = InvocationView;

    open spec fn view(&self) -> InvocationView {
        InvocationView { listener: self.listener.key(), bindings: pairs(self.values@) }
    }
}

impl View for ListenerOutcome {
    type V = OutcomeView;

    open spec fn view(&self) -> OutcomeView {
        OutcomeView { listener: self.listener.key(), result: answer_view(self.result) }
    }
}

impl ListenerCall {
    /// What the call came to: which listener, and what it answered.
    pub open spec fn outcome(self) -> OutcomeView {
        OutcomeView { listener: self.listener.key(), result: answer_view(self.answer) }
    }
}

/// Calls that are due as the model has them.
pub open spec fn invocation_views(list: Seq<Invocation>) -> Seq<InvocationView> {
    list.map_values(|i: Invocation| i@)
}

/// Outcomes as the model has them.
pub open spec fn outcome_views(list: Seq<ListenerOutcome>) -> Seq<OutcomeView> {
    list.map_values(|o: ListenerOutcome| o@)
}

/// The outcomes of the calls that were made.
pub open spec fn call_outcomes(log: Seq<ListenerCall>) -> Seq<OutcomeView> {
    log.map_values(|c: ListenerCall| c.outcome())
}

/// `error` reports the failure of this listener with this message.
pub open spec fn reports_failure(error: ScopeGraphError, failure: (ListenerKey, Seq<char>)) -> bool {
    match error {
        ScopeGraphError::ListenerEvalError { listener, message } => listener.key() == failure.0
            && message@ == failure.1,
        _ => false,
    }
}

/// `errors` reports the failures `failures`, one for one.
pub open spec fn report_failures(errors: Seq<ScopeGraphError>, failures: Seq<(ListenerKey, Seq<char>)>) -> bool {
    &&& errors.len() == failures.len()
    &&& forall|i: int| 0 <= i < errors.len() ==> reports_failure(#[trigger] errors[i], failures[i])
}

/// In `log` the handler was called once for each of `invocations`, in their
/// order and with their values, and `log` holds what it answered.
pub open spec fn answered<F: Fn(ListenerId, Vec<(String, String)>) -> Result<Vec<ScopeGraphEvent>, String>>(
    handler: F,
    invocations: Seq<InvocationView>,
    log: Seq<ListenerCall>,
) -> bool {
    &&& log.len() == invocations.len()
    &&& forall|i: int|
        0 <= i < log.len() ==> {
            &&& (#[trigger] log[i]).listener.key() == invocations[i].listener
            &&& pairs(log[i].values@) == invocations[i].bindings
            &&& call_ensures(handler, (log[i].listener, log[i].values), log[i].answer)
        }
}

impl PropagationReport {
    /// The report of a pass in which nothing was done.
    pub open spec fn is_empty(self) -> bool {
        self.invoked@.len() == 0 && self.failures@.len() == 0 && self.applied@.len() == 0
    }

    /// The report is that of a pass on `graph` in which the listeners gave
    /// `outcomes`: it names the listeners that were called, in order, the
    /// failures among them, and what became of each queued change.
    pub open spec fn describes(self, graph: GraphView, outcomes: Seq<OutcomeView>) -> bool {
        &&& keys(self.invoked@) == outcomes.map_values(|o: OutcomeView| o.listener)
        &&& report_failures(self.failures@, failed(outcomes))
        &&& applied(self.applied@) == graph.pass_results(outcomes)
    }
}

/// A pass on `graph` with the calls `invocations` made the calls `log`, left
/// the graph `after` and reported `report`.
pub open spec fn ran_pass<F: Fn(ListenerId, Vec<(String, String)>) -> Result<Vec<ScopeGraphEvent>, String>>(
    handler: F,
    graph: GraphView,
    invocations: Seq<InvocationView>,
    log: Seq<ListenerCall>,
    after: GraphView,
    report: PropagationReport,
) -> bool {
    &&& answered(handler, invocations, log)
    &&& after == graph.after_pass(call_outcomes(log))
    &&& report.describes(graph, call_outcomes(log))
}

/// A pass on `graph` with the calls `invocations` left the graph `after` and
/// reported `report`: the handler was called once for each of the calls, in
/// their order and with their values, and what it answered was carried out.
pub open spec fn passed<F: Fn(ListenerId, Vec<(String, String)>) -> Result<Vec<ScopeGraphEvent>, String>>(
    handler: F,
    graph: GraphView,
    invocations: Seq<InvocationView>,
    after: GraphView,
    report: PropagationReport,
) -> bool {
    exists|log: Seq<ListenerCall>| #[trigger] ran_pass(handler, graph, invocations, log, after, report)
}

impl ScopeGraph {
    /// The listeners that a change of `name` in the scope `owner` reaches.
    fn affected(&self, owner: usize, name: &String) -> (found: Vec<ListenerId>)
        ensures
            keys(found@) == self@.tree.affected(owner as int, name@),
            forall|i: int| 0 <= i < found@.len() ==> self@.tree.has_listener(#[trigger] found@[i].key()),
    {
        let owners = self.owners(name);
        let mut found: Vec<ListenerId> = Vec::new();
        let mut j: usize = 0;
        assert(keys(found@) =~= self@.tree.affected_below(owner as int, name@, 0));
        while j < owners.len()
            invariant
                j <= owners.len(),
                owners.len() == self@.tree.scopes.len(),
                forall|k: int|
                    0 <= k < owners.len() ==> (match #[trigger] owners[k] {
                        Some(o) => Some(o as int),
                        None => None,
                    }) == self@.resolve(k, name@),
                keys(found@) == self@.tree.affected_below(owner as int, name@, j as nat),
                forall|i: int| 0 <= i < found@.len() ==> self@.tree.has_listener(#[trigger] found@[i].key()),
            decreases owners.len() - j,
        {
            let reached = match owners[j] {
                Some(o) => o == owner,
                None => false,
            };
            if reached {
                self.collect_listeners(j, name, &mut found);
            }
            j += 1;
        }
        found
    }

    /// The current value of each variable that a listener needs.
    fn bindings_for(&self, listener: ListenerId) -> (values: Vec<(String, String)>)
        requires
            self@.tree.has_listener(listener.key()),
        ensures
            pairs(values@) == self@.tree.invocation(listener.key()).bindings,
    {
        let needed = self.needed_of(listener);
        let mut values: Vec<(String, String)> = Vec::new();
        let mut i: usize = 0;
        while i < needed.len()
            invariant
                i <= needed.len(),
                names(needed@) == self@.tree.needed(listener.key()),
                pairs(values@) == self@.tree.invocation(listener.key()).bindings.take(i as int),
            decreases needed.len() - i,
        {
            let name = needed[i].clone();
            let value = match self.value_at(listener.scope.0, &name) {
                Some(v) => v,
                None => String::new(),
            };
            let ghost earlier = pairs(values@);
            values.push((name, value));
            proof {
                let all = self@.tree.invocation(listener.key()).bindings;
                assert(names(needed@)[i as int] == name@);
                assert(pairs(values@) =~= earlier.push((name@, value@)));
                assert(all.take(i as int).push(all[i as int]) =~= all.take(i + 1));
            }
            i += 1;
        }
        proof {
            let all = self@.tree.invocation(listener.key()).bindings;
            assert(all.take(needed.len() as int) =~= all);
        }
        values
    }

    /// The calls that are due for `listeners`, each with its current values.
    fn invocations_of(&self, listeners: &Vec<ListenerId>) -> (due: Vec<Invocation>)
        requires
            forall|i: int| 0 <= i < listeners@.len() ==> self@.tree.has_listener(#[trigger] listeners@[i].key()),
        ensures
            invocation_views(due@) == keys(listeners@).map_values(
                |l: ListenerKey| self@.tree.invocation(l),
            ),
    {
        let mut due: Vec<Invocation> = Vec::new();
        let ghost all = keys(listeners@).map_values(|l: ListenerKey| self@.tree.invocation(l));
        let mut i: usize = 0;
        assert(invocation_views(due@) =~= all.take(0));
        while i < listeners.len()
            invariant
                i <= listeners.len(),
                all == keys(listeners@).map_values(|l: ListenerKey| self@.tree.invocation(l)),
                forall|i: int| 0 <= i < listeners@.len() ==> self@.tree.has_listener(#[trigger] listeners@[i].key()),
                invocation_views(due@) == all.take(i as int),
            decreases listeners.len() - i,
        {
            let listener = listeners[i];
            let values = self.bindings_for(listener);
            let ghost earlier = invocation_views(due@);
            due.push(Invocation { listener, values });
            proof {
                assert(invocation_views(due@) =~= earlier.push(self@.tree.invocation(listener.key())));
                assert(all.take(i as int).push(all[i as int]) =~= all.take(i + 1));
            }
            i += 1;
        }
        assert(all.take(listeners.len() as int) =~= all);
        due
    }

    /// The first part of a write: gives `name`, as seen from `scope`, the
    /// value `value`, in the scope that owns the name, and returns the calls
    /// that are now due, in order: one for each listener that needs `name`
    /// and sees it in that scope, with the current value of each variable
    /// that the listener needs. Where the value is the current one already,
    /// nothing is written and nothing is due: the result is `None`. Fails
    /// where `scope` is not a scope of the graph and where `name` cannot be
    /// resolved from it; the graph then stays as it was.
    pub fn store_value(&mut self, scope: ScopeIndex, name: &str, value: String) -> (due: Result<
        Option<Vec<Invocation>>,
        ScopeGraphError,
    >)
        requires
            old(self)@.well_formed(),
        ensures
            final(self)@.well_formed(),
            match due {
                Ok(None) => {
                    &&& old(self)@.value(scope.0 as int, name@) == Some(value@)
                    &&& final(self)@ == old(self)@
                },
                Ok(Some(invocations)) => {
                    &&& old(self)@.resolve(scope.0 as int, name@) matches Some(owner)
                    &&& old(self)@.value(scope.0 as int, name@) != Some(value@)
                    &&& final(self)@ == old(self)@.store(owner, name@, value@)
                    &&& invocation_views(invocations@) == final(self)@.tree.invocations(owner, name@)
                },
                Err(error) => {
                    &&& old(self)@.resolve(scope.0 as int, name@).is_none()
                    &&& unresolved_error(old(self)@, scope, name@, error)
                    &&& final(self)@ == old(self)@
                },
            },
    {
        let key = name.to_owned();
        let owner = match self.owner_of(scope.0, &key) {
            Some(owner) => owner,
            None => {
                if self.contains_scope(scope) {
                    return Err(ScopeGraphError::UndefinedVariable { scope, name: key });
                } else {
                    return Err(ScopeGraphError::UnknownScope(scope));
                }
            },
        };
        let unchanged = match self.value_at(scope.0, &key) {
            Some(current) => current == value,
            None => false,
        };
        if unchanged {
            return Ok(None);
        }
        proof {
            lemma_store_well_formed(self@.tree, owner as int, name@, value@);
        }
        self.assign_at(owner, &key, value);
        let listeners = self.affected(owner, &key);
        let due = self.invocations_of(&listeners);
        Ok(Some(due))
    }

    /// The last part of a pass: takes what the listeners answered, in the
    /// order in which they were called. The changes that they ask for join
    /// the queue in that order, a failure is reported and holds nothing up,
    /// and then the queue is worked off.
    pub fn complete_pass(&mut self, outcomes: Vec<ListenerOutcome>) -> (report: PropagationReport)
        requires
            old(self)@.well_formed(),
        ensures
            final(self)@.well_formed(),
            final(self)@ == old(self)@.after_pass(outcome_views(outcomes@)),
            report.describes(old(self)@, outcome_views(outcomes@)),
    {
        let ghost all = outcome_views(outcomes@);
        let ghost before = self@;
        let mut invoked: Vec<ListenerId> = Vec::new();
        let mut failures: Vec<ScopeGraphError> = Vec::new();
        proof {
            assert(self@ =~~= before.enqueue_all(requested(all.take(0))));
            assert(keys(invoked@) =~= all.take(0).map_values(|o: OutcomeView| o.listener));
        }
        for outcome in it: outcomes
            invariant
                outcome_views(it.seq()) == all,
                self@ == before.enqueue_all(requested(all.take(it.index() as int))),
                keys(invoked@) == all.take(it.index() as int).map_values(|o: OutcomeView| o.listener),
                report_failures(failures@, failed(all.take(it.index() as int))),
        {
            let ghost n = it.index() as int;
            let ghost earlier = keys(invoked@);
            let ghost reported = failures@;
            let ghost queued = self@;
            let listener = outcome.listener;
            invoked.push(listener);
            match outcome.result {
                Ok(changes) => {
                    self.enqueue_all(changes);
                },
                Err(message) => {
                    failures.push(ScopeGraphError::ListenerEvalError { listener, message });
                },
            }
            proof {
                assert(all[n] == outcome@);
                assert(all.take(n + 1).drop_last() =~= all.take(n));
                assert(all.take(n + 1).last() == all[n]);
                assert(keys(invoked@) =~= earlier.push(listener.key()));
                assert(keys(invoked@) =~= all.take(n + 1).map_values(|o: OutcomeView| o.listener));
                assert(self@ =~~= before.enqueue_all(
                    requested(all.take(n + 1)),
                ));
            }
        }
        proof {
            assert(all.take(all.len() as int) =~= all);
        }
        let applied = self.drain_and_apply();
        PropagationReport { invoked, failures, applied }
    }
}

impl ScopeGraph {
    /// The place of the first of `needed` that cannot be resolved from `scope`.
    fn unresolved_among(&self, scope: usize, needed: &Vec<String>) -> (first: Option<usize>)
        ensures
            match first {
                Some(i) => i < needed.len() && self@.tree.first_unresolved(
                    scope as int,
                    names(needed@),
                ) == Some(needed[i as int]@),
                None => self@.tree.first_unresolved(scope as int, names(needed@)).is_none(),
            },
    {
        let ghost all = names(needed@);
        let mut i: usize = 0;
        assert(all.skip(0) =~= all);
        while i < needed.len()
            invariant
                i <= needed.len(),
                all == names(needed@),
                self@.tree.first_unresolved(scope as int, all) == self@.tree.first_unresolved(
                    scope as int,
                    all.skip(i as int),
                ),
            decreases needed.len() - i,
        {
            assert(all.skip(i as int)[0] == needed[i as int]@);
            assert(all.skip(i as int).drop_first() =~= all.skip(i + 1));
            if self.owner_of(scope, &needed[i]).is_none() {
                return Some(i);
            }
            i += 1;
        }
        None
    }

    /// Calls the handler for each call that is due, in order, and keeps what
    /// it answers. A failure does not keep the later calls from being made.
    fn call_listeners<F: Fn(ListenerId, Vec<(String, String)>) -> Result<Vec<ScopeGraphEvent>, String>>(
        due: Vec<Invocation>,
        handler: &F,
    ) -> (made: (Vec<ListenerOutcome>, Ghost<Seq<ListenerCall>>))
        requires
            forall|listener: ListenerId, values: Vec<(String, String)>|
                call_requires(*handler, (listener, values)),
        ensures
            answered(*handler, invocation_views(due@), made.1@),
            outcome_views(made.0@) == call_outcomes(made.1@),
    {
        let ghost all = invocation_views(due@);
        let mut outcomes: Vec<ListenerOutcome> = Vec::new();
        let ghost mut log: Seq<ListenerCall> = Seq::empty();
        assert(outcome_views(outcomes@) =~= call_outcomes(log));
        for invocation in it: due
            invariant
                invocation_views(it.seq()) == all,
                forall|listener: ListenerId, values: Vec<(String, String)>|
                    call_requires(*handler, (listener, values)),
                log.len() == it.index(),
                answered(*handler, all.take(it.index() as int), log),
                outcome_views(outcomes@) == call_outcomes(log),
        {
            let ghost n = it.index() as int;
            let ghost earlier = log;
            let ghost kept = outcome_views(outcomes@);
            let listener = invocation.listener;
            let ghost values = invocation.values;
            let answer = handler(listener, invocation.values);
            let ghost call = ListenerCall { listener, values, answer };
            proof {
                log = log.push(call);
                assert(all[n] == invocation@);
                assert forall|i: int| 0 <= i < log.len() implies {
                    &&& (#[trigger] log[i]).listener.key() == all.take(n + 1)[i].listener
                    &&& pairs(log[i].values@) == all.take(n + 1)[i].bindings
                    &&& call_ensures(*handler, (log[i].listener, log[i].values), log[i].answer)
                } by {
                    if i < n {
                        assert(log[i] == earlier[i]);
                        assert(all.take(n)[i] == all.take(n + 1)[i]);
                    }
                }
            }
            outcomes.push(ListenerOutcome { listener, result: answer });
            proof {
                assert(outcome_views(outcomes@) =~= kept.push(call.outcome()));
                assert(call_outcomes(log) =~= call_outcomes(earlier).push(call.outcome()));
            }
        }
        proof {
            assert(all.take(all.len() as int) =~= all);
        }
        (outcomes, Ghost(log))
    }

    /// Gives `name`, as seen from `scope`, the value `value`, and lets the
    /// listeners know. The value is written in the scope that owns the name.
    /// Where it is the current value already, nothing else happens. Else
    /// `handler` is called once for each listener that needs `name` and sees
    /// it in that scope, whether or not an earlier call failed, with the
    /// current value of each variable that the listener needs. The changes
    /// of the tree that the calls ask for wait until all calls are made;
    /// then they are applied in the order in which they were asked for,
    /// after those that were queued before. Fails where `scope` is not a
    /// scope of the graph and where `name` cannot be resolved from it; the
    /// graph then stays as it was.
    pub fn set_value<F: Fn(ListenerId, Vec<(String, String)>) -> Result<Vec<ScopeGraphEvent>, String>>(
        &mut self,
        scope: ScopeIndex,
        name: &str,
        value: String,
        handler: F,
    ) -> (done: Result<PropagationReport, ScopeGraphError>)
        requires
            old(self)@.well_formed(),
            forall|listener: ListenerId, values: Vec<(String, String)>|
                call_requires(handler, (listener, values)),
        ensures
            final(self)@.well_formed(),
            match done {
                Ok(report) => {
                    &&& old(self)@.resolve(scope.0 as int, name@) matches Some(owner)
                    &&& if old(self)@.value(scope.0 as int, name@) == Some(value@) {
                        final(self)@ == old(self)@ && report.is_empty()
                    } else {
                        passed(
                            handler,
                            old(self)@.store(owner, name@, value@),
                            old(self)@.store(owner, name@, value@).tree.invocations(owner, name@),
                            final(self)@,
                            report,
                        )
                    }
                },
                Err(error) => {
                    &&& old(self)@.resolve(scope.0 as int, name@).is_none()
                    &&& unresolved_error(old(self)@, scope, name@, error)
                    &&& final(self)@ == old(self)@
                },
            },
    {
        match self.store_value(scope, name, value) {
            Err(error) => {
                return Err(error);
            },
            Ok(None) => {
                return Ok(
                    PropagationReport { invoked: Vec::new(), failures: Vec::new(), applied: Vec::new() },
                );
            },
            Ok(Some(due)) => {
                let ghost stored = self@;
                let ghost invocations = invocation_views(due@);
                let (outcomes, Ghost(log)) = Self::call_listeners(due, &handler);
                let report = self.complete_pass(outcomes);
                proof {
                    assert(ran_pass(handler, stored, invocations, log, self@, report));
                    assert(passed(handler, stored, invocations, self@, report));
                }
                return Ok(report);
            },
        }
    }

    /// The first part of a registration: adds to `scope` a listener that
    /// needs `needed_variables`, and returns its first call with the current
    /// value of each of them. Fails where `scope` is not a scope of the
    /// graph, and where one of the names cannot be resolved from it, with
    /// the first such name; the graph then stays as it was.
    pub fn attach_listener(&mut self, scope: ScopeIndex, needed_variables: Vec<String>) -> (attached: Result<
        Invocation,
        ScopeGraphError,
    >)
        requires
            old(self)@.well_formed(),
        ensures
            final(self)@.well_formed(),
            match attached {
                Ok(invocation) => {
                    &&& old(self)@.contains(scope.0 as int)
                    &&& old(self)@.tree.first_unresolved(scope.0 as int, names(needed_variables@)).is_none()
                    &&& invocation.listener.key() == (
                        scope.0 as int,
                        old(self)@.tree.scopes[scope.0 as int].listeners.len() as int,
                    )
                    &&& final(self)@ == old(self)@.attach(scope.0 as int, names(needed_variables@))
                    &&& invocation@ == final(self)@.tree.invocation(invocation.listener.key())
                },
                Err(error) => {
                    &&& final(self)@ == old(self)@
                    &&& !old(self)@.contains(scope.0 as int) ==> error == ScopeGraphError::UnknownScope(
                        scope,
                    )
                    &&& old(self)@.contains(scope.0 as int) ==> (old(self)@.tree.first_unresolved(
                        scope.0 as int,
                        names(needed_variables@),
                    ) matches Some(name) && unresolved_error(old(self)@, scope, name, error))
                },
            },
    {
        if !self.contains_scope(scope) {
            return Err(ScopeGraphError::UnknownScope(scope));
        }
        match self.unresolved_among(scope.0, &needed_variables) {
            Some(i) => {
                return Err(ScopeGraphError::UndefinedVariable { scope, name: needed_variables[i].clone() });
            },
            None => {},
        }
        proof {
            lemma_attach_well_formed(self@.tree, scope.0 as int, names(needed_variables@));
        }
        let slot = self.push_listener(scope.0, needed_variables);
        let listener = ListenerId { scope, slot };
        let values = self.bindings_for(listener);
        Ok(Invocation { listener, values })
    }

    /// Registers a listener in `scope` that needs `needed_variables`, and
    /// calls `handler` for it once, with the current value of each of them,
    /// to set it up. What the call asks for is then applied as at the end of
    /// a pass. A failure of the call is reported and leaves the listener
    /// registered. Fails as `attach_listener` does.
    pub fn register<F: Fn(ListenerId, Vec<(String, String)>) -> Result<Vec<ScopeGraphEvent>, String>>(
        &mut self,
        scope: ScopeIndex,
        needed_variables: Vec<String>,
        handler: F,
    ) -> (registered: Result<Registration, ScopeGraphError>)
        requires
            old(self)@.well_formed(),
            forall|listener: ListenerId, values: Vec<(String, String)>|
                call_requires(handler, (listener, values)),
        ensures
            final(self)@.well_formed(),
            match registered {
                Ok(registration) => {
                    &&& old(self)@.contains(scope.0 as int)
                    &&& old(self)@.tree.first_unresolved(scope.0 as int, names(needed_variables@)).is_none()
                    &&& registration.listener.key() == (
                        scope.0 as int,
                        old(self)@.tree.scopes[scope.0 as int].listeners.len() as int,
                    )
                    &&& passed(
                        handler,
                        old(self)@.attach(scope.0 as int, names(needed_variables@)),
                        seq![
                            old(self)@.attach(scope.0 as int, names(needed_variables@)).tree.invocation(
                                registration.listener.key(),
                            ),
                        ],
                        final(self)@,
                        registration.report,
                    )
                },
                Err(error) => {
                    &&& final(self)@ == old(self)@
                    &&& !old(self)@.contains(scope.0 as int) ==> error == ScopeGraphError::UnknownScope(
                        scope,
                    )
                    &&& old(self)@.contains(scope.0 as int) ==> (old(self)@.tree.first_unresolved(
                        scope.0 as int,
                        names(needed_variables@),
                    ) matches Some(name) && unresolved_error(old(self)@, scope, name, error))
                },
            },
    {
        match self.attach_listener(scope, needed_variables) {
            Err(error) => {
                return Err(error);
            },
            Ok(invocation) => {
                let ghost attached = self@;
                let listener = invocation.listener;
                let mut due: Vec<Invocation> = Vec::new();
                due.push(invocation);
                let ghost invocations = invocation_views(due@);
                let (outcomes, Ghost(log)) = Self::call_listeners(due, &handler);
                let report = self.complete_pass(outcomes);
                proof {
                    assert(invocations =~= seq![attached.tree.invocation(listener.key())]);
                    assert(ran_pass(handler, attached, invocations, log, self@, report));
                    assert(passed(handler, attached, invocations, self@, report));
                }
                return Ok(Registration { listener, report });
            },
        }
    }
}

} // verus!
