//! What holds of the scope graph, whatever its shape: the laws that
//! resolution, propagation and removal obey.

use crate::state::lemmas::{lemma_remove_resolve, lemma_resolve_owner, lemma_store_resolve};
use crate::state::model::{
    matching_slots, requested, EventView, GraphView, ListenerKey, ListenerView, OutcomeView, TreeView,
};
use crate::state::propagation::{call_outcomes, passed, ran_pass, ListenerCall, PropagationReport};
use crate::state::scope_graph::{keys, ListenerId, ScopeGraphEvent};
use vstd::prelude::*;

verus! {

/// `a` stands before `b`: its scope is older, or it was registered earlier
/// in the same scope.
pub open spec fn stands_before(a: ListenerKey, b: ListenerKey) -> bool {
    a.0 < b.0 || (a.0 == b.0 && a.1 < b.1)
}

proof fn lemma_push_contains<A>(s: Seq<A>, x: A, y: A)
    ensures
        s.push(x).contains(y) <==> (s.contains(y) || x == y),
{
    if s.contains(y) {
        let i = choose|i: int| 0 <= i < s.len() && s[i] == y;
        assert(s.push(x)[i] == y);
    }
    if x == y {
        assert(s.push(x)[s.len() as int] == y);
    }
    if s.push(x).contains(y) {
        let i = choose|i: int| 0 <= i < s.push(x).len() && s.push(x)[i] == y;
        if i < s.len() {
            assert(s[i] == y);
        }
    }
}

proof fn lemma_add_contains<A>(s: Seq<A>, t: Seq<A>, y: A)
    ensures
        (s + t).contains(y) <==> (s.contains(y) || t.contains(y)),
{
    if s.contains(y) {
        let i = choose|i: int| 0 <= i < s.len() && s[i] == y;
        assert((s + t)[i] == y);
    }
    if t.contains(y) {
        let i = choose|i: int| 0 <= i < t.len() && t[i] == y;
        assert((s + t)[s.len() + i] == y);
    }
    if (s + t).contains(y) {
        let i = choose|i: int| 0 <= i < (s + t).len() && (s + t)[i] == y;
        if i < s.len() {
            assert(s[i] == y);
        } else {
            assert(t[i - s.len()] == y);
        }
    }
}

proof fn lemma_matching_slots(listeners: Seq<ListenerView>, name: Seq<char>, n: nat, k: int)
    requires
        n <= listeners.len(),
    ensures
        matching_slots(listeners, name, n).contains(k) <==> (0 <= k < n && listeners[k].needed.contains(
            name,
        )),
    decreases n,
{
    if n > 0 {
        lemma_matching_slots(listeners, name, (n - 1) as nat, k);
        let rest = matching_slots(listeners, name, (n - 1) as nat);
        if listeners[n - 1].needed.contains(name) {
            lemma_push_contains(rest, n - 1, k);
        }
    }
}

/// The places in `slots` lie below `n` and rise.
spec fn rising_below(slots: Seq<int>, n: int) -> bool {
    &&& forall|i: int| 0 <= i < slots.len() ==> 0 <= #[trigger] slots[i] < n
    &&& forall|i: int, j: int| 0 <= i < j < slots.len() ==> #[trigger] slots[i] < #[trigger] slots[j]
}

proof fn lemma_matching_slots_rise(listeners: Seq<ListenerView>, name: Seq<char>, n: nat)
    requires
        n <= listeners.len(),
    ensures
        rising_below(matching_slots(listeners, name, n), n as int),
    decreases n,
{
    if n > 0 {
        lemma_matching_slots_rise(listeners, name, (n - 1) as nat);
        let rest = matching_slots(listeners, name, (n - 1) as nat);
        let all = matching_slots(listeners, name, n);
        assert(rising_below(rest, n - 1));
        if listeners[n - 1].needed.contains(name) {
            assert(all == rest.push(n - 1));
            assert forall|i: int| 0 <= i < all.len() implies 0 <= #[trigger] all[i] < n by {
                if i < rest.len() {
                    assert(all[i] == rest[i]);
                }
            }
            assert forall|i: int, j: int| 0 <= i < j < all.len() implies #[trigger] all[i]
                < #[trigger] all[j] by {
                assert(all[i] == rest[i]);
                if j < rest.len() {
                    assert(all[j] == rest[j]);
                }
            }
        } else {
            assert(all == rest);
            assert forall|i: int| 0 <= i < all.len() implies 0 <= #[trigger] all[i] < n by {
                assert(all[i] == rest[i]);
            }
        }
    }
}

/// The listeners that `listeners_for` names are those of the scope that
/// need the name, and no others.
pub proof fn law_listeners_for_exactly(tree: TreeView, scope: int, name: Seq<char>, listener: ListenerKey)
    ensures
        tree.listeners_for(scope, name).contains(listener) <==> (listener.0 == scope
            && tree.has_listener(listener) && tree.needed(listener).contains(name)),
{
    if tree.contains(scope) {
        let listeners = tree.scopes[scope].listeners;
        let slots = matching_slots(listeners, name, listeners.len());
        let mapped = slots.map_values(|slot: int| (scope, slot));
        lemma_matching_slots(listeners, name, listeners.len(), listener.1);
        if mapped.contains(listener) {
            let i = choose|i: int| 0 <= i < mapped.len() && mapped[i] == listener;
            assert(slots[i] == listener.1);
        }
        if listener.0 == scope && slots.contains(listener.1) {
            let i = choose|i: int| 0 <= i < slots.len() && slots[i] == listener.1;
            assert(mapped[i] == listener);
        }
    }
}

proof fn lemma_affected_below(tree: TreeView, owner: int, name: Seq<char>, n: nat, listener: ListenerKey)
    requires
        n <= tree.scopes.len(),
    ensures
        tree.affected_below(owner, name, n).contains(listener) <==> (listener.0 < n
            && tree.has_listener(listener) && tree.needed(listener).contains(name) && tree.resolve(
            listener.0,
            name,
        ) == Some(owner)),
    decreases n,
{
    if n > 0 {
        lemma_affected_below(tree, owner, name, (n - 1) as nat, listener);
        let rest = tree.affected_below(owner, name, (n - 1) as nat);
        law_listeners_for_exactly(tree, n - 1, name, listener);
        if tree.resolve(n - 1, name) == Some(owner) {
            lemma_add_contains(rest, tree.listeners_for(n - 1, name), listener);
        }
    }
}

/// At least once, and only where it is due: a change of `name` in `owner`
/// reaches a listener exactly if the listener needs `name` and its scope
/// sees the `name` of `owner`. A listener whose scope sees another
/// definition of the name, one that shadows `owner`'s or one that `owner`'s
/// shadows, is not reached.
pub proof fn law_affected_exactly(tree: TreeView, owner: int, name: Seq<char>, listener: ListenerKey)
    ensures
        tree.affected(owner, name).contains(listener) <==> (tree.has_listener(listener)
            && tree.needed(listener).contains(name) && tree.resolve(listener.0, name) == Some(
            owner,
        )),
{
    lemma_affected_below(tree, owner, name, tree.scopes.len(), listener);
}

/// The listeners in `list` have scopes below `n` and stand in order.
spec fn in_order_below(list: Seq<ListenerKey>, n: int) -> bool {
    &&& forall|i: int| 0 <= i < list.len() ==> (#[trigger] list[i]).0 < n
    &&& forall|i: int, j: int|
        0 <= i < j < list.len() ==> stands_before(#[trigger] list[i], #[trigger] list[j])
}

proof fn lemma_affected_below_rises(tree: TreeView, owner: int, name: Seq<char>, n: nat)
    requires
        n <= tree.scopes.len(),
    ensures
        in_order_below(tree.affected_below(owner, name, n), n as int),
    decreases n,
{
    if n > 0 {
        lemma_affected_below_rises(tree, owner, name, (n - 1) as nat);
        let rest = tree.affected_below(owner, name, (n - 1) as nat);
        let all = tree.affected_below(owner, name, n);
        assert(in_order_below(rest, n - 1));
        if tree.resolve(n - 1, name) == Some(owner) {
            let listeners = tree.scopes[n - 1].listeners;
            let slots = matching_slots(listeners, name, listeners.len());
            let here = tree.listeners_for(n - 1, name);
            lemma_matching_slots_rise(listeners, name, listeners.len());
            assert(all == rest + here);
            assert forall|i: int| 0 <= i < all.len() implies (#[trigger] all[i]).0 < n by {
                if i < rest.len() {
                    assert(all[i] == rest[i]);
                } else {
                    assert(all[i] == here[i - rest.len()]);
                }
            }
            assert forall|i: int, j: int| 0 <= i < j < all.len() implies stands_before(
                #[trigger] all[i],
                #[trigger] all[j],
            ) by {
                if j < rest.len() {
                    assert(all[i] == rest[i]);
                    assert(all[j] == rest[j]);
                } else if i < rest.len() {
                    assert(all[i] == rest[i]);
                    assert(all[j] == here[j - rest.len()]);
                } else {
                    assert(all[i] == here[i - rest.len()]);
                    assert(all[j] == here[j - rest.len()]);
                    assert(slots[i - rest.len()] < slots[j - rest.len()]);
                }
            }
        } else {
            assert(all == rest);
            assert forall|i: int| 0 <= i < all.len() implies (#[trigger] all[i]).0 < n by {
                assert(all[i] == rest[i]);
            }
        }
    }
}

/// At most once, and in a fixed order: among the listeners that a change
/// reaches, each stands before the next, by the age of its scope and then by
/// its registration. So none occurs twice.
pub proof fn law_affected_in_order(tree: TreeView, owner: int, name: Seq<char>, i: int, j: int)
    requires
        0 <= i < j < tree.affected(owner, name).len(),
    ensures
        stands_before(tree.affected(owner, name)[i], tree.affected(owner, name)[j]),
        tree.affected(owner, name)[i] != tree.affected(owner, name)[j],
{
    lemma_affected_below_rises(tree, owner, name, tree.scopes.len());
}

/// Shadowing: a scope that defines a name owns it for itself, and a scope
/// that does not define it sees what its parent sees.
pub proof fn law_nearest_definition_owns(tree: TreeView, scope: int, name: Seq<char>)
    requires
        tree.well_formed(),
        tree.contains(scope),
    ensures
        tree.scopes[scope].variables.contains_key(name) ==> tree.resolve(scope, name) == Some(scope),
        !tree.scopes[scope].variables.contains_key(name) ==> tree.resolve(scope, name) == (
        match tree.scopes[scope].parent {
            Some(parent) => tree.resolve(parent, name),
            None => None,
        }),
{
    assert(tree.scope_well_formed(scope));
}

/// The owner of a name is a scope that defines it, on the way from the
/// asking scope to the root.
pub proof fn law_owner_defines(tree: TreeView, scope: int, name: Seq<char>)
    ensures
        tree.resolve(scope, name) matches Some(owner) ==> tree.contains(owner)
            && tree.scopes[owner].variables.contains_key(name) && tree.within(scope, owner),
{
    lemma_resolve_owner(tree, scope, name);
}

/// A name that no scope defines has no owner and no value, from whatever
/// scope it is asked for, a scope of the graph or not.
pub proof fn law_undefined_has_no_value(tree: TreeView, scope: int, name: Seq<char>)
    requires
        forall|j: int| 0 <= j < tree.scopes.len() ==> !(#[trigger] tree.scopes[j]).variables.contains_key(name),
    ensures
        tree.resolve(scope, name).is_none(),
        tree.value(scope, name).is_none(),
    decreases scope,
{
    lemma_resolve_owner(tree, scope, name);
}

/// Nothing can be seen from what is not a scope of the graph.
pub proof fn law_unknown_scope_sees_nothing(tree: TreeView, scope: int, name: Seq<char>)
    requires
        !tree.contains(scope),
    ensures
        tree.resolve(scope, name).is_none(),
        tree.value(scope, name).is_none(),
        tree.listeners_for(scope, name).len() == 0,
{
}

/// A written value is what every scope sees that sees the name of the
/// owner.
pub proof fn law_written_value_is_seen(
    tree: TreeView,
    owner: int,
    name: Seq<char>,
    value: Seq<char>,
    scope: int,
)
    requires
        tree.contains(owner),
        tree.scopes[owner].variables.contains_key(name),
        tree.resolve(scope, name) == Some(owner),
    ensures
        tree.store(owner, name, value).value(scope, name) == Some(value),
{
    lemma_store_resolve(tree, owner, name, value, scope, name);
}

/// A write changes what is seen of the written name in the owner's scope
/// and nothing else.
pub proof fn law_write_changes_nothing_else(
    tree: TreeView,
    owner: int,
    name: Seq<char>,
    value: Seq<char>,
    scope: int,
    other: Seq<char>,
)
    requires
        tree.contains(owner),
        tree.scopes[owner].variables.contains_key(name),
        other != name || tree.resolve(scope, name) != Some(owner),
    ensures
        tree.store(owner, name, value).resolve(scope, other) == tree.resolve(scope, other),
        tree.store(owner, name, value).value(scope, other) == tree.value(scope, other),
{
    lemma_store_resolve(tree, owner, name, value, scope, other);
    lemma_resolve_owner(tree, scope, other);
}

proof fn lemma_store_affected_below(
    tree: TreeView,
    owner: int,
    name: Seq<char>,
    value: Seq<char>,
    from: int,
    other: Seq<char>,
    n: nat,
)
    requires
        tree.contains(owner),
        tree.scopes[owner].variables.contains_key(name),
        n <= tree.scopes.len(),
    ensures
        tree.store(owner, name, value).affected_below(from, other, n) == tree.affected_below(
            from,
            other,
            n,
        ),
    decreases n,
{
    if n > 0 {
        lemma_store_affected_below(tree, owner, name, value, from, other, (n - 1) as nat);
        lemma_store_resolve(tree, owner, name, value, n - 1, other);
    }
}

/// A write does not change which listeners a change reaches.
pub proof fn law_write_keeps_affected(
    tree: TreeView,
    owner: int,
    name: Seq<char>,
    value: Seq<char>,
    from: int,
    other: Seq<char>,
)
    requires
        tree.contains(owner),
        tree.scopes[owner].variables.contains_key(name),
    ensures
        tree.store(owner, name, value).affected(from, other) == tree.affected(from, other),
{
    lemma_store_affected_below(tree, owner, name, value, from, other, tree.scopes.len());
}

/// Inheritance: a listener that a write reaches is handed the written value
/// for the written name, whatever else it needs.
pub proof fn law_listener_is_handed_written_value(
    tree: TreeView,
    owner: int,
    name: Seq<char>,
    value: Seq<char>,
    listener: ListenerKey,
    i: int,
)
    requires
        tree.contains(owner),
        tree.scopes[owner].variables.contains_key(name),
        tree.affected(owner, name).contains(listener),
        0 <= i < tree.needed(listener).len(),
        tree.needed(listener)[i] == name,
    ensures
        tree.store(owner, name, value).affected(owner, name).contains(listener),
        tree.store(owner, name, value).invocation(listener).bindings[i] == (name, value),
{
    law_write_keeps_affected(tree, owner, name, value, owner, name);
    law_affected_exactly(tree, owner, name, listener);
    law_written_value_is_seen(tree, owner, name, value, listener.0);
}

/// Failures are isolated: a pass calls every listener that the change
/// reaches, in order, whatever the calls answer.
pub proof fn law_pass_calls_every_listener<F: Fn(ListenerId, Vec<(String, String)>) -> Result<Vec<ScopeGraphEvent>, String>>(
    handler: F,
    graph: GraphView,
    owner: int,
    name: Seq<char>,
    after: GraphView,
    report: PropagationReport,
)
    requires
        passed(handler, graph, graph.tree.invocations(owner, name), after, report),
    ensures
        keys(report.invoked@) == graph.tree.affected(owner, name),
{
    let log = choose|log: Seq<ListenerCall>|
        #[trigger] ran_pass(handler, graph, graph.tree.invocations(owner, name), log, after, report);
    assert(keys(report.invoked@) =~= graph.tree.affected(owner, name)) by {
        assert forall|i: int| 0 <= i < log.len() implies call_outcomes(log)[i].listener
            == graph.tree.affected(owner, name)[i] by {
            assert(log[i].listener.key() == graph.tree.invocations(owner, name)[i].listener);
        }
    }
}

/// A descendant is younger than its ancestor.
pub proof fn law_descendant_is_younger(tree: TreeView, scope: int, root: int)
    requires
        tree.within(scope, root),
    ensures
        root <= scope,
        tree.contains(root),
    decreases scope,
{
    if scope != root {
        law_descendant_is_younger(tree, tree.scopes[scope].parent.unwrap(), root);
    }
}

/// The child of a scope of the subtree belongs to the subtree.
pub proof fn law_child_is_within(tree: TreeView, child: int, root: int)
    requires
        tree.well_formed(),
        tree.contains(child),
        tree.scopes[child].parent matches Some(parent) && tree.within(parent, root),
    ensures
        tree.within(child, root),
{
    assert(tree.scope_well_formed(child));
}

/// Cascading removal: after the removal of `root`, neither `root` nor any
/// of its descendants is a scope of the graph, none of them has a listener
/// left, and nothing can be seen from them.
pub proof fn law_remove_cascades(tree: TreeView, root: int, scope: int, name: Seq<char>)
    requires
        tree.within(scope, root),
    ensures
        !tree.remove(root).contains(scope),
        tree.remove(root).scopes[scope].listeners.len() == 0,
        tree.remove(root).listeners_for(scope, name).len() == 0,
        tree.remove(root).resolve(scope, name).is_none(),
        tree.remove(root).value(scope, name).is_none(),
{
}

/// Removal spares what lies outside the subtree: such a scope keeps its
/// variables and listeners, and sees what it saw.
pub proof fn law_remove_spares_the_rest(tree: TreeView, root: int, scope: int, name: Seq<char>)
    requires
        0 <= scope < tree.scopes.len(),
        !tree.within(scope, root),
    ensures
        tree.remove(root).scopes[scope] == tree.scopes[scope],
        tree.remove(root).resolve(scope, name) == tree.resolve(scope, name),
        tree.remove(root).value(scope, name) == tree.value(scope, name),
{
    lemma_remove_resolve(tree, root, scope, name);
    lemma_resolve_owner(tree, scope, name);
    if let Some(owner) = tree.resolve(scope, name) {
        lemma_within_chain(tree, scope, owner, root);
    }
}

/// Where a scope lies below `owner` and `owner` lies in the subtree of
/// `root`, the scope lies in that subtree too.
proof fn lemma_within_chain(tree: TreeView, scope: int, owner: int, root: int)
    requires
        tree.within(scope, owner),
    ensures
        tree.within(owner, root) ==> tree.within(scope, root),
    decreases scope,
{
    if scope != owner {
        lemma_within_chain(tree, tree.scopes[scope].parent.unwrap(), owner, root);
    }
}

proof fn lemma_removed_below(tree: TreeView, root: int, n: nat)
    requires
        n <= tree.scopes.len(),
    ensures
        forall|i: int|
            0 <= i < tree.removed_below(root, n).len() ==> 0 <= #[trigger] tree.removed_below(
                root,
                n,
            )[i] < n && tree.within(tree.removed_below(root, n)[i], root),
        forall|i: int, j: int|
            0 <= i < j < tree.removed_below(root, n).len() ==> #[trigger] tree.removed_below(
                root,
                n,
            )[i] > #[trigger] tree.removed_below(root, n)[j],
        forall|scope: int|
            0 <= scope < n && tree.within(scope, root) ==> tree.removed_below(root, n).contains(
                scope,
            ),
    decreases n,
{
    if n > 0 {
        lemma_removed_below(tree, root, (n - 1) as nat);
        let rest = tree.removed_below(root, (n - 1) as nat);
        let all = tree.removed_below(root, n);
        if tree.within(n - 1, root) {
            assert(all =~= seq![n - 1].add(rest));
            assert forall|scope: int| 0 <= scope < n && tree.within(scope, root) implies all.contains(
                scope,
            ) by {
                if scope == n - 1 {
                    assert(all[0] == scope);
                } else {
                    let i = choose|i: int| 0 <= i < rest.len() && rest[i] == scope;
                    assert(all[i + 1] == scope);
                }
            }
        }
    }
}

/// Leaf first: the removal takes away exactly the scopes of the subtree,
/// each once, and each scope only after all of its descendants.
pub proof fn law_removal_is_leaf_first(tree: TreeView, root: int)
    ensures
        forall|scope: int|
            tree.removal_order(root).contains(scope) <==> tree.within(scope, root),
        forall|i: int, j: int|
            0 <= i < j < tree.removal_order(root).len() ==> !tree.within(
                #[trigger] tree.removal_order(root)[j],
                #[trigger] tree.removal_order(root)[i],
            ),
{
    lemma_removed_below(tree, root, tree.scopes.len());
    let order = tree.removal_order(root);
    assert forall|scope: int| order.contains(scope) <==> tree.within(scope, root) by {
        if order.contains(scope) {
            let i = choose|i: int| 0 <= i < order.len() && order[i] == scope;
            assert(tree.within(order[i], root));
        }
    }
    assert forall|i: int, j: int| 0 <= i < j < order.len() implies !tree.within(
        #[trigger] order[j],
        #[trigger] order[i],
    ) by {
        if tree.within(order[j], order[i]) {
            law_descendant_is_younger(tree, order[j], order[i]);
        }
    }
}

/// First in, first out: to apply one list of changes and then another is
/// to apply the two as one list.
pub proof fn law_changes_apply_in_order(tree: TreeView, first: Seq<EventView>, then: Seq<EventView>)
    ensures
        tree.apply_all(first + then).0 == tree.apply_all(first).0.apply_all(then).0,
        tree.apply_all(first + then).1 == tree.apply_all(first).1 + tree.apply_all(first).0.apply_all(
            then,
        ).1,
    decreases first.len(),
{
    if first.len() == 0 {
        assert(first + then =~= then);
        assert(tree.apply_all(first).1 + tree.apply_all(then).1 =~= tree.apply_all(then).1);
    } else {
        let next = tree.apply(first[0]);
        assert((first + then).drop_first() =~= first.drop_first() + then);
        assert((first + then)[0] == first[0]);
        law_changes_apply_in_order(next.0, first.drop_first(), then);
        let a = next.0.apply_all(first.drop_first());
        let b = a.0.apply_all(then);
        assert(seq![next.1].add(a.1 + b.1) =~= seq![next.1].add(a.1) + b.1);
    }
}

/// What one change does to the arena: it may add a slot at the end, and a
/// slot that is not alive does not come alive.
proof fn lemma_apply_keeps_dead(tree: TreeView, event: EventView, scope: int)
    requires
        0 <= scope < tree.scopes.len(),
        !tree.contains(scope),
    ensures
        tree.apply(event).0.scopes.len() >= tree.scopes.len(),
        !tree.apply(event).0.contains(scope),
{
}

proof fn lemma_apply_all_keeps_dead(tree: TreeView, changes: Seq<EventView>, scope: int)
    requires
        0 <= scope < tree.scopes.len(),
        !tree.contains(scope),
    ensures
        !tree.apply_all(changes).0.contains(scope),
    decreases changes.len(),
{
    if changes.len() > 0 {
        lemma_apply_keeps_dead(tree, changes[0], scope);
        lemma_apply_all_keeps_dead(tree.apply(changes[0]).0, changes.drop_first(), scope);
    }
}

/// Indices are not used again: a slot that was given out and whose scope
/// was removed stays dead, whatever changes follow.
pub proof fn law_removed_stays_removed(tree: TreeView, changes: Seq<EventView>, scope: int)
    requires
        0 <= scope < tree.scopes.len(),
        !tree.contains(scope),
    ensures
        !tree.apply_all(changes).0.contains(scope),
{
    lemma_apply_all_keeps_dead(tree, changes, scope);
}

/// A removal takes effect when its turn in the queue comes: a scope of the
/// arena whose removal is among the changes is no scope of the graph once
/// the changes are applied.
pub proof fn law_queued_removal_removes(tree: TreeView, changes: Seq<EventView>, scope: int)
    requires
        0 <= scope < tree.scopes.len(),
        changes.contains(EventView::RemoveScope { scope }),
    ensures
        !tree.apply_all(changes).0.contains(scope),
    decreases changes.len(),
{
    let at = choose|i: int| 0 <= i < changes.len() && changes[i] == (EventView::RemoveScope { scope });
    let next = tree.apply(changes[0]).0;
    if at == 0 {
        assert(!next.contains(scope));
        lemma_apply_all_keeps_dead(next, changes.drop_first(), scope);
    } else {
        assert(changes.drop_first()[at - 1] == changes[at]);
        if tree.contains(scope) {
            assert(next.scopes.len() >= tree.scopes.len());
            law_queued_removal_removes(next, changes.drop_first(), scope);
        } else {
            lemma_apply_keeps_dead(tree, changes[0], scope);
            lemma_apply_all_keeps_dead(next, changes.drop_first(), scope);
        }
    }
}

/// Deferred change: the removal of a scope that a listener asks for in a
/// pass is carried out when the pass ends. The calls of the pass are those
/// that were due on the graph as it stood; after the pass the scope is no
/// scope of the graph.
pub proof fn law_requested_removal_is_done_after_the_pass(
    graph: GraphView,
    outcomes: Seq<OutcomeView>,
    scope: int,
)
    requires
        0 <= scope < graph.tree.scopes.len(),
        requested(outcomes).contains(EventView::RemoveScope { scope }),
    ensures
        !graph.after_pass(outcomes).contains(scope),
        graph.after_pass(outcomes).pending.len() == 0,
{
    let wanted = EventView::RemoveScope { scope };
    let queue = graph.pending + requested(outcomes);
    lemma_add_contains(graph.pending, requested(outcomes), wanted);
    law_queued_removal_removes(graph.tree, queue, scope);
}

/// A pass leaves the tree alone until its calls are made: the calls are
/// those that are due on the graph as the write left it, and the graph after
/// the pass is that graph with the queue worked off, first what was queued
/// before the pass and then what the calls asked for, in their order.
pub proof fn law_pass_applies_changes_afterwards<F: Fn(ListenerId, Vec<(String, String)>) -> Result<Vec<ScopeGraphEvent>, String>>(
    handler: F,
    graph: GraphView,
    owner: int,
    name: Seq<char>,
    after: GraphView,
    report: PropagationReport,
)
    requires
        passed(handler, graph, graph.tree.invocations(owner, name), after, report),
    ensures
        exists|outcomes: Seq<OutcomeView>|
            {
                &&& outcomes.len() == graph.tree.affected(owner, name).len()
                &&& #[trigger] graph.after_pass(outcomes) == after
                &&& after.tree == graph.tree.apply_all(graph.pending).0.apply_all(
                    requested(outcomes),
                ).0
            },
{
    let log = choose|log: Seq<ListenerCall>|
        #[trigger] ran_pass(handler, graph, graph.tree.invocations(owner, name), log, after, report);
    let outcomes = call_outcomes(log);
    law_changes_apply_in_order(graph.tree, graph.pending, requested(outcomes));
    assert(graph.after_pass(outcomes) == after);
}

} // verus!
