//! Facts about the model that the operations of the graph rest on.

use crate::state::model::TreeView;
use vstd::prelude::*;

verus! {

/// The arena of `after` agrees with that of `before` up to `scope` in what
/// resolution reads: which slots are alive, their parents, and the names
/// that they define.
pub open spec fn same_shape_up_to(before: TreeView, after: TreeView, scope: int) -> bool {
    &&& scope < before.scopes.len()
    &&& scope < after.scopes.len()
    &&& forall|j: int|
        0 <= j <= scope ==> {
            &&& (#[trigger] after.scopes[j]).alive == before.scopes[j].alive
            &&& after.scopes[j].parent == before.scopes[j].parent
            &&& after.scopes[j].variables.dom() == before.scopes[j].variables.dom()
        }
}

/// The owner that resolution finds is a live scope that defines the name,
/// and the scope asked from is the owner or one of its descendants.
pub proof fn lemma_resolve_owner(graph: TreeView, scope: int, name: Seq<char>)
    ensures
        graph.resolve(scope, name) matches Some(owner) ==> {
            &&& graph.contains(owner)
            &&& graph.scopes[owner].variables.contains_key(name)
            &&& owner <= scope
            &&& graph.within(scope, owner)
        },
    decreases scope,
{
    if graph.contains(scope) && !graph.scopes[scope].variables.contains_key(name) {
        if let Some(p) = graph.scopes[scope].parent {
            if 0 <= p < scope {
                lemma_resolve_owner(graph, p, name);
            }
        }
    }
}

/// Resolution reads only the shape of the arena on the way to the root.
pub proof fn lemma_resolve_same_shape(before: TreeView, after: TreeView, scope: int, name: Seq<char>)
    requires
        scope < 0 || same_shape_up_to(before, after, scope),
    ensures
        after.resolve(scope, name) == before.resolve(scope, name),
    decreases scope,
{
    if scope >= 0 {
        assert(after.scopes[scope].alive == before.scopes[scope].alive);
        assert(after.scopes[scope].variables.dom().contains(name)
            == before.scopes[scope].variables.dom().contains(name));
        if before.contains(scope) && !before.scopes[scope].variables.contains_key(name) {
            if let Some(p) = before.scopes[scope].parent {
                if 0 <= p < scope {
                    assert forall|j: int| 0 <= j <= p implies {
                        &&& (#[trigger] after.scopes[j]).alive == before.scopes[j].alive
                        &&& after.scopes[j].parent == before.scopes[j].parent
                        &&& after.scopes[j].variables.dom() == before.scopes[j].variables.dom()
                    } by {}
                    lemma_resolve_same_shape(before, after, p, name);
                }
            }
        }
    }
}

/// A graph stays in order when only values change and listeners are added
/// whose variables can be resolved.
pub proof fn lemma_same_shape_well_formed(before: TreeView, after: TreeView)
    requires
        before.well_formed(),
        after.scopes.len() == before.scopes.len(),
        after.scopes.len() > 0 ==> same_shape_up_to(before, after, after.scopes.len() - 1),
        forall|i: int|
            0 <= i < after.scopes.len() && after.scopes[i].alive ==> after.listeners_resolvable(i),
        forall|i: int|
            0 <= i < after.scopes.len() && !after.scopes[i].alive ==> after.scopes[i]
                == before.scopes[i],
    ensures
        after.well_formed(),
{
    assert forall|i: int| 0 <= i < after.scopes.len() implies #[trigger] after.scope_well_formed(
        i,
    ) by {
        assert(before.scope_well_formed(i));
        if after.scopes[i].alive {
            if let Some(p) = after.scopes[i].parent {
                assert(after.scopes[p].alive == before.scopes[p].alive);
            }
        }
    }
}

/// A new scope under no parent or under a live one keeps the graph in order.
pub proof fn lemma_create_well_formed(
    graph: TreeView,
    parent: Option<int>,
    bindings: Map<Seq<char>, Seq<char>>,
)
    requires
        graph.well_formed(),
        parent matches Some(p) ==> graph.contains(p),
    ensures
        graph.create(parent, bindings).well_formed(),
{
    let after = graph.create(parent, bindings);
    assert forall|i: int| 0 <= i < after.scopes.len() implies #[trigger] after.scope_well_formed(
        i,
    ) by {
        if i < graph.scopes.len() {
            assert(graph.scope_well_formed(i));
            assert(after.scopes[i] == graph.scopes[i]);
            if after.scopes[i].alive {
                assert forall|k: int, n: int|
                    0 <= k < after.scopes[i].listeners.len() && 0 <= n
                        < after.scopes[i].listeners[k].needed.len() implies after.resolve(
                    i,
                    #[trigger] after.scopes[i].listeners[k].needed[n],
                ).is_some() by {
                    lemma_resolve_same_shape(graph, after, i, graph.scopes[i].listeners[k].needed[n]);
                }
            }
        }
    }
}

/// What lies outside a removed subtree resolves as before.
pub proof fn lemma_remove_resolve(graph: TreeView, root: int, scope: int, name: Seq<char>)
    requires
        !graph.within(scope, root),
    ensures
        graph.remove(root).resolve(scope, name) == graph.resolve(scope, name),
    decreases scope,
{
    let after = graph.remove(root);
    if graph.contains(scope) {
        assert(after.scopes[scope] == graph.scopes[scope]);
        if !graph.scopes[scope].variables.contains_key(name) {
            if let Some(p) = graph.scopes[scope].parent {
                if 0 <= p < scope {
                    lemma_remove_resolve(graph, root, p, name);
                }
            }
        }
    } else if 0 <= scope < graph.scopes.len() {
        assert(after.scopes[scope] == graph.scopes[scope]);
    }
}

/// Removing a subtree keeps the graph in order.
pub proof fn lemma_remove_well_formed(graph: TreeView, root: int)
    requires
        graph.well_formed(),
    ensures
        graph.remove(root).well_formed(),
{
    let after = graph.remove(root);
    assert forall|i: int| 0 <= i < after.scopes.len() implies #[trigger] after.scope_well_formed(
        i,
    ) by {
        assert(graph.scope_well_formed(i));
        if after.scopes[i].alive {
            assert(!graph.within(i, root));
            assert(after.scopes[i] == graph.scopes[i]);
            if let Some(p) = graph.scopes[i].parent {
                assert(!graph.within(p, root));
                assert(after.scopes[p] == graph.scopes[p]);
            }
            assert forall|k: int, n: int|
                0 <= k < after.scopes[i].listeners.len() && 0 <= n
                    < after.scopes[i].listeners[k].needed.len() implies after.resolve(
                i,
                #[trigger] after.scopes[i].listeners[k].needed[n],
            ).is_some() by {
                lemma_remove_resolve(graph, root, i, graph.scopes[i].listeners[k].needed[n]);
            }
        } else if graph.within(i, root) {
        } else {
            assert(after.scopes[i] == graph.scopes[i]);
        }
    }
}

/// Where no needed name is unresolved, each of them resolves.
pub proof fn lemma_all_resolved(tree: TreeView, scope: int, needed: Seq<Seq<char>>, n: int)
    requires
        tree.first_unresolved(scope, needed).is_none(),
        0 <= n < needed.len(),
    ensures
        tree.resolve(scope, needed[n]).is_some(),
    decreases needed.len(),
{
    if n > 0 {
        lemma_all_resolved(tree, scope, needed.drop_first(), n - 1);
    }
}

/// A new value for a name that its scope defines leaves every resolution as
/// it was.
pub proof fn lemma_store_resolve(
    tree: TreeView,
    owner: int,
    name: Seq<char>,
    value: Seq<char>,
    scope: int,
    other: Seq<char>,
)
    requires
        tree.contains(owner),
        tree.scopes[owner].variables.contains_key(name),
    ensures
        tree.store(owner, name, value).resolve(scope, other) == tree.resolve(scope, other),
{
    let after = tree.store(owner, name, value);
    assert(after.scopes[owner].variables.dom() =~= tree.scopes[owner].variables.dom());
    if 0 <= scope < tree.scopes.len() {
        lemma_resolve_same_shape(tree, after, scope, other);
    }
}

/// A new value for a name that its scope defines keeps the graph in order.
pub proof fn lemma_store_well_formed(tree: TreeView, owner: int, name: Seq<char>, value: Seq<char>)
    requires
        tree.well_formed(),
        tree.contains(owner),
        tree.scopes[owner].variables.contains_key(name),
    ensures
        tree.store(owner, name, value).well_formed(),
{
    let after = tree.store(owner, name, value);
    assert(after.scopes[owner].variables.dom() =~= tree.scopes[owner].variables.dom());
    assert forall|i: int| 0 <= i < after.scopes.len() && after.scopes[i].alive implies after.listeners_resolvable(
        i,
    ) by {
        assert(tree.scope_well_formed(i));
        assert forall|k: int, n: int|
            0 <= k < after.scopes[i].listeners.len() && 0 <= n
                < after.scopes[i].listeners[k].needed.len() implies after.resolve(
            i,
            #[trigger] after.scopes[i].listeners[k].needed[n],
        ).is_some() by {
            lemma_store_resolve(tree, owner, name, value, i, tree.scopes[i].listeners[k].needed[n]);
        }
    }
    lemma_same_shape_well_formed(tree, after);
}

/// One more listener leaves every resolution as it was.
pub proof fn lemma_attach_resolve(
    tree: TreeView,
    scope: int,
    needed: Seq<Seq<char>>,
    from: int,
    name: Seq<char>,
)
    requires
        tree.contains(scope),
    ensures
        tree.attach(scope, needed).resolve(from, name) == tree.resolve(from, name),
{
    let after = tree.attach(scope, needed);
    if 0 <= from < tree.scopes.len() {
        lemma_resolve_same_shape(tree, after, from, name);
    }
}

/// One more listener whose variables can be resolved keeps the graph in
/// order.
pub proof fn lemma_attach_well_formed(tree: TreeView, scope: int, needed: Seq<Seq<char>>)
    requires
        tree.well_formed(),
        tree.contains(scope),
        tree.first_unresolved(scope, needed).is_none(),
    ensures
        tree.attach(scope, needed).well_formed(),
{
    let after = tree.attach(scope, needed);
    assert forall|i: int| 0 <= i < after.scopes.len() && after.scopes[i].alive implies after.listeners_resolvable(
        i,
    ) by {
        assert(tree.scope_well_formed(i));
        assert forall|k: int, n: int|
            0 <= k < after.scopes[i].listeners.len() && 0 <= n
                < after.scopes[i].listeners[k].needed.len() implies after.resolve(
            i,
            #[trigger] after.scopes[i].listeners[k].needed[n],
        ).is_some() by {
            let wanted = after.scopes[i].listeners[k].needed[n];
            lemma_attach_resolve(tree, scope, needed, i, wanted);
            if i == scope && k == tree.scopes[scope].listeners.len() {
                lemma_all_resolved(tree, scope, needed, n);
            } else {
                assert(after.scopes[i].listeners[k] == tree.scopes[i].listeners[k]);
            }
        }
    }
    lemma_same_shape_well_formed(tree, after);
}

} // verus!
