//! The scope graph: an arena of scopes that are addressed by stable indices.

use crate::state::lemmas::{lemma_create_well_formed, lemma_remove_well_formed};
use crate::state::model::{
    matching_slots, tombstone, AppliedView, EventView, GraphView, ListenerKey, ListenerView, ScopeView, TreeView,
};
use crate::state::variables::{bindings_map, VariableStore};
use std::collections::VecDeque;
use vstd::prelude::*;

verus! {

/// The identity of a scope. An index is handed out once and never again.
#[derive(Clone, Copy, Debug, PartialEq, Eq, Hash, Structural)]
pub struct ScopeIndex(pub usize);

/// The identity of a listener: its scope, and its place among the listeners
/// of that scope.
#[derive(Clone, Copy, Debug, PartialEq, Eq, Hash, Structural)]
pub struct ListenerId {
    pub scope: ScopeIndex,
    pub slot: usize,
}

impl ListenerId {
    /// The listener in the model.
    pub open spec fn key(self) -> ListenerKey {
        (self.scope.0 as int, self.slot as int)
    }
}

/// What can go wrong in the graph and around it.
#[derive(Clone, Debug, PartialEq, Eq)]
pub enum ScopeGraphError {
    /// The name is defined neither in the scope nor in one of its ancestors.
    UndefinedVariable { scope: ScopeIndex, name: String },
    /// The scope was removed or never existed.
    UnknownScope(ScopeIndex),
    /// A listener failed; the message is the one it gave.
    ListenerEvalError { listener: ListenerId, message: String },
    /// The children of a custom widget were asked for outside of one.
    ExpectedCustomInvocationContext,
}

/// A change of the tree's shape, to be queued and applied later.
#[derive(Clone, Debug, PartialEq, Eq)]
pub enum ScopeGraphEvent {
    CreateScope { parent: Option<ScopeIndex>, bindings: Vec<(String, String)> },
    RemoveScope(ScopeIndex),
}

/// What became of a queued change.
#[derive(Clone, Debug, PartialEq, Eq)]
pub enum AppliedMutation {
    /// The scope was created.
    Created(ScopeIndex),
    /// These scopes were removed, in this order.
    Removed(Vec<ScopeIndex>),
    /// The change named this scope, which does not exist.
    Rejected(ScopeIndex),
}

/// An index, or none, as the model has it.
pub open spec fn index_view(index: Option<ScopeIndex>) -> Option<int> {
    match index {
        Some(i) => Some(i.0 as int),
        None => None,
    }
}

/// Indices as the model has them.
pub open spec fn indices(list: Seq<ScopeIndex>) -> Seq<int> {
    list.map_values(|i: ScopeIndex| i.0 as int)
}

/// Listeners as the model has them.
pub open spec fn keys(list: Seq<ListenerId>) -> Seq<ListenerKey> {
    list.map_values(|l: ListenerId| l.key())
}

/// Names as the model has them.
pub open spec fn names(list: Seq<String>) -> Seq<Seq<char>> {
    list.map_values(|s: String| s@)
}

impl View for ScopeGraphEvent {
    type V = EventView;

    open spec fn view(&self) -> EventView {
        match self {
            ScopeGraphEvent::CreateScope { parent, bindings } => EventView::CreateScope {
                parent: index_view(*parent),
                bindings: bindings_map(bindings@),
            },
            ScopeGraphEvent::RemoveScope(scope) => EventView::RemoveScope { scope: scope.0 as int },
        }
    }
}

impl View for AppliedMutation {
    type V = AppliedView;

    open spec fn view(&self) -> AppliedView {
        match self {
            AppliedMutation::Created(scope) => AppliedView::Created { scope: scope.0 as int },
            AppliedMutation::Removed(scopes) => AppliedView::Removed { scopes: indices(scopes@) },
            AppliedMutation::Rejected(scope) => AppliedView::Rejected { scope: scope.0 as int },
        }
    }
}

/// Changes as the model has them.
pub open spec fn events(list: Seq<ScopeGraphEvent>) -> Seq<EventView> {
    list.map_values(|e: ScopeGraphEvent| e@)
}

/// Results of changes as the model has them.
pub open spec fn applied(list: Seq<AppliedMutation>) -> Seq<AppliedView> {
    list.map_values(|a: AppliedMutation| a@)
}

/// `error` is what a write or a registration fails with where `name` cannot
/// be resolved from `scope`: the scope is unknown, or else the variable is
/// undefined.
pub open spec fn unresolved_error(graph: GraphView, scope: ScopeIndex, name: Seq<char>, error: ScopeGraphError) -> bool {
    if graph.contains(scope.0 as int) {
        match error {
            ScopeGraphError::UndefinedVariable { scope: at, name: wanted } => at == scope && wanted@
                == name,
            _ => false,
        }
    } else {
        error == ScopeGraphError::UnknownScope(scope)
    }
}

/// A listener as the graph keeps it.
pub(crate) struct Listener {
    pub(crate) needed_variables: Vec<String>,
}

/// One slot of the arena.
pub(crate) struct Scope {
    pub(crate) alive: bool,
    pub(crate) parent: Option<usize>,
    pub(crate) variables: VariableStore,
    pub(crate) listeners: Vec<Listener>,
}

impl Listener {
    pub(crate) open spec fn view(&self) -> ListenerView {
        ListenerView { needed: names(self.needed_variables@) }
    }
}

impl Scope {
    pub(crate) open spec fn view(&self) -> ScopeView {
        ScopeView {
            alive: self.alive,
            parent: match self.parent {
                Some(p) => Some(p as int),
                None => None,
            },
            variables: self.variables@,
            listeners: self.listeners@.map_values(|l: Listener| l.view()),
        }
    }
}

/// The graph of scopes, with the queue of the changes that wait to be applied.
pub struct ScopeGraph {
    pub(crate) scopes: Vec<Scope>,
    pub(crate) pending: VecDeque<ScopeGraphEvent>,
}

impl View for ScopeGraph {
    type V = GraphView;

    closed spec fn view(&self) -> GraphView {
        GraphView {
            tree: TreeView { scopes: self.scopes@.map_values(|s: Scope| s.view()) },
            pending: events(self.pending@),
        }
    }
}

impl ScopeGraph {
    /// A graph without scopes.
    pub fn new() -> (graph: Self)
        ensures
            graph@ == GraphView::empty(),
            graph@.well_formed(),
    {
        let graph = ScopeGraph { scopes: Vec::new(), pending: VecDeque::new() };
        assert(graph@ =~= GraphView::empty());
        graph
    }

    /// Whether `scope` is a scope of the graph.
    pub fn contains_scope(&self, scope: ScopeIndex) -> (known: bool)
        ensures
            known == self@.contains(scope.0 as int),
    {
        scope.0 < self.scopes.len() && self.scopes[scope.0].alive
    }

    /// `resolve`, on an index and for a name that is at hand as a `String`.
    pub(crate) fn owner_of(&self, scope: usize, name: &String) -> (owner: Option<usize>)
        ensures
            match owner {
                Some(o) => {
                    &&& self@.resolve(scope as int, name@) == Some(o as int)
                    &&& self@.contains(o as int)
                    &&& self@.tree.scopes[o as int].variables.contains_key(name@)
                },
                None => self@.resolve(scope as int, name@).is_none(),
            },
    {
        let mut current: usize = scope;
        loop
            invariant
                self@.resolve(scope as int, name@) == self@.resolve(current as int, name@),
            decreases current,
        {
            if current >= self.scopes.len() || !self.scopes[current].alive {
                return None;
            }
            if self.scopes[current].variables.defines(name) {
                return Some(current);
            }
            match self.scopes[current].parent {
                Some(p) => {
                    if p < current {
                        current = p;
                    } else {
                        return None;
                    }
                },
                None => {
                    return None;
                },
            }
        }
    }

    /// The scope that owns `name` as seen from `scope`: the first on the way
    /// to the root that defines it. None where no scope on that way defines
    /// the name, and where `scope` is not a scope of the graph.
    pub fn resolve(&self, scope: ScopeIndex, name: &str) -> (owner: Option<ScopeIndex>)
        ensures
            index_view(owner) == self@.resolve(scope.0 as int, name@),
    {
        let key = name.to_owned();
        match self.owner_of(scope.0, &key) {
            Some(o) => Some(ScopeIndex(o)),
            None => None,
        }
    }

    /// The parent of `scope`. None where it is a root, and where `scope` is
    /// not a scope of the graph.
    pub fn parent_of(&self, scope: ScopeIndex) -> (parent: Option<ScopeIndex>)
        ensures
            index_view(parent) == (if self@.contains(scope.0 as int) {
                self@.tree.scopes[scope.0 as int].parent
            } else {
                None
            }),
    {
        if !self.contains_scope(scope) {
            return None;
        }
        match self.scopes[scope.0].parent {
            Some(p) => Some(ScopeIndex(p)),
            None => None,
        }
    }

    /// The scope that owns `name` as seen from `scope`, or why there is none:
    /// `scope` is not a scope of the graph, or else the name is defined
    /// neither in `scope` nor in one of its ancestors.
    pub fn try_resolve(&self, scope: ScopeIndex, name: &str) -> (owner: Result<ScopeIndex, ScopeGraphError>)
        ensures
            match owner {
                Ok(o) => self@.resolve(scope.0 as int, name@) == Some(o.0 as int),
                Err(error) => self@.resolve(scope.0 as int, name@).is_none() && unresolved_error(
                    self@,
                    scope,
                    name@,
                    error,
                ),
            },
    {
        let key = name.to_owned();
        match self.owner_of(scope.0, &key) {
            Some(o) => Ok(ScopeIndex(o)),
            None => {
                if self.contains_scope(scope) {
                    Err(ScopeGraphError::UndefinedVariable { scope, name: key })
                } else {
                    Err(ScopeGraphError::UnknownScope(scope))
                }
            },
        }
    }

    /// `get_value`, on an index and for a name that is at hand as a `String`.
    pub(crate) fn value_at(&self, scope: usize, name: &String) -> (value: Option<String>)
        ensures
            value.is_some() == self@.value(scope as int, name@).is_some(),
            value matches Some(v) ==> self@.value(scope as int, name@) == Some(v@),
    {
        match self.owner_of(scope, name) {
            Some(owner) => self.scopes[owner].variables.value_of(name),
            None => None,
        }
    }

    /// The value of `name` as seen from `scope`. None where the name cannot
    /// be resolved from there.
    pub fn get_value(&self, scope: ScopeIndex, name: &str) -> (value: Option<String>)
        ensures
            value.is_some() == self@.value(scope.0 as int, name@).is_some(),
            value matches Some(v) ==> self@.value(scope.0 as int, name@) == Some(v@),
    {
        let key = name.to_owned();
        self.value_at(scope.0, &key)
    }

    /// Creates a scope with the given bindings, under `parent` or as a root.
    /// Fails where `parent` is not a scope of the graph.
    pub fn create_scope(&mut self, parent: Option<ScopeIndex>, initial_bindings: Vec<(String, String)>) -> (created:
        Result<ScopeIndex, ScopeGraphError>)
        requires
            old(self)@.well_formed(),
        ensures
            final(self)@.well_formed(),
            match created {
                Ok(scope) => {
                    &&& parent matches Some(p) ==> old(self)@.contains(p.0 as int)
                    &&& scope.0 == old(self)@.tree.scopes.len()
                    &&& final(self)@ == old(self)@.create(
                        index_view(parent),
                        bindings_map(initial_bindings@),
                    )
                },
                Err(error) => {
                    &&& parent matches Some(p) && !old(self)@.contains(p.0 as int)
                    &&& error == ScopeGraphError::UnknownScope(parent.unwrap())
                    &&& final(self)@ == old(self)@
                },
            },
    {
        let parent_slot: Option<usize> = match parent {
            Some(p) => {
                if !self.contains_scope(p) {
                    return Err(ScopeGraphError::UnknownScope(p));
                }
                Some(p.0)
            },
            None => None,
        };
        let scope = ScopeIndex(self.scopes.len());
        let variables = VariableStore::from_bindings(initial_bindings);
        self.scopes.push(Scope { alive: true, parent: parent_slot, variables, listeners: Vec::new() });
        proof {
            lemma_create_well_formed(old(self)@.tree, index_view(parent), bindings_map(initial_bindings@));
            assert(self@ =~~= old(self)@.create(index_view(parent), bindings_map(initial_bindings@)));
        }
        Ok(scope)
    }
}

/// Whether `name` is among `needed`.
pub(crate) fn needs(needed: &Vec<String>, name: &String) -> (found: bool)
    ensures
        found == names(needed@).contains(name@),
{
    let mut i: usize = 0;
    while i < needed.len()
        invariant
            i <= needed.len(),
            forall|j: int| 0 <= j < i ==> (#[trigger] names(needed@)[j]) != name@,
        decreases needed.len() - i,
    {
        if needed[i] == *name {
            assert(names(needed@)[i as int] == name@);
            return true;
        }
        i += 1;
    }
    false
}

impl ScopeGraph {
    /// For each slot of the arena, whether it is `root` or one of its
    /// descendants.
    fn subtree(&self, root: ScopeIndex) -> (inside: Vec<bool>)
        ensures
            inside.len() == self@.tree.scopes.len(),
            forall|k: int| 0 <= k < inside.len() ==> inside[k] == self@.tree.within(k, root.0 as int),
    {
        let mut inside: Vec<bool> = Vec::new();
        let mut j: usize = 0;
        while j < self.scopes.len()
            invariant
                j <= self.scopes.len(),
                inside.len() == j,
                forall|k: int| 0 <= k < j ==> inside[k] == self@.tree.within(k, root.0 as int),
            decreases self.scopes.len() - j,
        {
            let below = match self.scopes[j].parent {
                Some(p) => p < j && inside[p],
                None => false,
            };
            inside.push(self.scopes[j].alive && (j == root.0 || below));
            j += 1;
        }
        inside
    }

    /// Removes `scope` and all of its descendants, with their listeners; no
    /// listener is called. Returns the removed scopes, the youngest first, so
    /// that each scope comes after all of its descendants. Fails where
    /// `scope` is not a scope of the graph.
    pub fn remove_scope(&mut self, scope: ScopeIndex) -> (removed: Result<Vec<ScopeIndex>, ScopeGraphError>)
        requires
            old(self)@.well_formed(),
        ensures
            final(self)@.well_formed(),
            match removed {
                Ok(scopes) => {
                    &&& old(self)@.contains(scope.0 as int)
                    &&& final(self)@ == old(self)@.remove(scope.0 as int)
                    &&& indices(scopes@) == old(self)@.removal_order(scope.0 as int)
                },
                Err(error) => {
                    &&& !old(self)@.contains(scope.0 as int)
                    &&& error == ScopeGraphError::UnknownScope(scope)
                    &&& final(self)@ == old(self)@
                },
            },
    {
        if !self.contains_scope(scope) {
            return Err(ScopeGraphError::UnknownScope(scope));
        }
        let ghost before = self@;
        let ghost root = scope.0 as int;
        let inside = self.subtree(scope);
        let mut removed: Vec<ScopeIndex> = Vec::new();
        let mut j: usize = self.scopes.len();
        while j > 0
            invariant
                j <= self.scopes.len(),
                self@.tree.scopes.len() == before.tree.scopes.len(),
                self@.pending == before.pending,
                inside.len() == self.scopes.len(),
                forall|k: int| 0 <= k < inside.len() ==> inside[k] == before.tree.within(k, root),
                forall|k: int| 0 <= k < j ==> self@.tree.scopes[k] == before.tree.scopes[k],
                forall|k: int|
                    j <= k < self.scopes.len() ==> self@.tree.scopes[k] == before.tree.remove(
                        root,
                    ).scopes[k],
                indices(removed@) + before.tree.removed_below(root, j as nat)
                    == before.tree.removal_order(root),
            decreases j,
        {
            j -= 1;
            let ghost earlier = indices(removed@);
            if inside[j] {
                self.scopes[j] = Scope {
                    alive: false,
                    parent: None,
                    variables: VariableStore::new(),
                    listeners: Vec::new(),
                };
                removed.push(ScopeIndex(j));
                proof {
                    assert(self@.tree.scopes[j as int] =~~= tombstone());
                    assert(indices(removed@) =~= earlier.push(j as int));
                    assert(earlier.push(j as int) + before.tree.removed_below(root, j as nat)
                        =~= earlier + before.tree.removed_below(root, (j + 1) as nat));
                }
            }
        }
        proof {
            lemma_remove_well_formed(before.tree, root);
            assert(self@ =~~= before.remove(root));
            assert(before.tree.removed_below(root, 0) =~= Seq::<int>::empty());
            assert(indices(removed@) =~= indices(removed@) + Seq::<int>::empty());
        }
        Ok(removed)
    }

    /// Adds to `found` the listeners of the scope at `scope` that need `name`.
    pub(crate) fn collect_listeners(&self, scope: usize, name: &String, found: &mut Vec<ListenerId>)
        requires
            self@.contains(scope as int),
            forall|i: int| 0 <= i < old(found)@.len() ==> self@.tree.has_listener(#[trigger] old(found)@[i].key()),
        ensures
            keys(final(found)@) == keys(old(found)@) + self@.listeners_for(scope as int, name@),
            forall|i: int| 0 <= i < final(found)@.len() ==> self@.tree.has_listener(#[trigger] final(found)@[i].key()),
    {
        let ghost earlier = keys(found@);
        let ghost listeners = self@.tree.scopes[scope as int].listeners;
        let mut k: usize = 0;
        while k < self.scopes[scope].listeners.len()
            invariant
                scope < self.scopes.len(),
                k <= self.scopes[scope as int].listeners.len(),
                listeners == self@.tree.scopes[scope as int].listeners,
                self@.contains(scope as int),
                forall|i: int| 0 <= i < found@.len() ==> self@.tree.has_listener(#[trigger] found@[i].key()),
                keys(found@) == earlier + matching_slots(
                    listeners,
                    name@,
                    k as nat,
                ).map_values(|slot: int| (scope as int, slot)),
            decreases self.scopes[scope as int].listeners.len() - k,
        {
            let ghost so_far = keys(found@);
            let ghost slots = matching_slots(listeners, name@, k as nat);
            if needs(&self.scopes[scope].listeners[k].needed_variables, name) {
                found.push(ListenerId { scope: ScopeIndex(scope), slot: k });
                proof {
                    assert(keys(found@) =~= so_far.push((scope as int, k as int)));
                    assert(slots.push(k as int).map_values(|slot: int| (scope as int, slot))
                        =~= slots.map_values(|slot: int| (scope as int, slot)).push(
                        (scope as int, k as int),
                    ));
                    assert(keys(found@) =~= earlier + slots.push(k as int).map_values(
                        |slot: int| (scope as int, slot),
                    ));
                }
            }
            k += 1;
        }
    }

    /// The listeners of `scope` that need `name`, in the order in which they
    /// were registered. The list is empty where `scope` is not a scope of
    /// the graph.
    pub fn listeners_for(&self, scope: ScopeIndex, name: &str) -> (found: Vec<ListenerId>)
        ensures
            keys(found@) == self@.listeners_for(scope.0 as int, name@),
    {
        let mut found: Vec<ListenerId> = Vec::new();
        if self.contains_scope(scope) {
            let key = name.to_owned();
            self.collect_listeners(scope.0, &key, &mut found);
            assert(keys(found@) =~= self@.listeners_for(scope.0 as int, name@));
        } else {
            assert(keys(found@) =~= self@.listeners_for(scope.0 as int, name@));
        }
        found
    }

    /// Puts a change at the end of the queue. The tree stays as it is until
    /// the queue is worked off.
    pub fn enqueue(&mut self, event: ScopeGraphEvent)
        ensures
            final(self)@ == old(self)@.enqueue(event@),
    {
        self.pending.push_back(event);
        assert(self@ =~~= old(self)@.enqueue(event@));
    }

    /// The number of changes that wait in the queue.
    pub fn pending_len(&self) -> (n: usize)
        ensures
            n == self@.pending.len(),
    {
        self.pending.len()
    }

    /// Applies one change to the tree and says what became of it.
    fn apply_event(&mut self, event: ScopeGraphEvent) -> (result: AppliedMutation)
        requires
            old(self)@.well_formed(),
        ensures
            final(self)@.well_formed(),
            final(self)@.pending == old(self)@.pending,
            final(self)@.tree == old(self)@.tree.apply(event@).0,
            result@ == old(self)@.tree.apply(event@).1,
    {
        match event {
            ScopeGraphEvent::CreateScope { parent, bindings } => {
                match self.create_scope(parent, bindings) {
                    Ok(scope) => AppliedMutation::Created(scope),
                    Err(_) => AppliedMutation::Rejected(parent.unwrap()),
                }
            },
            ScopeGraphEvent::RemoveScope(scope) => {
                match self.remove_scope(scope) {
                    Ok(scopes) => AppliedMutation::Removed(scopes),
                    Err(_) => AppliedMutation::Rejected(scope),
                }
            },
        }
    }

    /// Works the queue off: applies the waiting changes to the tree, the
    /// first queued first, and says what became of each. A change that names
    /// a scope which does not exist at its turn is rejected and changes
    /// nothing.
    pub fn drain_and_apply(&mut self) -> (results: Vec<AppliedMutation>)
        requires
            old(self)@.well_formed(),
        ensures
            final(self)@.well_formed(),
            final(self)@ == old(self)@.drained(),
            applied(results@) == old(self)@.drain_results(),
    {
        let mut results: Vec<AppliedMutation> = Vec::new();
        let ghost goal = self@.tree.apply_all(self@.pending);
        assert(applied(results@) + goal.1 =~= goal.1);
        while self.pending.len() > 0
            invariant
                self@.well_formed(),
                self@.tree.apply_all(self@.pending).0 == goal.0,
                applied(results@) + self@.tree.apply_all(self@.pending).1 == goal.1,
            decreases self@.pending.len(),
        {
            let ghost queue = self@.pending;
            let ghost tree = self@.tree;
            let ghost earlier = applied(results@);
            let event = self.pending.pop_front().unwrap();
            assert(self@.pending =~= queue.drop_first());
            assert(event@ == queue[0]);
            let result = self.apply_event(event);
            results.push(result);
            proof {
                let first = tree.apply(queue[0]);
                let rest = first.0.apply_all(queue.drop_first());
                assert(applied(results@) =~= earlier.push(first.1));
                assert(earlier.push(first.1) + rest.1 =~= earlier + seq![first.1].add(rest.1));
            }
        }
        proof {
            assert(self@.pending.len() == 0);
            assert(self@ =~~= old(self)@.drained());
            assert(applied(results@) + Seq::<AppliedView>::empty() =~= applied(results@));
        }
        results
    }
}

impl ScopeGraph {
    /// The number of slots of the arena, the dead ones included.
    pub fn arena_len(&self) -> (n: usize)
        ensures
            n == self@.tree.scopes.len(),
    {
        self.scopes.len()
    }

    /// For each slot of the arena, the scope that owns `name` as seen from it.
    pub(crate) fn owners(&self, name: &String) -> (owners: Vec<Option<usize>>)
        ensures
            owners.len() == self@.tree.scopes.len(),
            forall|k: int|
                0 <= k < owners.len() ==> (match #[trigger] owners[k] {
                    Some(o) => Some(o as int),
                    None => None,
                }) == self@.resolve(k, name@),
    {
        let mut owners: Vec<Option<usize>> = Vec::new();
        let mut j: usize = 0;
        while j < self.scopes.len()
            invariant
                j <= self.scopes.len(),
                owners.len() == j,
                forall|k: int|
                    0 <= k < j ==> (match #[trigger] owners[k] {
                        Some(o) => Some(o as int),
                        None => None,
                    }) == self@.resolve(k, name@),
            decreases self.scopes.len() - j,
        {
            let owner: Option<usize> = if !self.scopes[j].alive {
                None
            } else if self.scopes[j].variables.defines(name) {
                Some(j)
            } else {
                match self.scopes[j].parent {
                    Some(p) => if p < j {
                        owners[p]
                    } else {
                        None
                    },
                    None => None,
                }
            };
            owners.push(owner);
            j += 1;
        }
        owners
    }

    /// Gives `name` a new value in the scope `owner`, which defines it.
    pub(crate) fn assign_at(&mut self, owner: usize, name: &String, value: String)
        requires
            old(self)@.contains(owner as int),
            old(self)@.tree.scopes[owner as int].variables.contains_key(name@),
        ensures
            final(self)@ == old(self)@.store(owner as int, name@, value@),
    {
        let _ = self.scopes[owner].variables.assign(name, value);
        assert(self@ =~~= old(self)@.store(owner as int, name@, value@));
    }

    /// Adds a listener to the scope `scope` and returns its place there.
    pub(crate) fn push_listener(&mut self, scope: usize, needed_variables: Vec<String>) -> (slot: usize)
        requires
            old(self)@.contains(scope as int),
        ensures
            slot == old(self)@.tree.scopes[scope as int].listeners.len(),
            final(self)@ == old(self)@.attach(scope as int, names(needed_variables@)),
    {
        let slot = self.scopes[scope].listeners.len();
        self.scopes[scope].listeners.push(Listener { needed_variables });
        assert(self@ =~~= old(self)@.attach(scope as int, names(needed_variables@)));
        slot
    }

    /// The names that a listener needs.
    pub(crate) fn needed_of(&self, listener: ListenerId) -> (needed: &Vec<String>)
        requires
            self@.tree.has_listener(listener.key()),
        ensures
            names(needed@) == self@.tree.needed(listener.key()),
    {
        &self.scopes[listener.scope.0].listeners[listener.slot].needed_variables
    }

    /// Puts changes at the end of the queue, in their order.
    pub fn enqueue_all(&mut self, changes: Vec<ScopeGraphEvent>)
        ensures
            final(self)@ == old(self)@.enqueue_all(events(changes@)),
    {
        let ghost list = events(changes@);
        let ghost before = self@;
        assert(self@ =~~= before.enqueue_all(list.take(0)));
        for change in it: changes
            invariant
                events(it.seq()) == list,
                self@ == before.enqueue_all(list.take(it.index() as int)),
        {
            self.enqueue(change);
            assert(list.take(it.index() as int).push(change@) =~= list.take(it.index() + 1));
            assert(self@ =~~= before.enqueue_all(list.take(it.index() + 1)));
        }
        assert(list.take(list.len() as int) =~= list);
    }
}

} // verus!
