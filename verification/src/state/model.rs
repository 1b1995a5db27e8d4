//! The mathematical model of the scope graph: what a graph is, and what each
//! operation makes of it.

use vstd::prelude::*;

verus! {

/// A listener: the names of the variables that it needs.
pub struct ListenerView {
    pub needed: Seq<Seq<char>>,
}

/// One slot of the arena. A slot is given out once; when its scope is removed
/// the slot stays behind, dead and empty.
#[verifier::ext_equal]
pub struct ScopeView {
    pub alive: bool,
    pub parent: Option<int>,
    pub variables: Map<Seq<char>, Seq<char>>,
    pub listeners: Seq<ListenerView>,
}

/// A change of the tree's shape that waits in the queue.
#[verifier::ext_equal]
pub enum EventView {
    CreateScope { parent: Option<int>, bindings: Map<Seq<char>, Seq<char>> },
    RemoveScope { scope: int },
}

/// What became of a queued change.
#[verifier::ext_equal]
pub enum AppliedView {
    /// The scope was created at this index.
    Created { scope: int },
    /// These scopes were removed, in this order.
    Removed { scopes: Seq<int> },
    /// The change named a scope that does not exist.
    Rejected { scope: int },
}

/// A listener is known by its scope and by its place among that scope's
/// listeners.
pub type ListenerKey = (int, int);

/// One call of a listener: which one, and the values handed to it.
#[verifier::ext_equal]
pub struct InvocationView {
    pub listener: ListenerKey,
    pub bindings: Seq<(Seq<char>, Seq<char>)>,
}

/// What a listener answered: the changes it asks for, or its failure.
#[verifier::ext_equal]
pub struct OutcomeView {
    pub listener: ListenerKey,
    pub result: Result<Seq<EventView>, Seq<char>>,
}

/// The tree of scopes: an arena in which each scope keeps its index.
#[verifier::ext_equal]
pub struct TreeView {
    pub scopes: Seq<ScopeView>,
}

/// The scope graph: the tree of scopes and the queue of pending changes.
#[verifier::ext_equal]
pub struct GraphView {
    pub tree: TreeView,
    pub pending: Seq<EventView>,
}

/// What is left in the slot of a removed scope.
pub open spec fn tombstone() -> ScopeView {
    ScopeView { alive: false, parent: None, variables: Map::empty(), listeners: Seq::empty() }
}

/// The places, below `n` and in rising order, of the listeners that need `name`.
pub open spec fn matching_slots(listeners: Seq<ListenerView>, name: Seq<char>, n: nat) -> Seq<int>
    decreases n,
{
    if n == 0 {
        Seq::empty()
    } else {
        let rest = matching_slots(listeners, name, (n - 1) as nat);
        if listeners[n - 1].needed.contains(name) {
            rest.push(n - 1)
        } else {
            rest
        }
    }
}

/// The changes that the outcomes ask for, in the order of the outcomes.
pub open spec fn requested(outcomes: Seq<OutcomeView>) -> Seq<EventView>
    decreases outcomes.len(),
{
    if outcomes.len() == 0 {
        Seq::empty()
    } else {
        let earlier = requested(outcomes.drop_last());
        match outcomes.last().result {
            Ok(events) => earlier + events,
            Err(_) => earlier,
        }
    }
}

/// The listeners among the outcomes that failed, each with its message, in the
/// order of the outcomes.
pub open spec fn failed(outcomes: Seq<OutcomeView>) -> Seq<(ListenerKey, Seq<char>)>
    decreases outcomes.len(),
{
    if outcomes.len() == 0 {
        Seq::empty()
    } else {
        let earlier = failed(outcomes.drop_last());
        match outcomes.last().result {
            Ok(_) => earlier,
            Err(message) => earlier.push((outcomes.last().listener, message)),
        }
    }
}

impl TreeView {
    /// `scope` is a scope of the graph: it was created and not removed.
    pub open spec fn contains(self, scope: int) -> bool {
        0 <= scope < self.scopes.len() && self.scopes[scope].alive
    }

    /// The scope that owns `name` as seen from `scope`: the first on the way
    /// from `scope` to the root that defines it.
    pub open spec fn resolve(self, scope: int, name: Seq<char>) -> Option<int>
        decreases scope,
    {
        if !self.contains(scope) {
            None
        } else if self.scopes[scope].variables.contains_key(name) {
            Some(scope)
        } else {
            match self.scopes[scope].parent {
                Some(p) => if 0 <= p < scope {
                    self.resolve(p, name)
                } else {
                    None
                },
                None => None,
            }
        }
    }

    /// The value of `name` as seen from `scope`.
    pub open spec fn value(self, scope: int, name: Seq<char>) -> Option<Seq<char>> {
        match self.resolve(scope, name) {
            Some(owner) => Some(self.scopes[owner].variables[name]),
            None => None,
        }
    }

    /// `scope` is `root` or one of its descendants.
    pub open spec fn within(self, scope: int, root: int) -> bool
        decreases scope,
    {
        self.contains(scope) && (scope == root || match self.scopes[scope].parent {
            Some(p) => 0 <= p < scope && self.within(p, root),
            None => false,
        })
    }

    /// Every needed variable of every listener of `scope` can be resolved.
    pub open spec fn listeners_resolvable(self, scope: int) -> bool {
        forall|k: int, n: int|
            0 <= k < self.scopes[scope].listeners.len() && 0 <= n
                < self.scopes[scope].listeners[k].needed.len() ==> self.resolve(
                scope,
                #[trigger] self.scopes[scope].listeners[k].needed[n],
            ).is_some()
    }

    /// The slot `scope` is in order: a live scope has no parent or a live
    /// one that is older than itself, and its listeners find their
    /// variables; a dead slot is empty.
    pub open spec fn scope_well_formed(self, scope: int) -> bool {
        if self.scopes[scope].alive {
            &&& match self.scopes[scope].parent {
                Some(p) => 0 <= p < scope && self.scopes[p].alive,
                None => true,
            }
            &&& self.listeners_resolvable(scope)
        } else {
            self.scopes[scope] == tombstone()
        }
    }

    /// Every slot of the arena is in order.
    pub open spec fn well_formed(self) -> bool {
        forall|i: int| 0 <= i < self.scopes.len() ==> #[trigger] self.scope_well_formed(i)
    }

    /// The graph with a new scope at the end of the arena.
    pub open spec fn create(self, parent: Option<int>, bindings: Map<Seq<char>, Seq<char>>) -> TreeView {
        TreeView {
            scopes: self.scopes.push(
                ScopeView { alive: true, parent, variables: bindings, listeners: Seq::empty() },
            ),
        }
    }

    /// The graph without `root` and its descendants.
    pub open spec fn remove(self, root: int) -> TreeView {
        TreeView {
            scopes: Seq::new(
                self.scopes.len(),
                |j: int|
                    if self.within(j, root) {
                        tombstone()
                    } else {
                        self.scopes[j]
                    },
            ),
        }
    }

    /// `root` and its descendants with an index below `n`, the youngest first.
    pub open spec fn removed_below(self, root: int, n: nat) -> Seq<int>
        decreases n,
    {
        if n == 0 {
            Seq::empty()
        } else {
            let rest = self.removed_below(root, (n - 1) as nat);
            if self.within(n - 1, root) {
                seq![n - 1].add(rest)
            } else {
                rest
            }
        }
    }

    /// The order in which `remove` takes the scopes away: the youngest first,
    /// so each scope after all of its descendants.
    pub open spec fn removal_order(self, root: int) -> Seq<int> {
        self.removed_below(root, self.scopes.len())
    }

    /// The graph with a new value for `name` in the scope `owner`.
    pub open spec fn store(self, owner: int, name: Seq<char>, value: Seq<char>) -> TreeView {
        TreeView {
            scopes: self.scopes.update(
                owner,
                ScopeView {
                    variables: self.scopes[owner].variables.insert(name, value),
                    ..self.scopes[owner]
                },
            ),
        }
    }

    /// The graph with one more listener in `scope`.
    pub open spec fn attach(self, scope: int, needed: Seq<Seq<char>>) -> TreeView {
        TreeView {
            scopes: self.scopes.update(
                scope,
                ScopeView {
                    listeners: self.scopes[scope].listeners.push(ListenerView { needed }),
                    ..self.scopes[scope]
                },
            ),
        }
    }

    /// The listeners of `scope` that need `name`, in the order in which they
    /// were registered.
    pub open spec fn listeners_for(self, scope: int, name: Seq<char>) -> Seq<ListenerKey> {
        if self.contains(scope) {
            matching_slots(
                self.scopes[scope].listeners,
                name,
                self.scopes[scope].listeners.len(),
            ).map_values(|slot: int| (scope, slot))
        } else {
            Seq::empty()
        }
    }

    /// The listeners in scopes below index `n` that a change of `name` in
    /// `owner` reaches.
    pub open spec fn affected_below(self, owner: int, name: Seq<char>, n: nat) -> Seq<ListenerKey>
        decreases n,
    {
        if n == 0 {
            Seq::empty()
        } else {
            let rest = self.affected_below(owner, name, (n - 1) as nat);
            if self.resolve(n - 1, name) == Some(owner) {
                rest + self.listeners_for(n - 1, name)
            } else {
                rest
            }
        }
    }

    /// The listeners that a change of `name` in `owner` reaches: those that
    /// need `name` and whose scope sees the `name` of `owner`. They stand by
    /// the age of their scope, the oldest first, and within a scope in the
    /// order in which they were registered.
    pub open spec fn affected(self, owner: int, name: Seq<char>) -> Seq<ListenerKey> {
        self.affected_below(owner, name, self.scopes.len())
    }

    /// `listener` is a listener of a scope of the tree.
    pub open spec fn has_listener(self, listener: ListenerKey) -> bool {
        self.contains(listener.0) && 0 <= listener.1 < self.scopes[listener.0].listeners.len()
    }

    /// The first of the names `needed` that cannot be resolved from `scope`.
    pub open spec fn first_unresolved(self, scope: int, needed: Seq<Seq<char>>) -> Option<Seq<char>>
        decreases needed.len(),
    {
        if needed.len() == 0 {
            None
        } else if self.resolve(scope, needed[0]).is_none() {
            Some(needed[0])
        } else {
            self.first_unresolved(scope, needed.drop_first())
        }
    }

    /// The needed variables of a listener.
    pub open spec fn needed(self, listener: ListenerKey) -> Seq<Seq<char>> {
        self.scopes[listener.0].listeners[listener.1].needed
    }

    /// The names `needed`, each with its value as seen from `scope`.
    pub open spec fn bindings_for(self, scope: int, needed: Seq<Seq<char>>) -> Seq<(Seq<char>, Seq<char>)> {
        Seq::new(
            needed.len(),
            |i: int|
                (
                    needed[i],
                    match self.value(scope, needed[i]) {
                        Some(value) => value,
                        None => Seq::empty(),
                    },
                ),
        )
    }

    /// The call of one listener on the graph as it stands.
    pub open spec fn invocation(self, listener: ListenerKey) -> InvocationView {
        InvocationView { listener, bindings: self.bindings_for(listener.0, self.needed(listener)) }
    }

    /// The calls that a change of `name` in `owner` leads to, in order.
    pub open spec fn invocations(self, owner: int, name: Seq<char>) -> Seq<InvocationView> {
        self.affected(owner, name).map_values(|listener: ListenerKey| self.invocation(listener))
    }

    /// The graph after one change, and what became of the change.
    pub open spec fn apply(self, event: EventView) -> (TreeView, AppliedView) {
        match event {
            EventView::CreateScope { parent, bindings } => {
                if parent.is_some() && !self.contains(parent.unwrap()) {
                    (self, AppliedView::Rejected { scope: parent.unwrap() })
                } else {
                    (
                        self.create(parent, bindings),
                        AppliedView::Created { scope: self.scopes.len() as int },
                    )
                }
            },
            EventView::RemoveScope { scope } => {
                if self.contains(scope) {
                    (self.remove(scope), AppliedView::Removed { scopes: self.removal_order(scope) })
                } else {
                    (self, AppliedView::Rejected { scope })
                }
            },
        }
    }

    /// The graph after the changes `events`, applied first to last, and what
    /// became of each.
    pub open spec fn apply_all(self, events: Seq<EventView>) -> (TreeView, Seq<AppliedView>)
        decreases events.len(),
    {
        if events.len() == 0 {
            (self, Seq::empty())
        } else {
            let first = self.apply(events[0]);
            let rest = first.0.apply_all(events.drop_first());
            (rest.0, seq![first.1].add(rest.1))
        }
    }
}

impl GraphView {
    /// The graph without scopes and with an empty queue.
    pub open spec fn empty() -> GraphView {
        GraphView { tree: TreeView { scopes: Seq::empty() }, pending: Seq::empty() }
    }

    /// The same queue around another tree.
    pub open spec fn with_tree(self, tree: TreeView) -> GraphView {
        GraphView { tree, pending: self.pending }
    }

    /// `scope` is a scope of the graph: it was created and not removed.
    pub open spec fn contains(self, scope: int) -> bool {
        self.tree.contains(scope)
    }

    /// Every slot of the arena is in order.
    pub open spec fn well_formed(self) -> bool {
        self.tree.well_formed()
    }

    /// The scope that owns `name` as seen from `scope`.
    pub open spec fn resolve(self, scope: int, name: Seq<char>) -> Option<int> {
        self.tree.resolve(scope, name)
    }

    /// The value of `name` as seen from `scope`.
    pub open spec fn value(self, scope: int, name: Seq<char>) -> Option<Seq<char>> {
        self.tree.value(scope, name)
    }

    /// The listeners of `scope` that need `name`, in the order in which they
    /// were registered.
    pub open spec fn listeners_for(self, scope: int, name: Seq<char>) -> Seq<ListenerKey> {
        self.tree.listeners_for(scope, name)
    }

    /// The graph with a new scope at the end of the arena.
    pub open spec fn create(self, parent: Option<int>, bindings: Map<Seq<char>, Seq<char>>) -> GraphView {
        self.with_tree(self.tree.create(parent, bindings))
    }

    /// The graph without `root` and its descendants.
    pub open spec fn remove(self, root: int) -> GraphView {
        self.with_tree(self.tree.remove(root))
    }

    /// The order in which `remove` takes the scopes away.
    pub open spec fn removal_order(self, root: int) -> Seq<int> {
        self.tree.removal_order(root)
    }

    /// The graph with a new value for `name` in the scope `owner`.
    pub open spec fn store(self, owner: int, name: Seq<char>, value: Seq<char>) -> GraphView {
        self.with_tree(self.tree.store(owner, name, value))
    }

    /// The graph with one more listener in `scope`.
    pub open spec fn attach(self, scope: int, needed: Seq<Seq<char>>) -> GraphView {
        self.with_tree(self.tree.attach(scope, needed))
    }

    /// The graph with one more change at the end of the queue.
    pub open spec fn enqueue(self, event: EventView) -> GraphView {
        GraphView { tree: self.tree, pending: self.pending.push(event) }
    }

    /// The graph with more changes at the end of the queue.
    pub open spec fn enqueue_all(self, events: Seq<EventView>) -> GraphView {
        GraphView { tree: self.tree, pending: self.pending + events }
    }

    /// The graph after its queue was worked off, first change first.
    pub open spec fn drained(self) -> GraphView {
        GraphView { tree: self.tree.apply_all(self.pending).0, pending: Seq::empty() }
    }

    /// What became of each change of the queue when it was worked off.
    pub open spec fn drain_results(self) -> Seq<AppliedView> {
        self.tree.apply_all(self.pending).1
    }

    /// The graph after a pass: the changes that the listeners asked for join
    /// the queue, and the queue is worked off.
    pub open spec fn after_pass(self, outcomes: Seq<OutcomeView>) -> GraphView {
        self.enqueue_all(requested(outcomes)).drained()
    }

    /// What became of each queued change at the end of a pass.
    pub open spec fn pass_results(self, outcomes: Seq<OutcomeView>) -> Seq<AppliedView> {
        self.enqueue_all(requested(outcomes)).drain_results()
    }
}

} // verus!
