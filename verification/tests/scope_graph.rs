use eww::state::propagation::{Invocation, ListenerOutcome};
use eww::state::scope_graph::{
    AppliedMutation, ListenerId, ScopeGraph, ScopeGraphError, ScopeGraphEvent, ScopeIndex,
};
use std::cell::RefCell;

type Answer = Result<Vec<ScopeGraphEvent>, String>;

fn bind(name: &str, value: &str) -> (String, String) {
    (name.to_string(), value.to_string())
}

fn quiet(_: ListenerId, _: Vec<(String, String)>) -> Answer {
    Ok(Vec::new())
}

#[test]
fn shadowing_resolves_to_the_nearest_definition() {
    let mut graph = ScopeGraph::new();
    let a = graph.create_scope(None, vec![bind("x", "1")]).unwrap();
    let b = graph.create_scope(Some(a), vec![bind("x", "2")]).unwrap();
    let c = graph.create_scope(Some(b), vec![]).unwrap();
    assert_eq!(graph.resolve(c, "x"), Some(b));
    assert_eq!(graph.resolve(b, "x"), Some(b));
    assert_eq!(graph.resolve(a, "x"), Some(a));
    assert_eq!(graph.get_value(c, "x"), Some("2".to_string()));
    assert_eq!(graph.get_value(a, "x"), Some("1".to_string()));
}

#[test]
fn shadowed_listener_is_not_called() {
    let mut graph = ScopeGraph::new();
    let a = graph.create_scope(None, vec![bind("x", "1")]).unwrap();
    let b = graph.create_scope(Some(a), vec![bind("x", "2")]).unwrap();
    let c = graph.create_scope(Some(b), vec![]).unwrap();
    let in_a = graph.register(a, vec!["x".to_string()], quiet).unwrap().listener;
    let in_c = graph.register(c, vec!["x".to_string()], quiet).unwrap().listener;
    let calls = RefCell::new(Vec::new());
    let report = graph
        .set_value(b, "x", "3".to_string(), |l: ListenerId, v: Vec<(String, String)>| -> Answer {
            calls.borrow_mut().push((l, v));
            Ok(Vec::new())
        })
        .unwrap();
    assert_eq!(report.invoked, vec![in_c]);
    assert!(!report.invoked.contains(&in_a));
    assert_eq!(calls.into_inner(), vec![(in_c, vec![bind("x", "3")])]);
    assert_eq!(graph.get_value(a, "x"), Some("1".to_string()));
    assert_eq!(graph.get_value(c, "x"), Some("3".to_string()));
}

#[test]
fn inherited_variable_reaches_the_child_listener() {
    let mut graph = ScopeGraph::new();
    let a = graph.create_scope(None, vec![bind("x", "1")]).unwrap();
    let b = graph.create_scope(Some(a), vec![]).unwrap();
    let listener = graph.register(b, vec!["x".to_string()], quiet).unwrap().listener;
    let calls = RefCell::new(Vec::new());
    let report = graph
        .set_value(a, "x", "2".to_string(), |l: ListenerId, v: Vec<(String, String)>| -> Answer {
            calls.borrow_mut().push((l, v));
            Ok(Vec::new())
        })
        .unwrap();
    assert_eq!(report.invoked, vec![listener]);
    assert_eq!(calls.into_inner(), vec![(listener, vec![bind("x", "2")])]);
}

#[test]
fn write_through_a_descendant_goes_to_the_owner() {
    let mut graph = ScopeGraph::new();
    let a = graph.create_scope(None, vec![bind("x", "1")]).unwrap();
    let b = graph.create_scope(Some(a), vec![]).unwrap();
    let in_a = graph.register(a, vec!["x".to_string()], quiet).unwrap().listener;
    let report = graph.set_value(b, "x", "5".to_string(), quiet).unwrap();
    assert_eq!(report.invoked, vec![in_a]);
    assert_eq!(graph.get_value(a, "x"), Some("5".to_string()));
}

#[test]
fn same_value_calls_nobody() {
    let mut graph = ScopeGraph::new();
    let a = graph.create_scope(None, vec![bind("x", "1")]).unwrap();
    graph.register(a, vec!["x".to_string()], quiet).unwrap();
    let calls = RefCell::new(0usize);
    let handler = |_: ListenerId, _: Vec<(String, String)>| -> Answer {
        *calls.borrow_mut() += 1;
        Ok(Vec::new())
    };
    let first = graph.set_value(a, "x", "2".to_string(), &handler).unwrap();
    assert_eq!(first.invoked.len(), 1);
    let second = graph.set_value(a, "x", "2".to_string(), &handler).unwrap();
    assert!(second.invoked.is_empty());
    assert!(second.failures.is_empty());
    assert!(second.applied.is_empty());
    assert_eq!(*calls.borrow(), 1);
}

#[test]
fn same_value_leaves_the_queue_alone() {
    let mut graph = ScopeGraph::new();
    let a = graph.create_scope(None, vec![bind("x", "1")]).unwrap();
    graph.enqueue(ScopeGraphEvent::CreateScope { parent: Some(a), bindings: vec![] });
    let report = graph.set_value(a, "x", "1".to_string(), quiet).unwrap();
    assert!(report.applied.is_empty());
    assert_eq!(graph.pending_len(), 1);
    assert_eq!(graph.arena_len(), 1);
}

#[test]
fn a_failing_listener_does_not_stop_the_others() {
    let mut graph = ScopeGraph::new();
    let a = graph.create_scope(None, vec![bind("y", "0")]).unwrap();
    let l1 = graph.register(a, vec!["y".to_string()], quiet).unwrap().listener;
    let l2 = graph.register(a, vec!["y".to_string()], quiet).unwrap().listener;
    let seen = RefCell::new(Vec::new());
    let report = graph
        .set_value(a, "y", "v".to_string(), |l: ListenerId, v: Vec<(String, String)>| -> Answer {
            if l == l1 {
                Err("boom".to_string())
            } else {
                seen.borrow_mut().push(v);
                Ok(Vec::new())
            }
        })
        .unwrap();
    assert_eq!(report.invoked, vec![l1, l2]);
    assert_eq!(
        report.failures,
        vec![ScopeGraphError::ListenerEvalError { listener: l1, message: "boom".to_string() }]
    );
    assert_eq!(seen.into_inner(), vec![vec![bind("y", "v")]]);
    assert_eq!(graph.get_value(a, "y"), Some("v".to_string()));
}

#[test]
fn a_listener_may_remove_its_own_scope() {
    let mut graph = ScopeGraph::new();
    let root = graph.create_scope(None, vec![bind("x", "1")]).unwrap();
    let child = graph.create_scope(Some(root), vec![]).unwrap();
    let first = graph.register(child, vec!["x".to_string()], quiet).unwrap().listener;
    let second = graph.register(child, vec!["x".to_string()], quiet).unwrap().listener;
    let report = graph
        .set_value(root, "x", "2".to_string(), |l: ListenerId, _: Vec<(String, String)>| -> Answer {
            if l == first {
                Ok(vec![ScopeGraphEvent::RemoveScope(l.scope)])
            } else {
                Ok(Vec::new())
            }
        })
        .unwrap();
    assert_eq!(report.invoked, vec![first, second]);
    assert_eq!(report.applied, vec![AppliedMutation::Removed(vec![child])]);
    assert!(!graph.contains_scope(child));
    assert_eq!(graph.resolve(child, "x"), None);
    assert_eq!(graph.try_resolve(child, "x"), Err(ScopeGraphError::UnknownScope(child)));
    assert_eq!(
        graph.set_value(child, "x", "3".to_string(), quiet),
        Err(ScopeGraphError::UnknownScope(child))
    );
    let later = graph.set_value(root, "x", "3".to_string(), quiet).unwrap();
    assert!(later.invoked.is_empty());
}

#[test]
fn removing_a_parent_removes_its_children() {
    let mut graph = ScopeGraph::new();
    let root = graph.create_scope(None, vec![bind("x", "1")]).unwrap();
    let parent = graph.create_scope(Some(root), vec![]).unwrap();
    let left = graph.create_scope(Some(parent), vec![]).unwrap();
    let right = graph.create_scope(Some(parent), vec![]).unwrap();
    graph.register(left, vec!["x".to_string()], quiet).unwrap();
    graph.register(right, vec!["x".to_string()], quiet).unwrap();
    assert_eq!(graph.listeners_for(left, "x").len(), 1);
    let removed = graph.remove_scope(parent).unwrap();
    assert_eq!(removed, vec![right, left, parent]);
    for scope in [parent, left, right] {
        assert!(!graph.contains_scope(scope));
        assert_eq!(graph.resolve(scope, "x"), None);
        assert_eq!(graph.get_value(scope, "x"), None);
        assert!(graph.listeners_for(scope, "x").is_empty());
    }
    assert!(graph.contains_scope(root));
    let calls = RefCell::new(0usize);
    let report = graph
        .set_value(root, "x", "2".to_string(), |_: ListenerId, _: Vec<(String, String)>| -> Answer {
            *calls.borrow_mut() += 1;
            Ok(Vec::new())
        })
        .unwrap();
    assert!(report.invoked.is_empty());
    assert_eq!(*calls.borrow(), 0);
}

#[test]
fn undefined_lookups_stay_none() {
    let mut graph = ScopeGraph::new();
    let a = graph.create_scope(None, vec![bind("x", "1")]).unwrap();
    for _ in 0..3 {
        assert_eq!(graph.get_value(a, "nonexistent"), None);
        assert_eq!(graph.resolve(a, "nonexistent"), None);
    }
    assert_eq!(graph.get_value(ScopeIndex(17), "x"), None);
    assert_eq!(graph.get_value(a, "x"), Some("1".to_string()));
}

#[test]
fn unknown_parent_is_refused() {
    let mut graph = ScopeGraph::new();
    assert_eq!(
        graph.create_scope(Some(ScopeIndex(0)), vec![]),
        Err(ScopeGraphError::UnknownScope(ScopeIndex(0)))
    );
    assert_eq!(graph.arena_len(), 0);
    let root = graph.create_scope(None, vec![]).unwrap();
    graph.remove_scope(root).unwrap();
    assert_eq!(graph.create_scope(Some(root), vec![]), Err(ScopeGraphError::UnknownScope(root)));
    assert_eq!(graph.remove_scope(root), Err(ScopeGraphError::UnknownScope(root)));
}

#[test]
fn undefined_variable_is_refused() {
    let mut graph = ScopeGraph::new();
    let a = graph.create_scope(None, vec![bind("x", "1")]).unwrap();
    let b = graph.create_scope(None, vec![bind("y", "1")]).unwrap();
    assert_eq!(
        graph.set_value(a, "y", "2".to_string(), quiet),
        Err(ScopeGraphError::UndefinedVariable { scope: a, name: "y".to_string() })
    );
    assert_eq!(graph.get_value(b, "y"), Some("1".to_string()));
    assert_eq!(
        graph.try_resolve(a, "y"),
        Err(ScopeGraphError::UndefinedVariable { scope: a, name: "y".to_string() })
    );
    assert_eq!(graph.try_resolve(a, "x"), Ok(a));
    assert_eq!(
        graph.register(a, vec!["x".to_string(), "y".to_string(), "z".to_string()], quiet),
        Err(ScopeGraphError::UndefinedVariable { scope: a, name: "y".to_string() })
    );
    assert!(graph.listeners_for(a, "x").is_empty());
    assert_eq!(
        graph.register(ScopeIndex(9), vec![], quiet),
        Err(ScopeGraphError::UnknownScope(ScopeIndex(9)))
    );
}

#[test]
fn indices_are_not_used_again() {
    let mut graph = ScopeGraph::new();
    let a = graph.create_scope(None, vec![]).unwrap();
    let b = graph.create_scope(Some(a), vec![]).unwrap();
    graph.remove_scope(b).unwrap();
    let c = graph.create_scope(Some(a), vec![]).unwrap();
    assert_eq!((a, b, c), (ScopeIndex(0), ScopeIndex(1), ScopeIndex(2)));
    assert!(!graph.contains_scope(b));
    assert!(graph.contains_scope(c));
}

#[test]
fn a_later_binding_replaces_an_earlier_one() {
    let mut graph = ScopeGraph::new();
    let a = graph.create_scope(None, vec![bind("x", "1"), bind("y", "2"), bind("x", "3")]).unwrap();
    assert_eq!(graph.get_value(a, "x"), Some("3".to_string()));
    graph.set_value(a, "x", "4".to_string(), quiet).unwrap();
    assert_eq!(graph.get_value(a, "x"), Some("4".to_string()));
    assert_eq!(graph.get_value(a, "y"), Some("2".to_string()));
}

#[test]
fn registration_calls_the_listener_once() {
    let mut graph = ScopeGraph::new();
    let a = graph.create_scope(None, vec![bind("x", "1"), bind("y", "2")]).unwrap();
    let b = graph.create_scope(Some(a), vec![bind("y", "3")]).unwrap();
    let calls = RefCell::new(Vec::new());
    let registration = graph
        .register(
            b,
            vec!["y".to_string(), "x".to_string()],
            |l: ListenerId, v: Vec<(String, String)>| -> Answer {
                calls.borrow_mut().push((l, v));
                Ok(vec![ScopeGraphEvent::CreateScope { parent: Some(l.scope), bindings: vec![] }])
            },
        )
        .unwrap();
    assert_eq!(registration.listener, ListenerId { scope: b, slot: 0 });
    assert_eq!(registration.report.invoked, vec![registration.listener]);
    assert_eq!(registration.report.applied, vec![AppliedMutation::Created(ScopeIndex(2))]);
    assert_eq!(
        calls.into_inner(),
        vec![(registration.listener, vec![bind("y", "3"), bind("x", "1")])]
    );
    assert_eq!(graph.listeners_for(b, "x"), vec![registration.listener]);
    assert_eq!(graph.listeners_for(b, "y"), vec![registration.listener]);
    assert!(graph.listeners_for(b, "z").is_empty());
    assert!(graph.listeners_for(a, "x").is_empty());
}

#[test]
fn a_failing_first_call_leaves_the_listener_registered() {
    let mut graph = ScopeGraph::new();
    let a = graph.create_scope(None, vec![bind("x", "1")]).unwrap();
    let registration = graph
        .register(a, vec!["x".to_string()], |_: ListenerId, _: Vec<(String, String)>| -> Answer {
            Err("no".to_string())
        })
        .unwrap();
    assert_eq!(
        registration.report.failures,
        vec![ScopeGraphError::ListenerEvalError {
            listener: registration.listener,
            message: "no".to_string()
        }]
    );
    assert_eq!(graph.listeners_for(a, "x"), vec![registration.listener]);
}

#[test]
fn listeners_are_called_in_order_of_scope_and_registration() {
    let mut graph = ScopeGraph::new();
    let root = graph.create_scope(None, vec![bind("x", "1"), bind("y", "1")]).unwrap();
    let one = graph.create_scope(Some(root), vec![]).unwrap();
    let two = graph.create_scope(Some(one), vec![]).unwrap();
    let l_two = graph.register(two, vec!["x".to_string()], quiet).unwrap().listener;
    let l_root = graph.register(root, vec!["x".to_string(), "y".to_string()], quiet).unwrap().listener;
    let l_one_y = graph.register(one, vec!["y".to_string()], quiet).unwrap().listener;
    let l_one_x = graph.register(one, vec!["x".to_string()], quiet).unwrap().listener;
    let report = graph.set_value(two, "x", "2".to_string(), quiet).unwrap();
    assert_eq!(report.invoked, vec![l_root, l_one_x, l_two]);
    let report = graph.set_value(root, "y", "2".to_string(), quiet).unwrap();
    assert_eq!(report.invoked, vec![l_root, l_one_y]);
}

#[test]
fn queued_changes_are_applied_first_in_first_out() {
    let mut graph = ScopeGraph::new();
    let root = graph.create_scope(None, vec![bind("x", "1")]).unwrap();
    graph.enqueue(ScopeGraphEvent::CreateScope { parent: Some(root), bindings: vec![bind("a", "1")] });
    graph.enqueue(ScopeGraphEvent::CreateScope { parent: Some(ScopeIndex(1)), bindings: vec![] });
    graph.enqueue(ScopeGraphEvent::RemoveScope(ScopeIndex(1)));
    graph.enqueue(ScopeGraphEvent::RemoveScope(ScopeIndex(1)));
    graph.enqueue(ScopeGraphEvent::CreateScope { parent: Some(ScopeIndex(2)), bindings: vec![] });
    assert_eq!(graph.pending_len(), 5);
    assert_eq!(graph.arena_len(), 1);
    let applied = graph.drain_and_apply();
    assert_eq!(
        applied,
        vec![
            AppliedMutation::Created(ScopeIndex(1)),
            AppliedMutation::Created(ScopeIndex(2)),
            AppliedMutation::Removed(vec![ScopeIndex(2), ScopeIndex(1)]),
            AppliedMutation::Rejected(ScopeIndex(1)),
            AppliedMutation::Rejected(ScopeIndex(2)),
        ]
    );
    assert_eq!(graph.pending_len(), 0);
    assert_eq!(graph.arena_len(), 3);
    assert!(graph.drain_and_apply().is_empty());
}

#[test]
fn changes_asked_for_in_a_pass_wait_for_its_end() {
    let mut graph = ScopeGraph::new();
    let root = graph.create_scope(None, vec![bind("x", "1")]).unwrap();
    let child = graph.create_scope(Some(root), vec![]).unwrap();
    graph.register(root, vec!["x".to_string()], quiet).unwrap();
    graph.register(child, vec!["x".to_string()], quiet).unwrap();
    let due = graph.store_value(root, "x", "2".to_string()).unwrap().unwrap();
    assert_eq!(
        due,
        vec![
            Invocation { listener: ListenerId { scope: root, slot: 0 }, values: vec![bind("x", "2")] },
            Invocation { listener: ListenerId { scope: child, slot: 0 }, values: vec![bind("x", "2")] },
        ]
    );
    assert_eq!(graph.store_value(root, "x", "2".to_string()), Ok(None));
    let outcomes = vec![
        ListenerOutcome {
            listener: due[0].listener,
            result: Ok(vec![ScopeGraphEvent::RemoveScope(child)]),
        },
        ListenerOutcome { listener: due[1].listener, result: Err("late".to_string()) },
    ];
    assert!(graph.contains_scope(child));
    let report = graph.complete_pass(outcomes);
    assert_eq!(report.invoked, vec![due[0].listener, due[1].listener]);
    assert_eq!(report.applied, vec![AppliedMutation::Removed(vec![child])]);
    assert_eq!(
        report.failures,
        vec![ScopeGraphError::ListenerEvalError {
            listener: due[1].listener,
            message: "late".to_string()
        }]
    );
    assert!(!graph.contains_scope(child));
}

#[test]
fn created_scopes_are_reported() {
    let mut graph = ScopeGraph::new();
    let root = graph.create_scope(None, vec![bind("x", "1")]).unwrap();
    graph.register(root, vec!["x".to_string()], quiet).unwrap();
    let report = graph
        .set_value(root, "x", "2".to_string(), |_: ListenerId, v: Vec<(String, String)>| -> Answer {
            Ok(vec![ScopeGraphEvent::CreateScope { parent: Some(ScopeIndex(0)), bindings: v }])
        })
        .unwrap();
    assert_eq!(report.applied, vec![AppliedMutation::Created(ScopeIndex(1))]);
    assert_eq!(graph.get_value(ScopeIndex(1), "x"), Some("2".to_string()));
    assert_eq!(graph.resolve(ScopeIndex(1), "x"), Some(ScopeIndex(1)));
}
