use eww::state::scope_graph::{ScopeGraphError, ScopeIndex};
use eww::widgets::build_widget::{
    attribute, build_builtin_gtk_widget, build_gtk_children, build_gtk_widget, custom_widget_arguments,
    find_definition, names_are_distinct, nth_child, populate_builtin_children, populate_widget_children,
    unknown_attributes_warning, AttrSpec, ChildStep, ChildrenRefused, CustomWidgetInvocation,
    MissingAttribute, WidgetDefinition, WidgetStep, WidgetUse,
};

fn widget(name: &str, attrs: &[(&str, &str)], children: Vec<WidgetUse>) -> WidgetUse {
    WidgetUse {
        name: name.to_string(),
        attrs: attrs.iter().map(|(n, e)| (n.to_string(), e.to_string())).collect(),
        children,
    }
}

fn definition(name: &str, expected: &[(&str, bool)], body: WidgetUse) -> WidgetDefinition {
    WidgetDefinition {
        name: name.to_string(),
        expected_args: expected
            .iter()
            .map(|(n, optional)| AttrSpec { name: n.to_string(), optional: *optional })
            .collect(),
        widget: body,
    }
}

#[test]
fn a_defined_name_is_a_custom_widget() {
    let defs = vec![
        definition("bar", &[("title", false), ("icon", true)], widget("box", &[], vec![])),
        definition("bar", &[], widget("label", &[], vec![])),
    ];
    let used = widget("bar", &[("title", "{t}"), ("extra", "1")], vec![widget("label", &[], vec![])]);
    let step = build_gtk_widget(&defs, ScopeIndex(3), used, None).unwrap();
    assert_eq!(
        step,
        WidgetStep::Custom {
            definition: &defs[0],
            attributes: vec![
                ("title".to_string(), "{t}".to_string()),
                ("icon".to_string(), "".to_string())
            ],
            invocation: CustomWidgetInvocation {
                scope: ScopeIndex(3),
                children: vec![widget("label", &[], vec![])]
            },
        }
    );
}

#[test]
fn a_required_attribute_must_be_given() {
    let defs = vec![definition("bar", &[("icon", true), ("title", false), ("size", false)], widget("box", &[], vec![]))];
    let used = widget("bar", &[("icon", "x")], vec![]);
    assert_eq!(
        build_gtk_widget(&defs, ScopeIndex(0), used, None),
        Err(MissingAttribute { name: "title".to_string() })
    );
    assert_eq!(
        custom_widget_arguments(&defs[0], &widget("bar", &[("size", "1"), ("title", "a"), ("title", "b")], vec![])),
        Ok(vec![
            ("icon".to_string(), "".to_string()),
            ("title".to_string(), "b".to_string()),
            ("size".to_string(), "1".to_string())
        ])
    );
}

#[test]
fn an_undefined_name_is_a_builtin_widget() {
    let defs = vec![definition("bar", &[], widget("box", &[], vec![]))];
    let invocation = CustomWidgetInvocation { scope: ScopeIndex(1), children: vec![] };
    let step =
        build_gtk_widget(&defs, ScopeIndex(2), widget("box", &[("space", "1"), ("class", "c")], vec![]), Some(&invocation))
            .unwrap();
    match step {
        WidgetStep::Builtin { args } => {
            assert_eq!(args.calling_scope, ScopeIndex(2));
            assert_eq!(args.widget_use, widget("box", &[("space", "1"), ("class", "c")], vec![]));
            assert_eq!(args.unhandled_attrs, vec!["space".to_string(), "class".to_string()]);
            assert_eq!(args.custom_widget_invocation, Some(&invocation));
        },
        WidgetStep::Custom { .. } => panic!("box is no custom widget"),
    }
    let args = build_builtin_gtk_widget(ScopeIndex(0), widget("label", &[], vec![]), None);
    assert!(args.unhandled_attrs.is_empty());
    assert_eq!(args.custom_widget_invocation, None);
}

#[test]
fn definitions_and_attributes_are_found_by_name() {
    let defs = vec![definition("a", &[], widget("x", &[], vec![])), definition("b", &[], widget("y", &[], vec![]))];
    assert_eq!(find_definition(&defs, &"b".to_string()), Some(&defs[1]));
    assert_eq!(find_definition(&defs, &"c".to_string()), None);
    let attrs = vec![("k".to_string(), "1".to_string()), ("k".to_string(), "2".to_string())];
    assert_eq!(attribute(&attrs, &"k".to_string()), Some(&"2".to_string()));
    assert_eq!(attribute(&attrs, &"j".to_string()), None);
}

#[test]
fn children_are_taken_from_the_invocation() {
    let invocation = CustomWidgetInvocation {
        scope: ScopeIndex(1),
        children: vec![widget("label", &[("text", "a")], vec![]), widget("label", &[("text", "b")], vec![])],
    };
    let children = vec![
        widget("button", &[], vec![]),
        widget("children", &[], vec![]),
        widget("children", &[("nth", "{i}")], vec![]),
        widget("box", &[], vec![]),
    ];
    let steps = populate_widget_children(ScopeIndex(5), &children, Some(&invocation)).unwrap();
    assert_eq!(
        steps,
        vec![
            ChildStep::Widget { scope: ScopeIndex(5), widget_use: &children[0], invocation: Some(&invocation) },
            ChildStep::Widget { scope: ScopeIndex(1), widget_use: &invocation.children[0], invocation: None },
            ChildStep::Widget { scope: ScopeIndex(1), widget_use: &invocation.children[1], invocation: None },
            ChildStep::NthChild {
                listener_scope: ScopeIndex(5),
                nth: &"{i}".to_string(),
                invocation: &invocation
            },
            ChildStep::Widget { scope: ScopeIndex(5), widget_use: &children[3], invocation: Some(&invocation) },
        ]
    );
    assert_eq!(
        build_gtk_children(ScopeIndex(5), &children[1], &invocation),
        vec![
            ChildStep::Widget { scope: ScopeIndex(1), widget_use: &invocation.children[0], invocation: None },
            ChildStep::Widget { scope: ScopeIndex(1), widget_use: &invocation.children[1], invocation: None },
        ]
    );
}

#[test]
fn children_in_the_scope_of_the_invocation_keep_their_context() {
    let invocation = CustomWidgetInvocation { scope: ScopeIndex(5), children: vec![widget("label", &[], vec![])] };
    let children = vec![widget("button", &[], vec![]), widget("children", &[], vec![])];
    assert_eq!(
        populate_widget_children(ScopeIndex(5), &children, Some(&invocation)),
        Ok(vec![
            ChildStep::Widget { scope: ScopeIndex(5), widget_use: &children[0], invocation: Some(&invocation) },
            ChildStep::Widget { scope: ScopeIndex(5), widget_use: &invocation.children[0], invocation: None },
        ])
    );
}

#[test]
fn plain_children_are_built_within_no_invocation_where_there_is_none() {
    let children = vec![widget("button", &[], vec![]), widget("box", &[], vec![])];
    assert_eq!(
        populate_widget_children(ScopeIndex(2), &children, None),
        Ok(vec![
            ChildStep::Widget { scope: ScopeIndex(2), widget_use: &children[0], invocation: None },
            ChildStep::Widget { scope: ScopeIndex(2), widget_use: &children[1], invocation: None },
        ])
    );
    assert_eq!(populate_widget_children(ScopeIndex(0), &Vec::new(), None), Ok(Vec::new()));
}

#[test]
fn children_outside_a_custom_widget_are_refused() {
    let children = vec![
        widget("button", &[], vec![]),
        widget("label", &[], vec![]),
        widget("children", &[], vec![]),
        widget("box", &[], vec![]),
        widget("children", &[], vec![]),
    ];
    assert_eq!(
        populate_widget_children(ScopeIndex(0), &children, None),
        Err(ChildrenRefused {
            steps: vec![
                ChildStep::Widget { scope: ScopeIndex(0), widget_use: &children[0], invocation: None },
                ChildStep::Widget { scope: ScopeIndex(0), widget_use: &children[1], invocation: None },
            ],
            at: 2,
            error: ScopeGraphError::ExpectedCustomInvocationContext,
        })
    );
    let only = vec![widget("children", &[("nth", "0")], vec![])];
    assert_eq!(
        populate_widget_children(ScopeIndex(0), &only, None),
        Err(ChildrenRefused { steps: vec![], at: 0, error: ScopeGraphError::ExpectedCustomInvocationContext })
    );
}

#[test]
fn children_are_populated_only_in_an_empty_container() {
    let invocation = CustomWidgetInvocation { scope: ScopeIndex(1), children: vec![] };
    let args = build_builtin_gtk_widget(
        ScopeIndex(4),
        widget("box", &[], vec![widget("label", &[], vec![]), widget("children", &[], vec![])]),
        Some(&invocation),
    );
    assert_eq!(populate_builtin_children(false, false, &args), None);
    assert_eq!(populate_builtin_children(false, true, &args), None);
    assert_eq!(populate_builtin_children(true, true, &args), None);
    assert_eq!(
        populate_builtin_children(true, false, &args),
        Some(Ok(vec![ChildStep::Widget {
            scope: ScopeIndex(4),
            widget_use: &args.widget_use.children[0],
            invocation: Some(&invocation)
        }]))
    );
    let bare = build_builtin_gtk_widget(ScopeIndex(4), widget("box", &[], vec![widget("children", &[], vec![])]), None);
    assert_eq!(
        populate_builtin_children(true, false, &bare),
        Some(Err(ChildrenRefused { steps: vec![], at: 0, error: ScopeGraphError::ExpectedCustomInvocationContext }))
    );
}

#[test]
fn definitions_with_one_name_are_noticed() {
    let defs = vec![
        definition("a", &[], widget("x", &[], vec![])),
        definition("b", &[], widget("y", &[], vec![])),
        definition("a", &[], widget("z", &[], vec![])),
    ];
    assert!(!names_are_distinct(&defs));
    assert!(names_are_distinct(&defs[..2].iter().map(|d| definition(&d.name, &[], widget("w", &[], vec![]))).collect()));
    assert!(names_are_distinct(&Vec::new()));
    assert_eq!(find_definition(&defs, &"a".to_string()), Some(&defs[0]));
}

#[test]
fn the_nth_child_is_counted_from_zero() {
    let invocation = CustomWidgetInvocation {
        scope: ScopeIndex(1),
        children: vec![widget("a", &[], vec![]), widget("b", &[], vec![])],
    };
    assert_eq!(nth_child(&invocation, 0), Some(&invocation.children[0]));
    assert_eq!(nth_child(&invocation, 1), Some(&invocation.children[1]));
    assert_eq!(nth_child(&invocation, 2), None);
    assert_eq!(nth_child(&invocation, -1), None);
    assert_eq!(nth_child(&invocation, i32::MAX), None);
}

#[test]
fn unknown_attributes_are_listed() {
    assert_eq!(unknown_attributes_warning(&Vec::new()), None);
    assert_eq!(
        unknown_attributes_warning(&vec!["a".to_string()]),
        Some("Unknown attributes a".to_string())
    );
    assert_eq!(
        unknown_attributes_warning(&vec!["a".to_string(), "b".to_string(), "c".to_string()]),
        Some("Unknown attributes a, b, c".to_string())
    );
}
