//! The steps by which a widget is built from its use: whether the use names
//! a custom widget, which attributes its scope gets, and which widgets
//! become the children of a container. The toolkit's work is not done here:
//! each function says what is to be done next.

use crate::state::scope_graph::{names, ScopeGraphError, ScopeIndex};
use crate::state::variables::{bindings_map, lemma_last_binding_wins, lemma_unbound_is_absent, unbound};
use crate::text::{join, joined};
use vstd::prelude::*;
use vstd::string::StringExecFns;

verus! {

/// The use of a widget: its name, its attributes, each with the expression
/// that gives its value, and the uses of its children.
#[derive(Debug, PartialEq, Eq)]
pub struct WidgetUse {
    pub name: String,
    pub attrs: Vec<(String, String)>,
    pub children: Vec<WidgetUse>,
}

/// An attribute that a custom widget expects.
#[derive(Clone, Debug, PartialEq, Eq)]
pub struct AttrSpec {
    pub name: String,
    pub optional: bool,
}

/// The definition of a custom widget: its name, the attributes that it
/// expects, and the widget that it stands for.
#[derive(Debug, PartialEq, Eq)]
pub struct WidgetDefinition {
    pub name: String,
    pub expected_args: Vec<AttrSpec>,
    pub widget: WidgetUse,
}

/// What is remembered of the use of a custom widget while its body is
/// built: the scope that it was used in, and the children that it was
/// given. Where the body asks for its children, these are built in that
/// scope.
#[derive(Debug, PartialEq, Eq)]
pub struct CustomWidgetInvocation {
    pub scope: ScopeIndex,
    pub children: Vec<WidgetUse>,
}

/// What the building of a builtin widget starts from.
#[derive(Debug, PartialEq, Eq)]
pub struct BuilderArgs<'a> {
    pub calling_scope: ScopeIndex,
    pub widget_use: WidgetUse,
    /// The attributes that no part of the builder has read yet.
    pub unhandled_attrs: Vec<String>,
    pub custom_widget_invocation: Option<&'a CustomWidgetInvocation>,
}

/// A custom widget was used without an attribute that it requires.
#[derive(Clone, Debug, PartialEq, Eq)]
pub struct MissingAttribute {
    pub name: String,
}

/// What is to be done for the use of a widget.
#[derive(Debug, PartialEq, Eq)]
pub enum WidgetStep<'a> {
    /// The use of a custom widget. A scope is to be created for it under
    /// the calling scope, with the value of each of `attributes`, whose
    /// expressions are read in the calling scope. The body of `definition`
    /// is built in the new scope, with `invocation` remembered, and the
    /// scope is removed when the widget goes.
    Custom {
        definition: &'a WidgetDefinition,
        attributes: Vec<(String, String)>,
        invocation: CustomWidgetInvocation,
    },
    /// The use of a builtin widget.
    Builtin { args: BuilderArgs<'a> },
}

/// The children of a container could not all be had: one of them is the
/// widget `children`, and there is no invocation of a custom widget to take
/// the children from.
#[derive(Debug, PartialEq, Eq)]
pub struct ChildrenRefused<'a> {
    /// What is to be done for the children that stand before the refused
    /// one. They are built and added before the failure is reported.
    pub steps: Vec<ChildStep<'a>>,
    /// The place of the child that was refused.
    pub at: usize,
    pub error: ScopeGraphError,
}

/// What is to be done for one child of a container.
#[derive(Debug, PartialEq, Eq)]
pub enum ChildStep<'a> {
    /// The widget is built in `scope`, with `invocation` as the invocation
    /// of a custom widget that it is built within, if any, and added to the
    /// container.
    Widget {
        scope: ScopeIndex,
        widget_use: &'a WidgetUse,
        invocation: Option<&'a CustomWidgetInvocation>,
    },
    /// A box is added to the container, and a listener for the variables of
    /// the expression `nth` is registered in `listener_scope`. At each of
    /// its calls the box gets the one child of `invocation` that the value
    /// of `nth` counts to, built in the scope of the invocation.
    NthChild { listener_scope: ScopeIndex, nth: &'a String, invocation: &'a CustomWidgetInvocation },
}

/// The name of the widget that stands for the children of a custom widget.
pub open spec fn children_name() -> Seq<char> {
    seq!['c', 'h', 'i', 'l', 'd', 'r', 'e', 'n']
}

/// The name of the attribute that picks one of the children.
pub open spec fn nth_name() -> Seq<char> {
    seq!['n', 't', 'h']
}

/// The names of attributes, in their order.
pub open spec fn attribute_names(attrs: Seq<(String, String)>) -> Seq<Seq<char>> {
    attrs.map_values(|a: (String, String)| a.0@)
}

/// A place, moved on by `by`.
pub open spec fn moved_on(place: Option<int>, by: int) -> Option<int> {
    match place {
        Some(i) => Some(i + by),
        None => None,
    }
}

/// The first definition with the name `name`.
pub open spec fn definition_of(defs: Seq<WidgetDefinition>, name: Seq<char>) -> Option<int>
    decreases defs.len(),
{
    if defs.len() == 0 {
        None
    } else if defs[0].name@ == name {
        Some(0int)
    } else {
        moved_on(definition_of(defs.drop_first(), name), 1)
    }
}

/// The expression that a custom widget gets for an expected attribute: the
/// one that its use gives; else the empty text, where the attribute is
/// optional.
pub open spec fn argument(given: Map<Seq<char>, Seq<char>>, expected: AttrSpec) -> Option<Seq<char>> {
    if given.contains_key(expected.name@) {
        Some(given[expected.name@])
    } else if expected.optional {
        Some(Seq::empty())
    } else {
        None
    }
}

/// The first expected attribute that is required and not given.
pub open spec fn first_missing(given: Map<Seq<char>, Seq<char>>, expected: Seq<AttrSpec>) -> Option<Seq<char>>
    decreases expected.len(),
{
    if expected.len() == 0 {
        None
    } else if argument(given, expected[0]).is_none() {
        Some(expected[0].name@)
    } else {
        first_missing(given, expected.drop_first())
    }
}

/// Each expected attribute with the expression that the widget gets for it.
pub open spec fn arguments(given: Map<Seq<char>, Seq<char>>, expected: Seq<AttrSpec>) -> Seq<(Seq<char>, Seq<char>)> {
    expected.map_values(
        |e: AttrSpec|
            (
                e.name@,
                match argument(given, e) {
                    Some(expression) => expression,
                    None => Seq::empty(),
                },
            ),
    )
}

/// Names with expressions as sequences of characters.
pub open spec fn attribute_views(attrs: Seq<(String, String)>) -> Seq<(Seq<char>, Seq<char>)> {
    attrs.map_values(|a: (String, String)| (a.0@, a.1@))
}

/// What is to be done for the widget `children`: with an attribute `nth`,
/// one child that a listener picks; else each child of the invocation, built
/// in the invocation's scope and within no invocation.
pub open spec fn children_steps<'a>(
    calling_scope: ScopeIndex,
    widget_use: &'a WidgetUse,
    invocation: &'a CustomWidgetInvocation,
) -> Seq<ChildStep<'a>> {
    if bindings_map(widget_use.attrs@).contains_key(nth_name()) {
        seq![
            ChildStep::NthChild {
                listener_scope: calling_scope,
                nth: &widget_use.attrs[last_attribute(widget_use.attrs@, nth_name())].1,
                invocation,
            },
        ]
    } else {
        invocation.children@.map_values(
            |child: WidgetUse|
                ChildStep::Widget { scope: invocation.scope, widget_use: &child, invocation: None },
        )
    }
}

/// The place of the last attribute with the name `name`.
pub open spec fn last_attribute(attrs: Seq<(String, String)>, name: Seq<char>) -> int
    decreases attrs.len(),
{
    if attrs.len() == 0 {
        -1
    } else if attrs.last().0@ == name {
        attrs.len() - 1
    } else {
        last_attribute(attrs.drop_last(), name)
    }
}

/// What is to be done for the children `children` of a container, in their
/// order: the widget `children` is replaced by what the custom widget was
/// given, and each other child is built in `calling_scope`, within the same
/// invocation as the container. None where one of them is the widget
/// `children` and there is no invocation of a custom widget to take the
/// children from.
pub open spec fn child_steps<'a>(
    calling_scope: ScopeIndex,
    children: Seq<WidgetUse>,
    invocation: Option<&'a CustomWidgetInvocation>,
) -> Option<Seq<ChildStep<'a>>>
    decreases children.len(),
{
    if children.len() == 0 {
        Some(Seq::empty())
    } else {
        match child_steps(calling_scope, children.drop_last(), invocation) {
            None => None,
            Some(earlier) => {
                if children.last().name@ == children_name() {
                    match invocation {
                        None => None,
                        Some(given) => Some(
                            earlier + children_steps(calling_scope, &children.last(), given),
                        ),
                    }
                } else {
                    Some(
                        earlier.push(
                            ChildStep::Widget {
                                scope: calling_scope,
                                widget_use: &children.last(),
                                invocation,
                            },
                        ),
                    )
                }
            },
        }
    }
}

/// `plan` is what `populate_widget_children` owes for these children: all
/// the steps; or, where a child is refused, the place of the first such
/// child, which is the widget `children` used outside of a custom widget,
/// and the steps for the children before it.
pub open spec fn is_plan_for_children<'a>(
    plan: Result<Vec<ChildStep<'a>>, ChildrenRefused<'a>>,
    calling_scope: ScopeIndex,
    children: Seq<WidgetUse>,
    invocation: Option<&'a CustomWidgetInvocation>,
) -> bool {
    match plan {
        Ok(list) => child_steps(calling_scope, children, invocation) == Some(list@),
        Err(refused) => {
            &&& child_steps(calling_scope, children, invocation).is_none()
            &&& refused.error == ScopeGraphError::ExpectedCustomInvocationContext
            &&& invocation.is_none()
            &&& refused.at < children.len()
            &&& children[refused.at as int].name@ == children_name()
            &&& child_steps(calling_scope, children.take(refused.at as int), invocation) == Some(
                refused.steps@,
            )
        },
    }
}

/// No two definitions have the same name.
pub open spec fn distinct_names(defs: Seq<WidgetDefinition>) -> bool {
    forall|i: int, j: int|
        0 <= i < j < defs.len() ==> (#[trigger] defs[i]).name@ != (#[trigger] defs[j]).name@
}

/// Where no two definitions have the same name, the definition of a name is
/// the one that is found for it.
pub proof fn law_distinct_definition_is_found(defs: Seq<WidgetDefinition>, name: Seq<char>, i: int)
    requires
        distinct_names(defs),
        0 <= i < defs.len(),
        defs[i].name@ == name,
    ensures
        definition_of(defs, name) == Some(i),
    decreases defs.len(),
{
    if i > 0 {
        let rest = defs.drop_first();
        assert(defs[0].name@ != defs[i].name@);
        assert forall|a: int, b: int| 0 <= a < b < rest.len() implies (#[trigger] rest[a]).name@
            != (#[trigger] rest[b]).name@ by {
            assert(rest[a] == defs[a + 1]);
            assert(rest[b] == defs[b + 1]);
        }
        assert(rest[i - 1] == defs[i]);
        law_distinct_definition_is_found(rest, name, i - 1);
    }
}

/// Whether no two definitions have the same name.
pub fn names_are_distinct(widget_defs: &Vec<WidgetDefinition>) -> (distinct: bool)
    ensures
        distinct == distinct_names(widget_defs@),
{
    let mut j: usize = 0;
    while j < widget_defs.len()
        invariant
            j <= widget_defs.len(),
            forall|a: int, b: int|
                0 <= a < b < j ==> (#[trigger] widget_defs[a]).name@ != (#[trigger] widget_defs[b]).name@,
        decreases widget_defs.len() - j,
    {
        let mut i: usize = 0;
        while i < j
            invariant
                i <= j < widget_defs.len(),
                forall|a: int| 0 <= a < i ==> (#[trigger] widget_defs[a]).name@ != widget_defs[j as int].name@,
            decreases j - i,
        {
            if widget_defs[i].name == widget_defs[j].name {
                return false;
            }
            i += 1;
        }
        j += 1;
    }
    true
}

proof fn lemma_last_attribute(attrs: Seq<(String, String)>, name: Seq<char>, i: int)
    requires
        0 <= i < attrs.len(),
        attrs[i].0@ == name,
        forall|j: int| i < j < attrs.len() ==> (#[trigger] attrs[j]).0@ != name,
    ensures
        last_attribute(attrs, name) == i,
    decreases attrs.len(),
{
    if i < attrs.len() - 1 {
        let front = attrs.drop_last();
        assert(front[i] == attrs[i]);
        assert forall|j: int| i < j < front.len() implies (#[trigger] front[j]).0@ != name by {
            assert(front[j] == attrs[j]);
        }
        lemma_last_attribute(front, name, i);
    }
}

/// The expression that `attrs` gives the attribute `name`: that of the last
/// attribute of this name.
pub fn attribute<'a>(attrs: &'a Vec<(String, String)>, name: &String) -> (expression: Option<&'a String>)
    ensures
        expression.is_some() == bindings_map(attrs@).contains_key(name@),
        expression matches Some(e) ==> e@ == bindings_map(attrs@)[name@] && *e
            == attrs[last_attribute(attrs@, name@)].1,
{
    let mut i: usize = attrs.len();
    while i > 0
        invariant
            i <= attrs.len(),
            forall|j: int| i <= j < attrs.len() ==> (#[trigger] attrs[j]).0@ != name@,
        decreases i,
    {
        i -= 1;
        if attrs[i].0 == *name {
            proof {
                lemma_last_binding_wins(attrs@, i as int);
                lemma_last_attribute(attrs@, name@, i as int);
            }
            return Some(&attrs[i].1);
        }
    }
    proof {
        assert(unbound(attrs@, name@));
        lemma_unbound_is_absent(attrs@, name@);
    }
    None
}

/// The first definition with the name `name`: the only one, where the
/// names are distinct.
pub fn find_definition<'a>(widget_defs: &'a Vec<WidgetDefinition>, name: &String) -> (found: Option<
    &'a WidgetDefinition,
>)
    ensures
        match found {
            Some(definition) => definition_of(widget_defs@, name@) matches Some(i) && *definition
                == widget_defs[i],
            None => definition_of(widget_defs@, name@).is_none(),
        },
{
    let mut i: usize = 0;
    assert(widget_defs@.skip(0) =~= widget_defs@);
    while i < widget_defs.len()
        invariant
            i <= widget_defs.len(),
            definition_of(widget_defs@, name@) == moved_on(
                definition_of(widget_defs@.skip(i as int), name@),
                i as int,
            ),
        decreases widget_defs.len() - i,
    {
        proof {
            assert(widget_defs@.skip(i as int)[0] == widget_defs[i as int]);
            assert(widget_defs@.skip(i as int).drop_first() =~= widget_defs@.skip(i + 1));
        }
        if widget_defs[i].name == *name {
            return Some(&widget_defs[i]);
        }
        i += 1;
    }
    None
}

/// The attributes that the scope of a custom widget gets: each attribute
/// that the definition expects, in the definition's order, with the
/// expression that the use gives it, or with the empty text where the use
/// gives none and the attribute is optional. Fails where a required
/// attribute is not given, with the first such.
pub fn custom_widget_arguments(definition: &WidgetDefinition, widget_use: &WidgetUse) -> (given: Result<
    Vec<(String, String)>,
    MissingAttribute,
>)
    ensures
        match given {
            Ok(list) => first_missing(bindings_map(widget_use.attrs@), definition.expected_args@).is_none()
                && attribute_views(list@) == arguments(
                bindings_map(widget_use.attrs@),
                definition.expected_args@,
            ),
            Err(missing) => first_missing(bindings_map(widget_use.attrs@), definition.expected_args@)
                == Some(missing.name@),
        },
{
    let ghost attrs = bindings_map(widget_use.attrs@);
    let ghost expected = definition.expected_args@;
    let ghost wanted = arguments(attrs, expected);
    let mut list: Vec<(String, String)> = Vec::new();
    let mut i: usize = 0;
    proof {
        assert(expected.skip(0) =~= expected);
        assert(attribute_views(list@) =~= wanted.take(0));
    }
    while i < definition.expected_args.len()
        invariant
            i <= definition.expected_args.len(),
            attrs == bindings_map(widget_use.attrs@),
            expected == definition.expected_args@,
            wanted == arguments(attrs, expected),
            first_missing(attrs, expected) == first_missing(attrs, expected.skip(i as int)),
            attribute_views(list@) == wanted.take(i as int),
        decreases definition.expected_args.len() - i,
    {
        let spec = &definition.expected_args[i];
        proof {
            assert(expected.skip(i as int)[0] == *spec);
            assert(expected.skip(i as int).drop_first() =~= expected.skip(i + 1));
        }
        let expression = match attribute(&widget_use.attrs, &spec.name) {
            Some(e) => e.clone(),
            None => {
                if spec.optional {
                    String::new()
                } else {
                    return Err(MissingAttribute { name: spec.name.clone() });
                }
            },
        };
        let ghost earlier = attribute_views(list@);
        let name = spec.name.clone();
        list.push((name, expression));
        proof {
            assert(attribute_views(list@) =~= earlier.push((name@, expression@)));
            assert(wanted.take(i as int).push(wanted[i as int]) =~= wanted.take(i + 1));
        }
        i += 1;
    }
    proof {
        assert(wanted.take(expected.len() as int) =~= wanted);
    }
    Ok(list)
}

/// The names of the attributes of a widget's use, in their order.
fn attribute_names_of(attrs: &Vec<(String, String)>) -> (list: Vec<String>)
    ensures
        names(list@) == attribute_names(attrs@),
{
    let mut list: Vec<String> = Vec::new();
    let mut i: usize = 0;
    assert(names(list@) =~= attribute_names(attrs@).take(0));
    while i < attrs.len()
        invariant
            i <= attrs.len(),
            names(list@) == attribute_names(attrs@).take(i as int),
        decreases attrs.len() - i,
    {
        let ghost earlier = names(list@);
        let name = attrs[i].0.clone();
        list.push(name);
        proof {
            assert(names(list@) =~= earlier.push(name@));
            assert(attribute_names(attrs@).take(i as int).push(attribute_names(attrs@)[i as int])
                =~= attribute_names(attrs@).take(i + 1));
        }
        i += 1;
    }
    assert(attribute_names(attrs@).take(attrs.len() as int) =~= attribute_names(attrs@));
    list
}

/// What the building of a builtin widget starts from: the use, the scope
/// that it stands in, and all of its attributes as not handled yet.
pub fn build_builtin_gtk_widget<'a>(
    calling_scope: ScopeIndex,
    widget_use: WidgetUse,
    custom_widget_invocation: Option<&'a CustomWidgetInvocation>,
) -> (args: BuilderArgs<'a>)
    ensures
        args.calling_scope == calling_scope,
        args.widget_use == widget_use,
        args.custom_widget_invocation == custom_widget_invocation,
        names(args.unhandled_attrs@) == attribute_names(widget_use.attrs@),
{
    let unhandled_attrs = attribute_names_of(&widget_use.attrs);
    BuilderArgs { calling_scope, widget_use, unhandled_attrs, custom_widget_invocation }
}

/// What is to be done for the use of a widget in `calling_scope`. Where a
/// definition has the name of the use, the use is that of a custom widget:
/// its scope gets the attributes that the definition expects, and the
/// children of the use are remembered with the calling scope. Else the use
/// is that of a builtin widget. Fails where the use of a custom widget lacks
/// an attribute that the definition requires.
pub fn build_gtk_widget<'a>(
    widget_defs: &'a Vec<WidgetDefinition>,
    calling_scope: ScopeIndex,
    widget_use: WidgetUse,
    custom_widget_invocation: Option<&'a CustomWidgetInvocation>,
) -> (step: Result<WidgetStep<'a>, MissingAttribute>)
    ensures
        match definition_of(widget_defs@, widget_use.name@) {
            Some(i) => match step {
                Ok(WidgetStep::Custom { definition, attributes, invocation }) => {
                    &&& *definition == widget_defs[i]
                    &&& first_missing(bindings_map(widget_use.attrs@), widget_defs[i].expected_args@).is_none()
                    &&& attribute_views(attributes@) == arguments(
                        bindings_map(widget_use.attrs@),
                        widget_defs[i].expected_args@,
                    )
                    &&& invocation.scope == calling_scope
                    &&& invocation.children == widget_use.children
                },
                Ok(WidgetStep::Builtin { .. }) => false,
                Err(missing) => first_missing(
                    bindings_map(widget_use.attrs@),
                    widget_defs[i].expected_args@,
                ) == Some(missing.name@),
            },
            None => match step {
                Ok(WidgetStep::Builtin { args }) => {
                    &&& args.calling_scope == calling_scope
                    &&& args.widget_use == widget_use
                    &&& args.custom_widget_invocation == custom_widget_invocation
                    &&& names(args.unhandled_attrs@) == attribute_names(widget_use.attrs@)
                },
                _ => false,
            },
        },
{
    match find_definition(widget_defs, &widget_use.name) {
        Some(definition) => {
            match custom_widget_arguments(definition, &widget_use) {
                Ok(attributes) => Ok(
                    WidgetStep::Custom {
                        definition,
                        attributes,
                        invocation: CustomWidgetInvocation {
                            scope: calling_scope,
                            children: widget_use.children,
                        },
                    },
                ),
                Err(missing) => Err(missing),
            }
        },
        None => Ok(
            WidgetStep::Builtin {
                args: build_builtin_gtk_widget(calling_scope, widget_use, custom_widget_invocation),
            },
        ),
    }
}

/// What is to be done for the widget `children`, which stands for the
/// children that the custom widget was given. With an attribute `nth` a
/// listener picks one of them; else each of them is built, in the scope that
/// the custom widget was used in and within no invocation.
pub fn build_gtk_children<'a>(
    calling_scope: ScopeIndex,
    widget_use: &'a WidgetUse,
    custom_widget_invocation: &'a CustomWidgetInvocation,
) -> (steps: Vec<ChildStep<'a>>)
    requires
        widget_use.name@ == children_name(),
    ensures
        steps@ == children_steps(calling_scope, widget_use, custom_widget_invocation),
{
    let mut steps: Vec<ChildStep<'a>> = Vec::new();
    proof {
        reveal_strlit("nth");
        assert("nth"@ =~= nth_name());
    }
    let nth_attribute = "nth".to_owned();
    match attribute(&widget_use.attrs, &nth_attribute) {
        Some(nth) => {
            steps.push(
                ChildStep::NthChild {
                    listener_scope: calling_scope,
                    nth,
                    invocation: custom_widget_invocation,
                },
            );
            assert(steps@ =~= children_steps(calling_scope, widget_use, custom_widget_invocation));
        },
        None => {
            let ghost wanted = children_steps(calling_scope, widget_use, custom_widget_invocation);
            let mut i: usize = 0;
            assert(steps@ =~= wanted.take(0));
            while i < custom_widget_invocation.children.len()
                invariant
                    i <= custom_widget_invocation.children.len(),
                    wanted == custom_widget_invocation.children@.map_values(
                        |child: WidgetUse|
                            ChildStep::Widget {
                                scope: custom_widget_invocation.scope,
                                widget_use: &child,
                                invocation: None,
                            },
                    ),
                    steps@ == wanted.take(i as int),
                decreases custom_widget_invocation.children.len() - i,
            {
                steps.push(
                    ChildStep::Widget {
                        scope: custom_widget_invocation.scope,
                        widget_use: &custom_widget_invocation.children[i],
                        invocation: None,
                    },
                );
                assert(steps@ =~= wanted.take(i + 1));
                i += 1;
            }
            assert(wanted.take(wanted.len() as int) =~= wanted);
        },
    }
    steps
}

/// What is to be done for the children of a container, in their order. The
/// widget `children` is replaced by what the custom widget was given; each
/// other child is built in `calling_scope`, within the same invocation as
/// the container. Fails where the widget `children` is used outside of a
/// custom widget: the failure names the first such child and holds the steps
/// for the children before it, which are still to be carried out.
pub fn populate_widget_children<'a>(
    calling_scope: ScopeIndex,
    widget_use_children: &'a Vec<WidgetUse>,
    custom_widget_invocation: Option<&'a CustomWidgetInvocation>,
) -> (steps: Result<Vec<ChildStep<'a>>, ChildrenRefused<'a>>)
    ensures
        is_plan_for_children(steps, calling_scope, widget_use_children@, custom_widget_invocation),
{
    let ghost all = widget_use_children@;
    let mut steps: Vec<ChildStep<'a>> = Vec::new();
    let mut i: usize = 0;
    proof {
        reveal_strlit("children");
        assert("children"@ =~= children_name());
        assert(all.take(0) =~= Seq::<WidgetUse>::empty());
    }
    let children_widget = "children".to_owned();
    while i < widget_use_children.len()
        invariant
            i <= widget_use_children.len(),
            all == widget_use_children@,
            children_widget@ == children_name(),
            child_steps(calling_scope, all.take(i as int), custom_widget_invocation) == Some(steps@),
        decreases widget_use_children.len() - i,
    {
        let child = &widget_use_children[i];
        proof {
            assert(all.take(i + 1).drop_last() =~= all.take(i as int));
            assert(all.take(i + 1).last() == *child);
        }
        if child.name == children_widget {
            match custom_widget_invocation {
                Some(invocation) => {
                    let mut expanded = build_gtk_children(calling_scope, child, invocation);
                    steps.append(&mut expanded);
                },
                None => {
                    proof {
                        lemma_child_steps_stay_none(
                            calling_scope,
                            all,
                            custom_widget_invocation,
                            i + 1,
                        );
                    }
                    return Err(
                        ChildrenRefused {
                            steps,
                            at: i,
                            error: ScopeGraphError::ExpectedCustomInvocationContext,
                        },
                    );
                },
            }
        } else {
            steps.push(
                ChildStep::Widget {
                    scope: calling_scope,
                    widget_use: child,
                    invocation: custom_widget_invocation,
                },
            );
        }
        i += 1;
    }
    assert(all.take(all.len() as int) =~= all);
    Ok(steps)
}

/// What is to be done for the children of a builtin widget once the widget
/// itself is made. The children are built and added exactly if the widget is
/// a container that has no children yet: then the result is that of
/// `populate_widget_children` for the children of the use, in the calling
/// scope and within the invocation that the builder started from. Else
/// nothing is to be done, and the result is None.
pub fn populate_builtin_children<'a>(
    is_container: bool,
    has_children: bool,
    args: &'a BuilderArgs<'a>,
) -> (steps: Option<Result<Vec<ChildStep<'a>>, ChildrenRefused<'a>>>)
    ensures
        steps.is_some() == (is_container && !has_children),
        steps matches Some(plan) ==> is_plan_for_children(
            plan,
            args.calling_scope,
            args.widget_use.children@,
            args.custom_widget_invocation,
        ),
{
    if is_container && !has_children {
        Some(
            populate_widget_children(
                args.calling_scope,
                &args.widget_use.children,
                args.custom_widget_invocation,
            ),
        )
    } else {
        None
    }
}

/// Once the steps cannot be had for the first children, they cannot be had
/// for all of them.
proof fn lemma_child_steps_stay_none(
    calling_scope: ScopeIndex,
    children: Seq<WidgetUse>,
    invocation: Option<&CustomWidgetInvocation>,
    n: int,
)
    requires
        0 <= n <= children.len(),
        child_steps(calling_scope, children.take(n), invocation).is_none(),
    ensures
        child_steps(calling_scope, children, invocation).is_none(),
    decreases children.len() - n,
{
    if n < children.len() {
        assert(children.take(n + 1).drop_last() =~= children.take(n));
        lemma_child_steps_stay_none(calling_scope, children, invocation, n + 1);
    } else {
        assert(children.take(n) =~= children);
    }
}

/// The child of the invocation that the value `nth` counts to, from 0; None
/// where there is no such child.
pub fn nth_child(invocation: &CustomWidgetInvocation, nth: i32) -> (child: Option<&WidgetUse>)
    ensures
        match child {
            Some(found) => 0 <= nth < invocation.children.len() && *found
                == invocation.children[nth as int],
            None => !(0 <= nth < invocation.children.len()),
        },
{
    if nth < 0 {
        return None;
    }
    let index = nth as usize;
    if index < invocation.children.len() {
        Some(&invocation.children[index])
    } else {
        None
    }
}

/// The warning about attributes that no part of the builder has read: None
/// where there are none left.
pub fn unknown_attributes_warning(unhandled_attrs: &Vec<String>) -> (warning: Option<String>)
    ensures
        match warning {
            Some(text) => unhandled_attrs.len() > 0 && text@ == unknown_attributes_prefix() + joined(
                names(unhandled_attrs@),
                seq![',', ' '],
            ),
            None => unhandled_attrs.len() == 0,
        },
{
    if unhandled_attrs.len() == 0 {
        return None;
    }
    proof {
        reveal_strlit("Unknown attributes ");
        reveal_strlit(", ");
        assert("Unknown attributes "@ =~= unknown_attributes_prefix());
        assert(", "@ =~= seq![',', ' ']);
    }
    let list = join(unhandled_attrs, ", ");
    let mut text = "Unknown attributes ".to_owned();
    text.append(list.as_str());
    Some(text)
}

/// How the warning about unknown attributes begins.
pub open spec fn unknown_attributes_prefix() -> Seq<char> {
    seq![
        'U', 'n', 'k', 'n', 'o', 'w', 'n', ' ', 'a', 't', 't', 'r', 'i', 'b', 'u', 't', 'e', 's', ' ',
    ]
}

} // verus!
