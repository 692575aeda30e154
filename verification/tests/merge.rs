use configopt_schema::attrs::Namespace;
use configopt_schema::attrs::RawEntry;
use configopt_schema::error::MergeError;
use configopt_schema::field::FieldSource;
use configopt_schema::instance::PartialInstance;
use configopt_schema::instance::Selection;
use configopt_schema::instance::Slot;
use configopt_schema::materialize::materialize;
use configopt_schema::materialize::resolve;
use configopt_schema::materialize::FullInstance;
use configopt_schema::materialize::ResolutionMode;
use configopt_schema::materialize::Resolved;
use configopt_schema::merge::is_instance;
use configopt_schema::merge::merge;
use configopt_schema::merge::try_merge;
use configopt_schema::merge::unset_instance;
use configopt_schema::merge::SelectionPolicy;
use configopt_schema::partial::PartialBody;
use configopt_schema::registry::Registry;
use configopt_schema::schema::SchemaBody;
use configopt_schema::selection::is_selection;
use configopt_schema::selection::materialize_selection;
use configopt_schema::selection::merge_selections;
use configopt_schema::selection::resolve_selection;
use configopt_schema::schema::SchemaSource;
use configopt_schema::types::TypeRef;
use configopt_schema::variant::VariantFields;
use configopt_schema::variant::VariantSource;

#[derive(Clone, Debug, PartialEq)]
enum Value {
    Text(String),
    Number(u16),
}

fn text(s: &str) -> Option<Value> {
    Some(Value::Text(String::from(s)))
}

fn number(n: u16) -> Option<Value> {
    Some(Value::Number(n))
}

fn simple(name: &str) -> TypeRef {
    TypeRef::Path { segments: vec![String::from(name)], arguments: vec![] }
}

fn option_of(inner: TypeRef) -> TypeRef {
    TypeRef::Path { segments: vec![String::from("Option")], arguments: vec![inner] }
}

fn flag(namespace: Namespace, key: &str) -> RawEntry {
    RawEntry { namespace, key: String::from(key), value: None }
}

fn valued(namespace: Namespace, key: &str, value: &str) -> RawEntry {
    RawEntry { namespace, key: String::from(key), value: Some(String::from(value)) }
}

fn field(ident: &str, ty: TypeRef, attrs: Vec<RawEntry>) -> FieldSource {
    FieldSource {
        ident: String::from(ident),
        ty,
        attrs,
        structopt_rename_all: None,
        serde_rename_all: None,
    }
}

fn record(name: &str, fields: Vec<FieldSource>) -> SchemaSource {
    SchemaSource {
        name: String::from(name),
        structopt_rename_all: String::from("kebab"),
        serde_rename_all: String::from("kebab"),
        body: SchemaBody::Struct(fields),
    }
}

fn server_registry() -> Registry {
    Registry::register(&vec![record(
        "Server",
        vec![
            field("host", simple("String"), vec![]),
            field("port", simple("u16"), vec![valued(Namespace::Cli, "name", "listen-port")]),
        ],
    )])
    .unwrap()
}

fn leaves(values: Vec<Option<Value>>) -> PartialInstance<Value> {
    PartialInstance { slots: values.into_iter().map(Slot::Leaf).collect() }
}

fn keep(_expr: &String, raw: Value) -> Value {
    raw
}

/// `App { name: String, cmd: Cmd (subcommand), extra: Option<Cmd> (subcommand) }`
/// with `Cmd { Start { level: u16, tag: Option<String> }, Stop, Nest { inner: Option<Cmd> } }`.
fn app_registry() -> Registry {
    let start = VariantSource {
        ident: String::from("Start"),
        fields: VariantFields::Named(vec![
            field("level", simple("u16"), vec![]),
            field("tag", option_of(simple("String")), vec![]),
        ]),
    };
    let stop = VariantSource { ident: String::from("Stop"), fields: VariantFields::Unit };
    let nest = VariantSource {
        ident: String::from("Nest"),
        fields: VariantFields::Named(vec![field(
            "inner",
            option_of(simple("Cmd")),
            vec![flag(Namespace::Cli, "subcommand")],
        )]),
    };
    Registry::register(&vec![
        record(
            "App",
            vec![
                field("name", simple("String"), vec![]),
                field("cmd", simple("Cmd"), vec![flag(Namespace::Cli, "subcommand")]),
                field("extra", option_of(simple("Cmd")), vec![flag(Namespace::Cli, "subcommand")]),
            ],
        ),
        SchemaSource {
            name: String::from("Cmd"),
            structopt_rename_all: String::from("kebab"),
            serde_rename_all: String::from("kebab"),
            body: SchemaBody::Enum(vec![start, stop, nest]),
        },
    ])
    .unwrap()
}

fn start(level: Option<Value>, tag: Option<Value>) -> Slot<Value> {
    Slot::Choice(Some(Selection { variant: 0, fields: vec![Slot::Leaf(level), Slot::Leaf(tag)] }))
}

fn stop() -> Slot<Value> {
    Slot::Choice(Some(Selection { variant: 1, fields: vec![] }))
}

fn nest(inner: Slot<Value>) -> Slot<Value> {
    Slot::Choice(Some(Selection { variant: 2, fields: vec![inner] }))
}

fn app(name: Option<Value>, cmd: Slot<Value>, extra: Slot<Value>) -> PartialInstance<Value> {
    PartialInstance { slots: vec![Slot::Leaf(name), cmd, extra] }
}

fn merged(registry: &Registry, list: Vec<PartialInstance<Value>>) -> PartialInstance<Value> {
    for instance in &list {
        assert!(is_instance(registry, 0, instance));
    }
    merge(registry, 0, list, SelectionPolicy::LaterReplaces).unwrap()
}

#[test]
fn server_layers_resolve() {
    let registry = server_registry();
    let layers = vec![
        leaves(vec![None, None]),
        leaves(vec![text("0.0.0.0"), None]),
        leaves(vec![None, number(8080)]),
    ];
    assert_eq!(merged(&registry, layers), leaves(vec![text("0.0.0.0"), number(8080)]));
}

#[test]
fn server_layers_materialize() {
    let registry = server_registry();
    let layers = vec![
        leaves(vec![None, None]),
        leaves(vec![text("0.0.0.0"), None]),
        leaves(vec![None, number(8080)]),
    ];
    let resolved = resolve(
        &registry,
        0,
        layers,
        SelectionPolicy::LaterReplaces,
        ResolutionMode::MergeAndMaterialize,
        keep,
    );
    assert_eq!(
        resolved,
        Ok(Resolved::Materialized(FullInstance {
            slots: vec![Slot::Leaf(text("0.0.0.0")), Slot::Leaf(number(8080))],
        }))
    );
}

#[test]
fn merge_of_nothing_is_unset() {
    let registry = server_registry();
    assert_eq!(merged(&registry, vec![]), leaves(vec![None, None]));
}

#[test]
fn unset_instance_has_one_slot_for_each_field() {
    let registry = app_registry();
    let fields = match &registry.partial(0).body {
        PartialBody::Struct(fields) => fields,
        PartialBody::Enum(_) => panic!("App is a struct"),
    };
    let empty: PartialInstance<Value> = unset_instance(fields);
    assert_eq!(empty, app(None, Slot::Choice(None), Slot::Choice(None)));
    assert!(is_instance(&registry, 0, &empty));
}

#[test]
fn merge_of_one_is_that_one() {
    let registry = app_registry();
    let a = app(text("a"), start(number(1), None), Slot::Choice(None));
    assert_eq!(merged(&registry, vec![a.clone_for_test()]), a);
}

trait CloneForTest {
    fn clone_for_test(&self) -> Self;
}

impl CloneForTest for Slot<Value> {
    fn clone_for_test(&self) -> Self {
        match self {
            Slot::Leaf(v) => Slot::Leaf(v.clone()),
            Slot::Choice(None) => Slot::Choice(None),
            Slot::Choice(Some(s)) => Slot::Choice(Some(Selection {
                variant: s.variant,
                fields: s.fields.iter().map(|f| f.clone_for_test()).collect(),
            })),
        }
    }
}

impl CloneForTest for PartialInstance<Value> {
    fn clone_for_test(&self) -> Self {
        PartialInstance { slots: self.slots.iter().map(|s| s.clone_for_test()).collect() }
    }
}

#[test]
fn later_set_value_wins() {
    let registry = server_registry();
    let a = leaves(vec![text("a"), number(1)]);
    let b = leaves(vec![text("b"), None]);
    assert_eq!(merged(&registry, vec![a, b]), leaves(vec![text("b"), number(1)]));
}

#[test]
fn unset_later_instance_changes_nothing() {
    let registry = app_registry();
    let a = app(text("a"), start(number(1), None), stop());
    let b = app(None, Slot::Choice(None), Slot::Choice(None));
    assert_eq!(merged(&registry, vec![a.clone_for_test(), b]), a);
}

#[test]
fn fully_set_later_instance_replaces_everything() {
    let registry = app_registry();
    let a = app(text("a"), start(number(1), None), stop());
    let b = app(text("b"), start(number(2), text("t")), nest(stop()));
    assert_eq!(merged(&registry, vec![a, b.clone_for_test()]), b);
}

#[test]
fn merge_in_steps_gives_the_same() {
    let registry = app_registry();
    let a = app(text("a"), start(number(1), None), Slot::Choice(None));
    let b = app(None, start(None, text("t")), stop());
    let c = app(text("c"), stop(), nest(start(number(3), None)));
    let all = merged(
        &registry,
        vec![a.clone_for_test(), b.clone_for_test(), c.clone_for_test()],
    );
    let first_two = merged(&registry, vec![a, b]);
    assert_eq!(
        first_two,
        app(text("a"), start(number(1), text("t")), stop())
    );
    let stepwise = merged(&registry, vec![first_two, c]);
    assert_eq!(all, stepwise);
    assert_eq!(all, app(text("c"), stop(), nest(start(number(3), None))));
}

#[test]
fn same_variant_is_merged_field_by_field() {
    let registry = app_registry();
    let a = app(None, start(number(1), text("old")), Slot::Choice(None));
    let b = app(None, start(None, text("new")), Slot::Choice(None));
    assert_eq!(
        merged(&registry, vec![a, b]),
        app(None, start(number(1), text("new")), Slot::Choice(None))
    );
}

#[test]
fn nested_selection_is_merged_in_depth() {
    let registry = app_registry();
    let a = app(None, nest(start(number(1), None)), Slot::Choice(None));
    let b = app(None, nest(start(None, text("t"))), Slot::Choice(None));
    assert_eq!(
        merged(&registry, vec![a, b]),
        app(None, nest(start(number(1), text("t"))), Slot::Choice(None))
    );
}

#[test]
fn different_variant_replaces_the_substructure() {
    let registry = app_registry();
    let a = app(None, start(number(1), text("t")), Slot::Choice(None));
    let b = app(None, stop(), Slot::Choice(None));
    assert_eq!(merged(&registry, vec![a, b]), app(None, stop(), Slot::Choice(None)));
}

#[test]
fn different_variant_fails_where_the_same_is_required() {
    let registry = app_registry();
    let a = app(None, start(number(1), None), Slot::Choice(None));
    let b = app(None, stop(), Slot::Choice(None));
    assert_eq!(
        merge(&registry, 0, vec![a, b], SelectionPolicy::SameVariantRequired),
        Err(MergeError::AmbiguousSubcommandSelection { field: String::from("cmd") })
    );
}

#[test]
fn nested_conflict_names_the_nested_field() {
    let registry = app_registry();
    let a = app(None, nest(start(None, None)), stop());
    let b = app(None, nest(stop()), start(None, None));
    assert_eq!(
        merge(&registry, 0, vec![a, b], SelectionPolicy::SameVariantRequired),
        Err(MergeError::AmbiguousSubcommandSelection { field: String::from("inner") })
    );
}

#[test]
fn same_variant_passes_where_the_same_is_required() {
    let registry = app_registry();
    let a = app(text("a"), start(number(1), None), Slot::Choice(None));
    let b = app(None, start(None, text("t")), stop());
    assert_eq!(
        merge(&registry, 0, vec![a, b], SelectionPolicy::SameVariantRequired),
        Ok(app(text("a"), start(number(1), text("t")), stop()))
    );
}

#[test]
fn conflict_with_an_earlier_layer_stops_the_merge() {
    let registry = app_registry();
    let a = app(None, start(None, None), Slot::Choice(None));
    let b = app(None, stop(), Slot::Choice(None));
    let c = app(None, stop(), Slot::Choice(None));
    assert_eq!(
        merge(&registry, 0, vec![a, b, c], SelectionPolicy::SameVariantRequired),
        Err(MergeError::AmbiguousSubcommandSelection { field: String::from("cmd") })
    );
}

#[test]
fn instances_of_another_shape_are_told_apart() {
    let registry = app_registry();
    assert!(!is_instance(&registry, 0, &leaves(vec![None, None, None])));
    assert!(!is_instance(&registry, 0, &leaves(vec![None])));
    assert!(!is_instance(&registry, 1, &leaves(vec![])));
    assert!(!is_instance(&registry, 7, &leaves(vec![])));
    let wrong_variant = app(
        None,
        Slot::Choice(Some(Selection { variant: 3, fields: vec![] })),
        Slot::Choice(None),
    );
    assert!(!is_instance(&registry, 0, &wrong_variant));
    let wrong_fields = app(
        None,
        Slot::Choice(Some(Selection { variant: 1, fields: vec![Slot::Leaf(None)] })),
        Slot::Choice(None),
    );
    assert!(!is_instance(&registry, 0, &wrong_fields));
    assert!(is_instance(&registry, 0, &app(None, nest(nest(stop())), Slot::Choice(None))));
}

#[test]
fn complete_instance_materializes_to_its_values() {
    let registry = app_registry();
    let instance = app(text("a"), start(number(1), None), Slot::Choice(None));
    assert!(is_instance(&registry, 0, &instance));
    assert_eq!(
        materialize(&registry, 0, instance, keep),
        Ok(FullInstance {
            slots: vec![Slot::Leaf(text("a")), start(number(1), None), Slot::Choice(None)],
        })
    );
}

#[test]
fn first_missing_field_is_named() {
    let registry = server_registry();
    assert_eq!(
        materialize(&registry, 0, leaves(vec![None, None]), keep),
        Err(MergeError::MissingRequiredField { field: String::from("host") })
    );
    assert_eq!(
        materialize(&registry, 0, leaves(vec![text("h"), None]), keep),
        Err(MergeError::MissingRequiredField { field: String::from("port") })
    );
    assert_eq!(
        materialize(&registry, 0, leaves(vec![None, number(1)]), keep),
        Err(MergeError::MissingRequiredField { field: String::from("host") })
    );
}

#[test]
fn missing_field_is_named_whatever_else_is_unset() {
    let registry = app_registry();
    let with_optionals = app(text("a"), start(None, text("t")), stop());
    let without_optionals = app(text("a"), start(None, None), Slot::Choice(None));
    let expected = Err(MergeError::MissingRequiredField { field: String::from("level") });
    assert_eq!(materialize(&registry, 0, with_optionals, keep), expected);
    assert_eq!(materialize(&registry, 0, without_optionals, keep), expected);
}

#[test]
fn required_subcommand_must_be_selected() {
    let registry = app_registry();
    let instance = app(text("a"), Slot::Choice(None), Slot::Choice(None));
    assert_eq!(
        materialize(&registry, 0, instance, keep),
        Err(MergeError::MissingRequiredField { field: String::from("cmd") })
    );
}

#[test]
fn missing_field_of_a_nested_selection_is_found_in_order() {
    let registry = app_registry();
    let instance = app(text("a"), nest(start(None, None)), start(None, None));
    assert_eq!(
        materialize(&registry, 0, instance, keep),
        Err(MergeError::MissingRequiredField { field: String::from("level") })
    );
    let instance = app(None, nest(start(None, None)), Slot::Choice(None));
    assert_eq!(
        materialize(&registry, 0, instance, keep),
        Err(MergeError::MissingRequiredField { field: String::from("name") })
    );
}

fn converting_registry() -> Registry {
    Registry::register(&vec![record(
        "Paths",
        vec![
            field("root", simple("String"), vec![valued(Namespace::Internal, "to_os_string", "upper")]),
            field("log", option_of(simple("String")), vec![valued(Namespace::Internal, "to_os_string", "suffix")]),
            field("plain", simple("String"), vec![]),
        ],
    )])
    .unwrap()
}

fn apply(expr: &String, raw: Value) -> Value {
    match (expr.as_str(), raw) {
        ("upper", Value::Text(t)) => Value::Text(t.to_uppercase()),
        ("suffix", Value::Text(t)) => Value::Text(format!("{}.log", t)),
        (_, other) => other,
    }
}

#[test]
fn conversion_is_applied_at_materialization_only() {
    let registry = converting_registry();
    let layers = vec![
        leaves(vec![text("a"), text("x"), None]),
        leaves(vec![text("b"), None, text("p")]),
    ];
    let merged = merge(&registry, 0, layers, SelectionPolicy::LaterReplaces).unwrap();
    assert_eq!(merged, leaves(vec![text("b"), text("x"), text("p")]));
    assert_eq!(
        materialize(&registry, 0, merged, apply),
        Ok(FullInstance {
            slots: vec![Slot::Leaf(text("B")), Slot::Leaf(text("x.log")), Slot::Leaf(text("p"))],
        })
    );
}

#[test]
fn unset_optional_value_is_not_converted() {
    let registry = converting_registry();
    assert_eq!(
        materialize(&registry, 0, leaves(vec![text("a"), None, text("p")]), apply),
        Ok(FullInstance {
            slots: vec![Slot::Leaf(text("A")), Slot::Leaf(None), Slot::Leaf(text("p"))],
        })
    );
}

#[test]
fn nothing_is_converted_when_a_field_is_missing() {
    let registry = converting_registry();
    let calls = std::cell::Cell::new(0);
    let counting = |_expr: &String, raw: Value| {
        calls.set(calls.get() + 1);
        raw
    };
    assert_eq!(
        materialize(&registry, 0, leaves(vec![text("a"), text("x"), None]), counting),
        Err(MergeError::MissingRequiredField { field: String::from("plain") })
    );
    assert_eq!(calls.get(), 0);
}

#[test]
fn merge_only_returns_the_merged_partial() {
    let registry = server_registry();
    let resolved = resolve(
        &registry,
        0,
        vec![leaves(vec![text("h"), None])],
        SelectionPolicy::LaterReplaces,
        ResolutionMode::MergeOnly,
        keep,
    );
    assert_eq!(resolved, Ok(Resolved::Merged(leaves(vec![text("h"), None]))));
}

#[test]
fn resolution_reports_the_missing_field() {
    let registry = server_registry();
    let resolved = resolve(
        &registry,
        0,
        vec![leaves(vec![text("h"), None])],
        SelectionPolicy::LaterReplaces,
        ResolutionMode::MergeAndMaterialize,
        keep,
    );
    assert_eq!(resolved, Err(MergeError::MissingRequiredField { field: String::from("port") }));
}

#[test]
fn resolution_reports_a_conflict_before_a_missing_field() {
    let registry = app_registry();
    let a = app(None, start(None, None), Slot::Choice(None));
    let b = app(None, stop(), Slot::Choice(None));
    let resolved = resolve(
        &registry,
        0,
        vec![a, b],
        SelectionPolicy::SameVariantRequired,
        ResolutionMode::MergeAndMaterialize,
        keep,
    );
    assert_eq!(
        resolved,
        Err(MergeError::AmbiguousSubcommandSelection { field: String::from("cmd") })
    );
}

#[test]
fn tested_merge_refuses_what_is_no_instance() {
    let registry = app_registry();
    let good = app(text("a"), stop(), Slot::Choice(None));
    let bad = leaves(vec![None]);
    assert_eq!(try_merge(&registry, 0, vec![good, bad], SelectionPolicy::LaterReplaces), None);
    assert_eq!(
        try_merge::<Value>(&registry, 1, vec![], SelectionPolicy::LaterReplaces),
        None
    );
    assert_eq!(
        try_merge::<Value>(&registry, 5, vec![], SelectionPolicy::LaterReplaces),
        None
    );
}

#[test]
fn tested_merge_merges_instances() {
    let registry = app_registry();
    let a = app(text("a"), start(number(1), None), Slot::Choice(None));
    let b = app(None, stop(), Slot::Choice(None));
    assert_eq!(
        try_merge(&registry, 0, vec![a, b], SelectionPolicy::LaterReplaces),
        Some(Ok(app(text("a"), stop(), Slot::Choice(None))))
    );
    let a = app(None, start(None, None), Slot::Choice(None));
    let b = app(None, stop(), Slot::Choice(None));
    assert_eq!(
        try_merge(&registry, 0, vec![a, b], SelectionPolicy::SameVariantRequired),
        Some(Err(MergeError::AmbiguousSubcommandSelection { field: String::from("cmd") }))
    );
    assert_eq!(
        try_merge::<Value>(&registry, 0, vec![], SelectionPolicy::LaterReplaces),
        Some(Ok(app(None, Slot::Choice(None), Slot::Choice(None))))
    );
}

fn selected(slot: Slot<Value>) -> Option<Selection<Value>> {
    match slot {
        Slot::Choice(selection) => selection,
        Slot::Leaf(_) => panic!("a leaf selects nothing"),
    }
}

fn merged_selections(
    registry: &Registry,
    list: Vec<Option<Selection<Value>>>,
    policy: SelectionPolicy,
) -> Result<Option<Selection<Value>>, MergeError> {
    for selection in &list {
        assert!(is_selection(registry, 1, selection));
    }
    merge_selections(registry, 1, list, policy)
}

#[test]
fn selections_of_an_enum_are_told_apart() {
    let registry = app_registry();
    assert!(is_selection::<Value>(&registry, 1, &None));
    assert!(is_selection(&registry, 1, &selected(start(None, None))));
    assert!(is_selection(&registry, 1, &selected(nest(nest(stop())))));
    assert!(!is_selection(&registry, 0, &selected(stop())));
    assert!(!is_selection::<Value>(&registry, 0, &None));
    assert!(!is_selection::<Value>(&registry, 9, &None));
    assert!(!is_selection(&registry, 1, &Some(Selection::<Value> { variant: 3, fields: vec![] })));
    assert!(!is_selection(
        &registry,
        1,
        &Some(Selection::<Value> { variant: 1, fields: vec![Slot::Leaf(None)] })
    ));
}

#[test]
fn merge_of_no_selection_selects_nothing() {
    let registry = app_registry();
    assert_eq!(merged_selections(&registry, vec![], SelectionPolicy::LaterReplaces), Ok(None));
    assert_eq!(
        merged_selections(&registry, vec![None, None], SelectionPolicy::SameVariantRequired),
        Ok(None)
    );
}

#[test]
fn merge_of_one_selection_is_that_one() {
    let registry = app_registry();
    assert_eq!(
        merged_selections(
            &registry,
            vec![selected(start(number(1), None))],
            SelectionPolicy::LaterReplaces
        ),
        Ok(selected(start(number(1), None)))
    );
}

#[test]
fn unselected_later_instance_keeps_the_selection() {
    let registry = app_registry();
    assert_eq!(
        merged_selections(
            &registry,
            vec![selected(start(number(1), None)), None],
            SelectionPolicy::LaterReplaces
        ),
        Ok(selected(start(number(1), None)))
    );
}

#[test]
fn same_selection_is_merged_field_by_field() {
    let registry = app_registry();
    assert_eq!(
        merged_selections(
            &registry,
            vec![
                None,
                selected(start(number(1), text("old"))),
                selected(start(None, text("new"))),
            ],
            SelectionPolicy::SameVariantRequired
        ),
        Ok(selected(start(number(1), text("new"))))
    );
}

#[test]
fn different_selection_replaces_or_fails() {
    let registry = app_registry();
    assert_eq!(
        merged_selections(
            &registry,
            vec![selected(start(number(1), None)), selected(stop())],
            SelectionPolicy::LaterReplaces
        ),
        Ok(selected(stop()))
    );
    assert_eq!(
        merged_selections(
            &registry,
            vec![selected(start(number(1), None)), selected(stop())],
            SelectionPolicy::SameVariantRequired
        ),
        Err(MergeError::AmbiguousSubcommandSelection { field: String::from("Cmd") })
    );
    assert_eq!(
        merged_selections(
            &registry,
            vec![selected(nest(start(None, None))), selected(nest(stop()))],
            SelectionPolicy::SameVariantRequired
        ),
        Err(MergeError::AmbiguousSubcommandSelection { field: String::from("inner") })
    );
}

#[test]
fn selections_merge_in_steps() {
    let registry = app_registry();
    let a = || selected(start(number(1), None));
    let b = || selected(start(None, text("t")));
    let c = || selected(nest(stop()));
    let all = merged_selections(&registry, vec![a(), b(), c()], SelectionPolicy::LaterReplaces);
    let first_two =
        merged_selections(&registry, vec![a(), b()], SelectionPolicy::LaterReplaces).unwrap();
    assert_eq!(first_two, selected(start(number(1), text("t"))));
    let stepwise =
        merged_selections(&registry, vec![first_two, c()], SelectionPolicy::LaterReplaces);
    assert_eq!(all, stepwise);
    assert_eq!(all, Ok(c()));
}

#[test]
fn selection_materializes_to_its_variant() {
    let registry = app_registry();
    assert_eq!(
        materialize_selection(&registry, 1, selected(start(number(1), None)), keep),
        Ok(selected(start(number(1), None)).unwrap())
    );
    assert_eq!(
        materialize_selection(&registry, 1, selected(stop()), keep),
        Ok(Selection { variant: 1, fields: vec![] })
    );
}

#[test]
fn selection_without_a_variant_lacks_the_enum() {
    let registry = app_registry();
    assert_eq!(
        materialize_selection::<Value, _>(&registry, 1, None, keep),
        Err(MergeError::MissingRequiredField { field: String::from("Cmd") })
    );
}

#[test]
fn selection_lacks_the_first_unset_required_field() {
    let registry = app_registry();
    assert_eq!(
        materialize_selection(&registry, 1, selected(start(None, text("t"))), keep),
        Err(MergeError::MissingRequiredField { field: String::from("level") })
    );
    assert_eq!(
        materialize_selection(&registry, 1, selected(nest(start(None, None))), keep),
        Err(MergeError::MissingRequiredField { field: String::from("level") })
    );
    assert_eq!(
        materialize_selection(&registry, 1, selected(nest(Slot::Choice(None))), keep),
        Ok(Selection { variant: 2, fields: vec![Slot::Choice(None)] })
    );
}

#[test]
fn selections_resolve() {
    let registry = app_registry();
    assert_eq!(
        resolve_selection(
            &registry,
            1,
            vec![None, selected(start(number(1), None)), selected(start(None, text("t")))],
            SelectionPolicy::SameVariantRequired,
            keep
        ),
        Ok(Selection {
            variant: 0,
            fields: vec![Slot::Leaf(number(1)), Slot::Leaf(text("t"))],
        })
    );
    assert_eq!(
        resolve_selection(
            &registry,
            1,
            vec![selected(start(None, None)), selected(stop())],
            SelectionPolicy::SameVariantRequired,
            keep
        ),
        Err(MergeError::AmbiguousSubcommandSelection { field: String::from("Cmd") })
    );
    assert_eq!(
        resolve_selection(
            &registry,
            1,
            vec![selected(start(None, None))],
            SelectionPolicy::LaterReplaces,
            keep
        ),
        Err(MergeError::MissingRequiredField { field: String::from("level") })
    );
}
