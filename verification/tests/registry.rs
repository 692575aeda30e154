use configopt_schema::attrs::Namespace;
use configopt_schema::attrs::RawEntry;
use configopt_schema::error::SchemaError;
use configopt_schema::field::FieldSource;
use configopt_schema::names::cli_name_table;
use configopt_schema::names::serialized_name_table;
use configopt_schema::names::NameEntry;
use configopt_schema::partial::PartialBody;
use configopt_schema::partial::PartialField;
use configopt_schema::registry::Registry;
use configopt_schema::schema::Schema;
use configopt_schema::schema::SchemaBody;
use configopt_schema::schema::SchemaKind;
use configopt_schema::schema::SchemaSource;
use configopt_schema::types::TypeRef;
use configopt_schema::variant::FieldType;
use configopt_schema::variant::VariantFields;
use configopt_schema::variant::VariantSource;

fn simple(name: &str) -> TypeRef {
    TypeRef::Path { segments: vec![String::from(name)], arguments: vec![] }
}

fn option_of(inner: TypeRef) -> TypeRef {
    TypeRef::Path { segments: vec![String::from("Option")], arguments: vec![inner] }
}

fn vec_of(inner: TypeRef) -> TypeRef {
    TypeRef::Path { segments: vec![String::from("Vec")], arguments: vec![inner] }
}

fn flag(namespace: Namespace, key: &str) -> RawEntry {
    RawEntry { namespace, key: String::from(key), value: None }
}

fn valued(namespace: Namespace, key: &str, value: &str) -> RawEntry {
    RawEntry { namespace, key: String::from(key), value: Some(String::from(value)) }
}

fn field(ident: &str, ty: TypeRef, attrs: Vec<RawEntry>) -> FieldSource {
    FieldSource {
        ident: String::from(ident),
        ty,
        attrs,
        structopt_rename_all: None,
        serde_rename_all: None,
    }
}

fn flattened(ident: &str, ty: &str) -> FieldSource {
    field(
        ident,
        simple(ty),
        vec![flag(Namespace::Cli, "flatten"), flag(Namespace::Serialization, "flatten")],
    )
}

fn record(name: &str, fields: Vec<FieldSource>) -> SchemaSource {
    SchemaSource {
        name: String::from(name),
        structopt_rename_all: String::from("kebab"),
        serde_rename_all: String::from("kebab"),
        body: SchemaBody::Struct(fields),
    }
}

fn choice(name: &str, variants: Vec<VariantSource>) -> SchemaSource {
    SchemaSource {
        name: String::from(name),
        structopt_rename_all: String::from("kebab"),
        serde_rename_all: String::from("kebab"),
        body: SchemaBody::Enum(variants),
    }
}

fn struct_fields(registry: &Registry, name: &str) -> Vec<String> {
    let index = registry.index_of(name).unwrap();
    match &registry.partial(index).body {
        PartialBody::Struct(fields) => idents(fields),
        PartialBody::Enum(_) => panic!("{} is an enum", name),
    }
}

fn idents(fields: &Vec<PartialField>) -> Vec<String> {
    fields.iter().map(|f| f.descriptor.ident().clone()).collect()
}

fn entry(field: &str, name: &str) -> NameEntry {
    NameEntry { field: String::from(field), name: String::from(name) }
}

fn server() -> SchemaSource {
    record(
        "Server",
        vec![
            field("host", simple("String"), vec![]),
            field("port", simple("u16"), vec![valued(Namespace::Cli, "name", "listen-port")]),
        ],
    )
}

#[test]
fn server_name_tables() {
    let registry = Registry::register(&vec![server()]).unwrap();
    let index = registry.index_of("Server").unwrap();
    let fields = match &registry.partial(index).body {
        PartialBody::Struct(fields) => fields,
        PartialBody::Enum(_) => panic!("Server is a struct"),
    };
    assert_eq!(
        cli_name_table(fields),
        vec![entry("host", "--host"), entry("port", "--listen-port")]
    );
    assert_eq!(serialized_name_table(fields), vec![entry("host", "host"), entry("port", "port")]);
}

#[test]
fn schema_is_built_from_its_source() {
    let schema = Schema::new(&server()).unwrap();
    assert_eq!(schema.name, "Server");
    assert_eq!(schema.partial_name, "ConfigOptServer");
    match &schema.kind {
        SchemaKind::Struct(fields) => {
            assert_eq!(fields.len(), 2);
            assert_eq!(fields[0].ident(), "host");
            assert_eq!(fields[1].structopt_name(), "listen-port");
        }
        SchemaKind::Enum(_) => panic!("Server is a struct"),
    }
}

#[test]
fn schema_styles_name_the_fields() {
    let mut source = record("S", vec![field("max_count", simple("u8"), vec![])]);
    source.structopt_rename_all = String::from("screamingsnake");
    source.serde_rename_all = String::from("camel");
    let schema = Schema::new(&source).unwrap();
    match &schema.kind {
        SchemaKind::Struct(fields) => {
            assert_eq!(fields[0].structopt_name(), "MAX_COUNT");
            assert_eq!(fields[0].serde_name(), "maxCount");
        }
        SchemaKind::Enum(_) => panic!("S is a struct"),
    }
}

#[test]
fn unknown_schema_style_is_refused() {
    let mut source = server();
    source.structopt_rename_all = String::from("loud");
    assert_eq!(
        Schema::new(&source),
        Err(SchemaError::InvalidCasingStyle { token: String::from("loud") })
    );
    let mut source = server();
    source.serde_rename_all = String::from("quiet");
    assert_eq!(
        Registry::register(&vec![source]).err(),
        Some(SchemaError::InvalidCasingStyle { token: String::from("quiet") })
    );
}

#[test]
fn first_failing_field_is_reported() {
    let source = record(
        "S",
        vec![
            field("a", simple("u8"), vec![]),
            field("b", TypeRef::Other, vec![]),
            field("c", TypeRef::Other, vec![]),
        ],
    );
    assert_eq!(
        Schema::new(&source),
        Err(SchemaError::UnsupportedTypeShape { field: String::from("b") })
    );
}

#[test]
fn enum_schema_keeps_its_variants() {
    let source = choice(
        "Cmd",
        vec![
            VariantSource { ident: String::from("Start"), fields: VariantFields::Unit },
            VariantSource {
                ident: String::from("StopAll"),
                fields: VariantFields::Named(vec![field("force", simple("bool"), vec![])]),
            },
            VariantSource {
                ident: String::from("Run"),
                fields: VariantFields::Unnamed(vec![field("0", simple("String"), vec![])]),
            },
        ],
    );
    let registry = Registry::register(&vec![source]).unwrap();
    let index = registry.index_of("Cmd").unwrap();
    let partial = registry.partial(index);
    assert_eq!(partial.name, "ConfigOptCmd");
    assert_eq!(partial.full_name, "Cmd");
    match &partial.body {
        PartialBody::Enum(variants) => {
            assert_eq!(variants.len(), 3);
            assert_eq!(variants[0].descriptor.full_ident(), "Cmd::Start");
            assert_eq!(variants[0].descriptor.field_type(), FieldType::Unit);
            assert!(variants[0].fields.is_empty());
            assert_eq!(variants[1].descriptor.full_configopt_ident(), "ConfigOptCmd::StopAll");
            assert_eq!(variants[1].descriptor.structopt_name(), "stop-all");
            assert_eq!(idents(&variants[1].fields), vec!["force"]);
            assert_eq!(variants[2].descriptor.field_type(), FieldType::Unnamed);
            assert_eq!(idents(&variants[2].fields), vec!["0"]);
        }
        PartialBody::Struct(_) => panic!("Cmd is an enum"),
    }
}

#[test]
fn failing_variant_field_is_reported() {
    let source = choice(
        "Cmd",
        vec![VariantSource {
            ident: String::from("Run"),
            fields: VariantFields::Named(vec![field("target", TypeRef::Other, vec![])]),
        }],
    );
    assert_eq!(
        Registry::register(&vec![source]).err(),
        Some(SchemaError::UnsupportedTypeShape { field: String::from("target") })
    );
}

#[test]
fn lookup_goes_both_ways() {
    let registry = Registry::register(&vec![server(), record("Db", vec![])]).unwrap();
    assert_eq!(registry.len(), 2);
    assert_eq!(registry.index_of("Db"), Some(1));
    assert_eq!(registry.index_of("ConfigOptDb"), None);
    assert_eq!(registry.partial_of("Server"), Some(&String::from("ConfigOptServer")));
    assert_eq!(registry.full_of("ConfigOptServer"), Some(&String::from("Server")));
    assert_eq!(registry.partial_of("Missing"), None);
    assert_eq!(registry.full_of("Server"), None);
    assert_eq!(registry.schema(1).name, "Db");
    assert_eq!(registry.partial(1).name, "ConfigOptDb");
}

#[test]
fn first_registration_of_a_name_is_found() {
    let registry = Registry::register(&vec![
        record("S", vec![field("a", simple("u8"), vec![])]),
        record("S", vec![field("b", simple("u8"), vec![])]),
    ])
    .unwrap();
    assert_eq!(registry.index_of("S"), Some(0));
    assert_eq!(struct_fields(&registry, "S"), vec!["a"]);
}

#[test]
fn empty_registry_holds_nothing() {
    let registry = Registry::register(&vec![]).unwrap();
    assert_eq!(registry.len(), 0);
    assert_eq!(registry.index_of("S"), None);
}

#[test]
fn leaf_knows_its_registered_partial_type() {
    let registry = Registry::register(&vec![
        record(
            "Outer",
            vec![
                field("inner", option_of(simple("Inner")), vec![]),
                field("count", simple("u8"), vec![]),
            ],
        ),
        record("Inner", vec![field("x", simple("u8"), vec![])]),
    ])
    .unwrap();
    let index = registry.index_of("Outer").unwrap();
    match &registry.partial(index).body {
        PartialBody::Struct(fields) => {
            assert_eq!(fields.len(), 2);
            assert_eq!(fields[0].partial_ty, Some(String::from("ConfigOptInner")));
            assert_eq!(fields[0].choice, None);
            assert_eq!(fields[1].partial_ty, None);
        }
        PartialBody::Enum(_) => panic!("Outer is a struct"),
    }
}

#[test]
fn partial_fields_are_optional() {
    let registry = Registry::register(&vec![
        record(
            "Outer",
            vec![
                field("inner", option_of(simple("Inner")), vec![]),
                field("count", option_of(simple("u8")), vec![]),
                field("name", simple("String"), vec![]),
                field("direct", simple("Inner"), vec![]),
                field("many", vec_of(simple("Inner")), vec![]),
            ],
        ),
        record("Inner", vec![]),
    ])
    .unwrap();
    let index = registry.index_of("Outer").unwrap();
    match &registry.partial(index).body {
        PartialBody::Struct(fields) => {
            assert_eq!(fields[0].optional_ty(), option_of(option_of(simple("ConfigOptInner"))));
            assert_eq!(fields[1].optional_ty(), option_of(option_of(simple("u8"))));
            assert_eq!(fields[2].optional_ty(), option_of(simple("String")));
            assert_eq!(fields[3].optional_ty(), option_of(simple("ConfigOptInner")));
            assert_eq!(fields[4].optional_ty(), option_of(vec_of(simple("ConfigOptInner"))));
        }
        PartialBody::Enum(_) => panic!("Outer is a struct"),
    }
}

#[test]
fn flattened_fields_are_inlined_in_order() {
    let registry = Registry::register(&vec![
        record(
            "App",
            vec![
                field("verbose", simple("bool"), vec![]),
                flattened("server", "Server"),
                field("name", simple("String"), vec![]),
            ],
        ),
        server(),
    ])
    .unwrap();
    assert_eq!(struct_fields(&registry, "App"), vec!["verbose", "host", "port", "name"]);
    assert_eq!(struct_fields(&registry, "Server"), vec!["host", "port"]);
}

#[test]
fn flattening_is_transitive() {
    let registry = Registry::register(&vec![
        record("A", vec![field("a", simple("u8"), vec![]), flattened("b", "B")]),
        record("B", vec![flattened("c", "C"), field("b", simple("u8"), vec![])]),
        record("C", vec![field("c", simple("u8"), vec![])]),
    ])
    .unwrap();
    assert_eq!(struct_fields(&registry, "A"), vec!["a", "c", "b"]);
    assert_eq!(struct_fields(&registry, "B"), vec!["c", "b"]);
}

#[test]
fn one_flatten_flag_is_enough() {
    let registry = Registry::register(&vec![
        record(
            "A",
            vec![field("s", simple("Server"), vec![flag(Namespace::Serialization, "flatten")])],
        ),
        record("B", vec![field("s", simple("Server"), vec![flag(Namespace::Cli, "flatten")])]),
        server(),
    ])
    .unwrap();
    assert_eq!(struct_fields(&registry, "A"), vec!["host", "port"]);
    assert_eq!(struct_fields(&registry, "B"), vec!["host", "port"]);
}

#[test]
fn flatten_of_an_unregistered_type_stays_a_leaf() {
    let registry = Registry::register(&vec![record("A", vec![flattened("other", "Elsewhere")])])
        .unwrap();
    assert_eq!(struct_fields(&registry, "A"), vec!["other"]);
}

#[test]
fn flatten_of_an_enum_stays_a_leaf() {
    let registry = Registry::register(&vec![
        record("A", vec![flattened("cmd", "Cmd")]),
        choice("Cmd", vec![]),
    ])
    .unwrap();
    assert_eq!(struct_fields(&registry, "A"), vec!["cmd"]);
}

#[test]
fn colliding_names_are_refused() {
    let sources = vec![
        record("App", vec![field("host", simple("String"), vec![]), flattened("server", "Server")]),
        server(),
    ];
    assert_eq!(
        Registry::register(&sources).err(),
        Some(SchemaError::FieldCollision {
            first: String::from("host"),
            second: String::from("server.host"),
        })
    );
}

#[test]
fn collision_names_the_whole_path() {
    let sources = vec![
        record("Top", vec![flattened("a", "A"), flattened("other", "A2")]),
        record("A", vec![flattened("b", "B")]),
        record("B", vec![field("x", simple("u8"), vec![])]),
        record("A2", vec![field("x", simple("u8"), vec![])]),
    ];
    assert_eq!(
        Registry::register(&sources).err(),
        Some(SchemaError::FieldCollision {
            first: String::from("a.b.x"),
            second: String::from("other.x"),
        })
    );
}

#[test]
fn same_identifier_with_different_names_is_refused() {
    let sources = vec![
        record(
            "App",
            vec![
                field(
                    "host",
                    simple("String"),
                    vec![
                        valued(Namespace::Cli, "name", "app-host"),
                        valued(Namespace::Serialization, "rename", "app_host"),
                    ],
                ),
                flattened("server", "Server"),
            ],
        ),
        server(),
    ];
    assert_eq!(
        Registry::register(&sources).err(),
        Some(SchemaError::FieldCollision {
            first: String::from("host"),
            second: String::from("server.host"),
        })
    );
}

#[test]
fn inlined_fields_carry_their_path() {
    let registry = Registry::register(&vec![
        record("A", vec![field("a", simple("u8"), vec![]), flattened("b", "B")]),
        record("B", vec![flattened("c", "C"), field("b", simple("u8"), vec![])]),
        record("C", vec![field("c", simple("u8"), vec![])]),
    ])
    .unwrap();
    let paths = |name: &str| -> Vec<String> {
        match &registry.partial(registry.index_of(name).unwrap()).body {
            PartialBody::Struct(fields) => fields.iter().map(|f| f.path.clone()).collect(),
            PartialBody::Enum(_) => panic!("{} is an enum", name),
        }
    };
    assert_eq!(paths("A"), vec!["a", "b.c.c", "b.b"]);
    assert_eq!(paths("B"), vec!["c.c", "b"]);
    assert_eq!(paths("C"), vec!["c"]);
}

#[test]
fn partial_type_comes_from_the_registry() {
    let registry = Registry::register(&vec![
        record(
            "App",
            vec![
                field("server", simple("Server"), vec![]),
                field("port", simple("u16"), vec![]),
                field("cmd", option_of(simple("Cmd")), vec![]),
            ],
        ),
        server(),
    ])
    .unwrap();
    let fields = match &registry.schema(0).kind {
        SchemaKind::Struct(fields) => fields,
        SchemaKind::Enum(_) => panic!("App is a struct"),
    };
    assert_eq!(registry.partial_ty_of(&fields[0]), Some(&String::from("ConfigOptServer")));
    assert_eq!(registry.partial_ty_of(&fields[1]), None);
    assert_eq!(registry.partial_ty_of(&fields[2]), None);
    assert_eq!(fields[0].configopt_inner_ty(&registry), Some(&String::from("ConfigOptServer")));
    assert_eq!(fields[1].configopt_inner_ty(&registry), None);
    assert_eq!(fields[2].configopt_inner_ty(&registry), None);
    let empty = Registry::register(&vec![]).unwrap();
    assert_eq!(fields[0].configopt_inner_ty(&empty), None);
}

#[test]
fn collision_of_serialized_names_is_refused() {
    let sources = vec![record(
        "S",
        vec![
            field("a", simple("u8"), vec![]),
            field("b", simple("u8"), vec![]),
            field("c", simple("u8"), vec![valued(Namespace::Serialization, "rename", "a")]),
        ],
    )];
    assert_eq!(
        Registry::register(&sources).err(),
        Some(SchemaError::FieldCollision { first: String::from("a"), second: String::from("c") })
    );
}

#[test]
fn collision_of_command_line_names_is_refused() {
    let sources = vec![record(
        "S",
        vec![
            field("listen_port", simple("u8"), vec![]),
            field("port", simple("u8"), vec![valued(Namespace::Cli, "name", "listen-port")]),
        ],
    )];
    assert_eq!(
        Registry::register(&sources).err(),
        Some(SchemaError::FieldCollision {
            first: String::from("listen_port"),
            second: String::from("port"),
        })
    );
}

#[test]
fn earliest_collision_is_reported() {
    let sources = vec![record(
        "S",
        vec![
            field("a", simple("u8"), vec![]),
            field("b", simple("u8"), vec![]),
            field("x", simple("u8"), vec![valued(Namespace::Cli, "name", "b")]),
            field("y", simple("u8"), vec![valued(Namespace::Cli, "name", "a")]),
        ],
    )];
    assert_eq!(
        Registry::register(&sources).err(),
        Some(SchemaError::FieldCollision { first: String::from("b"), second: String::from("x") })
    );
}

#[test]
fn collision_inside_a_variant_is_refused() {
    let sources = vec![choice(
        "Cmd",
        vec![VariantSource {
            ident: String::from("Run"),
            fields: VariantFields::Named(vec![
                field("a", simple("u8"), vec![]),
                field("b", simple("u8"), vec![valued(Namespace::Cli, "name", "a")]),
            ]),
        }],
    )];
    assert_eq!(
        Registry::register(&sources).err(),
        Some(SchemaError::FieldCollision { first: String::from("a"), second: String::from("b") })
    );
}

#[test]
fn same_name_in_different_variants_is_accepted() {
    let sources = vec![choice(
        "Cmd",
        vec![
            VariantSource {
                ident: String::from("Run"),
                fields: VariantFields::Named(vec![field("a", simple("u8"), vec![])]),
            },
            VariantSource {
                ident: String::from("Stop"),
                fields: VariantFields::Named(vec![field("a", simple("u8"), vec![])]),
            },
        ],
    )];
    assert!(Registry::register(&sources).is_ok());
}

#[test]
fn self_flatten_is_a_cycle() {
    let sources = vec![record("A", vec![flattened("again", "A")])];
    assert_eq!(
        Registry::register(&sources).err(),
        Some(SchemaError::CyclicFlatten { schema: String::from("A") })
    );
}

#[test]
fn mutual_flatten_is_a_cycle() {
    let sources = vec![
        record("A", vec![flattened("b", "B")]),
        record("B", vec![flattened("a", "A")]),
    ];
    assert_eq!(
        Registry::register(&sources).err(),
        Some(SchemaError::CyclicFlatten { schema: String::from("A") })
    );
}

#[test]
fn longer_cycle_is_found_from_outside() {
    let sources = vec![
        record("Top", vec![flattened("a", "A")]),
        record("A", vec![flattened("b", "B")]),
        record("B", vec![flattened("c", "C")]),
        record("C", vec![flattened("a", "A")]),
    ];
    assert_eq!(
        Registry::register(&sources).err(),
        Some(SchemaError::CyclicFlatten { schema: String::from("A") })
    );
}

#[test]
fn shared_flatten_target_is_no_cycle() {
    let registry = Registry::register(&vec![
        record("Top", vec![flattened("l", "Left"), flattened("r", "Right")]),
        record("Left", vec![field("l", simple("u8"), vec![])]),
        record("Right", vec![field("r", simple("u8"), vec![])]),
    ])
    .unwrap();
    assert_eq!(struct_fields(&registry, "Top"), vec!["l", "r"]);
}

#[test]
fn cycle_is_reported_before_collision() {
    let sources = vec![record(
        "A",
        vec![
            field("x", simple("u8"), vec![]),
            field("y", simple("u8"), vec![valued(Namespace::Cli, "name", "x")]),
            flattened("again", "A"),
        ],
    )];
    assert_eq!(
        Registry::register(&sources).err(),
        Some(SchemaError::CyclicFlatten { schema: String::from("A") })
    );
}

#[test]
fn descriptor_failure_is_reported_before_derivation_failure() {
    let sources = vec![
        record("A", vec![flattened("again", "A")]),
        record("B", vec![field("bad", TypeRef::Other, vec![])]),
    ];
    assert_eq!(
        Registry::register(&sources).err(),
        Some(SchemaError::UnsupportedTypeShape { field: String::from("bad") })
    );
}

#[test]
fn subcommand_field_chooses_from_its_enum() {
    let registry = Registry::register(&vec![
        record(
            "App",
            vec![field("cmd", option_of(simple("Cmd")), vec![flag(Namespace::Cli, "subcommand")])],
        ),
        choice("Cmd", vec![]),
    ])
    .unwrap();
    let index = registry.index_of("App").unwrap();
    match &registry.partial(index).body {
        PartialBody::Struct(fields) => {
            assert_eq!(fields[0].choice, Some(1));
            assert_eq!(fields[0].partial_ty, Some(String::from("ConfigOptCmd")));
        }
        PartialBody::Enum(_) => panic!("App is a struct"),
    }
}

#[test]
fn subcommand_of_a_struct_is_a_leaf() {
    let registry = Registry::register(&vec![
        record("App", vec![field("s", simple("Server"), vec![flag(Namespace::Cli, "subcommand")])]),
        server(),
    ])
    .unwrap();
    let index = registry.index_of("App").unwrap();
    match &registry.partial(index).body {
        PartialBody::Struct(fields) => assert_eq!(fields[0].choice, None),
        PartialBody::Enum(_) => panic!("App is a struct"),
    }
}

#[test]
fn recursive_subcommands_are_accepted() {
    let sources = vec![
        record(
            "Args",
            vec![field("cmd", option_of(simple("Cmd")), vec![flag(Namespace::Cli, "subcommand")])],
        ),
        choice(
            "Cmd",
            vec![VariantSource {
                ident: String::from("Nested"),
                fields: VariantFields::Unnamed(vec![flattened("0", "Args")]),
            }],
        ),
    ];
    assert!(Registry::register(&sources).is_ok());
}
