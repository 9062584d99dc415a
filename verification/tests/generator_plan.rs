use cedar_agents::description::{
    Parameters, Property, PropertyType, PropertyTypeDef, ServerDescription, ToolDescription,
};
use cedar_agents::generator::dedup::{DeduplicatedEntityType, EntityTypeFingerprint};
use cedar_agents::generator::err::SchemaGeneratorError;
use cedar_agents::generator::names::{flatten_id, flatten_name, qualified_name, unqualify_name};
use cedar_agents::generator::plan::{
    collect_server_fingerprints, dedup_candidates, dedup_namespace, fingerprint_matches_entity,
    placed_candidates, plan_placements, qualify, tool_namespace, type_matches_primitive,
    AttrType, ExistingEntity, Occupant, Placement,
};
use cedar_agents::generator::stub::{
    keeps_annotation, read_stub, DeclKind, StubDecl, StubNamespace, StubSummary,
};

fn path(p: &[&str]) -> Vec<String> {
    p.iter().map(|s| s.to_string()).collect()
}

fn ns(p: &[&str]) -> Option<Vec<String>> {
    Some(path(p))
}

#[test]
fn names_are_qualified_and_unqualified() {
    assert_eq!(qualified_name(&ns(&["A", "B"]), "T"), path(&["A", "B", "T"]));
    assert_eq!(qualified_name(&None, "T"), path(&["T"]));
    assert_eq!(unqualify_name(&ns(&["A", "B"]), &path(&["A", "B", "T"])), path(&["T"]));
    assert_eq!(
        unqualify_name(&ns(&["A"]), &path(&["A", "B", "T"])),
        path(&["A", "B", "T"])
    );
    assert_eq!(unqualify_name(&None, &path(&["A", "T"])), path(&["A", "T"]));
    assert_eq!(unqualify_name(&ns(&["A"]), &path(&["T"])), path(&["T"]));
}

#[test]
fn flattening_joins_nested_namespaces() {
    let root = ns(&["Srv"]);
    let name = path(&["Srv", "tool", "Input", "Opts"]);
    assert_eq!(flatten_name(&root, false, &name), name);
    assert_eq!(
        flatten_name(&root, true, &name),
        path(&["Srv", "tool_Input_Opts"])
    );
    assert_eq!(flatten_name(&None, true, &path(&["a", "b"])), path(&["a_b"]));
    assert_eq!(
        flatten_id(&root, true, "level", &ns(&["Srv", "tool", "Input"])),
        "tool_Input_level"
    );
    assert_eq!(flatten_id(&root, false, "level", &ns(&["Srv", "tool"])), "level");
}

#[test]
fn tool_names_are_read_in_the_stub_namespace() {
    assert_eq!(tool_namespace("search", &ns(&["Srv"])).unwrap(), path(&["Srv", "search"]));
    assert_eq!(
        tool_namespace("Other::search", &ns(&["Srv"])).unwrap(),
        path(&["Other", "search"])
    );
    assert!(matches!(
        tool_namespace("not a name", &ns(&["Srv"])),
        Err(SchemaGeneratorError::ReservedName(_))
    ));
    assert_eq!(qualify(path(&["x"]), &None), path(&["x"]));
}

fn decl(name: &str, annotations: &[(&str, Option<&str>)]) -> StubDecl {
    StubDecl {
        name: name.to_string(),
        annotations: annotations
            .iter()
            .map(|(k, v)| (k.to_string(), v.map(|v| v.to_string())))
            .collect(),
    }
}

fn stub_ns(entity_types: Vec<StubDecl>, common_types: Vec<StubDecl>, actions: Vec<StubDecl>) -> StubNamespace {
    StubNamespace {
        entity_types,
        common_types,
        actions,
        entity_shapes: Vec::new(),
    }
}

#[test]
fn stub_reading_finds_the_marked_declarations() {
    let stub = StubSummary {
        namespaces: vec![(
            ns(&["Srv"]),
            stub_ns(
                vec![
                    decl("Agent", &[("mcp_principal", None)]),
                    decl("Doc", &[("doc", Some("x")), ("mcp_resource", None)]),
                    decl("Session", &[("mcp_context", Some("session"))]),
                    decl("User", &[("mcp_principal", Some("User"))]),
                ],
                vec![decl("Env", &[("mcp_context", Some("env"))])],
                vec![decl("call", &[("mcp_action", None)]), decl("other", &[])],
            ),
        )],
    };
    let setup = read_stub(&stub).unwrap();
    assert_eq!(setup.namespace, path(&["Srv"]));
    assert_eq!(setup.users, path(&["Agent", "User"]));
    assert_eq!(setup.resources, path(&["Doc"]));
    assert_eq!(setup.contexts.len(), 2);
    assert_eq!(setup.contexts.get("env").map(|s| s.as_str()), Some("Env"));
    assert_eq!(setup.contexts.get("session").map(|s| s.as_str()), Some("Session"));
    assert_eq!(setup.actions, Some(path(&["call"])));
}

#[test]
fn stub_reading_errors() {
    let empty = StubSummary { namespaces: vec![] };
    assert!(matches!(
        read_stub(&empty),
        Err(SchemaGeneratorError::WrongNumberOfNamespaces)
    ));
    let global = StubSummary {
        namespaces: vec![
            (None, stub_ns(vec![], vec![], vec![])),
            (ns(&["A"]), stub_ns(vec![], vec![], vec![])),
        ],
    };
    assert!(matches!(
        read_stub(&global),
        Err(SchemaGeneratorError::GlobalNamespaceUsed)
    ));
    let two = StubSummary {
        namespaces: vec![
            (ns(&["A"]), stub_ns(vec![], vec![], vec![])),
            (ns(&["B"]), stub_ns(vec![], vec![], vec![])),
        ],
    };
    assert!(matches!(
        read_stub(&two),
        Err(SchemaGeneratorError::WrongNumberOfNamespaces)
    ));
    let no_principal = StubSummary {
        namespaces: vec![(
            ns(&["A"]),
            stub_ns(vec![decl("Doc", &[("mcp_resource", None)])], vec![], vec![]),
        )],
    };
    assert!(matches!(
        read_stub(&no_principal),
        Err(SchemaGeneratorError::NoPrincipalTypes)
    ));
    let no_resource = StubSummary {
        namespaces: vec![(
            ns(&["A"]),
            stub_ns(vec![decl("User", &[("mcp_principal", None)])], vec![], vec![]),
        )],
    };
    assert!(matches!(
        read_stub(&no_resource),
        Err(SchemaGeneratorError::NoResourceTypes)
    ));
}

#[test]
fn stub_without_marked_actions_has_no_parents() {
    let stub = StubSummary {
        namespaces: vec![(
            ns(&["A"]),
            stub_ns(
                vec![decl("U", &[("mcp_principal", None), ("mcp_resource", None)])],
                vec![],
                vec![decl("act", &[])],
            ),
        )],
    };
    let setup = read_stub(&stub).unwrap();
    assert_eq!(setup.users, path(&["U"]));
    assert_eq!(setup.resources, path(&["U"]));
    assert!(setup.actions.is_none());
    assert!(setup.contexts.is_empty());
}

#[test]
fn erasing_keeps_only_foreign_annotations() {
    assert!(!keeps_annotation(DeclKind::EntityType, "mcp_principal"));
    assert!(!keeps_annotation(DeclKind::EntityType, "mcp_resource"));
    assert!(!keeps_annotation(DeclKind::EntityType, "mcp_context"));
    assert!(keeps_annotation(DeclKind::EntityType, "mcp_action"));
    assert!(keeps_annotation(DeclKind::EntityType, "doc"));
    assert!(!keeps_annotation(DeclKind::CommonType, "mcp_context"));
    assert!(keeps_annotation(DeclKind::CommonType, "mcp_principal"));
    assert!(!keeps_annotation(DeclKind::Action, "mcp_action"));
    assert!(keeps_annotation(DeclKind::Action, "mcp_context"));
}

fn prop(name: &str, ty: PropertyType) -> Property {
    Property::new(name.to_string(), true, ty, None)
}

fn enum_type(variants: &[&str]) -> PropertyType {
    PropertyType::Enum {
        variants: variants.iter().map(|s| s.to_string()).collect(),
    }
}

fn tool(name: &str, inputs: Vec<Property>, outputs: Vec<Property>, defs: Vec<PropertyTypeDef>) -> ToolDescription {
    ToolDescription::new(
        name.to_string(),
        Parameters::new(inputs, vec![]),
        Parameters::new(outputs, vec![]),
        defs,
        None,
    )
}

#[test]
fn server_fingerprints_cover_inputs_outputs_and_definitions() {
    let colour = || enum_type(&["red", "blue"]);
    let server = ServerDescription::new(
        vec![
            tool(
                "paint",
                vec![prop("colour", colour())],
                vec![prop("shade", enum_type(&["dark"]))],
                vec![PropertyTypeDef::new("palette".to_string(), enum_type(&["warm"]), None)],
            ),
            tool(
                "draw",
                vec![prop("colour", colour())],
                vec![prop("shade", enum_type(&["dark"]))],
                vec![PropertyTypeDef::new("palette".to_string(), enum_type(&["warm"]), None)],
            ),
        ],
        vec![],
    );
    let root = ns(&["Srv"]);
    let without_outputs = collect_server_fingerprints(&server, &root, false)
        .unwrap()
        .resolve_duplicates();
    let names: Vec<String> = without_outputs
        .iter()
        .map(|(fp, _)| fp.base_name().clone())
        .collect();
    assert_eq!(names, path(&["colour", "palette"]));
    assert_eq!(
        without_outputs[0].1.source_namespaces,
        vec![ns(&["Srv", "paint", "Input"]), ns(&["Srv", "draw", "Input"])]
    );
    assert_eq!(
        without_outputs[1].1.source_namespaces,
        vec![ns(&["Srv", "paint"]), ns(&["Srv", "draw"])]
    );
    assert_eq!(without_outputs[1].1.lca_namespace, ns(&["Srv"]));
    let with_outputs = collect_server_fingerprints(&server, &root, true)
        .unwrap()
        .resolve_duplicates();
    let names: Vec<String> = with_outputs
        .iter()
        .map(|(fp, _)| fp.base_name().clone())
        .collect();
    assert_eq!(names, path(&["colour", "shade", "palette"]));
}

#[test]
fn server_fingerprints_fail_on_a_bad_tool_name() {
    let server = ServerDescription::new(vec![tool("bad name", vec![], vec![], vec![])], vec![]);
    assert!(matches!(
        collect_server_fingerprints(&server, &ns(&["Srv"]), false),
        Err(SchemaGeneratorError::ReservedName(_))
    ));
}

fn enum_fp(name: &str, variants: &[&str]) -> EntityTypeFingerprint {
    EntityTypeFingerprint::Enum {
        base_name: name.to_string(),
        variants: path(variants),
    }
}

fn leaf_fp(name: &str, fields: Vec<(&str, PropertyType, bool)>) -> EntityTypeFingerprint {
    EntityTypeFingerprint::LeafRecord {
        base_name: name.to_string(),
        fields: fields
            .into_iter()
            .map(|(n, t, r)| (n.to_string(), t, r))
            .collect(),
    }
}

fn resolved(fp: EntityTypeFingerprint, lca: Option<Vec<String>>) -> (EntityTypeFingerprint, DeduplicatedEntityType) {
    (
        fp,
        DeduplicatedEntityType {
            lca_namespace: lca,
            source_namespaces: vec![],
        },
    )
}

#[test]
fn attribute_types_match_primitives() {
    let eoc = |n: &str| AttrType::EntityOrCommon(path(&[n]));
    let ent = |n: &str| AttrType::Entity(path(&[n]));
    assert!(type_matches_primitive(&eoc("Bool"), &PropertyType::Bool));
    assert!(type_matches_primitive(&eoc("Long"), &PropertyType::Integer));
    assert!(type_matches_primitive(&eoc("String"), &PropertyType::String));
    assert!(type_matches_primitive(&eoc("decimal"), &PropertyType::Decimal));
    assert!(type_matches_primitive(&eoc("datetime"), &PropertyType::Datetime));
    assert!(type_matches_primitive(&eoc("duration"), &PropertyType::Duration));
    assert!(type_matches_primitive(&eoc("ipaddr"), &PropertyType::IpAddr));
    assert!(type_matches_primitive(&ent("Float"), &PropertyType::Float));
    assert!(type_matches_primitive(&ent("Number"), &PropertyType::Number));
    assert!(type_matches_primitive(&ent("Null"), &PropertyType::Null));
    assert!(type_matches_primitive(&ent("Unknown"), &PropertyType::Unknown));
    assert!(!type_matches_primitive(&eoc("Long"), &PropertyType::String));
    assert!(!type_matches_primitive(&ent("Long"), &PropertyType::Integer));
    assert!(!type_matches_primitive(
        &AttrType::Entity(path(&["Srv", "Float"])),
        &PropertyType::Float
    ));
    assert!(!type_matches_primitive(&AttrType::Other, &PropertyType::Bool));
}

#[test]
fn fingerprints_match_existing_entities() {
    let colour = enum_fp("colour", &["red", "blue"]);
    assert!(fingerprint_matches_entity(
        &colour,
        &ExistingEntity::Enum(path(&["red", "blue"]))
    ));
    assert!(!fingerprint_matches_entity(
        &colour,
        &ExistingEntity::Enum(path(&["blue", "red"]))
    ));
    assert!(!fingerprint_matches_entity(&colour, &ExistingEntity::Other));
    let config = leaf_fp(
        "config",
        vec![("host", PropertyType::String, true), ("port", PropertyType::Integer, false)],
    );
    let record = |port_required: bool| {
        ExistingEntity::Record(vec![
            ("host".to_string(), AttrType::EntityOrCommon(path(&["String"])), true),
            ("port".to_string(), AttrType::EntityOrCommon(path(&["Long"])), port_required),
        ])
    };
    assert!(fingerprint_matches_entity(&config, &record(false)));
    assert!(!fingerprint_matches_entity(&config, &record(true)));
    assert!(!fingerprint_matches_entity(
        &config,
        &ExistingEntity::Enum(path(&["host"]))
    ));
}

#[test]
fn placements_skip_clashes_and_reuse_matches() {
    let cands = vec![
        resolved(enum_fp("colour", &["red"]), ns(&["Srv"])),
        resolved(enum_fp("colour", &["blue"]), ns(&["Srv"])),
        resolved(enum_fp("size", &["s"]), ns(&["Srv"])),
        resolved(enum_fp("mode", &["on"]), ns(&["Srv"])),
        resolved(enum_fp("kind", &["a"]), ns(&["Srv"])),
        resolved(enum_fp("colour", &["green"]), ns(&["Srv", "t"])),
    ];
    let occupants = vec![
        Occupant::Free,
        Occupant::Free,
        Occupant::Entity(ExistingEntity::Enum(path(&["s"]))),
        Occupant::CommonType,
        Occupant::Entity(ExistingEntity::Enum(path(&["b"]))),
        Occupant::Free,
    ];
    let plan = plan_placements(&cands, &occupants);
    assert_eq!(
        plan,
        vec![
            Placement::Skip,
            Placement::Skip,
            Placement::Reuse,
            Placement::Skip,
            Placement::Skip,
            Placement::Place
        ]
    );
    let placed = placed_candidates(cands, &plan);
    assert_eq!(placed.len(), 2);
    assert_eq!(placed[0].0.base_name(), "size");
    assert_eq!(placed[1].0.base_name(), "colour");
    assert_eq!(
        dedup_namespace(&placed, &enum_fp("colour", &["green"])),
        Some(&ns(&["Srv", "t"]))
    );
    assert_eq!(dedup_namespace(&placed, &enum_fp("colour", &["red"])), None);
}

#[test]
fn leaf_records_are_not_candidates_when_objects_are_records() {
    let all = || {
        vec![
            resolved(leaf_fp("cfg", vec![("a", PropertyType::Bool, true)]), ns(&["S"])),
            resolved(enum_fp("e", &["x"]), ns(&["S"])),
        ]
    };
    let kept = dedup_candidates(all(), true);
    assert_eq!(kept.len(), 1);
    assert_eq!(kept[0].0.base_name(), "e");
    assert_eq!(dedup_candidates(all(), false).len(), 2);
}
