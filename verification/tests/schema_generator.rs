use cedar_agents::description::{Parameters, Property, PropertyType, ServerDescription, ToolDescription};
use cedar_agents::generator::config::SchemaGeneratorConfig;
use cedar_agents::generator::err::SchemaGeneratorError;
use cedar_agents::generator::model::{CType, EntityDecl, Op};
use cedar_agents::generator::plan::{AttrType, ExistingEntity};
use cedar_agents::generator::schema::SchemaGenerator;
use cedar_agents::generator::schema_state::{EntitySlot, NsDecls, SchemaState};
use cedar_agents::generator::scopes::{find_common_types, get_containing_namespaces};
use cedar_agents::generator::stub::{StubDecl, StubNamespace, StubSummary};

fn path(p: &[&str]) -> Vec<String> {
    p.iter().map(|s| s.to_string()).collect()
}

fn decl(name: &str, annotations: &[(&str, Option<&str>)]) -> StubDecl {
    StubDecl {
        name: name.to_string(),
        annotations: annotations
            .iter()
            .map(|(k, v)| (k.to_string(), v.map(|v| v.to_string())))
            .collect(),
    }
}

fn entity_only(names: &[&str]) -> Vec<(String, ExistingEntity)> {
    names
        .iter()
        .map(|n| (n.to_string(), ExistingEntity::Record(Vec::new())))
        .collect()
}

/// The stub
/// `namespace Test { @mcp_principal("User") entity user;
/// @mcp_resource("McpServer") entity resource; @mcp_context("foo") entity Foo; }`
/// as the generator reads it, with the common types `commons`.
fn stub_with(commons: &[&str]) -> StubSummary {
    StubSummary {
        namespaces: vec![(
            Some(path(&["Test"])),
            StubNamespace {
                entity_types: vec![
                    decl("Foo", &[("mcp_context", Some("foo"))]),
                    decl("resource", &[("mcp_resource", Some("McpServer"))]),
                    decl("user", &[("mcp_principal", Some("User"))]),
                ],
                common_types: commons.iter().map(|c| decl(c, &[])).collect(),
                actions: Vec::new(),
                entity_shapes: entity_only(&["Foo", "resource", "user"]),
            },
        )],
    }
}

fn test_schema_stub() -> StubSummary {
    stub_with(&[])
}

fn namespace<'a>(g: &'a SchemaGenerator, p: &[&str]) -> Option<&'a NsDecls> {
    let want = path(p);
    g.schema
        .namespaces
        .iter()
        .find(|(ns, _)| ns.as_ref() == Some(&want))
        .map(|(_, d)| d)
}

fn common<'a>(d: &'a NsDecls, name: &str) -> Option<&'a CType> {
    match d.commons.get(name) {
        Some(Some(t)) => Some(t),
        _ => None,
    }
}

fn attr<'a>(t: &'a CType, name: &str) -> Option<&'a CType> {
    match t {
        CType::Record(attrs) => attrs.iter().find(|(n, _, _)| n == name).map(|(_, t, _)| t),
        _ => None,
    }
}

fn shown(g: &SchemaGenerator) -> String {
    format!("{:?}", g.schema)
}

// The description format read here writes an array with `items`, and a
// tuple as a list of types under `type`.

#[test]
fn test_default() {
    let tool = r#"{
    "name": "check_task_status",
    "description": "Check if a task is ready for work",
    "inputSchema": {
        "type": "object",
        "properties": {
            "task_id": {"type": "string"},
            "sub_tasks": { "type": "array", "items": { "type": "string" } }
        },
        "required": ["task_id"]
    },
    "outputSchema": {
        "type": "object",
        "properties": {
            "status": {
                "type": "string",
                "enum": ["started", "paused", "failed", "completed"]
            },
            "priority": {"type": "integer"}
        },
        "required": ["status", "priority"]
    }
}"#;
    let tool = ToolDescription::from_json_str(tool).expect("Failed to parse tool description");
    let mut g = SchemaGenerator::new_with_config(&test_schema_stub(), SchemaGeneratorConfig::default())
        .expect("Failed to create schema generator");
    g.add_action_from_tool_description(&tool).expect("Failed to add tool description");
    assert!(g.schema.namespaces.len() == 1, "Expected only one namespace");
    let root = namespace(&g, &["Test"]).expect("Expected namespace Test to exist");
    assert!(root.actions.contains_key("check_task_status"));
}

#[test]
fn schema_test_outputs() {
    let config = SchemaGeneratorConfig::default().include_outputs(true);
    let tool = r#"{
    "name": "check_task_status",
    "description": "Check if a task is ready for work",
    "inputSchema": {
        "type": "object",
        "properties": {
            "task_id": {"type": "string"}
        },
        "required": ["task_id"]
    },
    "outputSchema": {
        "type": "object",
        "properties": {
            "status": {
                "type": "string",
                "enum": ["started", "paused", "failed", "completed"]
            },
            "priority": {"type": "integer"}
        },
        "required": ["status", "priority"]
    }
}"#;
    let tool = ToolDescription::from_json_str(tool).expect("Failed to parse tool description");
    let mut g = SchemaGenerator::new_with_config(&test_schema_stub(), config).expect("Failed to create schema generator");
    g.add_action_from_tool_description(&tool).expect("Failed to add tool description");
    assert!(g.schema.namespaces.len() == 2, "Expected only two namespaces");
    let root = namespace(&g, &["Test"]).expect("Expected namespace Test to exist");
    let output = namespace(&g, &["Test", "check_task_status", "Output"])
        .expect("Expected namespace Test::check_task_status::Output to exist");
    assert!(root.actions.contains_key("check_task_status"));
    assert!(output.actions.is_empty());
    assert!(output.commons.is_empty());
    assert!(output.entities.len() == 1);
    assert!(output.entities.contains_key("status"));
}

#[test]
fn schema_test_objects_as_records() {
    let config = SchemaGeneratorConfig::default().objects_as_records(true);
    let tool = r#"{
    "name": "test_tool",
    "description": "A tool for testing purposes",
    "parameters": {
        "type": "object",
        "properties": {
            "test_dt": {"type": "string", "format": "date-time"},
            "test_obj": {
                "type": "object",
                "properties": {
                    "test1": {"type": "float"},
                    "test2": {"type": "string"}
                }
            },
            "test_obj2": { "type": "object", "additionalProperties": {"type": "string"} }
        },
        "required": ["test_dt"]
    }
}"#;
    let tool = ToolDescription::from_json_str(tool).expect("Failed to parse tool description");
    let mut g = SchemaGenerator::new_with_config(&test_schema_stub(), config).expect("Failed to create schema generator");
    g.add_action_from_tool_description(&tool).expect("Failed to add tool description");
    let root = namespace(&g, &["Test"]).expect("Expected namespace Test to exist");
    let input = namespace(&g, &["Test", "test_tool", "Input"]).expect("Expected namespace Test::test_tool::Input to exist");
    assert!(root.actions.contains_key("test_tool"));
    let input_ty = common(root, "test_toolInput").expect("the input record");
    assert!(matches!(attr(input_ty, "test_obj"), Some(CType::EntityOrCommon(_))));
    assert!(input.actions.is_empty());
    assert!(input.commons.len() == 1);
    assert!(input.commons.contains_key("test_obj"));
    assert!(input.entities.len() == 1);
    assert!(input.entities.contains_key("test_obj2"));
}

#[test]
fn schema_test_dont_erase_annotations() {
    let config = SchemaGeneratorConfig::default().erase_annotations(false);
    let tool = r#"{
    "name": "test_tool",
    "description": "A tool for testing purposes",
    "parameters": {
        "type": "object",
        "properties": {
            "test_dt": {"type": [{"type": "string", "format": "date-time"}, {"type": "string", "format": "date"}]}
        },
        "required": ["test_dt"]
    }
}"#;
    let tool = ToolDescription::from_json_str(tool).expect("Failed to parse tool description");
    let mut g = SchemaGenerator::new_with_config(&test_schema_stub(), config).expect("Failed to create schema generator");
    g.add_action_from_tool_description(&tool).expect("Failed to add tool description");
    assert!(g.schema.namespaces.len() == 1);
    let root = namespace(&g, &["Test"]).expect("Expected namespace Test to exist");
    assert!(root.actions.contains_key("test_tool"));
    assert!(root.commons.len() == 1);
    assert!(root.entities.len() == 3);
    assert!(matches!(root.entities.get("user"), Some(EntitySlot::Stub(_))));
    assert!(matches!(root.entities.get("resource"), Some(EntitySlot::Stub(_))));
    assert!(matches!(root.entities.get("Foo"), Some(EntitySlot::Stub(_))));
}

#[test]
fn test_encode_numbers_as_decimals() {
    let config = SchemaGeneratorConfig::default().encode_numbers_as_decimal(true);
    let tool = r#"{
    "name": "test_tool",
    "description": "A tool for testing purposes",
    "parameters": {
        "type": "object",
        "properties": {
            "test_number": {"type": "number"},
            "test_float": {"type": "float"}
        },
        "required": ["test_number"]
    }
}"#;
    let tool = ToolDescription::from_json_str(tool).expect("Failed to parse tool description");
    let mut g = SchemaGenerator::new_with_config(&test_schema_stub(), config).expect("Failed to create schema generator");
    g.add_action_from_tool_description(&tool).expect("Failed to add tool description");
    assert!(g.schema.namespaces.len() == 1);
    let root = namespace(&g, &["Test"]).expect("Expected namespace Test to exist");
    assert!(root.actions.contains_key("test_tool"));
    assert!(root.commons.len() == 1);
    assert!(root.entities.len() == 3);
    let input_ty = common(root, "test_toolInput").expect("the input record");
    let decimal = path(&["decimal"]);
    assert!(matches!(attr(input_ty, "test_number"), Some(CType::EntityOrCommon(n)) if *n == decimal));
    assert!(matches!(attr(input_ty, "test_float"), Some(CType::EntityOrCommon(n)) if *n == decimal));
}

#[test]
fn test_global_namespace_used_error() {
    let mut stub = test_schema_stub();
    stub.namespaces[0].0 = None;
    assert!(matches!(
        SchemaGenerator::new_with_config(&stub, SchemaGeneratorConfig::default()),
        Err(SchemaGeneratorError::GlobalNamespaceUsed)
    ));
}

#[test]
fn test_multiple_namespaces_used_error() {
    let empty = StubNamespace {
        entity_types: Vec::new(),
        common_types: Vec::new(),
        actions: Vec::new(),
        entity_shapes: Vec::new(),
    };
    let stub = StubSummary {
        namespaces: vec![(Some(path(&["Test"])), empty.clone()), (Some(path(&["Test2"])), empty)],
    };
    assert!(matches!(
        SchemaGenerator::new_with_config(&stub, SchemaGeneratorConfig::default()),
        Err(SchemaGeneratorError::WrongNumberOfNamespaces)
    ));
}

#[test]
fn test_no_namespaces_error() {
    let stub = StubSummary { namespaces: Vec::new() };
    assert!(matches!(
        SchemaGenerator::new_with_config(&stub, SchemaGeneratorConfig::default()),
        Err(SchemaGeneratorError::WrongNumberOfNamespaces)
    ));
}

#[test]
fn test_no_principal_declared_error() {
    let mut stub = test_schema_stub();
    stub.namespaces[0].1.entity_types[2] = decl("user", &[]);
    assert!(matches!(
        SchemaGenerator::new_with_config(&stub, SchemaGeneratorConfig::default()),
        Err(SchemaGeneratorError::NoPrincipalTypes)
    ));
}

#[test]
fn test_no_resource_declared_error() {
    let mut stub = test_schema_stub();
    stub.namespaces[0].1.entity_types[1] = decl("resource", &[]);
    assert!(matches!(
        SchemaGenerator::new_with_config(&stub, SchemaGeneratorConfig::default()),
        Err(SchemaGeneratorError::NoResourceTypes)
    ));
}

const CONFLICTING_TOOL: &str = r#"{
    "name": "test_tool",
    "description": "A tool for testing purposes",
    "parameters": {
        "type": "object",
        "properties": {
            "test_dt": {"type": "string", "format": "date-time"},
            "test_obj": {
                "type": "object",
                "properties": {
                    "test1": {"type": "float"},
                    "test2": {"type": "string"}
                }
            },
            "test_obj2": { "type": "object", "additionalProperties": {"type": "string"} }
        },
        "required": ["test_dt"]
    }
}"#;

#[test]
fn test_adding_tool_action_errors() {
    let stub = stub_with(&["test_toolInput"]);
    let tool = ToolDescription::from_json_str(CONFLICTING_TOOL).expect("Failed to parse tool description");
    let config = SchemaGeneratorConfig::default().erase_annotations(false);
    let mut g = SchemaGenerator::new_with_config(&stub, config).expect("Failed to create schema generator");
    let before = shown(&g);
    assert!(matches!(
        g.add_action_from_tool_description(&tool),
        Err(SchemaGeneratorError::ConflictingSchemaNameError(..))
    ));
    assert_eq!(before, shown(&g));
}

#[test]
fn test_adding_server_actions_errors() {
    let stub = stub_with(&["test_toolInput"]);
    let server = ServerDescription::from_json_str(CONFLICTING_TOOL).expect("Failed to parse tool description");
    let config = SchemaGeneratorConfig::default().erase_annotations(false);
    let mut g = SchemaGenerator::new_with_config(&stub, config).expect("Failed to create schema generator");
    let before = shown(&g);
    assert!(matches!(
        g.add_actions_from_server_description(&server),
        Err(SchemaGeneratorError::ConflictingSchemaNameError(..))
    ));
    assert_eq!(before, shown(&g));
}

#[test]
fn test_undefined_ref_error() {
    let tool = r##"{
    "name": "test_tool",
    "description": "a test tool",
    "inputSchema": {
        "type": "object",
        "properties": {
            "test_attr": {
                "$ref": "#/$defs/undefined_ref"
            }
        },
        "required": []
    }
}"##;
    let server = ServerDescription::from_json_str(tool).expect("Failed to parse tool description");
    let config = SchemaGeneratorConfig::default().erase_annotations(false);
    let mut g = SchemaGenerator::new_with_config(&test_schema_stub(), config).expect("Failed to create schema generator");
    let before = shown(&g);
    assert!(matches!(
        g.add_actions_from_server_description(&server),
        Err(SchemaGeneratorError::UndefinedReferenceType(..))
    ));
    assert_eq!(before, shown(&g));
}

#[test]
fn test_empty_enum_error() {
    let tool = ToolDescription::new(
        "test_tool".to_string(),
        Parameters::new(
            vec![Property::new(
                "empty_enum".to_string(),
                true,
                PropertyType::Enum { variants: Vec::new() },
                None,
            )],
            Vec::new(),
        ),
        Parameters::new(Vec::new(), Vec::new()),
        Vec::new(),
        None,
    );
    let config = SchemaGeneratorConfig::default().erase_annotations(false);
    let mut g = SchemaGenerator::new_with_config(&test_schema_stub(), config).expect("Failed to create schema generator");
    let before = shown(&g);
    assert!(matches!(
        g.add_action_from_tool_description(&tool),
        Err(SchemaGeneratorError::EmptyEnumChoice(..))
    ));
    assert_eq!(before, shown(&g));
}

fn two_tools(prop: &str, schema: &str) -> String {
    let tool = |name: &str| {
        format!(
            r#"{{"name": "{name}", "description": "Tool", "inputSchema": {{"json": {{"type": "object", "properties": {{"{prop}": {schema}}}, "required": ["{prop}"]}}}}}}"#
        )
    };
    format!(r#"{{"result": {{"tools": [{}, {}]}}}}"#, tool("tool_a"), tool("tool_b"))
}

#[test]
fn test_dedup_leaf_record_schema_generation() {
    let config = SchemaGeneratorConfig::default().deduplicate_entity_types(true);
    let json = two_tools(
        "opts",
        r#"{"type": "object", "properties": {"verbose": { "type": "boolean" }, "limit": { "type": "integer" }}, "required": ["verbose"]}"#,
    );
    let description = ServerDescription::from_json_str(&json).expect("Failed to parse tools JSON");
    let mut g = SchemaGenerator::new_with_config(&test_schema_stub(), config).expect("Failed to create schema generator");
    g.add_actions_from_server_description(&description).expect("Failed to add server description");
    let root = namespace(&g, &["Test"]).expect("Expected namespace Test");
    assert!(root.entities.contains_key("opts"), "Expected deduplicated 'opts' entity type in root namespace");
    let tool_a = namespace(&g, &["Test", "tool_a", "Input"]);
    assert!(
        tool_a.is_none() || !tool_a.unwrap().entities.contains_key("opts"),
        "tool_a::Input should not have local 'opts'"
    );
}

#[test]
fn test_dedup_leaf_record_not_triggered_for_non_leaf() {
    let config = SchemaGeneratorConfig::default().deduplicate_entity_types(true);
    let json = two_tools(
        "nested",
        r#"{"type": "object", "properties": {"inner": {"type": "object", "properties": {"val": { "type": "string" }}}}}"#,
    );
    let description = ServerDescription::from_json_str(&json).expect("Failed to parse tools JSON");
    let mut g = SchemaGenerator::new_with_config(&test_schema_stub(), config).expect("Failed to create schema generator");
    g.add_actions_from_server_description(&description).expect("Failed to add server description");
    let root = namespace(&g, &["Test"]).expect("Expected namespace Test");
    assert!(!root.entities.contains_key("nested"), "Non-leaf 'nested' should not be deduplicated to root namespace");
}

#[test]
fn test_dedup_leaf_record_skipped_with_objects_as_records() {
    let config = SchemaGeneratorConfig::default().deduplicate_entity_types(true).objects_as_records(true);
    let json = two_tools(
        "meta",
        r#"{"type": "object", "properties": {"name": { "type": "string" }}, "required": ["name"]}"#,
    );
    let description = ServerDescription::from_json_str(&json).expect("Failed to parse tools JSON");
    let mut g = SchemaGenerator::new_with_config(&test_schema_stub(), config).expect("Failed to create schema generator");
    g.add_actions_from_server_description(&description).expect("Failed to add server description");
    let root = namespace(&g, &["Test"]).expect("Expected namespace Test");
    assert!(!root.entities.contains_key("meta"));
    let tool_a = namespace(&g, &["Test", "tool_a", "Input"]).expect("Expected tool_a::Input namespace");
    assert!(tool_a.commons.contains_key("meta"), "tool_a::Input should have local 'meta' common type");
}

#[test]
fn test_dedup_enum_inside_union_and_tuple() {
    let config = SchemaGeneratorConfig::default().deduplicate_entity_types(true);
    let tool = |name: &str| {
        format!(
            r#"{{"name": "{name}", "description": "Tool", "inputSchema": {{"json": {{"type": "object", "properties": {{
                "choice": {{"anyOf": [{{ "type": "string", "enum": ["on", "off"] }}, {{ "type": "integer" }}]}},
                "pair": {{"type": [{{ "type": "string", "enum": ["on", "off"] }}, {{ "type": "integer" }}]}}
            }}, "required": ["choice", "pair"]}}}}}}"#
        )
    };
    let json = format!(r#"{{"result": {{"tools": [{}, {}]}}}}"#, tool("tool_a"), tool("tool_b"));
    let description = ServerDescription::from_json_str(&json).expect("Failed to parse tools JSON");
    let mut g = SchemaGenerator::new_with_config(&test_schema_stub(), config).expect("Failed to create schema generator");
    g.add_actions_from_server_description(&description).expect("Failed to add server description");
    let root = namespace(&g, &["Test"]).expect("Expected namespace Test");
    assert!(root.entities.len() > 2, "Expected deduplicated entity types in root namespace");
}

// ---------------------------------------------------------------------------
// The generator's own behaviour.
// ---------------------------------------------------------------------------

#[test]
fn a_second_tool_is_refused() {
    let tool = ToolDescription::from_json_str(CONFLICTING_TOOL).expect("tool");
    let mut g = SchemaGenerator::new_with_config(&test_schema_stub(), SchemaGeneratorConfig::default()).expect("generator");
    g.add_action_from_tool_description(&tool).expect("first tool");
    let before = shown(&g);
    assert!(matches!(
        g.add_action_from_tool_description(&tool),
        Err(SchemaGeneratorError::ServerDescriptionMerge)
    ));
    assert_eq!(before, shown(&g));
}

#[test]
fn the_action_context_holds_the_marked_attributes_and_the_input() {
    let tool = ToolDescription::from_json_str(CONFLICTING_TOOL).expect("tool");
    let mut g = SchemaGenerator::new_with_config(&test_schema_stub(), SchemaGeneratorConfig::default()).expect("generator");
    g.add_action_from_tool_description(&tool).expect("tool");
    let root = namespace(&g, &["Test"]).expect("root");
    let action = match root.actions.get("test_tool") {
        Some(Some(a)) => a,
        _ => panic!("the action is declared"),
    };
    assert_eq!(action.principals, path(&["user"]));
    assert_eq!(action.resources, path(&["resource"]));
    assert!(action.member_of.is_none());
    let names: Vec<&str> = action.context.iter().map(|(n, _, _)| n.as_str()).collect();
    assert_eq!(names, vec!["foo", "input"]);
    assert!(matches!(&action.context[0].1, CType::EntityOrCommon(p) if *p == path(&["Foo"])));
    assert!(matches!(&action.context[1].1, CType::CommonRef(p) if *p == path(&["test_toolInput"])));
    // A float field is an opaque entity type of the stub's namespace.
    assert!(matches!(root.entities.get("Float"), Some(EntitySlot::New(EntityDecl::Opaque))));
}

#[test]
fn steps_declare_and_refuse_names() {
    let mut s = SchemaState { namespaces: Vec::new() };
    let ns = Some(path(&["N"]));
    s.apply(Op::AddNamespace(ns.clone())).expect("add");
    s.apply(Op::AddCommon { ns: ns.clone(), name: "T".to_string(), ty: CType::EntityOrCommon(path(&["Long"])), error_if_exists: true })
        .expect("declare");
    // The same name again, with `error_if_exists`, is a conflict, and changes nothing.
    let before = format!("{:?}", s);
    let r = s.apply(Op::AddCommon { ns: ns.clone(), name: "T".to_string(), ty: CType::EntityOrCommon(path(&["Bool"])), error_if_exists: true });
    assert!(matches!(r, Err(SchemaGeneratorError::ConflictingSchemaNameError(c)) if c.name == "T"));
    assert_eq!(before, format!("{:?}", s));
    // Without it, the first declaration stays.
    s.apply(Op::AddCommon { ns: ns.clone(), name: "T".to_string(), ty: CType::EntityOrCommon(path(&["Bool"])), error_if_exists: false })
        .expect("kept");
    assert!(matches!(s.namespaces[0].1.commons.get("T"), Some(Some(CType::EntityOrCommon(p))) if *p == path(&["Long"])));
    // A namespace that declares something is not dropped; an empty one is.
    s.apply(Op::DropIfEmpty(ns.clone())).expect("drop");
    assert_eq!(s.namespaces.len(), 1);
    let other = Some(path(&["M"]));
    s.apply(Op::AddNamespace(other.clone())).expect("add");
    assert_eq!(s.namespaces.len(), 2);
    s.apply(Op::DropIfEmpty(other)).expect("drop");
    assert_eq!(s.namespaces.len(), 1);
}

#[test]
fn a_run_stops_at_the_first_failing_step() {
    let mut s = SchemaState { namespaces: Vec::new() };
    let ns = Some(path(&["N"]));
    let entity = |name: &str| Op::AddEntity { ns: ns.clone(), name: name.to_string(), decl: EntityDecl::Opaque, error_if_exists: true };
    let r = s.run(vec![entity("A"), entity("A"), entity("B")]);
    assert!(matches!(r, Err(SchemaGeneratorError::ConflictingSchemaNameError(c)) if c.name == "A"));
    assert!(s.namespaces[0].1.entities.contains_key("A"));
    assert!(!s.namespaces[0].1.entities.contains_key("B"));
}

#[test]
fn a_copy_of_the_schema_has_the_same_content() {
    let tool = ToolDescription::from_json_str(CONFLICTING_TOOL).expect("tool");
    let mut g = SchemaGenerator::new_with_config(&test_schema_stub(), SchemaGeneratorConfig::default()).expect("generator");
    g.add_action_from_tool_description(&tool).expect("tool");
    assert_eq!(format!("{:?}", g.schema.copy()), shown(&g));
}

#[test]
fn containing_namespaces_go_outward() {
    let got = get_containing_namespaces(&Some(path(&["A", "B"])));
    assert_eq!(got, vec![Some(path(&["A", "B"])), Some(path(&["A"])), None]);
    assert_eq!(get_containing_namespaces(&None), vec![None]);
}

#[test]
fn common_types_are_found_in_the_innermost_containing_namespace() {
    let mut s = SchemaState { namespaces: Vec::new() };
    let declare = |ns: &[&str]| Op::AddCommon {
        ns: Some(path(ns)),
        name: "T".to_string(),
        ty: CType::EntityOrCommon(path(&["Long"])),
        error_if_exists: true,
    };
    s.apply(declare(&["A"])).expect("declared");
    assert_eq!(find_common_types(&s, "T", &Some(path(&["A", "B"]))).expect("found"), path(&["A", "T"]));
    assert_eq!(find_common_types(&s, "T", &Some(path(&["A"]))).expect("found"), path(&["T"]));
    s.apply(declare(&["A", "B"])).expect("declared");
    assert_eq!(find_common_types(&s, "T", &Some(path(&["A", "B"]))).expect("found"), path(&["T"]));
    let missing = find_common_types(&s, "U", &Some(path(&["A", "B"])));
    assert!(matches!(missing, Err(SchemaGeneratorError::UndefinedReferenceType(u)) if u.name == "U" && u.namespace == "A::B"));
}

const STUB_TEXT: &str = r#"
            namespace TestServer {
                @mcp_principal
                entity User;
                @mcp_resource
                entity McpServer;
                action "call_tool" appliesTo {
                    principal: [User],
                    resource: [McpServer]
                };
            }
        "#;

#[test]
fn test_from_cedarschema_str_basic() {
    let result = cedar_agents::generator::stub_text::parse_schema_stub(STUB_TEXT);
    assert!(result.is_ok(), "Should parse valid cedarschema string");
}

#[test]
fn test_from_cedarschema_str_invalid_input() {
    let result = cedar_agents::generator::stub_text::parse_schema_stub("not valid cedar schema");
    assert!(result.is_err(), "Should fail on invalid cedarschema");
    let err = result.unwrap_err();
    assert!(
        matches!(err, SchemaGeneratorError::SchemaParseError(_)),
        "Error should be SchemaParseError, got: {err:?}"
    );
}

#[test]
fn test_from_cedarschema_str_with_config_error_path() {
    let result = cedar_agents::generator::stub_text::parse_schema_stub("invalid schema");
    assert!(result.is_err());
    assert!(matches!(result.unwrap_err(), SchemaGeneratorError::SchemaParseError(_)));
}

#[test]
fn test_schema_parse_error_display_format() {
    let result = cedar_agents::generator::stub_text::parse_schema_stub("this is not valid cedar");
    assert!(result.is_err());
    let err_msg = result.unwrap_err().to_string();
    assert!(
        err_msg.contains("Failed to parse Cedar schema"),
        "Error message should contain expected prefix, got: {err_msg}"
    );
}

#[test]
fn schema_generator_test_outputs() {
    let config = SchemaGeneratorConfig::default().include_outputs(true);
    let tool = r#"{
    "name": "check_task_status",
    "description": "Check if a task is ready for work",
    "inputSchema": {
        "type": "object",
        "properties": {
            "task_id": {"type": "string"}
        },
        "required": ["task_id"]
    },
    "outputSchema": {
        "type": "object",
        "properties": {
            "status": {
                "type": "string",
                "enum": ["started", "paused", "failed", "completed"]
            },
            "priority": {"type": "integer"}
        },
        "required": ["status", "priority"]
    }
}"#;
    let tool = ToolDescription::from_json_str(tool).expect("Failed to parse tool description");
    let mut g = SchemaGenerator::new_with_config(&test_schema_stub(), config).expect("Failed to create schema generator");
    g.add_action_from_tool_description(&tool).expect("Failed to add tool description");
    assert!(g.schema.namespaces.len() == 2, "Expected only two namespaces");
    let root = namespace(&g, &["Test"]).expect("Expected namespace Test to exist");
    let output = namespace(&g, &["Test", "check_task_status", "Output"])
        .expect("Expected namespace Test::check_task_status::Output to exist");
    assert!(root.actions.contains_key("check_task_status"));
    assert!(output.actions.is_empty());
    assert!(output.commons.is_empty());
    assert!(output.entities.len() == 1);
    assert!(output.entities.contains_key("status"));
}

#[test]
fn schema_generator_test_objects_as_records() {
    let config = SchemaGeneratorConfig::default().objects_as_records(true);
    let tool = r#"{
    "name": "test_tool",
    "description": "A tool for testing purposes",
    "parameters": {
        "type": "object",
        "properties": {
            "test_dt": {"type": "string", "format": "date-time"},
            "test_obj": {
                "type": "object",
                "properties": {
                    "test1": {"type": "float"},
                    "test2": {"type": "string"}
                }
            },
            "test_obj2": { "type": "object", "additionalProperties": {"type": "string"} }
        },
        "required": ["test_dt"]
    }
}"#;
    let tool = ToolDescription::from_json_str(tool).expect("Failed to parse tool description");
    let mut g = SchemaGenerator::new_with_config(&test_schema_stub(), config).expect("Failed to create schema generator");
    g.add_action_from_tool_description(&tool).expect("Failed to add tool description");
    let root = namespace(&g, &["Test"]).expect("Expected namespace Test to exist");
    let input = namespace(&g, &["Test", "test_tool", "Input"]).expect("Expected namespace Test::test_tool::Input to exist");
    assert!(root.actions.contains_key("test_tool"));
    assert!(input.actions.is_empty());
    assert!(input.commons.len() == 1);
    assert!(input.commons.contains_key("test_obj"));
    assert!(input.entities.len() == 1);
    assert!(input.entities.contains_key("test_obj2"));
}

#[test]
fn schema_generator_test_dont_erase_annotations() {
    let config = SchemaGeneratorConfig::default().erase_annotations(false);
    let tool = r#"{
    "name": "test_tool",
    "description": "A tool for testing purposes",
    "parameters": {
        "type": "object",
        "properties": {
            "test_dt": {"type": [{"type": "string", "format": "date-time"}, {"type": "string", "format": "date"}]}
        },
        "required": ["test_dt"]
    }
}"#;
    let tool = ToolDescription::from_json_str(tool).expect("Failed to parse tool description");
    let mut g = SchemaGenerator::new_with_config(&test_schema_stub(), config).expect("Failed to create schema generator");
    g.add_action_from_tool_description(&tool).expect("Failed to add tool description");
    assert!(g.schema.namespaces.len() == 1);
    let root = namespace(&g, &["Test"]).expect("Expected namespace Test to exist");
    assert!(root.actions.contains_key("test_tool"));
    assert!(root.commons.len() == 1);
    assert!(root.entities.len() == 3);
    assert!(matches!(root.entities.get("user"), Some(EntitySlot::Stub(_))));
    assert!(matches!(root.entities.get("resource"), Some(EntitySlot::Stub(_))));
    assert!(matches!(root.entities.get("Foo"), Some(EntitySlot::Stub(_))));
}

#[test]
fn global_namespace_anywhere_is_refused() {
    let mut stub = test_schema_stub();
    let named = stub.namespaces[0].1.clone();
    stub.namespaces.push((None, named));
    let result = SchemaGenerator::new_with_config(&stub, SchemaGeneratorConfig::default());
    assert!(matches!(result, Err(SchemaGeneratorError::GlobalNamespaceUsed)));
}

/// The stub `namespace MyMcpServer { @mcp_principal("User") entity User
/// {id: String, username: String}; @mcp_context("session") type
/// CommonContext = {...}; @mcp_resource("McpServer") entity McpServer;
/// @mcp_action("call_tool") action call_tool; entity status enum [..]; }`
/// as the generator reads it, with the variants `status` has.
fn collision_stub(status: &[&str]) -> StubSummary {
    StubSummary {
        namespaces: vec![(
            Some(path(&["MyMcpServer"])),
            StubNamespace {
                entity_types: vec![
                    decl("McpServer", &[("mcp_resource", Some("McpServer"))]),
                    decl("User", &[("mcp_principal", Some("User"))]),
                    decl("status", &[]),
                ],
                common_types: vec![decl("CommonContext", &[("mcp_context", Some("session"))])],
                actions: vec![decl("call_tool", &[("mcp_action", Some("call_tool"))])],
                entity_shapes: vec![
                    ("McpServer".to_string(), ExistingEntity::Record(Vec::new())),
                    (
                        "User".to_string(),
                        ExistingEntity::Record(vec![
                            ("id".to_string(), AttrType::EntityOrCommon(path(&["String"])), true),
                            ("username".to_string(), AttrType::EntityOrCommon(path(&["String"])), true),
                        ]),
                    ),
                    ("status".to_string(), ExistingEntity::Enum(path(status))),
                ],
            },
        )],
    }
}

const COLLISION_TOOLS: &str = r#"{
    "result": {
        "tools": [
            {
                "name": "tool_a",
                "description": "Tool A with status enum",
                "inputSchema": {
                    "json": {
                        "type": "object",
                        "properties": {
                            "status": {"type": "string", "enum": ["active", "inactive"], "description": "Status"},
                            "query": {"type": "string", "description": "Query"}
                        },
                        "required": ["query"]
                    }
                }
            },
            {
                "name": "tool_b",
                "description": "Tool B with same status enum",
                "inputSchema": {
                    "json": {
                        "type": "object",
                        "properties": {
                            "status": {"type": "string", "enum": ["active", "inactive"], "description": "Status"},
                            "data": {"type": "string", "description": "Data"}
                        },
                        "required": ["data"]
                    }
                }
            }
        ]
    }
}"#;

fn refers_to(t: Option<&CType>, want: &[&str]) -> bool {
    match t {
        Some(CType::Entity(p)) | Some(CType::EntityOrCommon(p)) => *p == path(want),
        _ => false,
    }
}

#[test]
fn dedup_collision_same_enum_already_in_lca() {
    let config = SchemaGeneratorConfig::default().deduplicate_entity_types(true);
    let description = ServerDescription::from_json_str(COLLISION_TOOLS).expect("tools");
    let mut g = SchemaGenerator::new_with_config(&collision_stub(&["active", "inactive"]), config).expect("generator");
    g.add_actions_from_server_description(&description).expect("server");
    assert_eq!(g.schema.namespaces.len(), 1, "{}", shown(&g));
    let root = namespace(&g, &["MyMcpServer"]).expect("root");
    assert!(root.entities.contains_key("status"));
    let a = common(root, "tool_aInput").expect("tool_aInput");
    let b = common(root, "tool_bInput").expect("tool_bInput");
    assert!(refers_to(attr(a, "status"), &["MyMcpServer", "status"]), "{}", shown(&g));
    assert!(refers_to(attr(b, "status"), &["MyMcpServer", "status"]), "{}", shown(&g));
    assert!(root.actions.contains_key("tool_a") && root.actions.contains_key("tool_b"));
}

#[test]
fn dedup_collision_different_enum_already_in_lca() {
    let config = SchemaGeneratorConfig::default().deduplicate_entity_types(true);
    let description = ServerDescription::from_json_str(COLLISION_TOOLS).expect("tools");
    let mut g = SchemaGenerator::new_with_config(&collision_stub(&["open", "closed"]), config).expect("generator");
    g.add_actions_from_server_description(&description).expect("server");
    assert_eq!(g.schema.namespaces.len(), 3, "{}", shown(&g));
    let root = namespace(&g, &["MyMcpServer"]).expect("root");
    let a_ns = namespace(&g, &["MyMcpServer", "tool_a", "Input"]).expect("tool_a::Input");
    let b_ns = namespace(&g, &["MyMcpServer", "tool_b", "Input"]).expect("tool_b::Input");
    assert!(a_ns.entities.contains_key("status") && b_ns.entities.contains_key("status"));
    let a = common(root, "tool_aInput").expect("tool_aInput");
    let b = common(root, "tool_bInput").expect("tool_bInput");
    assert!(refers_to(attr(a, "status"), &["MyMcpServer", "tool_a", "Input", "status"]), "{}", shown(&g));
    assert!(refers_to(attr(b, "status"), &["MyMcpServer", "tool_b", "Input", "status"]), "{}", shown(&g));
}
