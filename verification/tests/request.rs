use cedar_agents::description::ServerDescription;
use cedar_agents::generator::config::SchemaGeneratorConfig;
use cedar_agents::generator::request::{
    CedarValue, McpValue, RequestGenerator, RequestGeneratorError, ToolCall,
};

fn path(p: &[&str]) -> Vec<String> {
    p.iter().map(|s| s.to_string()).collect()
}

const SERVER: &str = r##"{
    "result": {
        "tools": [
            {
                "name": "send",
                "description": "Sends a message",
                "inputSchema": {"json": {"type": "object", "properties": {
                    "to": {"type": "string"},
                    "priority": {"type": "string", "enum": ["low", "high"]},
                    "meta": {"type": "object", "properties": {"tag": {"type": "string"}}},
                    "count": {"type": "number"},
                    "retry": {"$ref": "#/$defs/Retry"}
                }}},
                "outputSchema": {"json": {"type": "object", "properties": {"ok": {"type": "boolean"}}}}
            }
        ],
        "$defs": {"Retry": {"type": "integer"}}
    }
}"##;

fn generator(config: SchemaGeneratorConfig) -> RequestGenerator {
    let tools = ServerDescription::from_json_str(SERVER).expect("server");
    RequestGenerator::new(config, tools, Some(path(&["Test"])))
}

fn call(args: Vec<(&str, McpValue)>) -> ToolCall {
    ToolCall {
        name: "send".to_string(),
        args: args.into_iter().map(|(k, v)| (k.to_string(), v)).collect(),
    }
}

fn field<'a>(ps: &'a [(String, CedarValue)], k: &str) -> &'a CedarValue {
    &ps.iter().find(|(n, _)| n == k).expect("field").1
}

#[test]
fn request_action_and_input() {
    let g = generator(SchemaGeneratorConfig::default());
    let plan = g
        .generate_request(
            &call(vec![
                ("to", McpValue::String("bob".to_string())),
                ("priority", McpValue::Enum("high".to_string())),
            ]),
            None,
        )
        .expect("plan");
    assert_eq!(plan.action_type, path(&["Test", "Action"]));
    assert_eq!(plan.action_id, "send");
    assert!(matches!(field(&plan.input, "to"), CedarValue::Str(s) if s == "bob"));
    assert!(matches!(field(&plan.input, "priority"),
        CedarValue::Entity(t, id) if *t == path(&["Test", "send", "Input", "priority"]) && id == "high"));
    assert!(plan.output.is_none());
    assert!(plan.entities.is_empty());
}

#[test]
fn request_objects_become_entities_unless_records() {
    let meta = || McpValue::Object {
        properties: vec![("tag".to_string(), McpValue::String("x".to_string()))],
        additional_properties: vec![],
    };
    let g = generator(SchemaGeneratorConfig::default());
    let plan = g.generate_request(&call(vec![("meta", meta())]), None).expect("plan");
    assert_eq!(plan.entities.len(), 1);
    assert_eq!(plan.entities[0].ty, path(&["Test", "send", "Input", "meta"]));
    assert!(matches!(field(&plan.input, "meta"), CedarValue::Entity(_, id) if id.is_empty()));

    let g = generator(SchemaGeneratorConfig::default().objects_as_records(true));
    let plan = g.generate_request(&call(vec![("meta", meta())]), None).expect("plan");
    assert!(plan.entities.is_empty());
    assert!(matches!(field(&plan.input, "meta"), CedarValue::Record(ps) if ps.len() == 1));
}

#[test]
fn request_numbers_as_decimals() {
    let n = || McpValue::Number { decimal: Some("2.5000".to_string()), id: "2.5".to_string() };
    let g = generator(SchemaGeneratorConfig::default());
    let plan = g.generate_request(&call(vec![("count", n())]), None).expect("plan");
    assert!(matches!(field(&plan.input, "count"),
        CedarValue::Entity(t, id) if *t == path(&["Test", "Number"]) && id == "2.5"));
    let g = generator(SchemaGeneratorConfig::default().encode_numbers_as_decimal(true));
    let plan = g.generate_request(&call(vec![("count", n())]), None).expect("plan");
    assert!(matches!(field(&plan.input, "count"), CedarValue::Ext(f, a) if f == "decimal" && a == "2.5000"));
    let bad = McpValue::Number { decimal: None, id: "1e999".to_string() };
    assert!(matches!(
        g.generate_request(&call(vec![("count", bad)]), None),
        Err(RequestGeneratorError::MalformedDecimalNumber(n)) if n == "1e999"
    ));
}

#[test]
fn request_output_only_when_included() {
    let out = vec![("ok".to_string(), McpValue::Bool(true))];
    let g = generator(SchemaGeneratorConfig::default());
    assert!(g.generate_request(&call(vec![]), Some(&out)).expect("plan").output.is_none());
    let g = generator(SchemaGeneratorConfig::default().include_outputs(true));
    let plan = g.generate_request(&call(vec![]), Some(&out)).expect("plan");
    let o = plan.output.expect("output");
    assert!(matches!(field(&o, "ok"), CedarValue::Bool(true)));
}

#[test]
fn request_refs_and_unknown_tools() {
    let g = generator(SchemaGeneratorConfig::default());
    let ok = McpValue::Ref { name: "Retry".to_string(), val: Box::new(McpValue::Integer(3)) };
    let plan = g.generate_request(&call(vec![("retry", ok)]), None).expect("plan");
    assert!(matches!(field(&plan.input, "retry"), CedarValue::Long(3)));
    let bad = McpValue::Ref { name: "Nope".to_string(), val: Box::new(McpValue::Integer(3)) };
    assert!(matches!(
        g.generate_request(&call(vec![("retry", bad)]), None),
        Err(RequestGeneratorError::UndefinedReference { name, namespace })
            if name == "Nope" && namespace == "Test::send::Input"
    ));
    let other = ToolCall { name: "missing".to_string(), args: vec![] };
    assert!(matches!(g.generate_request(&other, None), Err(RequestGeneratorError::UnknownTool(_))));
}

#[test]
fn request_flattened_names() {
    let g = generator(SchemaGeneratorConfig::default().flatten_namespaces(true));
    let plan = g
        .generate_request(&call(vec![("priority", McpValue::Enum("low".to_string()))]), None)
        .expect("plan");
    assert!(matches!(field(&plan.input, "priority"),
        CedarValue::Entity(t, _) if *t == path(&["Test", "send_Input_priority"])));
}

#[test]
fn request_tuples_and_unions() {
    let g = generator(SchemaGeneratorConfig::default());
    let v = McpValue::Tuple(vec![McpValue::Bool(true), McpValue::Enum("a".to_string())]);
    let plan = g.generate_request(&call(vec![("pair", v)]), None).expect("plan");
    match field(&plan.input, "pair") {
        CedarValue::Record(ps) => {
            assert!(matches!(field(ps, "proj0"), CedarValue::Bool(true)));
            assert!(matches!(field(ps, "proj1"),
                CedarValue::Entity(t, _) if *t == path(&["Test", "send", "Input", "pair", "Proj1"])));
        }
        _ => panic!("expected a record"),
    }
    let u = McpValue::Union { index: 2, value: Box::new(McpValue::Integer(1)) };
    let plan = g.generate_request(&call(vec![("choice", u)]), None).expect("plan");
    assert!(matches!(field(&plan.input, "choice"),
        CedarValue::Record(ps) if ps.len() == 1 && ps[0].0 == "typeChoice2"));
}
