use cedar_agents::description::{PropertyType, ServerDescription, ToolDescription};
use cedar_agents::deserializer::{ContentType, DeserializationError};

fn tool(text: &str) -> ToolDescription {
    ToolDescription::from_json_str(text)
        .ok()
        .expect("tool description should deserialize")
}

fn tool_err(text: &str) -> DeserializationError {
    ToolDescription::from_json_str(text)
        .err()
        .expect("tool description should be refused")
}

fn input_type(schema: &str) -> PropertyType {
    let text = format!(
        r#"{{"name": "t", "inputSchema": {{"type": "object", "properties": {{"p": {schema}}}}}}}"#
    );
    let mut t = tool(&text);
    t.inputs.properties.remove(0).prop_type
}

fn type_error_message(e: &DeserializationError) -> String {
    match e {
        DeserializationError::UnexpectedType { msg, .. } => msg.clone(),
        _ => panic!("expected an unexpected-type error, got {e:?}"),
    }
}

#[test]
fn simple_tool_description() {
    let t = tool(
        r#"{
            "name": "search",
            "description": "Search the index",
            "inputSchema": {
                "type": "object",
                "properties": {
                    "q": {"type": "string", "description": "the query"},
                    "n": {"type": "integer"}
                },
                "required": ["q"]
            }
        }"#,
    );
    assert_eq!(t.name(), "search");
    assert_eq!(t.description(), Some("Search the index"));
    let props = t.inputs().properties();
    assert_eq!(props.len(), 2);
    assert_eq!(props[0].name(), "q");
    assert!(props[0].is_required());
    assert_eq!(props[0].description(), Some("the query"));
    assert!(matches!(props[0].property_type(), PropertyType::String));
    assert_eq!(props[1].name(), "n");
    assert!(!props[1].is_required());
    assert!(matches!(props[1].property_type(), PropertyType::Integer));
    assert!(t.outputs().properties().is_empty());
    assert!(t.type_definitions().is_empty());
}

#[test]
fn parameters_alias_and_json_wrapper() {
    let t = tool(
        r#"{"name": "t", "parameters": {"json": {"type": "object", "properties": {"a": {"type": "boolean"}}}},
            "outputSchema": {"type": "object", "properties": {"b": {"type": "null"}}}}"#,
    );
    assert!(matches!(
        t.inputs().properties()[0].property_type(),
        PropertyType::Bool
    ));
    assert!(matches!(
        t.outputs().properties()[0].property_type(),
        PropertyType::Null
    ));
}

#[test]
fn primitive_and_formatted_types() {
    assert!(matches!(input_type(r#"{"type": "number"}"#), PropertyType::Number));
    assert!(matches!(input_type(r#"{"type": "float"}"#), PropertyType::Float));
    assert!(matches!(
        input_type(r#"{"type": "string", "format": "date"}"#),
        PropertyType::Datetime
    ));
    assert!(matches!(
        input_type(r#"{"type": "string", "format": "date-time"}"#),
        PropertyType::Datetime
    ));
    assert!(matches!(
        input_type(r#"{"type": "string", "format": "duration"}"#),
        PropertyType::Duration
    ));
    assert!(matches!(
        input_type(r#"{"type": "string", "format": "ipv6"}"#),
        PropertyType::IpAddr
    ));
    assert!(matches!(
        input_type(r#"{"type": "string", "format": "decimal"}"#),
        PropertyType::Decimal
    ));
    assert!(matches!(
        input_type(r#"{"type": "string", "format": "email"}"#),
        PropertyType::String
    ));
}

#[test]
fn structured_types() {
    match input_type(r#"{"type": "string", "enum": ["a", "b"]}"#) {
        PropertyType::Enum { variants } => assert_eq!(variants, vec!["a", "b"]),
        t => panic!("expected an enum, got {t:?}"),
    }
    match input_type(r#"{"type": "array", "items": {"type": "integer"}}"#) {
        PropertyType::Array { element_ty } => {
            assert!(matches!(*element_ty, PropertyType::Integer))
        }
        t => panic!("expected an array, got {t:?}"),
    }
    match input_type(r#"{"type": ["string", {"type": "integer"}, "null"]}"#) {
        PropertyType::Tuple { types } => {
            assert_eq!(types.len(), 3);
            assert!(matches!(types[1], PropertyType::Integer));
        }
        t => panic!("expected a tuple, got {t:?}"),
    }
    match input_type(r#"{"oneOf": [{"type": "string"}, {"type": "boolean"}]}"#) {
        PropertyType::Union { types } => assert_eq!(types.len(), 2),
        t => panic!("expected a union, got {t:?}"),
    }
    match input_type(r##"{"$ref": "#/$defs/Point"}"##) {
        PropertyType::Ref { name } => assert_eq!(name, "Point"),
        t => panic!("expected a reference, got {t:?}"),
    }
    match input_type(
        r#"{"type": "object", "properties": {"x": {"type": "integer"}}, "required": ["x"],
            "additionalProperties": {"type": "string"}}"#,
    ) {
        PropertyType::Object {
            properties,
            additional_properties,
        } => {
            assert_eq!(properties.len(), 1);
            assert!(properties[0].required);
            assert!(matches!(
                additional_properties.as_deref(),
                Some(PropertyType::String)
            ));
        }
        t => panic!("expected an object, got {t:?}"),
    }
    // An `additionalProperties` schema that does not read is dropped.
    match input_type(r#"{"type": "object", "additionalProperties": true}"#) {
        PropertyType::Object {
            additional_properties,
            ..
        } => assert!(additional_properties.is_none()),
        t => panic!("expected an object, got {t:?}"),
    }
}

#[test]
fn type_definitions_are_read_in_order() {
    let t = tool(
        r##"{"name": "t", "inputSchema": {"type": "object"},
            "$defs": {"B": {"type": "string", "description": "bee"}, "A": {"type": "integer"}}}"##,
    );
    let defs = t.type_definitions();
    assert_eq!(defs.len(), 2);
    assert_eq!(defs[0].name(), "B");
    assert_eq!(defs[0].description(), Some("bee"));
    assert_eq!(defs[1].name(), "A");
    assert!(defs[1].description().is_none());
}

#[test]
fn errors_of_tool_descriptions() {
    let e = tool_err("[1, 2]");
    assert_eq!(
        type_error_message(&e),
        "Expected a JSON object containing an MCP tool description."
    );
    match tool_err(r#"{"inputSchema": {}}"#) {
        DeserializationError::MissingExpectedAttribute(m) => {
            assert_eq!(m.expected_key, "name");
            assert!(m.aliases.is_empty());
            assert_eq!(m.existing_keys.len(), 1);
        }
        e => panic!("expected a missing attribute, got {e:?}"),
    }
    match tool_err(r#"{"name": "t"}"#) {
        DeserializationError::MissingExpectedAttribute(m) => {
            assert_eq!(m.expected_key, "parameters");
            assert_eq!(m.aliases, vec!["inputSchema".to_string()]);
        }
        e => panic!("expected a missing attribute, got {e:?}"),
    }
    let e = tool_err(r#"{"name": 3, "inputSchema": {}}"#);
    assert_eq!(
        type_error_message(&e),
        "Expected `name` attribute of a MCP tool description to be a String."
    );
    assert!(matches!(
        tool_err(r#"{"name": "t""#),
        DeserializationError::ParseError(_)
    ));
}

#[test]
fn errors_of_property_types() {
    let text = |schema: &str| {
        format!(r#"{{"name": "t", "inputSchema": {{"type": "object", "properties": {{"p": {schema}}}}}}}"#)
    };
    let e = tool_err(&text(r#"{"type": "string", "enum": []}"#));
    assert_eq!(
        type_error_message(&e),
        "Expected non-empty list of variants for `enum` attribute."
    );
    match tool_err(&text(r#"{"type": "strang"}"#)) {
        DeserializationError::UnexpectedType { content_type, .. } => {
            assert_eq!(content_type, ContentType::PropertyType)
        }
        e => panic!("expected an unexpected value, got {e:?}"),
    }
    let e = tool_err(&text(r##"{"$ref": "#/definitions/P"}"##));
    assert_eq!(
        type_error_message(&e),
        "Expected `$ref` attribute to begin with `#/$defs/`"
    );
    match tool_err(&text(r#"{"description": "x"}"#)) {
        DeserializationError::MissingExpectedAttribute(m) => {
            assert_eq!(m.expected_key, "type");
            assert_eq!(m.aliases, vec!["anyOf", "oneOf", "$ref"]);
        }
        e => panic!("expected a missing attribute, got {e:?}"),
    }
    let e = tool_err(&text(r#"{"type": "array", "items": 3}"#));
    assert!(type_error_message(&e).starts_with("Expected `items` attribute"));
    let e = tool_err(&text(r#"{"type": "string", "description": 1}"#));
    assert_eq!(
        type_error_message(&e),
        "Expected `description` attribute to be a string."
    );
}

#[test]
fn server_descriptions() {
    let s = ServerDescription::from_json_str(
        r##"{"result": {"tools": [
                {"name": "a", "inputSchema": {"type": "object"}},
                {"name": "b", "inputSchema": {"type": "object"}}
            ], "$defs": {"T": {"type": "boolean"}}}}"##,
    )
    .ok()
    .expect("server description should deserialize");
    assert_eq!(s.tool_descriptions().len(), 2);
    assert_eq!(s.tool_descriptions()[1].name(), "b");
    assert_eq!(s.type_definitions().len(), 1);

    let s = ServerDescription::from_json_str(
        r#"[{"name": "a", "inputSchema": {"type": "object"}}]"#,
    )
    .ok()
    .expect("an array of tools should deserialize");
    assert_eq!(s.tool_descriptions().len(), 1);
    assert!(s.type_definitions().is_empty());

    let s = ServerDescription::from_json_str(r#"{"name": "one", "inputSchema": {}}"#)
        .ok()
        .expect("a single tool should deserialize");
    assert_eq!(s.tool_descriptions()[0].name(), "one");

    match ServerDescription::from_json_str(r#"{"result": {}}"#) {
        Err(DeserializationError::MissingExpectedAttribute(m)) => {
            assert_eq!(m.expected_key, "tools")
        }
        _ => panic!("expected a missing `tools` attribute"),
    }
    match ServerDescription::from_json_str("true") {
        Err(DeserializationError::UnexpectedType { content_type, .. }) => {
            assert_eq!(content_type, ContentType::ServerDescription)
        }
        _ => panic!("expected an unexpected type"),
    }
}

#[test]
fn content_type_names() {
    assert_eq!(ContentType::ToolDescription.to_string(), "MCP Tool Description");
    assert_eq!(
        ContentType::PropertyType.to_string(),
        "JSON Schema Property Type"
    );
}
