use cedar_agents::agent::config::{
    default_namespace, default_principal_type, default_resource_id, default_resource_type,
    validate_config, CedarAgentConfig, ConfigValidationError, ResourceConfig,
};
use cedar_agents::agent::config::McpToolDefinition;
use cedar_agents::agent::schema::{schema_inputs, server_json, tools_description};
use cedar_agents::agent::{build, schema_stub, BuildResult, SchemaError};
use cedar_agents::description::PropertyType;
use cedar_agents::strmap::StrMap;

#[test]
fn test_schema_error_display() {
    let err = SchemaError {
        stage: "test_stage".to_string(),
        message: "something broke".to_string(),
    };
    assert_eq!(
        err.to_string(),
        "schema generation failed at test_stage: something broke"
    );
}

#[test]
fn test_build_without_tools_has_no_schema() {
    let mut roles = StrMap::new();
    roles.insert("admin".to_string(), vec!["*".to_string()]);
    let config = CedarAgentConfig {
        roles: Some(roles),
        ..Default::default()
    };
    let result = build(&config, Ok(None));
    assert!(result.schema.is_none());
    assert!(result.schema_errors.is_empty());
    assert_eq!(
        result.policies,
        "permit(principal in Agent::Role::\"admin\", action, resource);"
    );
}

#[test]
fn defaults() {
    assert_eq!(default_namespace(), "Agent");
    assert_eq!(default_principal_type(), "User");
    assert_eq!(default_resource_type(), "Resource");
    assert_eq!(default_resource_id(), "default");
    let config = CedarAgentConfig::default();
    assert_eq!(config.principal.key, "user_id");
    assert!(config.roles.is_none() && config.tools.is_none());
}

#[test]
fn validate_config_reports_first_invalid_identifier() {
    assert!(validate_config(&CedarAgentConfig::default()).is_ok());
    let config = CedarAgentConfig {
        namespace: "my-ns".to_string(),
        ..Default::default()
    };
    match validate_config(&config) {
        Err(ConfigValidationError::InvalidNamespace { value }) => assert_eq!(value, "my-ns"),
        _ => panic!("expected an invalid namespace"),
    }
    let mut config = CedarAgentConfig::default();
    config.principal.principal_type = "if".to_string();
    config.resource = Some(ResourceConfig {
        resource_type: "123bad".to_string(),
        id: "x".to_string(),
    });
    let err = validate_config(&config).err().unwrap();
    assert!(matches!(err, ConfigValidationError::InvalidPrincipalType { .. }));
    assert_eq!(
        err.to_string(),
        "invalid principal type \"if\": not a valid Cedar identifier"
    );
    config.principal.principal_type = "User".to_string();
    let err = validate_config(&config).err().unwrap();
    assert_eq!(
        err.to_string(),
        "invalid resource type \"123bad\": not a valid Cedar identifier"
    );
}

#[test]
fn schema_stub_names_principal_and_resource() {
    let config = CedarAgentConfig::default();
    assert_eq!(
        schema_stub(&config),
        "namespace Agent {\n  entity Role;\n\n  @mcp_principal(\"User\")\n  entity User in [Role];\n\n  @mcp_resource(\"Resource\")\n  entity Resource;\n}"
    );
}

#[test]
fn test_validate_no_schema_returns_valid() {
    let result = BuildResult {
        policies: String::new(),
        entities: Vec::new(),
        schema: None,
        schema_errors: Vec::new(),
    };
    let validation = result.validate();
    assert!(validation.valid);
    assert!(validation.errors.is_empty());
}

#[test]
fn test_validate_invalid_policy_returns_error() {
    let result = BuildResult {
        policies: "this is not valid cedar".to_string(),
        entities: Vec::new(),
        schema: Some("namespace Agent { entity User; }".to_string()),
        schema_errors: Vec::new(),
    };
    let validation = result.validate();
    assert!(!validation.valid);
    assert!(!validation.errors.is_empty());
    assert!(validation.errors[0].message.contains("policy parse error"));
}

#[test]
fn test_validate_invalid_schema_returns_error() {
    let result = BuildResult {
        policies: "permit(principal, action, resource);".to_string(),
        entities: Vec::new(),
        schema: Some("not valid schema syntax {{{{".to_string()),
        schema_errors: Vec::new(),
    };
    let validation = result.validate();
    assert!(!validation.valid);
    assert!(!validation.errors.is_empty());
    assert!(validation.errors[0].message.contains("schema parse error"));
}

#[test]
fn validate_accepts_policies_that_fit_the_schema() {
    let result = BuildResult {
        policies: "permit(principal == Agent::User::\"alice\", action == Agent::Action::\"read\", resource);"
            .to_string(),
        entities: Vec::new(),
        schema: Some(
            "namespace Agent { entity User; entity Doc; action read appliesTo { principal: User, resource: Doc }; }"
                .to_string(),
        ),
        schema_errors: Vec::new(),
    };
    let validation = result.validate();
    assert!(validation.valid, "{:?}", validation);
    assert!(validation.errors.is_empty());
}

#[test]
fn validate_reports_policies_that_do_not_fit_the_schema() {
    let result = BuildResult {
        policies: "permit(principal == Agent::Robot::\"r2\", action, resource);".to_string(),
        entities: Vec::new(),
        schema: Some("namespace Agent { entity User; }".to_string()),
        schema_errors: Vec::new(),
    };
    let validation = result.validate();
    assert!(!validation.valid);
    assert!(!validation.errors.is_empty());
    assert_eq!(validation.errors[0].policy_id, "policy0");
    assert!(validation.errors[0].help.is_none());
}

#[test]
fn test_build_empty_tools_vec_no_schema() {
    let config = CedarAgentConfig {
        tools: Some(vec![]),
        ..Default::default()
    };
    assert!(schema_inputs(&config).is_none());
    let result = build(&config, Ok(None));
    assert!(result.schema.is_none());
    assert!(result.schema_errors.is_empty());
}

fn tool(name: &str, description: Option<&str>, input: &str, output: Option<&str>) -> McpToolDefinition {
    McpToolDefinition {
        name: name.to_string(),
        description: description.map(|d| d.to_string()),
        input_schema: input.to_string(),
        output_schema: output.map(|o| o.to_string()),
    }
}

#[test]
fn server_json_lists_the_tools() {
    let tools = vec![
        tool("invoke", None, "{\"type\":\"object\"}", None),
        tool(
            "say",
            Some("Says \"hi\"\n"),
            "{\"type\":\"object\"}",
            Some("{\"type\":\"string\"}"),
        ),
    ];
    assert_eq!(
        server_json(&tools),
        "{\"result\":{\"tools\":[{\"name\":\"invoke\",\"description\":\"\",\"inputSchema\":{\"type\":\"object\"}},\
{\"name\":\"say\",\"description\":\"Says \\\"hi\\\"\\n\",\"inputSchema\":{\"type\":\"object\"},\
\"outputSchema\":{\"type\":\"string\"}}]}}"
    );
}

#[test]
fn schema_inputs_describe_the_configured_tools() {
    let config = CedarAgentConfig {
        tools: Some(vec![tool(
            "invoke",
            Some("Invokes"),
            "{\"type\":\"object\",\"properties\":{\"n\":{\"type\":\"integer\"}},\"required\":[\"n\"]}",
            None,
        )]),
        ..Default::default()
    };
    let (stub, json) = schema_inputs(&config).unwrap();
    assert_eq!(stub, schema_stub(&config));
    let description = tools_description(&json).unwrap();
    let tools = description.tool_descriptions();
    assert_eq!(tools.len(), 1);
    assert_eq!(tools[0].name(), "invoke");
    assert_eq!(tools[0].description(), Some("Invokes"));
    let props = tools[0].inputs().properties();
    assert_eq!(props.len(), 1);
    assert_eq!(props[0].name(), "n");
    assert!(props[0].is_required());
    assert!(matches!(props[0].property_type(), PropertyType::Integer));
}

#[test]
fn unreadable_tools_fail_at_parse_server_description() {
    let err = tools_description("{\"result\": 3}").unwrap_err();
    assert_eq!(err.stage, "parse_server_description");
    let err = tools_description("{\"result\": ").unwrap_err();
    assert_eq!(err.stage, "parse_server_description");
    assert_eq!(err.message, "Encountered EOF while parsing.");
}
