use cedar_agents::agent::builder::{BuilderError, CedarAgentPolicyBuilder};
use cedar_agents::agent::config::{AllowedValue, McpToolDefinition};
use cedar_agents::agent::{BuildResult, SchemaError};
use cedar_agents::strmap::StrMap;
use cedar_policy::PolicySet;

fn assert_policies_parse(result: &BuildResult) {
    if !result.policies.is_empty() {
        result.policies.parse::<PolicySet>().unwrap_or_else(|e| {
            panic!(
                "generated policies failed to parse:\n{}\nerror: {e}",
                result.policies
            )
        });
    }
}

fn build(builder: CedarAgentPolicyBuilder) -> BuildResult {
    builder.build(Ok(None))
}

#[test]
fn test_builder_basic() {
    let result = build(
        CedarAgentPolicyBuilder::new()
            .role("admin", &["*"])
            .user("alice", &["admin"]),
    );

    assert!(result
        .policies
        .contains("principal in Agent::Role::\"admin\""));
    assert!(result.entities.iter().any(|e| e.uid.id == "alice"));
    assert!(result.entities.iter().any(|e| e.uid.id == "admin"));
}

#[test]
fn test_builder_with_namespace() {
    let result = build(
        CedarAgentPolicyBuilder::new()
            .namespace("MyApp")
            .unwrap()
            .role("viewer", &["read"]),
    );

    assert!(result.policies.contains("MyApp::Role::\"viewer\""));
    assert!(result.policies.contains("MyApp::Action::\"read\""));
}

#[test]
fn test_builder_chaining() {
    let result = build(
        CedarAgentPolicyBuilder::new()
            .namespace("Agent")
            .unwrap()
            .principal("sub", "User")
            .unwrap()
            .role("admin", &["*"])
            .role("analyst", &["search"])
            .user("alice", &["admin"])
            .user("bob", &["analyst"])
            .rate_limit("send_email", 5)
            .unwrap()
            .time_window("*", (9, 17))
            .unwrap()
            .consent_all("send_email")
            .deny_in_env("production", &["delete"]),
    );

    assert!(result.policies.contains("Role::\"admin\""));
    assert!(result.policies.contains("Role::\"analyst\""));
    assert!(result.policies.contains("call_count_send_email >= 5"));
    assert!(result.policies.contains("hour_utc < 9"));
    assert!(result.policies.contains("user_consent"));
    assert!(result.policies.contains("\"production\""));
}

#[test]
fn test_builder_default() {
    let builder = CedarAgentPolicyBuilder::default();
    let result = build(builder);
    assert!(result.policies.is_empty());
    assert_eq!(result.entities.len(), 1); // just the default resource
}

#[test]
fn test_all_policy_types_parse_as_valid_cedar() {
    let mut allowed = StrMap::new();
    allowed.insert(
        "db".to_string(),
        vec![AllowedValue::Str("analytics".to_string())],
    );
    let result = build(
        CedarAgentPolicyBuilder::new()
            .namespace("Agent")
            .unwrap()
            .principal("sub", "User")
            .unwrap()
            .role("admin", &["*"])
            .role("analyst", &["search", "query"])
            .user("alice", &["admin"])
            .user("bob", &["analyst"])
            .rate_limit("send_email", 5)
            .unwrap()
            .rate_limit("*", 100)
            .unwrap()
            .time_window("*", (9, 17))
            .unwrap()
            .consent_all("send_email")
            .consent_for_roles("deploy", &["admin"])
            .deny_in_env("production", &["delete"])
            .restrict("query", allowed),
    );

    assert_policies_parse(&result);
}

#[test]
fn test_basic_build_parses() {
    let result = build(
        CedarAgentPolicyBuilder::new()
            .role("admin", &["*"])
            .user("alice", &["admin"]),
    );

    assert_policies_parse(&result);
}

#[test]
fn test_time_window_rejects_inverted() {
    let err = CedarAgentPolicyBuilder::new()
        .time_window("*", (17, 9))
        .err()
        .unwrap();
    assert!(matches!(err, BuilderError::InvalidTimeWindow { .. }));
}

#[test]
fn test_time_window_rejects_over_24() {
    let err = CedarAgentPolicyBuilder::new()
        .time_window("*", (9, 25))
        .err()
        .unwrap();
    assert!(matches!(err, BuilderError::HourOutOfRange(25)));
}

#[test]
fn test_builder_resource_custom() {
    let result = build(
        CedarAgentPolicyBuilder::new()
            .resource("Gateway", "prod")
            .unwrap()
            .role("admin", &["*"]),
    );

    let resource = result.entities.iter().find(|e| e.uid.id == "prod").unwrap();
    assert_eq!(resource.uid.entity_type, "Agent::Gateway");
}

#[test]
fn test_builder_consent_for_roles_in_chain() {
    let result = build(
        CedarAgentPolicyBuilder::new()
            .role("admin", &["*"])
            .role("analyst", &["search", "deploy"])
            .consent_for_roles("deploy", &["admin"]),
    );

    assert!(result.policies.contains("user_consent"));
    assert!(result.policies.contains("Role::\"admin\""));
}

#[test]
fn test_builder_time_window_per_tool() {
    let result = build(
        CedarAgentPolicyBuilder::new()
            .role("admin", &["*"])
            .time_window("deploy", (9, 17))
            .unwrap(),
    );

    assert!(result.policies.contains("Action::\"deploy\""));
    assert!(result.policies.contains("hour_utc"));
}

#[test]
fn test_namespace_rejects_reserved_word() {
    let err = CedarAgentPolicyBuilder::new().namespace("if").err().unwrap();
    assert!(matches!(err, BuilderError::InvalidIdentifier(_)));
}

#[test]
fn test_namespace_rejects_invalid_chars() {
    let err = CedarAgentPolicyBuilder::new()
        .namespace("my-ns")
        .err()
        .unwrap();
    assert!(matches!(err, BuilderError::InvalidIdentifier(_)));
}

#[test]
fn test_principal_type_rejects_reserved_word() {
    let err = CedarAgentPolicyBuilder::new()
        .principal("sub", "if")
        .err()
        .unwrap();
    assert!(matches!(err, BuilderError::InvalidIdentifier(_)));
}

#[test]
fn test_resource_type_rejects_invalid() {
    let err = CedarAgentPolicyBuilder::new()
        .resource("123bad", "id")
        .err()
        .unwrap();
    assert!(matches!(err, BuilderError::InvalidIdentifier(_)));
}

#[test]
fn test_rate_limit_rejects_counter_key_collision() {
    // "my-tool" and "my.tool" both sanitize to "my_tool" → collision
    let err = CedarAgentPolicyBuilder::new()
        .rate_limit("my-tool", 5)
        .unwrap()
        .rate_limit("my.tool", 10)
        .err()
        .unwrap();
    assert!(
        matches!(err, BuilderError::RateLimitCounterCollision { .. }),
        "expected RateLimitCounterCollision, got: {}",
        err.to_string()
    );
}

#[test]
fn test_rate_limit_allows_distinct_counter_keys() {
    // "search" and "deploy" produce different counter keys — no collision
    let result = build(
        CedarAgentPolicyBuilder::new()
            .rate_limit("search", 5)
            .unwrap()
            .rate_limit("deploy", 10)
            .unwrap(),
    );
    assert!(result.policies.contains("call_count_search >= 5"));
    assert!(result.policies.contains("call_count_deploy >= 10"));
}

#[test]
fn test_rate_limit_same_tool_overwrites_without_error() {
    // Setting the same tool twice should just overwrite, not error
    let result = build(
        CedarAgentPolicyBuilder::new()
            .rate_limit("search", 5)
            .unwrap()
            .rate_limit("search", 10)
            .unwrap(),
    );
    assert!(result.policies.contains("call_count_search >= 10"));
    assert!(!result.policies.contains("call_count_search >= 5"));
}

#[test]
fn test_rate_limit_wildcard_does_not_collide() {
    // "*" is the global counter and should not collide with tool-specific entries
    let result = build(
        CedarAgentPolicyBuilder::new()
            .rate_limit("*", 100)
            .unwrap()
            .rate_limit("search", 5)
            .unwrap(),
    );
    assert!(result.policies.contains("call_count >= 100"));
    assert!(result.policies.contains("call_count_search >= 5"));
}

#[test]
fn builder_error_messages() {
    assert_eq!(
        BuilderError::InvalidTimeWindow { start: 17, end: 9 }.to_string(),
        "time_window requires hour_start (17) < hour_end (9)"
    );
    assert_eq!(
        BuilderError::HourOutOfRange(25).to_string(),
        "hour_end (25) must be <= 24"
    );
    assert_eq!(
        BuilderError::InvalidIdentifier("if".to_string()).to_string(),
        "\"if\" is not a valid Cedar identifier"
    );
    let err = CedarAgentPolicyBuilder::new()
        .rate_limit("my-tool", 5)
        .unwrap()
        .rate_limit("my.tool", 10)
        .err()
        .unwrap();
    assert_eq!(
        err.to_string(),
        "rate-limit counter key collision: \"my.tool\" and \"my-tool\" both map to counter key \"call_count_my_tool\""
    );
}

#[test]
fn time_window_bounds() {
    assert!(CedarAgentPolicyBuilder::new().time_window("*", (0, 24)).is_ok());
    assert!(CedarAgentPolicyBuilder::new().time_window("*", (23, 24)).is_ok());
    assert!(matches!(
        CedarAgentPolicyBuilder::new().time_window("*", (5, 5)).err().unwrap(),
        BuilderError::InvalidTimeWindow { start: 5, end: 5 }
    ));
    // An inverted window is reported before an end that is out of range.
    assert!(matches!(
        CedarAgentPolicyBuilder::new().time_window("*", (30, 25)).err().unwrap(),
        BuilderError::InvalidTimeWindow { start: 30, end: 25 }
    ));
}

#[test]
fn role_redefinition_replaces_tools() {
    let result = build(
        CedarAgentPolicyBuilder::new()
            .role("viewer", &["read"])
            .role("viewer", &["list"]),
    );
    assert!(result.policies.contains("Action::\"list\""));
    assert!(!result.policies.contains("Action::\"read\""));
}

#[test]
fn build_reports_schema_error() {
    let search = McpToolDefinition {
        name: "search".to_string(),
        description: None,
        input_schema: "{\"type\":\"object\"}".to_string(),
        output_schema: None,
    };
    let result = CedarAgentPolicyBuilder::new().tool(search).build(Err(SchemaError {
        stage: "init_generator".to_string(),
        message: "no principal".to_string(),
    }));
    assert!(result.schema.is_none());
    assert_eq!(result.schema_errors.len(), 1);
    assert_eq!(result.schema_errors[0].stage, "init_generator");
}

#[test]
fn build_without_tools_ignores_the_schema_outcome() {
    let result = CedarAgentPolicyBuilder::new().build(Err(SchemaError {
        stage: "init_generator".to_string(),
        message: "no principal".to_string(),
    }));
    assert!(result.schema.is_none());
    assert!(result.schema_errors.is_empty());
}
