use cedar_agents::agent::config::{
    AllowedValue, CedarAgentConfig, ConsentScope, PrincipalConfig, Restriction, TimeWindow,
};
use cedar_agents::agent::policy::{format_cedar_value, generate_policies, sanitize_counter_key};
use cedar_agents::strmap::StrMap;
use cedar_policy::PolicySet;

fn map<V>(entries: Vec<(&str, V)>) -> StrMap<V> {
    let mut m = StrMap::new();
    for (k, v) in entries {
        m.insert(k.to_string(), v);
    }
    m
}

fn strings(items: &[&str]) -> Vec<String> {
    items.iter().map(|s| s.to_string()).collect()
}

fn assert_valid_cedar(policies: &str) {
    if !policies.is_empty() {
        policies.parse::<PolicySet>().unwrap_or_else(|e| {
            panic!("generated policies are not valid Cedar:\n{policies}\nerror: {e}")
        });
    }
}

#[test]
fn test_role_specific_tools() {
    let config = CedarAgentConfig {
        principal: PrincipalConfig {
            key: "user_id".to_string(),
            principal_type: "User".to_string(),
        },
        roles: Some(map(vec![("analyst", strings(&["search", "query_database"]))])),
        ..Default::default()
    };
    let policies = generate_policies(&config);
    assert_valid_cedar(&policies);
    assert!(policies.contains(
        "permit(principal in Agent::Role::\"analyst\", action == Agent::Action::\"search\", resource);"
    ));
    assert!(policies.contains(
        "permit(principal in Agent::Role::\"analyst\", action == Agent::Action::\"query_database\", resource);"
    ));
}

#[test]
fn test_wildcard_role() {
    let config = CedarAgentConfig {
        roles: Some(map(vec![("admin", strings(&["*"]))])),
        ..Default::default()
    };
    let policies = generate_policies(&config);
    assert_valid_cedar(&policies);
    assert!(policies.contains("permit(principal in Agent::Role::\"admin\", action, resource);"));
}

#[test]
fn test_restriction_policy() {
    let config = CedarAgentConfig {
        restrictions: Some(map(vec![(
            "query_database",
            Restriction {
                allowed_values: map(vec![(
                    "database",
                    vec![
                        AllowedValue::Str("analytics".to_string()),
                        AllowedValue::Str("reporting".to_string()),
                    ],
                )]),
            },
        )])),
        ..Default::default()
    };
    let policies = generate_policies(&config);
    assert_valid_cedar(&policies);
    assert!(policies.contains(
        "forbid(\n  principal,\n  action == Agent::Action::\"query_database\",\n  resource\n) when {\n  !(context.input has \"database\" && (context.input[\"database\"] == \"analytics\" || context.input[\"database\"] == \"reporting\"))\n};"
    ));
}

#[test]
fn test_rate_limit_per_tool() {
    let config = CedarAgentConfig {
        rate_limits: Some(map(vec![("send_email", 3)])),
        ..Default::default()
    };
    let policies = generate_policies(&config);
    assert_valid_cedar(&policies);
    assert!(policies.contains(
        "forbid(\n  principal,\n  action == Agent::Action::\"send_email\",\n  resource\n) when { context.session has \"call_count_send_email\" && context.session.call_count_send_email >= 3 };"
    ));
}

#[test]
fn test_rate_limit_global() {
    let config = CedarAgentConfig {
        rate_limits: Some(map(vec![("*", 100)])),
        ..Default::default()
    };
    let policies = generate_policies(&config);
    assert_valid_cedar(&policies);
    assert!(policies.contains(
        "forbid(\n  principal,\n  action,\n  resource\n) when { context.session has \"call_count\" && context.session.call_count >= 100 };"
    ));
}

#[test]
fn test_time_window_global() {
    let config = CedarAgentConfig {
        time_windows: Some(map(vec![(
            "*",
            TimeWindow {
                hour_start: 9,
                hour_end: 17,
            },
        )])),
        ..Default::default()
    };
    let policies = generate_policies(&config);
    assert_valid_cedar(&policies);
    assert!(policies.contains(
        "forbid(\n  principal,\n  action,\n  resource\n) when { context.session has \"hour_utc\" && (context.session.hour_utc < 9 || context.session.hour_utc >= 17) };"
    ));
}

#[test]
fn test_time_window_tool_scoped() {
    let config = CedarAgentConfig {
        time_windows: Some(map(vec![(
            "deploy",
            TimeWindow {
                hour_start: 9,
                hour_end: 17,
            },
        )])),
        ..Default::default()
    };
    let policies = generate_policies(&config);
    assert_valid_cedar(&policies);
    assert!(policies.contains(
        "forbid(\n  principal,\n  action == Agent::Action::\"deploy\",\n  resource\n) when { context.session has \"hour_utc\" && (context.session.hour_utc < 9 || context.session.hour_utc >= 17) };"
    ));
}

#[test]
fn test_env_denial_policy() {
    let config = CedarAgentConfig {
        deny_in_env: Some(map(vec![("production", strings(&["delete_record"]))])),
        ..Default::default()
    };
    let policies = generate_policies(&config);
    assert_valid_cedar(&policies);
    assert!(policies.contains(
        "forbid(\n  principal,\n  action == Agent::Action::\"delete_record\",\n  resource\n) when { context.session has \"environment\" && context.session.environment == \"production\" };"
    ));
}

#[test]
fn test_consent_all_roles() {
    let config = CedarAgentConfig {
        consent: Some(map(vec![("send_email", ConsentScope::AllRoles(true))])),
        ..Default::default()
    };
    let policies = generate_policies(&config);
    assert_valid_cedar(&policies);
    assert!(policies.contains(
        "permit(\n  principal,\n  action == Agent::Action::\"send_email\",\n  resource\n) when { context.session has \"user_consent\" && context.session.user_consent == true };"
    ));
}

#[test]
fn test_consent_specific_role() {
    let config = CedarAgentConfig {
        consent: Some(map(vec![(
            "send_email",
            ConsentScope::SpecificRoles(strings(&["analyst"])),
        )])),
        ..Default::default()
    };
    let policies = generate_policies(&config);
    assert_valid_cedar(&policies);
    assert!(policies.contains(
        "permit(\n  principal in Agent::Role::\"analyst\",\n  action == Agent::Action::\"send_email\",\n  resource\n) when { context.session has \"user_consent\" && context.session.user_consent == true };"
    ));
}

#[test]
fn test_consent_excludes_from_role_permit() {
    let config = CedarAgentConfig {
        roles: Some(map(vec![("analyst", strings(&["search", "send_email"]))])),
        consent: Some(map(vec![("send_email", ConsentScope::AllRoles(true))])),
        ..Default::default()
    };
    let policies = generate_policies(&config);
    assert_valid_cedar(&policies);
    // send_email should NOT appear in the role permit
    assert!(!policies.contains(
        "principal in Agent::Role::\"analyst\", action == Agent::Action::\"send_email\", resource);"
    ));
    // search should still be there
    assert!(policies.contains(
        "permit(principal in Agent::Role::\"analyst\", action == Agent::Action::\"search\", resource);"
    ));
}

#[test]
fn test_wildcard_with_consent_exclusion() {
    let config = CedarAgentConfig {
        roles: Some(map(vec![("admin", strings(&["*"]))])),
        consent: Some(map(vec![("send_email", ConsentScope::AllRoles(true))])),
        ..Default::default()
    };
    let policies = generate_policies(&config);
    assert_valid_cedar(&policies);
    assert!(policies.contains("!(action == Agent::Action::\"send_email\")"));
}

#[test]
fn test_empty_config_produces_no_policies() {
    let config = CedarAgentConfig::default();
    let policies = generate_policies(&config);
    assert!(policies.is_empty());
}

#[test]
fn test_empty_role_tools() {
    let config = CedarAgentConfig {
        roles: Some(map(vec![("empty", Vec::new())])),
        ..Default::default()
    };
    let policies = generate_policies(&config);
    assert!(policies.is_empty());
}

#[test]
fn test_escapes_special_chars() {
    let config = CedarAgentConfig {
        roles: Some(map(vec![("role\"evil", strings(&["tool\"inject"]))])),
        ..Default::default()
    };
    let policies = generate_policies(&config);
    assert_valid_cedar(&policies);
    assert!(policies.contains("Agent::Action::\"tool\\\"inject\""));
    assert!(policies.contains("Agent::Role::\"role\\\"evil\""));
}

#[test]
fn test_sanitize_counter_key() {
    assert_eq!(sanitize_counter_key("send_email"), "send_email");
    assert_eq!(sanitize_counter_key("my.tool-v2"), "my_tool_v2");
    assert_eq!(sanitize_counter_key("ns::action"), "ns__action");
    assert_eq!(sanitize_counter_key("tool with spaces"), "tool_with_spaces");
}

#[test]
fn test_rate_limit_special_chars_in_tool_name() {
    let config = CedarAgentConfig {
        rate_limits: Some(map(vec![("my.tool-v2", 10)])),
        ..Default::default()
    };
    let policies = generate_policies(&config);
    assert_valid_cedar(&policies);
    assert!(policies.contains("call_count_my_tool_v2"));
    assert!(!policies.contains("call_count_my.tool-v2"));
}

#[test]
fn test_format_cedar_value_types() {
    assert_eq!(
        format_cedar_value(&AllowedValue::Str("hello".to_string())),
        "\"hello\""
    );
    assert_eq!(format_cedar_value(&AllowedValue::Number("42".to_string())), "42");
    assert_eq!(format_cedar_value(&AllowedValue::Bool(true)), "true");
    assert_eq!(format_cedar_value(&AllowedValue::Bool(false)), "false");
    assert_eq!(
        format_cedar_value(&AllowedValue::Other("[1,2]".to_string())),
        "\"[1,2]\""
    );
}

#[test]
fn test_restriction_empty_allowed_values() {
    let config = CedarAgentConfig {
        restrictions: Some(map(vec![(
            "dangerous_tool",
            Restriction {
                allowed_values: StrMap::new(),
            },
        )])),
        ..Default::default()
    };
    let policies = generate_policies(&config);
    assert_valid_cedar(&policies);
    assert!(policies.contains(
        "forbid(\n  principal,\n  action == Agent::Action::\"dangerous_tool\",\n  resource\n);"
    ));
}

#[test]
fn test_env_denial_wildcard_tools() {
    let config = CedarAgentConfig {
        deny_in_env: Some(map(vec![("staging", strings(&["*"]))])),
        ..Default::default()
    };
    let policies = generate_policies(&config);
    assert_valid_cedar(&policies);
    assert!(policies.contains("action,"));
    assert!(policies.contains("\"staging\""));
}

#[test]
fn test_consent_false_produces_no_policies() {
    let config = CedarAgentConfig {
        consent: Some(map(vec![("send_email", ConsentScope::AllRoles(false))])),
        ..Default::default()
    };
    let policies = generate_policies(&config);
    assert!(policies.is_empty());
}

#[test]
fn test_restriction_with_number_value() {
    let config = CedarAgentConfig {
        restrictions: Some(map(vec![(
            "query",
            Restriction {
                allowed_values: map(vec![(
                    "limit",
                    vec![
                        AllowedValue::Number("100".to_string()),
                        AllowedValue::Number("500".to_string()),
                    ],
                )]),
            },
        )])),
        ..Default::default()
    };
    let policies = generate_policies(&config);
    assert_valid_cedar(&policies);
    assert!(policies.contains("context.input[\"limit\"] == 100"));
    assert!(policies.contains("context.input[\"limit\"] == 500"));
}

#[test]
fn policies_are_separated_by_blank_lines_in_rule_order() {
    let config = CedarAgentConfig {
        roles: Some(map(vec![("b", strings(&["t2"])), ("a", strings(&["t1"]))])),
        rate_limits: Some(map(vec![("t1", 7)])),
        ..Default::default()
    };
    let policies = generate_policies(&config);
    assert_eq!(
        policies,
        "permit(principal in Agent::Role::\"a\", action == Agent::Action::\"t1\", resource);\n\n\
         permit(principal in Agent::Role::\"b\", action == Agent::Action::\"t2\", resource);\n\n\
         forbid(\n  principal,\n  action == Agent::Action::\"t1\",\n  resource\n) when { context.session has \"call_count_t1\" && context.session.call_count_t1 >= 7 };"
    );
}

#[test]
fn sanitize_keeps_length_and_maps_non_ascii() {
    assert_eq!(sanitize_counter_key("é-x"), "__x");
    assert_eq!(sanitize_counter_key(""), "");
    assert_eq!(sanitize_counter_key("AZaz09"), "AZaz09");
}

#[test]
fn large_rate_limit_is_written_in_decimal() {
    let config = CedarAgentConfig {
        rate_limits: Some(map(vec![("*", u64::MAX)])),
        ..Default::default()
    };
    let policies = generate_policies(&config);
    assert!(policies.contains("call_count >= 18446744073709551615 };"));
}
