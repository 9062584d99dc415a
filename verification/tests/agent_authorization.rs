use cedar_agents::agent::builder::CedarAgentPolicyBuilder;
use cedar_agents::agent::config::AllowedValue;
use cedar_agents::agent::entities::{EntityJson, EntityUid};
use cedar_agents::agent::BuildResult;
use cedar_agents::strmap::StrMap;
use cedar_policy::{Authorizer, Context, Entities, EntityUid as CedarUid, PolicySet, Request};
use serde_json::Value;
use std::str::FromStr;

fn authorize(
    policies: &str,
    entities_json: &str,
    principal: &str,
    action: &str,
    resource: &str,
    context: Value,
) -> cedar_policy::Decision {
    let policy_set: PolicySet = policies.parse().expect("policies should parse");
    let entities = Entities::from_json_str(entities_json, None).expect("entities should parse");
    let principal = CedarUid::from_str(principal).expect("principal should parse");
    let action = CedarUid::from_str(action).expect("action should parse");
    let resource = CedarUid::from_str(resource).expect("resource should parse");
    let context = Context::from_json_value(context, None).expect("context should parse");
    let request =
        Request::new(principal, action, resource, context, None).expect("request should build");
    let authorizer = Authorizer::new();
    authorizer
        .is_authorized(&request, &policy_set, &entities)
        .decision()
}

fn uid_json(u: &EntityUid) -> Value {
    let mut m = serde_json::Map::new();
    m.insert("type".to_string(), Value::String(u.entity_type.clone()));
    m.insert("id".to_string(), Value::String(u.id.clone()));
    Value::Object(m)
}

fn entity_values(entities: &[EntityJson]) -> Vec<Value> {
    entities
        .iter()
        .map(|e| {
            let mut m = serde_json::Map::new();
            m.insert("uid".to_string(), uid_json(&e.uid));
            m.insert("attrs".to_string(), Value::Object(serde_json::Map::new()));
            m.insert(
                "parents".to_string(),
                Value::Array(e.parents.iter().map(uid_json).collect()),
            );
            Value::Object(m)
        })
        .collect()
}

fn entities_to_json(entities: &[EntityJson]) -> String {
    serde_json::to_string(&entity_values(entities)).expect("entities should serialize")
}

fn ctx(text: &str) -> Value {
    serde_json::from_str(text).expect("context should be JSON")
}

fn allowed(field: &str, values: &[&str]) -> StrMap<Vec<AllowedValue>> {
    let mut m = StrMap::new();
    m.insert(
        field.to_string(),
        values.iter().map(|v| AllowedValue::Str(v.to_string())).collect(),
    );
    m
}

fn built(builder: CedarAgentPolicyBuilder) -> BuildResult {
    builder.build(Ok(None))
}

#[test]
fn test_admin_allowed_any_action() {
    let result = built(
        CedarAgentPolicyBuilder::new()
        .role("admin", &["*"])
        .user("alice", &["admin"]),
    );

    let decision = authorize(
        &result.policies,
        &entities_to_json(&result.entities),
        "Agent::User::\"alice\"",
        "Agent::Action::\"any_tool\"",
        "Agent::Resource::\"default\"",
        ctx(r#"{}"#),
    );
    assert_eq!(decision, cedar_policy::Decision::Allow);
}

#[test]
fn test_unknown_user_denied() {
    let result = built(
        CedarAgentPolicyBuilder::new()
        .role("admin", &["*"])
        .user("alice", &["admin"]),
    );

    let entities_json = entities_to_json(&result.entities);
    let entities_with_bob = {
        let mut ents: Vec<serde_json::Value> = serde_json::from_str(&entities_json).expect("parse");
        ents.push(ctx(
            r#"{"uid": {"type": "Agent::User", "id": "bob"}, "attrs": {}, "parents": []}"#,
        ));
        serde_json::to_string(&ents).expect("serialize")
    };

    let decision = authorize(
        &result.policies,
        &entities_with_bob,
        "Agent::User::\"bob\"",
        "Agent::Action::\"search\"",
        "Agent::Resource::\"default\"",
        ctx(r#"{}"#),
    );
    assert_eq!(decision, cedar_policy::Decision::Deny);
}

#[test]
fn test_role_scoped_to_specific_tools() {
    let result = built(
        CedarAgentPolicyBuilder::new()
        .role("analyst", &["search", "query"])
        .user("bob", &["analyst"]),
    );

    let entities_json = entities_to_json(&result.entities);

    let allowed = authorize(
        &result.policies,
        &entities_json,
        "Agent::User::\"bob\"",
        "Agent::Action::\"search\"",
        "Agent::Resource::\"default\"",
        ctx(r#"{}"#),
    );
    assert_eq!(allowed, cedar_policy::Decision::Allow);

    let denied = authorize(
        &result.policies,
        &entities_json,
        "Agent::User::\"bob\"",
        "Agent::Action::\"delete\"",
        "Agent::Resource::\"default\"",
        ctx(r#"{}"#),
    );
    assert_eq!(denied, cedar_policy::Decision::Deny);
}

#[test]
fn test_rate_limit_denies_when_exceeded() {
    let result = built(
        CedarAgentPolicyBuilder::new()
        .role("user", &["send_email"])
        .user("alice", &["user"])
        .rate_limit("send_email", 5)
        .unwrap(),
    );

    let entities_json = entities_to_json(&result.entities);

    let under_limit = authorize(
        &result.policies,
        &entities_json,
        "Agent::User::\"alice\"",
        "Agent::Action::\"send_email\"",
        "Agent::Resource::\"default\"",
        ctx(r#"{"session": {"call_count_send_email": 3}}"#),
    );
    assert_eq!(under_limit, cedar_policy::Decision::Allow);

    let at_limit = authorize(
        &result.policies,
        &entities_json,
        "Agent::User::\"alice\"",
        "Agent::Action::\"send_email\"",
        "Agent::Resource::\"default\"",
        ctx(r#"{"session": {"call_count_send_email": 5}}"#),
    );
    assert_eq!(at_limit, cedar_policy::Decision::Deny);
}

#[test]
fn test_time_window_denies_outside_hours() {
    let result = built(
        CedarAgentPolicyBuilder::new()
        .role("user", &["deploy"])
        .user("alice", &["user"])
        .time_window("deploy", (9, 17))
        .unwrap(),
    );

    let entities_json = entities_to_json(&result.entities);

    let within_hours = authorize(
        &result.policies,
        &entities_json,
        "Agent::User::\"alice\"",
        "Agent::Action::\"deploy\"",
        "Agent::Resource::\"default\"",
        ctx(r#"{"session": {"hour_utc": 12}}"#),
    );
    assert_eq!(within_hours, cedar_policy::Decision::Allow);

    let outside_hours = authorize(
        &result.policies,
        &entities_json,
        "Agent::User::\"alice\"",
        "Agent::Action::\"deploy\"",
        "Agent::Resource::\"default\"",
        ctx(r#"{"session": {"hour_utc": 20}}"#),
    );
    assert_eq!(outside_hours, cedar_policy::Decision::Deny);
}

#[test]
fn test_env_denial_blocks_in_production() {
    let result = built(
        CedarAgentPolicyBuilder::new()
        .role("admin", &["*"])
        .user("alice", &["admin"])
        .deny_in_env("production", &["delete"]),
    );

    let entities_json = entities_to_json(&result.entities);

    let in_prod = authorize(
        &result.policies,
        &entities_json,
        "Agent::User::\"alice\"",
        "Agent::Action::\"delete\"",
        "Agent::Resource::\"default\"",
        ctx(r#"{"session": {"environment": "production"}}"#),
    );
    assert_eq!(in_prod, cedar_policy::Decision::Deny);

    let in_staging = authorize(
        &result.policies,
        &entities_json,
        "Agent::User::\"alice\"",
        "Agent::Action::\"delete\"",
        "Agent::Resource::\"default\"",
        ctx(r#"{"session": {"environment": "staging"}}"#),
    );
    assert_eq!(in_staging, cedar_policy::Decision::Allow);
}

#[test]
fn test_consent_required_before_action() {
    let result = built(
        CedarAgentPolicyBuilder::new()
        .role("user", &["search", "send_email"])
        .user("alice", &["user"])
        .consent_all("send_email"),
    );

    let entities_json = entities_to_json(&result.entities);

    let without_consent = authorize(
        &result.policies,
        &entities_json,
        "Agent::User::\"alice\"",
        "Agent::Action::\"send_email\"",
        "Agent::Resource::\"default\"",
        ctx(r#"{"session": {}}"#),
    );
    assert_eq!(without_consent, cedar_policy::Decision::Deny);

    let with_consent = authorize(
        &result.policies,
        &entities_json,
        "Agent::User::\"alice\"",
        "Agent::Action::\"send_email\"",
        "Agent::Resource::\"default\"",
        ctx(r#"{"session": {"user_consent": true}}"#),
    );
    assert_eq!(with_consent, cedar_policy::Decision::Allow);

    let other_tool_no_consent_needed = authorize(
        &result.policies,
        &entities_json,
        "Agent::User::\"alice\"",
        "Agent::Action::\"search\"",
        "Agent::Resource::\"default\"",
        ctx(r#"{}"#),
    );
    assert_eq!(other_tool_no_consent_needed, cedar_policy::Decision::Allow);
}

#[test]
fn test_restriction_enforces_allowed_values() {
    let result = built(
        CedarAgentPolicyBuilder::new()
        .role("analyst", &["query"])
        .user("bob", &["analyst"])
        .restrict(
            "query",
            allowed("database", &["analytics"]),
        ),
    );

    let entities_json = entities_to_json(&result.entities);

    let allowed_db = authorize(
        &result.policies,
        &entities_json,
        "Agent::User::\"bob\"",
        "Agent::Action::\"query\"",
        "Agent::Resource::\"default\"",
        ctx(r#"{"input": {"database": "analytics"}}"#),
    );
    assert_eq!(allowed_db, cedar_policy::Decision::Allow);

    let disallowed_db = authorize(
        &result.policies,
        &entities_json,
        "Agent::User::\"bob\"",
        "Agent::Action::\"query\"",
        "Agent::Resource::\"default\"",
        ctx(r#"{"input": {"database": "production"}}"#),
    );
    assert_eq!(disallowed_db, cedar_policy::Decision::Deny);
}

#[test]
fn test_custom_namespace_and_principal_type() {
    let result = built(
        CedarAgentPolicyBuilder::new()
        .namespace("MyApp")
        .unwrap()
        .principal("sub", "Agent")
        .unwrap()
        .role("admin", &["*"])
        .user("alice", &["admin"]),
    );

    let entities_json = entities_to_json(&result.entities);

    let decision = authorize(
        &result.policies,
        &entities_json,
        "MyApp::Agent::\"alice\"",
        "MyApp::Action::\"anything\"",
        "MyApp::Resource::\"default\"",
        ctx(r#"{}"#),
    );
    assert_eq!(decision, cedar_policy::Decision::Allow);
}

#[test]
fn test_multi_role_user_inherits_all_permissions() {
    let result = built(
        CedarAgentPolicyBuilder::new()
        .role("reader", &["search"])
        .role("writer", &["create", "update"])
        .user("charlie", &["reader", "writer"]),
    );

    let entities_json = entities_to_json(&result.entities);

    for action in &["search", "create", "update"] {
        let decision = authorize(
            &result.policies,
            &entities_json,
            "Agent::User::\"charlie\"",
            &format!("Agent::Action::\"{action}\""),
            "Agent::Resource::\"default\"",
            ctx(r#"{}"#),
        );
        assert_eq!(
            decision,
            cedar_policy::Decision::Allow,
            "charlie should be allowed {action}"
        );
    }

    let denied = authorize(
        &result.policies,
        &entities_json,
        "Agent::User::\"charlie\"",
        "Agent::Action::\"delete\"",
        "Agent::Resource::\"default\"",
        ctx(r#"{}"#),
    );
    assert_eq!(denied, cedar_policy::Decision::Deny);
}

#[test]
fn test_combined_policies_all_interact_correctly() {
    let result = built(
        CedarAgentPolicyBuilder::new()
        .namespace("Agent")
        .unwrap()
        .principal("sub", "User")
        .unwrap()
        .role("admin", &["*"])
        .role("analyst", &["search", "query", "send_email"])
        .user("alice", &["admin"])
        .user("bob", &["analyst"])
        .rate_limit("send_email", 3)
        .unwrap()
        .time_window("*", (9, 17))
        .unwrap()
        .consent_all("send_email")
        .deny_in_env("production", &["delete"])
        .restrict(
            "query",
            allowed("database", &["analytics", "reporting"]),
        ),
    );

    let entities_json = entities_to_json(&result.entities);

    // Admin can do anything in working hours
    let admin_ok = authorize(
        &result.policies,
        &entities_json,
        "Agent::User::\"alice\"",
        "Agent::Action::\"search\"",
        "Agent::Resource::\"default\"",
        ctx(r#"{"session": {"hour_utc": 10}}"#),
    );
    assert_eq!(admin_ok, cedar_policy::Decision::Allow);

    // Admin blocked outside hours
    let admin_after_hours = authorize(
        &result.policies,
        &entities_json,
        "Agent::User::\"alice\"",
        "Agent::Action::\"search\"",
        "Agent::Resource::\"default\"",
        ctx(r#"{"session": {"hour_utc": 22}}"#),
    );
    assert_eq!(admin_after_hours, cedar_policy::Decision::Deny);

    // Admin blocked from delete in production
    let admin_delete_prod = authorize(
        &result.policies,
        &entities_json,
        "Agent::User::\"alice\"",
        "Agent::Action::\"delete\"",
        "Agent::Resource::\"default\"",
        ctx(r#"{"session": {"hour_utc": 10, "environment": "production"}}"#),
    );
    assert_eq!(admin_delete_prod, cedar_policy::Decision::Deny);

    // Analyst can search in working hours
    let analyst_search = authorize(
        &result.policies,
        &entities_json,
        "Agent::User::\"bob\"",
        "Agent::Action::\"search\"",
        "Agent::Resource::\"default\"",
        ctx(r#"{"session": {"hour_utc": 10}}"#),
    );
    assert_eq!(analyst_search, cedar_policy::Decision::Allow);

    // Analyst query with allowed database works
    let analyst_query_ok = authorize(
        &result.policies,
        &entities_json,
        "Agent::User::\"bob\"",
        "Agent::Action::\"query\"",
        "Agent::Resource::\"default\"",
        ctx(r#"{"session": {"hour_utc": 10}, "input": {"database": "analytics"}}"#),
    );
    assert_eq!(analyst_query_ok, cedar_policy::Decision::Allow);

    // Analyst query with disallowed database blocked
    let analyst_query_bad = authorize(
        &result.policies,
        &entities_json,
        "Agent::User::\"bob\"",
        "Agent::Action::\"query\"",
        "Agent::Resource::\"default\"",
        ctx(r#"{"session": {"hour_utc": 10}, "input": {"database": "users"}}"#),
    );
    assert_eq!(analyst_query_bad, cedar_policy::Decision::Deny);

    // Analyst send_email needs consent AND under rate limit
    let analyst_email_with_consent = authorize(
        &result.policies,
        &entities_json,
        "Agent::User::\"bob\"",
        "Agent::Action::\"send_email\"",
        "Agent::Resource::\"default\"",
        ctx(r#"{"session": {"hour_utc": 10, "user_consent": true, "call_count_send_email": 2}}"#),
    );
    assert_eq!(analyst_email_with_consent, cedar_policy::Decision::Allow);

    // Analyst send_email over rate limit blocked
    let analyst_email_over_limit = authorize(
        &result.policies,
        &entities_json,
        "Agent::User::\"bob\"",
        "Agent::Action::\"send_email\"",
        "Agent::Resource::\"default\"",
        ctx(r#"{"session": {"hour_utc": 10, "user_consent": true, "call_count_send_email": 3}}"#),
    );
    assert_eq!(analyst_email_over_limit, cedar_policy::Decision::Deny);
}

#[test]
fn test_consent_all_does_not_grant_to_unauthorized_roles() {
    let result = built(
        CedarAgentPolicyBuilder::new()
        .role("sender", &["send_email", "search"])
        .role("viewer", &["search"])
        .user("alice", &["sender"])
        .user("bob", &["viewer"])
        .consent_all("send_email"),
    );

    let entities_json = entities_to_json(&result.entities);

    let alice_allowed = authorize(
        &result.policies,
        &entities_json,
        "Agent::User::\"alice\"",
        "Agent::Action::\"send_email\"",
        "Agent::Resource::\"default\"",
        ctx(r#"{"session": {"user_consent": true}}"#),
    );
    assert_eq!(alice_allowed, cedar_policy::Decision::Allow);

    let bob_denied = authorize(
        &result.policies,
        &entities_json,
        "Agent::User::\"bob\"",
        "Agent::Action::\"send_email\"",
        "Agent::Resource::\"default\"",
        ctx(r#"{"session": {"user_consent": true}}"#),
    );
    assert_eq!(bob_denied, cedar_policy::Decision::Deny);
}

#[test]
fn test_consent_all_denies_unknown_principal() {
    let result = built(
        CedarAgentPolicyBuilder::new()
        .role("user", &["send_email"])
        .user("alice", &["user"])
        .consent_all("send_email"),
    );

    let mut ents = entity_values(&result.entities);
    ents.push(ctx(r#"{"uid": {"type": "Agent::User", "id": "eve"}, "attrs": {}, "parents": []}"#));
    let entities_with_eve = serde_json::to_string(&ents).expect("serialize");

    let eve_denied = authorize(
        &result.policies,
        &entities_with_eve,
        "Agent::User::\"eve\"",
        "Agent::Action::\"send_email\"",
        "Agent::Resource::\"default\"",
        ctx(r#"{"session": {"user_consent": true}}"#),
    );
    assert_eq!(eve_denied, cedar_policy::Decision::Deny);
}

#[test]
fn consent_for_a_role_without_the_tool_adds_nothing() {
    let result = built(
        CedarAgentPolicyBuilder::new()
        .role("viewer", &["search"])
        .user("bob", &["viewer"])
        .consent_for_roles("send_email", &["viewer"]),
    );
    let decision = authorize(
        &result.policies,
        &entities_to_json(&result.entities),
        "Agent::User::\"bob\"",
        "Agent::Action::\"send_email\"",
        "Agent::Resource::\"default\"",
        ctx(r#"{"session": {"user_consent": true}}"#),
    );
    assert_eq!(decision, cedar_policy::Decision::Deny);
}
