use cedar_agents::agent::config::{CedarAgentConfig, ResourceConfig};
use cedar_agents::agent::entities::{generate_entities, EntityUid};
use cedar_agents::strmap::StrMap;

fn map<V>(entries: Vec<(&str, V)>) -> StrMap<V> {
    let mut m = StrMap::new();
    for (k, v) in entries {
        m.insert(k.to_string(), v);
    }
    m
}

fn strings(items: &[&str]) -> Vec<String> {
    items.iter().map(|s| s.to_string()).collect()
}

fn role_uid(id: &str) -> (String, String) {
    ("Agent::Role".to_string(), id.to_string())
}

fn uid_pair(u: &EntityUid) -> (String, String) {
    (u.entity_type.clone(), u.id.clone())
}

#[test]
fn test_entities_with_roles() {
    let config = CedarAgentConfig {
        roles: Some(map(vec![
            ("admin", strings(&["*"])),
            ("analyst", strings(&["search"])),
        ])),
        ..Default::default()
    };
    let entities = generate_entities(&config);
    assert_eq!(entities.len(), 3);

    let admin = entities.iter().find(|e| e.uid.id == "admin").unwrap();
    assert_eq!(admin.uid.entity_type, "Agent::Role");

    let analyst = entities.iter().find(|e| e.uid.id == "analyst").unwrap();
    assert_eq!(analyst.uid.entity_type, "Agent::Role");

    let resource = entities.iter().find(|e| e.uid.id == "default").unwrap();
    assert_eq!(resource.uid.entity_type, "Agent::Resource");
}

#[test]
fn test_entities_default_resource() {
    let config = CedarAgentConfig::default();
    let entities = generate_entities(&config);
    assert_eq!(entities.len(), 1);
    assert_eq!(entities[0].uid.entity_type, "Agent::Resource");
    assert_eq!(entities[0].uid.id, "default");
}

#[test]
fn test_entities_custom_resource() {
    let config = CedarAgentConfig {
        resource: Some(ResourceConfig {
            resource_type: "ApiGateway".to_string(),
            id: "prod".to_string(),
        }),
        ..Default::default()
    };
    let entities = generate_entities(&config);
    assert_eq!(entities.len(), 1);
    assert_eq!(entities[0].uid.entity_type, "Agent::ApiGateway");
    assert_eq!(entities[0].uid.id, "prod");
}

#[test]
fn test_entities_with_users() {
    let config = CedarAgentConfig {
        roles: Some(map(vec![
            ("admin", strings(&["*"])),
            ("analyst", strings(&["search"])),
        ])),
        users: Some(map(vec![
            ("alice", strings(&["admin"])),
            ("bob", strings(&["analyst"])),
        ])),
        ..Default::default()
    };
    let entities = generate_entities(&config);
    // 2 roles + 2 users + 1 resource = 5
    assert_eq!(entities.len(), 5);

    let alice = entities.iter().find(|e| e.uid.id == "alice").unwrap();
    assert_eq!(alice.uid.entity_type, "Agent::User");
    let parents: Vec<(String, String)> = alice.parents.iter().map(uid_pair).collect();
    assert_eq!(parents, vec![role_uid("admin")]);

    let bob = entities.iter().find(|e| e.uid.id == "bob").unwrap();
    assert_eq!(bob.uid.entity_type, "Agent::User");
    let parents: Vec<(String, String)> = bob.parents.iter().map(uid_pair).collect();
    assert_eq!(parents, vec![role_uid("analyst")]);
}

#[test]
fn test_entities_multi_role_user() {
    let config = CedarAgentConfig {
        roles: Some(map(vec![
            ("admin", strings(&["*"])),
            ("developer", strings(&["deploy"])),
        ])),
        users: Some(map(vec![("charlie", strings(&["admin", "developer"]))])),
        ..Default::default()
    };
    let entities = generate_entities(&config);
    let charlie = entities.iter().find(|e| e.uid.id == "charlie").unwrap();
    assert_eq!(charlie.parents.len(), 2);
    let parents: Vec<(String, String)> = charlie.parents.iter().map(uid_pair).collect();
    assert!(parents.contains(&role_uid("admin")));
    assert!(parents.contains(&role_uid("developer")));
}

#[test]
fn entities_come_in_order_roles_users_resource() {
    let config = CedarAgentConfig {
        namespace: "App".to_string(),
        roles: Some(map(vec![("b", Vec::new()), ("a", Vec::new())])),
        users: Some(map(vec![("u", strings(&["a"]))])),
        ..Default::default()
    };
    let entities = generate_entities(&config);
    let uids: Vec<(String, String)> = entities.iter().map(|e| uid_pair(&e.uid)).collect();
    assert_eq!(
        uids,
        vec![
            ("App::Role".to_string(), "a".to_string()),
            ("App::Role".to_string(), "b".to_string()),
            ("App::User".to_string(), "u".to_string()),
            ("App::Resource".to_string(), "default".to_string()),
        ]
    );
    assert!(entities.iter().all(|e| e.attrs.is_empty()));
}
