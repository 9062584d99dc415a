use cedar_agents::generator::stub::{erase_annotations, DeclKind};

#[test]
fn erasing_marks_keeps_the_rest_and_is_idempotent() {
    let annos = vec![
        ("mcp_principal".to_string(), Some("User".to_string())),
        ("doc".to_string(), None),
        ("mcp_context".to_string(), Some("session".to_string())),
        ("owner".to_string(), Some("team".to_string())),
    ];
    let once = erase_annotations(annos, DeclKind::EntityType);
    assert_eq!(
        once,
        vec![("doc".to_string(), None), ("owner".to_string(), Some("team".to_string()))]
    );
    let twice = erase_annotations(once.clone(), DeclKind::EntityType);
    assert_eq!(twice, once);
    let action = erase_annotations(vec![("mcp_action".to_string(), None), ("mcp_context".to_string(), None)], DeclKind::Action);
    assert_eq!(action, vec![("mcp_context".to_string(), None)]);
}
