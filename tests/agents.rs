use promption::agents::{
    parse_permission, parse_permissions, parse_tools, validate_agent_name, AgentError, AgentTable,
    AgentUpdate,
};
use promption::model::{AgentModeArg, Permission, resolution, Resolution};

fn strings(v: &[&str]) -> Vec<String> {
    v.iter().map(|s| s.to_string()).collect()
}

fn no_change() -> AgentUpdate {
    AgentUpdate {
        name: None,
        mode: None,
        model: None,
        clear_model: false,
        prompt: None,
        clear_prompt: false,
        tools: vec![],
        clear_tools: false,
        permissions: vec![],
        clear_permissions: false,
    }
}

fn table_with(names: &[&str]) -> AgentTable {
    let mut t = AgentTable::new();
    for (i, n) in names.iter().enumerate() {
        t.create_agent_with_id(format!("id-{}", i), n.to_string(), AgentModeArg::Subagent, None, None, &[], &[])
            .unwrap();
    }
    t
}

#[test]
fn mode_names() {
    assert_eq!(AgentModeArg::Primary.as_str(), "primary");
    assert_eq!(AgentModeArg::Subagent.as_str(), "subagent");
}

#[test]
fn agent_name_validation() {
    assert!(validate_agent_name("my-agent").is_ok());
    assert!(validate_agent_name("a1-b2-c3").is_ok());
    assert!(validate_agent_name("My Agent").is_err());
    assert!(validate_agent_name("").is_err());
    assert!(validate_agent_name("-a").is_err());
    assert!(validate_agent_name("a-").is_err());
    assert!(validate_agent_name("a--b").is_err());
    assert!(validate_agent_name("a_b").is_err());
    assert!(validate_agent_name("ok\n").is_err());
    assert!(validate_agent_name(&"a".repeat(255)).is_ok());
    assert_eq!(
        validate_agent_name(&"a".repeat(256)).unwrap_err(),
        "Agent name exceeds maximum length of 255 characters"
    );
}

#[test]
fn tools_become_an_enabled_map() {
    assert!(parse_tools(&[]).is_none());
    let v = parse_tools(&strings(&["write", "edit", "write"])).unwrap();
    assert_eq!(v, vec![("write".to_string(), true), ("edit".to_string(), true)]);
}

#[test]
fn permission_entries() {
    assert_eq!(parse_permission("edit:ask"), Some(("edit".to_string(), Permission::Ask)));
    assert_eq!(parse_permission("bash:deny"), Some(("bash".to_string(), Permission::Deny)));
    assert_eq!(parse_permission("bash"), None);
    assert_eq!(parse_permission("a:b:allow"), None);
    assert_eq!(parse_permission("x:maybe"), None);
    assert_eq!(parse_permission(":allow"), Some((String::new(), Permission::Allow)));
}

#[test]
fn malformed_permissions_are_skipped() {
    assert!(parse_permissions(&[]).is_none());
    assert!(parse_permissions(&strings(&["bad", "x:maybe"])).is_none());
    let v = parse_permissions(&strings(&["edit:ask", "bad", "bash:allow", "edit:deny"])).unwrap();
    assert_eq!(
        v,
        vec![("edit".to_string(), Permission::Deny), ("bash".to_string(), Permission::Allow)]
    );
}

#[test]
fn create_validates_and_refuses_duplicates() {
    let mut t = AgentTable::new();
    assert!(matches!(
        t.create_agent_cli("My Agent".to_string(), AgentModeArg::Subagent, None, None, &[], &[]),
        Err(AgentError::Validation(_))
    ));
    assert!(t.rows.is_empty());
    let i = t
        .create_agent_cli(
            "my-agent".to_string(),
            AgentModeArg::Primary,
            Some("m1".to_string()),
            Some("be brief".to_string()),
            &strings(&["bash"]),
            &strings(&["edit:ask"]),
        )
        .unwrap();
    assert_eq!(i, 0);
    let a = &t.rows[0];
    assert_eq!(a.id.len(), 36);
    assert_eq!(a.name, "my-agent");
    assert_eq!(a.mode, "primary");
    assert_eq!(a.model.as_deref(), Some("m1"));
    assert_eq!(a.prompt_content.as_deref(), Some("be brief"));
    assert_eq!(a.tools_config, Some(vec![("bash".to_string(), true)]));
    assert_eq!(a.permissions_config, Some(vec![("edit".to_string(), Permission::Ask)]));
    assert!(matches!(
        t.create_agent_cli("my-agent".to_string(), AgentModeArg::Subagent, None, None, &[], &[]),
        Err(AgentError::Conflict)
    ));
    assert_eq!(t.rows.len(), 1);
}

#[test]
fn an_id_in_use_is_refused() {
    let mut t = table_with(&["alpha"]);
    let r = t.create_agent_with_id("id-0".to_string(), "beta".to_string(), AgentModeArg::Primary, None, None, &[], &[]);
    assert!(matches!(r, Err(AgentError::Conflict)));
    assert_eq!(t.rows.len(), 1);
}

#[test]
fn lookup_by_id_or_name() {
    let t = table_with(&["alpha", "beta"]);
    assert_eq!(t.get_agent_by_id_or_name("beta"), Some(1));
    assert_eq!(t.get_agent_by_id_or_name("id-0"), Some(0));
    assert_eq!(t.get_agent_by_id_or_name("gamma"), None);
}

#[test]
fn clear_flag_wins_over_a_new_model() {
    let mut t = table_with(&["alpha"]);
    let mut u = no_change();
    u.model = Some("m2".to_string());
    assert!(t.update_agent_cli("alpha", u).is_ok());
    assert_eq!(t.rows[0].model.as_deref(), Some("m2"));
    let mut u = no_change();
    u.model = Some("m3".to_string());
    u.clear_model = true;
    assert_eq!(t.update_agent_cli("alpha", u).unwrap(), 0);
    assert_eq!(t.rows[0].model, None);
}

#[test]
fn update_sets_only_supplied_fields() {
    let mut t = table_with(&["alpha"]);
    let mut u = no_change();
    u.name = Some("alpha-two".to_string());
    u.mode = Some(AgentModeArg::Primary);
    u.prompt = Some("p".to_string());
    u.tools = strings(&["read"]);
    u.permissions = strings(&["nonsense"]);
    t.update_agent_cli("id-0", u).unwrap();
    let a = &t.rows[0];
    assert_eq!(a.id, "id-0");
    assert_eq!(a.name, "alpha-two");
    assert_eq!(a.mode, "primary");
    assert_eq!(a.prompt_content.as_deref(), Some("p"));
    assert_eq!(a.tools_config, Some(vec![("read".to_string(), true)]));
    assert_eq!(a.permissions_config, None);
    let mut u = no_change();
    u.clear_tools = true;
    u.tools = strings(&["write"]);
    u.clear_prompt = true;
    t.update_agent_cli("alpha-two", u).unwrap();
    assert_eq!(t.rows[0].tools_config, None);
    assert_eq!(t.rows[0].prompt_content, None);
    assert_eq!(t.rows[0].mode, "primary");
}

#[test]
fn update_refusals_change_nothing() {
    let mut t = table_with(&["alpha", "beta"]);
    assert!(matches!(t.update_agent_cli("nobody", no_change()), Err(AgentError::NotFound)));
    let mut u = no_change();
    u.name = Some("Bad Name".to_string());
    assert!(matches!(t.update_agent_cli("alpha", u), Err(AgentError::Validation(_))));
    let mut u = no_change();
    u.name = Some("beta".to_string());
    assert!(matches!(t.update_agent_cli("alpha", u), Err(AgentError::Conflict)));
    assert_eq!(t.rows[0].name, "alpha");
    assert_eq!(t.rows[1].name, "beta");
}

#[test]
fn delete_missing_agent_is_not_found() {
    let mut t = table_with(&["alpha", "beta"]);
    assert!(matches!(t.delete_agent_cli("gamma"), Err(AgentError::NotFound)));
    assert_eq!(t.rows.len(), 2);
    assert_eq!(t.rows[0].name, "alpha");
    assert_eq!(t.rows[1].name, "beta");
    let gone = t.delete_agent_cli("alpha").unwrap();
    assert_eq!(gone.name, "alpha");
    assert_eq!(t.rows.len(), 1);
    assert_eq!(t.rows[0].name, "beta");
}

#[test]
fn request_resolution() {
    assert_eq!(resolution(0, 0), Resolution::NothingRequested);
    assert_eq!(resolution(3, 0), Resolution::NothingFound);
    assert_eq!(resolution(3, 2), Resolution::Partial);
    assert_eq!(resolution(2, 2), Resolution::Complete);
}
