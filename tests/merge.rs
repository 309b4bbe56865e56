use promption::merge::{read_config, sync_agents_to_opencode, MergeError};
use promption::model::{Agent, Permission};
use promption::targets::FsOp;
use serde_json::Value;

fn agent(name: &str, mode: &str, model: Option<&str>, prompt: Option<&str>) -> Agent {
    Agent {
        id: format!("id-{}", name),
        name: name.to_string(),
        mode: mode.to_string(),
        model: model.map(|s| s.to_string()),
        prompt_content: prompt.map(|s| s.to_string()),
        tools_config: None,
        permissions_config: None,
    }
}

fn config_text(ops: &[FsOp]) -> String {
    match ops.last().unwrap() {
        FsOp::Write { path, content } => {
            assert_eq!(path, "opencode.json");
            content.clone()
        }
        other => panic!("unexpected last operation {:?}", other),
    }
}

#[test]
fn merging_again_keeps_other_agents() {
    let alpha = agent("alpha", "subagent", Some("m1"), None);
    let beta = agent("beta", "primary", None, Some("be nice"));
    let first = sync_agents_to_opencode(None, &[alpha, beta]).unwrap();
    let t1 = config_text(&first);
    let alpha2 = agent("alpha", "primary", Some("m2"), None);
    let second = sync_agents_to_opencode(Some(t1.clone()), &[alpha2]).unwrap();
    let t2 = config_text(&second);
    let v1: Value = serde_json::from_str(&t1).unwrap();
    let v2: Value = serde_json::from_str(&t2).unwrap();
    assert_eq!(v2["agent"]["beta"], v1["agent"]["beta"]);
    assert_eq!(v2["agent"]["beta"]["prompt"], "{file:.opencode/prompts/beta.txt}");
    assert_eq!(v2["agent"]["alpha"]["model"], "m2");
    assert_eq!(v2["agent"]["alpha"]["mode"], "primary");
    assert_eq!(v1["agent"]["alpha"]["model"], "m1");
    assert_eq!(v2["$schema"], "https://opencode.ai/config.json");
}

#[test]
fn prompts_go_to_side_files() {
    let a = agent("writer", "subagent", None, Some("write well"));
    let ops = sync_agents_to_opencode(None, &[a]).unwrap();
    assert_eq!(ops.len(), 3);
    assert_eq!(ops[0], FsOp::CreateDir { path: ".opencode/prompts".to_string() });
    assert_eq!(
        ops[1],
        FsOp::Write { path: ".opencode/prompts/writer.txt".to_string(), content: "write well".to_string() }
    );
    let v: Value = serde_json::from_str(&config_text(&ops)).unwrap();
    assert_eq!(v["agent"]["writer"]["prompt"], "{file:.opencode/prompts/writer.txt}");
    assert!(v["agent"]["writer"].get("model").is_none());
}

#[test]
fn tools_and_permissions_are_written_as_objects() {
    let mut a = agent("tooler", "primary", None, None);
    a.tools_config = Some(vec![("bash".to_string(), true), ("edit".to_string(), false)]);
    a.permissions_config = Some(vec![("edit".to_string(), Permission::Ask)]);
    let ops = sync_agents_to_opencode(None, &[a]).unwrap();
    let v: Value = serde_json::from_str(&config_text(&ops)).unwrap();
    assert_eq!(v["agent"]["tooler"]["tools"]["bash"], true);
    assert_eq!(v["agent"]["tooler"]["tools"]["edit"], false);
    assert_eq!(v["agent"]["tooler"]["permissions"]["edit"], "ask");
}

#[test]
fn foreign_keys_are_preserved() {
    let existing = r#"{"theme":"dark","agent":{"other":{"mode":"primary","x":[1,2]}}}"#.to_string();
    let ops = sync_agents_to_opencode(Some(existing), &[agent("alpha", "subagent", None, None)]).unwrap();
    let v: Value = serde_json::from_str(&config_text(&ops)).unwrap();
    assert_eq!(v["theme"], "dark");
    assert_eq!(v["agent"]["other"]["x"][1], 2);
    assert_eq!(v["agent"]["alpha"]["mode"], "subagent");
    assert!(v.get("$schema").is_none());
}

#[test]
fn unreadable_document_gives_the_skeleton() {
    for text in [None, Some("not json".to_string()), Some("[1,2]".to_string())] {
        let doc = read_config(text).unwrap();
        assert_eq!(doc.fields.len(), 1);
        assert_eq!(doc.fields[0].0, "$schema");
        assert!(doc.agents.is_empty());
    }
}

#[test]
fn null_agent_member_becomes_an_empty_mapping() {
    let ops = sync_agents_to_opencode(Some(r#"{"agent":null,"x":1}"#.to_string()), &[agent("a", "primary", None, None)])
        .unwrap();
    let v: Value = serde_json::from_str(&config_text(&ops)).unwrap();
    assert_eq!(v["x"], 1);
    assert_eq!(v["agent"]["a"]["mode"], "primary");
    assert_eq!(v["agent"].as_object().unwrap().len(), 1);
}

#[test]
fn skeleton_document_with_no_agents() {
    let ops = sync_agents_to_opencode(None, &[]).unwrap();
    assert_eq!(ops.len(), 1);
    let v: Value = serde_json::from_str(&config_text(&ops)).unwrap();
    assert_eq!(v, serde_json::from_str::<Value>(r#"{"$schema":"https://opencode.ai/config.json","agent":{}}"#).unwrap());
}

#[test]
fn rerunning_a_merge_writes_the_same_document() {
    let a = agent("alpha", "primary", Some("m"), Some("p"));
    let first = sync_agents_to_opencode(None, std::slice::from_ref(&a)).unwrap();
    let t1 = config_text(&first);
    let second = sync_agents_to_opencode(Some(t1.clone()), std::slice::from_ref(&a)).unwrap();
    assert_eq!(config_text(&second), t1);
    assert_eq!(first, second);
}

#[test]
fn deeply_nested_kept_entry_is_written_back() {
    let deep = format!("{}{}", "[".repeat(125), "]".repeat(125));
    let existing = format!(r#"{{"agent":{{"x":{}}}}}"#, deep);
    let ops = sync_agents_to_opencode(Some(existing), &[agent("a", "primary", None, None)]).unwrap();
    let text = config_text(&ops);
    assert!(text.contains("\"x\""));
    assert!(text.contains("\"a\""));
}

#[test]
fn create_succeeds_on_an_empty_table() {
    let mut t = promption::agents::AgentTable::new();
    let r = t.create_agent_cli(
        "my-agent".to_string(),
        promption::model::AgentModeArg::Subagent,
        None,
        None,
        &[],
        &[],
    );
    assert_eq!(r.unwrap(), 0);
}

#[test]
fn agent_member_must_be_an_object() {
    let r = sync_agents_to_opencode(Some(r#"{"agent":5}"#.to_string()), &[agent("a", "primary", None, None)]);
    assert!(matches!(r, Err(MergeError::AgentsNotObject)));
}
