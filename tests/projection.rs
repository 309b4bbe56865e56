use promption::model::{Item, ToolTarget};
use promption::targets::{sync_items, FsOp, SyncError};
use std::collections::BTreeMap;

fn item(id: &str, name: &str, content: &str, kind: &str) -> Item {
    Item {
        id: id.to_string(),
        name: name.to_string(),
        content: content.to_string(),
        item_type: kind.to_string(),
    }
}

fn dir(p: &str) -> FsOp {
    FsOp::CreateDir { path: p.to_string() }
}

fn write(p: &str, c: &str) -> FsOp {
    FsOp::Write { path: p.to_string(), content: c.to_string() }
}

fn apply(files: &mut BTreeMap<String, String>, ops: &[FsOp]) {
    for op in ops {
        match op {
            FsOp::CreateDir { .. } => {}
            FsOp::Write { path, content } => {
                files.insert(path.clone(), content.clone());
            }
            FsOp::Append { path, content } => {
                files.entry(path.clone()).or_default().push_str(content);
            }
        }
    }
}

#[test]
fn primary_tool_layout() {
    let items = vec![
        item("1", "My Skill", "skill body", "skill"),
        item("2", "Rule One", "rule body", "rule"),
        item("3", "Flow", "flow body", "workflow"),
    ];
    let ops = sync_items(&items, ToolTarget::Antigravity).unwrap();
    assert_eq!(
        ops,
        vec![
            dir(".agent/skills"),
            dir(".agent/rules"),
            dir(".agent/workflows"),
            dir(".agent/skills/my-skill"),
            write(".agent/skills/my-skill/SKILL.md", "skill body"),
            write(".agent/rules/rule-one.md", "rule body"),
            write(".agent/workflows/flow.md", "flow body"),
        ]
    );
}

#[test]
fn cursor_rules_get_a_glob_header() {
    let items = vec![item("1", "Rule One", "body", "rule"), item("2", "S", "doc", "skill")];
    let ops = sync_items(&items, ToolTarget::Cursor).unwrap();
    assert_eq!(
        ops,
        vec![
            dir(".cursor/rules"),
            write(".cursor/rules/rule-one.mdc", "---\ndescription: Rule One\nglobs: *\n---\n\nbody"),
            write(".cursor/rules/s.md", "doc"),
        ]
    );
}

#[test]
fn windsurf_skills_get_a_name_header() {
    let items = vec![item("1", "My Skill", "c", "skill"), item("2", "Flow", "f", "workflow")];
    let ops = sync_items(&items, ToolTarget::Windsurf).unwrap();
    assert_eq!(
        ops,
        vec![
            dir(".windsurf/rules"),
            dir(".windsurf/skills"),
            dir(".windsurf/skills/my-skill"),
            write(".windsurf/skills/my-skill/SKILL.md", "---\nname: my-skill\ndescription: My Skill\n---\n\nc"),
            write(".windsurf/rules/flow.md", "f"),
        ]
    );
}

#[test]
fn opencode_layout() {
    let items = vec![item("1", "Rule", "r", "rule"), item("2", "Sk", "s", "skill")];
    let ops = sync_items(&items, ToolTarget::Opencode).unwrap();
    assert_eq!(
        ops,
        vec![
            dir(".opencode/rules"),
            dir(".opencode/skills"),
            write(".opencode/rules/rule.md", "r"),
            dir(".opencode/skills/sk"),
            write(".opencode/skills/sk/SKILL.md", "---\nname: sk\ndescription: Sk\n---\n\ns"),
        ]
    );
}

#[test]
fn cline_layout() {
    let items = vec![item("1", "Rule", "r", "rule"), item("2", "Sk", "s", "skill")];
    let ops = sync_items(&items, ToolTarget::Cline).unwrap();
    assert_eq!(
        ops,
        vec![
            dir(".clinerules"),
            dir(".cline/skills"),
            write(".clinerules/rule.md", "r"),
            dir(".cline/skills/sk"),
            write(".cline/skills/sk/SKILL.md", "---\nname: sk\ndescription: Sk\n---\n\ns"),
        ]
    );
}

#[test]
fn copilot_appends_a_block() {
    let items = vec![item("1", "Name", "body", "rule")];
    let ops = sync_items(&items, ToolTarget::Copilot).unwrap();
    assert_eq!(
        ops,
        vec![
            dir(".github"),
            FsOp::Append { path: ".github/copilot-instructions.md".to_string(), content: String::new() },
            FsOp::Append {
                path: ".github/copilot-instructions.md".to_string(),
                content: "\n\n# Name\nbody\n".to_string(),
            },
        ]
    );
}

#[test]
fn unknown_kind_refuses_the_sync() {
    let items = vec![item("1", "A", "a", "rule"), item("2", "B", "b", "prompt"), item("3", "C", "c", "note")];
    match sync_items(&items, ToolTarget::Windsurf) {
        Err(SyncError::UnknownKind { id, item_type }) => {
            assert_eq!(id, "2");
            assert_eq!(item_type, "prompt");
        }
        Ok(_) => panic!("an unknown kind must be refused"),
    }
}

#[test]
fn empty_item_list_only_creates_directories() {
    let ops = sync_items(&[], ToolTarget::Windsurf).unwrap();
    assert_eq!(ops, vec![dir(".windsurf/rules"), dir(".windsurf/skills")]);
}

#[test]
fn empty_copilot_sync_still_creates_the_file() {
    let ops = sync_items(&[], ToolTarget::Copilot).unwrap();
    let mut files = BTreeMap::new();
    apply(&mut files, &ops);
    assert_eq!(files.get(".github/copilot-instructions.md").unwrap(), "");
}

#[test]
fn primary_tool_rerun_is_stable_and_keeps_other_files() {
    let items = vec![item("1", "My Skill", "skill body", "skill"), item("2", "R", "rule body", "rule")];
    let ops = sync_items(&items, ToolTarget::Antigravity).unwrap();
    let mut files = BTreeMap::new();
    files.insert("README.md".to_string(), "keep me".to_string());
    apply(&mut files, &ops);
    let once = files.clone();
    let again = sync_items(&items, ToolTarget::Antigravity).unwrap();
    apply(&mut files, &again);
    assert_eq!(files, once);
    assert_eq!(files.get("README.md").unwrap(), "keep me");
    assert_eq!(files.get(".agent/skills/my-skill/SKILL.md").unwrap(), "skill body");
}

#[test]
fn append_only_rerun_appends_twice() {
    let items = vec![item("1", "Name", "body", "skill")];
    let ops = sync_items(&items, ToolTarget::Copilot).unwrap();
    let mut files = BTreeMap::new();
    files.insert(".github/copilot-instructions.md".to_string(), "old".to_string());
    apply(&mut files, &ops);
    apply(&mut files, &ops);
    assert_eq!(
        files.get(".github/copilot-instructions.md").unwrap(),
        "old\n\n# Name\nbody\n\n\n# Name\nbody\n"
    );
}
