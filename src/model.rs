//! The records of the catalog and the choices a caller can make.

use vstd::prelude::*;

verus! {

/// The tool layout that a sync writes.
#[derive(Clone, Copy, PartialEq, Eq, Structural, Debug)]
pub enum ToolTarget {
    Antigravity,
    Cursor,
    Windsurf,
    Opencode,
    Cline,
    Copilot,
}

/// Whether an agent is a primary agent or a subagent.
#[derive(Clone, Copy, PartialEq, Eq, Structural, Debug)]
pub enum AgentModeArg {
    Primary,
    Subagent,
}

pub open spec fn mode_text(m: AgentModeArg) -> Seq<char> {
    match m {
        AgentModeArg::Primary => "primary"@,
        AgentModeArg::Subagent => "subagent"@,
    }
}

impl AgentModeArg {
    /// The stored name of the mode.
    pub fn as_str(&self) -> (r: &'static str)
        ensures
            r@ == mode_text(*self),
    {
        match self {
            AgentModeArg::Primary => "primary",
            AgentModeArg::Subagent => "subagent",
        }
    }
}

/// How a command prints a record.
#[derive(Clone, Copy, PartialEq, Eq, Structural, Debug)]
pub enum OutputFormat {
    Text,
    Json,
}

/// A command of the command-line surface, with its arguments.
#[allow(inconsistent_fields)]
pub enum Commands {
    Sync { ids: Vec<String>, target: ToolTarget },
    List { item_type: Option<String> },
    SyncAgents { ids: Vec<String> },
    ListAgents,
    CreateAgent {
        name: String,
        mode: AgentModeArg,
        model: Option<String>,
        prompt: Option<String>,
        prompt_file: bool,
        tools: Vec<String>,
        permissions: Vec<String>,
        format: OutputFormat,
    },
    GetAgent { id: String, format: OutputFormat },
    UpdateAgent {
        id: String,
        name: Option<String>,
        mode: Option<AgentModeArg>,
        model: Option<String>,
        clear_model: bool,
        prompt: Option<String>,
        prompt_file: bool,
        clear_prompt: bool,
        tools: Vec<String>,
        clear_tools: bool,
        permissions: Vec<String>,
        clear_permissions: bool,
    },
    DeleteAgent { id: String },
}

/// A parsed command line; no command means the editor is wanted.
pub struct Cli {
    pub command: Option<Commands>,
}

/// The kind of a stored item.
#[derive(Clone, Copy, PartialEq, Eq, Structural, Debug)]
pub enum ItemKind {
    Skill,
    Rule,
    Workflow,
}

pub open spec fn kind_of(t: Seq<char>) -> Option<ItemKind> {
    if t == "skill"@ {
        Some(ItemKind::Skill)
    } else if t == "rule"@ {
        Some(ItemKind::Rule)
    } else if t == "workflow"@ {
        Some(ItemKind::Workflow)
    } else {
        None
    }
}

/// Reads a stored kind name.
pub fn parse_kind(t: &str) -> (r: Option<ItemKind>)
    ensures
        r == kind_of(t@),
{
    let s = t.to_owned();
    if s == "skill".to_owned() {
        Some(ItemKind::Skill)
    } else if s == "rule".to_owned() {
        Some(ItemKind::Rule)
    } else if s == "workflow".to_owned() {
        Some(ItemKind::Workflow)
    } else {
        None
    }
}

/// A stored piece of content.
#[derive(Debug)]
pub struct Item {
    pub id: String,
    pub name: String,
    pub content: String,
    pub item_type: String,
}

pub struct ItemView {
    pub id: Seq<char>,
    pub name: Seq<char>,
    pub content: Seq<char>,
    pub item_type: Seq<char>,
}

impl View for Item {
    type V = ItemView;

    open spec fn view(&self) -> ItemView {
        ItemView {
            id: self.id@,
            name: self.name@,
            content: self.content@,
            item_type: self.item_type@,
        }
    }
}

/// An access permission value.
#[derive(Clone, Copy, PartialEq, Eq, Structural, Debug)]
pub enum Permission {
    Ask,
    Allow,
    Deny,
}

/// A stored agent configuration. `tools_config` maps tool names to whether
/// they are enabled, `permissions_config` maps permission names to a value;
/// neither holds a name twice.
#[derive(Debug, PartialEq, Eq)]
pub struct Agent {
    pub id: String,
    pub name: String,
    pub mode: String,
    pub model: Option<String>,
    pub prompt_content: Option<String>,
    pub tools_config: Option<Vec<(String, bool)>>,
    pub permissions_config: Option<Vec<(String, Permission)>>,
}

/// How the records found for a request compare with the ids asked for.
#[derive(Clone, Copy, PartialEq, Eq, Structural, Debug)]
pub enum Resolution {
    /// No id was given.
    NothingRequested,
    /// No record was found; the request fails.
    NothingFound,
    /// Some ids did not resolve; the request goes on with a warning.
    Partial,
    /// Every id resolved.
    Complete,
}

/// Classifies a lookup of `requested` ids that found `found` records.
pub fn resolution(requested: usize, found: usize) -> (r: Resolution)
    ensures
        requested == 0 ==> r == Resolution::NothingRequested,
        requested > 0 && found == 0 ==> r == Resolution::NothingFound,
        requested > 0 && found > 0 && found != requested ==> r == Resolution::Partial,
        requested > 0 && found > 0 && found == requested ==> r == Resolution::Complete,
{
    if requested == 0 {
        Resolution::NothingRequested
    } else if found == 0 {
        Resolution::NothingFound
    } else if found != requested {
        Resolution::Partial
    } else {
        Resolution::Complete
    }
}

} // verus!
