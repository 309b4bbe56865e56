//! The agent config merger: folds agents into the shared JSON configuration
//! document without touching the entries of other agents or any other key.
//! JSON values that the merge does not own are carried through as their
//! JSON text.

use vstd::prelude::*;
use crate::agents::opt_view;
use crate::model::{Agent, Permission};
use crate::targets::{FsOp, FsOpView, op_views};

verus! {

/// Whether `serde_json::from_str` reads the text as a JSON value.
pub uninterp spec fn json_valid(text: Seq<char>) -> bool;

/// The members of the JSON object that `serde_json::from_str` reads from
/// the text, each value written back in compact form; nothing when the
/// text is not a JSON object.
pub uninterp spec fn object_members_of(text: Seq<char>) -> Option<Seq<(Seq<char>, Seq<char>)>>;

/// The compact JSON text that `serde_json` writes for a string.
pub uninterp spec fn string_text_of(s: Seq<char>) -> Seq<char>;

/// The compact JSON text that `serde_json` writes for an object with these
/// members, each given as JSON text.
pub uninterp spec fn object_text_of(members: Seq<(Seq<char>, Seq<char>)>) -> Seq<char>;

/// The text that `serde_json::to_string_pretty` writes for an object with
/// these members, each given as JSON text.
pub uninterp spec fn pretty_object_of(members: Seq<(Seq<char>, Seq<char>)>) -> Seq<char>;

pub open spec fn pairs_view(v: Seq<(String, String)>) -> Seq<(Seq<char>, Seq<char>)> {
    v.map_values(|p: (String, String)| (p.0@, p.1@))
}

/// Every member value is JSON text.
pub open spec fn all_json(v: Seq<(Seq<char>, Seq<char>)>) -> bool {
    forall|i: int| 0 <= i < v.len() ==> json_valid(#[trigger] v[i].1)
}

pub open spec fn distinct_names<V>(v: Seq<(Seq<char>, V)>) -> bool {
    forall|i: int, j: int| 0 <= i < v.len() && 0 <= j < v.len() && i != j ==> #[trigger] v[i].0 != #[trigger] v[j].0
}

/// Relies on `serde_json::from_str` and on `Value`'s `Display`, which
/// writes each member value as compact JSON text; a map holds a key once.
#[verifier::external_body]
fn object_members(text: &str) -> (r: Option<Vec<(String, String)>>)
    ensures
        match r {
            Some(v) => object_members_of(text@) == Some(pairs_view(v@)),
            None => object_members_of(text@) is None,
        },
        r is Some ==> all_json(pairs_view(r->0@)) && distinct_names(pairs_view(r->0@)),
{
    match serde_json::from_str::<serde_json::Value>(text) {
        Ok(serde_json::Value::Object(m)) => Some(m.into_iter().map(|(k, v)| (k, v.to_string())).collect()),
        _ => None,
    }
}

/// Relies on `Value`'s `Display` for a string value.
#[verifier::external_body]
fn string_text(s: &str) -> (r: String)
    ensures
        r@ == string_text_of(s@),
        json_valid(r@),
{
    serde_json::Value::String(s.to_string()).to_string()
}

/// Relies on `Value`'s `Display` for a boolean value.
#[verifier::external_body]
fn bool_text(b: bool) -> (r: String)
    ensures
        r@ == (if b {
            "true"@
        } else {
            "false"@
        }),
        json_valid(r@),
{
    serde_json::Value::Bool(b).to_string()
}

/// Relies on `serde_json::from_str`, which reads each member value (or
/// fails, and then nothing is written), and on `Value`'s `Display` for the
/// object.
#[verifier::external_body]
fn object_text(members: &Vec<(String, String)>) -> (r: Option<String>)
    ensures
        r is Some == all_json(pairs_view(members@)),
        r is Some ==> r->0@ == object_text_of(pairs_view(members@)),
{
    members
        .iter()
        .map(|(k, t)| serde_json::from_str(t).map(|v| (k.clone(), v)))
        .collect::<Result<serde_json::Map<String, serde_json::Value>, serde_json::Error>>()
        .ok()
        .map(|m| serde_json::Value::Object(m).to_string())
}

/// Relies on `serde_json::from_str`, which reads each member value (or
/// fails, and then nothing is written), and on `serde_json::to_string_pretty`,
/// which cannot fail on a `Value`.
#[verifier::external_body]
fn pretty_text(members: &Vec<(String, String)>) -> (r: Option<String>)
    ensures
        r is Some == all_json(pairs_view(members@)),
        r is Some ==> r->0@ == pretty_object_of(pairs_view(members@)),
{
    members
        .iter()
        .map(|(k, t)| serde_json::from_str(t).map(|v| (k.clone(), v)))
        .collect::<Result<serde_json::Map<String, serde_json::Value>, serde_json::Error>>()
        .ok()
        .and_then(|m| serde_json::to_string_pretty(&serde_json::Value::Object(m)).ok())
}

/// The configuration that the merger writes for one agent.
pub struct AgentEntry {
    pub mode: String,
    pub model: Option<String>,
    /// A pointer to the file that holds the prompt.
    pub prompt: Option<String>,
    pub tools: Option<Vec<(String, bool)>>,
    pub permissions: Option<Vec<(String, Permission)>>,
}

pub struct EntryView {
    pub mode: Seq<char>,
    pub model: Option<Seq<char>>,
    pub prompt: Option<Seq<char>>,
    pub tools: Option<Seq<(Seq<char>, bool)>>,
    pub permissions: Option<Seq<(Seq<char>, Permission)>>,
}

pub open spec fn flag_pairs(v: Seq<(String, bool)>) -> Seq<(Seq<char>, bool)> {
    v.map_values(|p: (String, bool)| (p.0@, p.1))
}

pub open spec fn perm_pairs(v: Seq<(String, Permission)>) -> Seq<(Seq<char>, Permission)> {
    v.map_values(|p: (String, Permission)| (p.0@, p.1))
}

pub open spec fn opt_flags(o: Option<Vec<(String, bool)>>) -> Option<Seq<(Seq<char>, bool)>> {
    match o {
        Some(v) => Some(flag_pairs(v@)),
        None => None,
    }
}

pub open spec fn opt_perms(o: Option<Vec<(String, Permission)>>) -> Option<Seq<(Seq<char>, Permission)>> {
    match o {
        Some(v) => Some(perm_pairs(v@)),
        None => None,
    }
}

impl View for AgentEntry {
    type V = EntryView;

    open spec fn view(&self) -> EntryView {
        EntryView {
            mode: self.mode@,
            model: opt_view(self.model),
            prompt: opt_view(self.prompt),
            tools: opt_flags(self.tools),
            permissions: opt_perms(self.permissions),
        }
    }
}

/// An agent entry of the document: one read from it and kept as its JSON
/// text, or one this merge sets.
pub enum Slot {
    Kept(String),
    Given(AgentEntry),
}

pub enum SlotView {
    Kept(Seq<char>),
    Given(EntryView),
}

impl View for Slot {
    type V = SlotView;

    open spec fn view(&self) -> SlotView {
        match self {
            Slot::Kept(t) => SlotView::Kept(t@),
            Slot::Given(e) => SlotView::Given(e@),
        }
    }
}

/// The configuration document: its top-level members other than the agent
/// mapping, as JSON text, and the members of the agent mapping.
pub struct ConfigDoc {
    pub fields: Vec<(String, String)>,
    pub agents: Vec<(String, Slot)>,
}

pub struct DocView {
    pub fields: Seq<(Seq<char>, Seq<char>)>,
    pub agents: Seq<(Seq<char>, SlotView)>,
}

pub open spec fn slots_view(v: Seq<(String, Slot)>) -> Seq<(Seq<char>, SlotView)> {
    v.map_values(|p: (String, Slot)| (p.0@, p.1@))
}

impl View for ConfigDoc {
    type V = DocView;

    open spec fn view(&self) -> DocView {
        DocView { fields: pairs_view(self.fields@), agents: slots_view(self.agents@) }
    }
}

/// Kept entries are JSON text.
pub open spec fn kept_json(v: Seq<(Seq<char>, SlotView)>) -> bool {
    forall|i: int| 0 <= i < v.len() ==> (#[trigger] v[i].1 is Kept ==> json_valid(v[i].1->Kept_0))
}

/// A document that can be written: its values are JSON text and no agent
/// name stands twice.
pub open spec fn doc_ok(d: DocView) -> bool {
    all_json(d.fields) && kept_json(d.agents) && distinct_names(d.agents)
}

pub open spec fn perm_name(p: Permission) -> Seq<char> {
    match p {
        Permission::Ask => "ask"@,
        Permission::Allow => "allow"@,
        Permission::Deny => "deny"@,
    }
}

pub open spec fn bool_lit(b: bool) -> Seq<char> {
    if b {
        "true"@
    } else {
        "false"@
    }
}

pub open spec fn flags_members(t: Seq<(Seq<char>, bool)>) -> Seq<(Seq<char>, Seq<char>)> {
    t.map_values(|p: (Seq<char>, bool)| (p.0, bool_lit(p.1)))
}

pub open spec fn perms_members(t: Seq<(Seq<char>, Permission)>) -> Seq<(Seq<char>, Seq<char>)> {
    t.map_values(|p: (Seq<char>, Permission)| (p.0, string_text_of(perm_name(p.1))))
}

/// The members of the JSON object written for an agent entry.
pub open spec fn entry_members(e: EntryView) -> Seq<(Seq<char>, Seq<char>)> {
    seq![("mode"@, string_text_of(e.mode))] + match e.model {
        Some(m) => seq![("model"@, string_text_of(m))],
        None => Seq::empty(),
    } + match e.prompt {
        Some(p) => seq![("prompt"@, string_text_of(p))],
        None => Seq::empty(),
    } + match e.tools {
        Some(t) => seq![("tools"@, object_text_of(flags_members(t)))],
        None => Seq::empty(),
    } + match e.permissions {
        Some(t) => seq![("permissions"@, object_text_of(perms_members(t)))],
        None => Seq::empty(),
    }
}

/// The compact text of an object with these members, when every member
/// value reads back as JSON.
pub open spec fn opt_object(ms: Seq<(Seq<char>, Seq<char>)>) -> Option<Seq<char>> {
    if all_json(ms) {
        Some(object_text_of(ms))
    } else {
        None
    }
}

/// The JSON text of an agent entry, when it can be written.
pub open spec fn slot_text(s: SlotView) -> Option<Seq<char>> {
    match s {
        SlotView::Kept(t) => Some(t),
        SlotView::Given(e) => opt_object(entry_members(e)),
    }
}

pub open spec fn slots_ready(v: Seq<(Seq<char>, SlotView)>) -> bool {
    forall|i: int| 0 <= i < v.len() ==> #[trigger] slot_text(v[i].1) is Some
}

pub open spec fn agent_members(v: Seq<(Seq<char>, SlotView)>) -> Seq<(Seq<char>, Seq<char>)> {
    v.map_values(|p: (Seq<char>, SlotView)| (p.0, slot_text(p.1)->Some_0))
}

/// The text written for a document: its members, then the agent mapping
/// under the `agent` key; nothing when a value of it does not read back as
/// JSON (one nested deeper than `serde_json` reads).
pub open spec fn render_text(d: DocView) -> Option<Seq<char>> {
    if !slots_ready(d.agents) {
        None
    } else {
        match opt_object(agent_members(d.agents)) {
            None => None,
            Some(a) => {
                let ms = d.fields.push(("agent"@, a));
                if all_json(ms) {
                    Some(pretty_object_of(ms))
                } else {
                    None
                }
            },
        }
    }
}

pub open spec fn schema_url() -> Seq<char> {
    "https://opencode.ai/config.json"@
}

/// The document used when there is none to read: the schema marker and an
/// empty agent mapping.
pub open spec fn skeleton_view() -> DocView {
    DocView { fields: seq![("$schema"@, string_text_of(schema_url()))], agents: Seq::empty() }
}

/// The members without those named `k`.
pub open spec fn drop_key(ms: Seq<(Seq<char>, Seq<char>)>, k: Seq<char>) -> Seq<(Seq<char>, Seq<char>)>
    decreases ms.len(),
{
    if ms.len() == 0 {
        ms
    } else if ms.last().0 == k {
        drop_key(ms.drop_last(), k)
    } else {
        drop_key(ms.drop_last(), k).push(ms.last())
    }
}

/// The value of the last member named `k`.
pub open spec fn member_value(ms: Seq<(Seq<char>, Seq<char>)>, k: Seq<char>) -> Option<Seq<char>>
    decreases ms.len(),
{
    if ms.len() == 0 {
        None
    } else if ms.last().0 == k {
        Some(ms.last().1)
    } else {
        member_value(ms.drop_last(), k)
    }
}

pub open spec fn kept_slots(ms: Seq<(Seq<char>, Seq<char>)>) -> Seq<(Seq<char>, SlotView)> {
    ms.map_values(|p: (Seq<char>, Seq<char>)| (p.0, SlotView::Kept(p.1)))
}

/// The document read from the current text of the file, or nothing when
/// its agent member is neither an object nor `null`.
pub open spec fn read_view(existing: Option<Seq<char>>) -> Option<DocView> {
    match existing {
        None => Some(skeleton_view()),
        Some(t) => match object_members_of(t) {
            None => Some(skeleton_view()),
            Some(ms) => {
                let fields = drop_key(ms, "agent"@);
                match member_value(ms, "agent"@) {
                    None => Some(DocView { fields, agents: Seq::empty() }),
                    Some(v) => if v == "null"@ {
                        Some(DocView { fields, agents: Seq::empty() })
                    } else {
                        match object_members_of(v) {
                            Some(am) => Some(DocView { fields, agents: kept_slots(am) }),
                            None => None,
                        }
                    },
                }
            },
        },
    }
}

/// Where the prompt of an agent is written.
pub open spec fn prompt_path(name: Seq<char>) -> Seq<char> {
    ".opencode/prompts/"@ + name + ".txt"@
}

/// The entry that the merger writes for an agent; a prompt is referred to
/// by a file pointer.
pub open spec fn entry_of(a: Agent) -> EntryView {
    EntryView {
        mode: a.mode@,
        model: opt_view(a.model),
        prompt: if a.prompt_content is Some {
            Some("{file:"@ + prompt_path(a.name@) + "}"@)
        } else {
            None
        },
        tools: opt_flags(a.tools_config),
        permissions: opt_perms(a.permissions_config),
    }
}

/// Sets the entry of `k`: in place where it stands, else at the end.
pub open spec fn set_entry(v: Seq<(Seq<char>, SlotView)>, k: Seq<char>, x: SlotView) -> Seq<(Seq<char>, SlotView)> {
    if exists|i: int| 0 <= i < v.len() && #[trigger] v[i].0 == k {
        let i = choose|i: int| 0 <= i < v.len() && #[trigger] v[i].0 == k;
        v.update(i, (k, x))
    } else {
        v.push((k, x))
    }
}

/// The agent mapping after setting the entry of each agent, in order.
pub open spec fn merged_slots(v: Seq<(Seq<char>, SlotView)>, agents: Seq<Agent>) -> Seq<(Seq<char>, SlotView)>
    decreases agents.len(),
{
    if agents.len() == 0 {
        v
    } else {
        let a = agents.last();
        set_entry(merged_slots(v, agents.drop_last()), a.name@, SlotView::Given(entry_of(a)))
    }
}

pub open spec fn merged_doc(d: DocView, agents: Seq<Agent>) -> DocView {
    DocView { fields: d.fields, agents: merged_slots(d.agents, agents) }
}

/// The agent mapping as a map from name to entry.
pub open spec fn slot_map(v: Seq<(Seq<char>, SlotView)>) -> Map<Seq<char>, SlotView>
    decreases v.len(),
{
    if v.len() == 0 {
        Map::empty()
    } else {
        slot_map(v.drop_last()).insert(v.last().0, v.last().1)
    }
}

/// The map after merging `agents` into `m`, in order.
pub open spec fn merged_view(m: Map<Seq<char>, SlotView>, agents: Seq<Agent>) -> Map<Seq<char>, SlotView>
    decreases agents.len(),
{
    if agents.len() == 0 {
        m
    } else {
        let a = agents.last();
        merged_view(m, agents.drop_last()).insert(a.name@, SlotView::Given(entry_of(a)))
    }
}

pub open spec fn named_in(agents: Seq<Agent>, n: Seq<char>) -> bool {
    exists|i: int| 0 <= i < agents.len() && #[trigger] agents[i].name@ == n
}

/// Row `i` is the last agent of the list with name `n`.
pub open spec fn last_named(agents: Seq<Agent>, n: Seq<char>, i: int) -> bool {
    &&& 0 <= i < agents.len()
    &&& agents[i].name@ == n
    &&& forall|j: int| i < j < agents.len() ==> #[trigger] agents[j].name@ != n
}

proof fn lemma_slot_map_update(v: Seq<(Seq<char>, SlotView)>, i: int, e: (Seq<char>, SlotView))
    requires
        distinct_names(v),
        0 <= i < v.len(),
        v[i].0 == e.0,
    ensures
        slot_map(v.update(i, e)) == slot_map(v).insert(e.0, e.1),
    decreases v.len(),
{
    let w = v.update(i, e);
    let u = v.drop_last();
    if i == v.len() - 1 {
        assert(w.drop_last() =~= u);
        assert(slot_map(w) =~= slot_map(v).insert(e.0, e.1));
    } else {
        assert(w.drop_last() =~= u.update(i, e));
        assert forall|a: int, b: int| 0 <= a < u.len() && 0 <= b < u.len() && a != b implies #[trigger] u[a].0 != #[trigger] u[b].0 by {
            assert(u[a] == v[a] && u[b] == v[b]);
        }
        lemma_slot_map_update(u, i, e);
        assert(v[v.len() - 1].0 != v[i].0);
        assert(slot_map(w) =~= slot_map(v).insert(e.0, e.1));
    }
}

/// Setting an entry sets that name in the map and keeps names distinct.
pub proof fn lemma_set_entry(v: Seq<(Seq<char>, SlotView)>, k: Seq<char>, x: SlotView)
    requires
        distinct_names(v),
    ensures
        distinct_names(set_entry(v, k, x)),
        slot_map(set_entry(v, k, x)) == slot_map(v).insert(k, x),
        kept_json(v) && (x is Kept ==> json_valid(x->Kept_0)) ==> kept_json(set_entry(v, k, x)),
{
    let w = set_entry(v, k, x);
    if exists|i: int| 0 <= i < v.len() && #[trigger] v[i].0 == k {
        let i = choose|i: int| 0 <= i < v.len() && #[trigger] v[i].0 == k;
        lemma_slot_map_update(v, i, (k, x));
        assert forall|a: int, b: int| 0 <= a < w.len() && 0 <= b < w.len() && a != b implies #[trigger] w[a].0 != #[trigger] w[b].0 by {
            assert(w[a].0 == v[a].0 && w[b].0 == v[b].0);
        }
    } else {
        assert(w.drop_last() =~= v);
        assert(slot_map(w) == slot_map(v).insert(k, x));
        assert forall|a: int, b: int| 0 <= a < w.len() && 0 <= b < w.len() && a != b implies #[trigger] w[a].0 != #[trigger] w[b].0 by {
            if a < v.len() && b < v.len() {
                assert(w[a] == v[a] && w[b] == v[b]);
            } else if a < v.len() {
                assert(w[a] == v[a]);
            } else {
                assert(w[b] == v[b]);
            }
        }
        if kept_json(v) && (x is Kept ==> json_valid(x->Kept_0)) {
            assert forall|a: int| 0 <= a < w.len() && #[trigger] w[a].1 is Kept implies json_valid(w[a].1->Kept_0) by {
                if a < v.len() {
                    assert(w[a] == v[a]);
                }
            }
        }
    }
}

/// Merging keeps names distinct and kept entries JSON text, and on the map
/// it sets each agent's entry in order.
pub proof fn lemma_merged_slots(v: Seq<(Seq<char>, SlotView)>, agents: Seq<Agent>)
    requires
        distinct_names(v),
    ensures
        distinct_names(merged_slots(v, agents)),
        slot_map(merged_slots(v, agents)) == merged_view(slot_map(v), agents),
        kept_json(v) ==> kept_json(merged_slots(v, agents)),
    decreases agents.len(),
{
    if agents.len() > 0 {
        lemma_merged_slots(v, agents.drop_last());
        let a = agents.last();
        lemma_set_entry(merged_slots(v, agents.drop_last()), a.name@, SlotView::Given(entry_of(a)));
    }
}

/// A merge sets the entry of each agent it is given, from the last agent
/// with that name, and leaves every other entry of the mapping as it was.
pub proof fn lemma_merge_touches_only_named(m: Map<Seq<char>, SlotView>, agents: Seq<Agent>)
    ensures
        forall|n: Seq<char>| !named_in(agents, n) ==> (#[trigger] merged_view(m, agents).contains_key(n)
            == m.contains_key(n) && (m.contains_key(n) ==> merged_view(m, agents)[n] == m[n])),
        forall|n: Seq<char>, i: int| last_named(agents, n, i) ==> #[trigger] merged_view(m, agents).contains_key(n)
            && merged_view(m, agents)[n] == SlotView::Given(entry_of(#[trigger] agents[i])),
    decreases agents.len(),
{
    if agents.len() > 0 {
        let u = agents.drop_last();
        lemma_merge_touches_only_named(m, u);
        let a = agents.last();
        assert(merged_view(m, agents) == merged_view(m, u).insert(a.name@, SlotView::Given(entry_of(a))));
        assert forall|n: Seq<char>| !named_in(agents, n) implies (#[trigger] merged_view(m, agents).contains_key(n)
            == m.contains_key(n) && (m.contains_key(n) ==> merged_view(m, agents)[n] == m[n])) by {
            assert(agents[agents.len() - 1].name@ == a.name@);
            assert(n != a.name@);
            assert(!named_in(u, n)) by {
                if named_in(u, n) {
                    let i = choose|i: int| 0 <= i < u.len() && #[trigger] u[i].name@ == n;
                    assert(agents[i].name@ == n);
                }
            }
            assert(merged_view(m, u).contains_key(n) == m.contains_key(n));
        }
        assert forall|n: Seq<char>, i: int| last_named(agents, n, i) implies #[trigger] merged_view(m, agents).contains_key(n)
            && merged_view(m, agents)[n] == SlotView::Given(entry_of(#[trigger] agents[i])) by {
            if i == agents.len() - 1 {
                assert(agents[i] == a);
            } else {
                assert(last_named(u, n, i)) by {
                    assert forall|j: int| i < j < u.len() implies #[trigger] u[j].name@ != n by {
                        assert(u[j] == agents[j]);
                    }
                }
                assert(u[i] == agents[i]);
            }
        }
    }
}

/// Merging `first` and then `second` into a document leaves its other
/// members as they were, leaves the entry of an agent named in `first` but
/// not in `second` as the first merge set it, and gives every agent named
/// in `second` the entry of its last occurrence there.
pub proof fn lemma_merge_twice(d: DocView, first: Seq<Agent>, second: Seq<Agent>)
    requires
        distinct_names(d.agents),
    ensures
        merged_doc(merged_doc(d, first), second).fields == d.fields,
        forall|n: Seq<char>, i: int| last_named(first, n, i) && !named_in(second, n)
            ==> #[trigger] slot_map(merged_doc(merged_doc(d, first), second).agents).contains_key(n)
            && slot_map(merged_doc(merged_doc(d, first), second).agents)[n] == SlotView::Given(entry_of(#[trigger] first[i])),
        forall|n: Seq<char>, i: int| last_named(second, n, i)
            ==> #[trigger] slot_map(merged_doc(merged_doc(d, first), second).agents).contains_key(n)
            && slot_map(merged_doc(merged_doc(d, first), second).agents)[n] == SlotView::Given(entry_of(#[trigger] second[i])),
{
    let s1 = merged_slots(d.agents, first);
    let s2 = merged_slots(s1, second);
    lemma_merged_slots(d.agents, first);
    lemma_merged_slots(s1, second);
    let m = slot_map(d.agents);
    let once = merged_view(m, first);
    let twice = merged_view(once, second);
    assert(slot_map(s2) == twice);
    lemma_merge_touches_only_named(m, first);
    lemma_merge_touches_only_named(once, second);
    assert forall|n: Seq<char>, i: int| last_named(second, n, i) implies #[trigger] slot_map(s2).contains_key(n)
        && slot_map(s2)[n] == SlotView::Given(entry_of(#[trigger] second[i])) by {
        assert(twice.contains_key(n));
    }
    assert forall|n: Seq<char>, i: int| last_named(first, n, i) && !named_in(second, n) implies #[trigger] slot_map(s2).contains_key(n)
        && slot_map(s2)[n] == SlotView::Given(entry_of(#[trigger] first[i])) by {
        assert(once.contains_key(n));
        assert(once[n] == SlotView::Given(entry_of(first[i])));
        assert(twice.contains_key(n) == once.contains_key(n));
        assert(twice[n] == once[n]);
    }
}

fn copy_entries<V: Copy>(v: &Vec<(String, V)>) -> (r: Vec<(String, V)>)
    ensures
        r@ == v@,
{
    let mut r: Vec<(String, V)> = Vec::new();
    let mut i: usize = 0;
    while i < v.len()
        invariant
            i <= v@.len(),
            r@ == v@.subrange(0, i as int),
        decreases v.len() - i,
    {
        let k = v[i].0.clone();
        let x = v[i].1;
        r.push((k, x));
        assert(r@ =~= v@.subrange(0, i + 1));
        i += 1;
    }
    assert(v@.subrange(0, v@.len() as int) =~= v@);
    r
}

fn copy_opt_entries<V: Copy>(o: &Option<Vec<(String, V)>>) -> (r: Option<Vec<(String, V)>>)
    ensures
        r is Some == o is Some,
        r is Some ==> r->0@ == o->0@,
{
    match o {
        Some(v) => Some(copy_entries(v)),
        None => None,
    }
}

fn prompt_file_of(name: &String) -> (r: String)
    ensures
        r@ == prompt_path(name@),
{
    let mut p = ".opencode/prompts/".to_owned();
    p.append(name.as_str());
    p.append(".txt");
    p
}

/// The entry that the merger writes for an agent.
pub fn entry_from(a: &Agent) -> (e: AgentEntry)
    ensures
        e@ == entry_of(*a),
{
    let prompt = match &a.prompt_content {
        Some(_) => {
            let mut p = "{file:".to_owned();
            let path = prompt_file_of(&a.name);
            p.append(path.as_str());
            p.append("}");
            Some(p)
        },
        None => None,
    };
    let model = match &a.model {
        Some(m) => Some(m.clone()),
        None => None,
    };
    let tools = copy_opt_entries(&a.tools_config);
    let permissions = copy_opt_entries(&a.permissions_config);
    let e = AgentEntry { mode: a.mode.clone(), model, prompt, tools, permissions };
    assert(e@.tools == entry_of(*a).tools);
    assert(e@.permissions == entry_of(*a).permissions);
    e
}

/// Sets the entry of `key` in place where it stands, else at the end.
fn set_slot(slots: &mut Vec<(String, Slot)>, key: String, s: Slot)
    requires
        distinct_names(slots_view(old(slots)@)),
    ensures
        slots_view(final(slots)@) == set_entry(slots_view(old(slots)@), key@, s@),
{
    let ghost v = slots_view(slots@);
    let mut i: usize = 0;
    while i < slots.len()
        invariant
            i <= slots@.len(),
            slots@ == old(slots)@,
            v == slots_view(slots@),
            distinct_names(v),
            forall|j: int| 0 <= j < i ==> (#[trigger] slots@[j]).0@ != key@,
        decreases slots.len() - i,
    {
        if slots[i].0 == key {
            let ghost sv = s@;
            slots.set(i, (key, s));
            proof {
                assert(v[i as int].0 == key@);
                let j = choose|j: int| 0 <= j < v.len() && #[trigger] v[j].0 == key@;
                assert(j == i) by {
                    if j != i {
                        assert(v[j].0 != v[i as int].0);
                    }
                }
                assert(slots_view(slots@) =~= v.update(i as int, (key@, sv)));
            }
            return;
        }
        i += 1;
    }
    let ghost sv = s@;
    let ghost kv = key@;
    slots.push((key, s));
    proof {
        assert forall|j: int| 0 <= j < v.len() implies #[trigger] v[j].0 != kv by {
            assert(v[j].0 == slots@[j].0@);
        }
        assert(slots_view(slots@) =~= v.push((kv, sv)));
    }
}

/// Sets the entry of each agent, in order; other entries and the other
/// members of the document stay as they were.
pub fn merge_agents(doc: ConfigDoc, agents: &[Agent]) -> (r: ConfigDoc)
    requires
        doc_ok(doc@),
    ensures
        r@ == merged_doc(doc@, agents@),
        doc_ok(r@),
{
    let ghost d = doc@;
    let ConfigDoc { fields, agents: mut slots } = doc;
    let mut i: usize = 0;
    while i < agents.len()
        invariant
            i <= agents@.len(),
            d.fields == pairs_view(fields@),
            distinct_names(d.agents),
            slots_view(slots@) == merged_slots(d.agents, agents@.subrange(0, i as int)),
        decreases agents.len() - i,
    {
        proof {
            lemma_merged_slots(d.agents, agents@.subrange(0, i as int));
        }
        let e = entry_from(&agents[i]);
        set_slot(&mut slots, agents[i].name.clone(), Slot::Given(e));
        proof {
            let pre = agents@.subrange(0, i + 1);
            assert(pre.drop_last() =~= agents@.subrange(0, i as int));
            assert(pre.last() == agents@[i as int]);
        }
        i += 1;
    }
    assert(agents@.subrange(0, agents@.len() as int) =~= agents@);
    proof {
        lemma_merged_slots(d.agents, agents@);
    }
    ConfigDoc { fields, agents: slots }
}

/// Why the configuration document could not be merged.
#[derive(Debug)]
pub enum MergeError {
    /// The document's agent member is neither an object nor `null`.
    AgentsNotObject,
    /// A value of the merged document does not read back as JSON (it is
    /// nested deeper than `serde_json` reads).
    Unreadable,
}

fn skeleton() -> (r: ConfigDoc)
    ensures
        r@ == skeleton_view(),
        doc_ok(r@),
{
    let schema = string_text("https://opencode.ai/config.json");
    let fields = vec![("$schema".to_owned(), schema)];
    let r = ConfigDoc { fields, agents: Vec::new() };
    assert(r@.fields =~= skeleton_view().fields);
    assert(r@.agents =~= skeleton_view().agents);
    r
}

/// Reads the configuration document from the current text of its file.
/// Missing text, and text that is not a JSON object, give the skeleton
/// document; otherwise every member is kept, and the members of the agent
/// mapping are kept as entries. Refused when the agent member is neither an
/// object nor `null`.
pub fn read_config(existing: Option<String>) -> (r: Result<ConfigDoc, MergeError>)
    ensures
        match read_view(opt_view(existing)) {
            Some(d) => r is Ok && r->Ok_0@ == d && doc_ok(d),
            None => r matches Err(MergeError::AgentsNotObject),
        },
{
    let text = match existing {
        Some(t) => t,
        None => {
            return Ok(skeleton());
        },
    };
    let members = match object_members(text.as_str()) {
        Some(m) => m,
        None => {
            return Ok(skeleton());
        },
    };
    let ghost ms = pairs_view(members@);
    let agent_key = "agent".to_owned();
    let mut fields: Vec<(String, String)> = Vec::new();
    let mut agent_text: Option<String> = None;
    let mut i: usize = 0;
    while i < members.len()
        invariant
            i <= members@.len(),
            ms == pairs_view(members@),
            all_json(ms),
            agent_key@ == "agent"@,
            pairs_view(fields@) == drop_key(ms.subrange(0, i as int), "agent"@),
            opt_view(agent_text) == member_value(ms.subrange(0, i as int), "agent"@),
            all_json(pairs_view(fields@)),
        decreases members.len() - i,
    {
        let ghost pre = ms.subrange(0, i + 1);
        proof {
            assert(pre.drop_last() =~= ms.subrange(0, i as int));
            assert(pre.last() == ms[i as int]);
        }
        if members[i].0 == agent_key {
            agent_text = Some(members[i].1.clone());
        } else {
            let ghost before = pairs_view(fields@);
            fields.push((members[i].0.clone(), members[i].1.clone()));
            proof {
                assert(pairs_view(fields@) =~= before.push(ms[i as int]));
                assert forall|j: int| 0 <= j < pairs_view(fields@).len() implies json_valid(#[trigger] pairs_view(fields@)[j].1) by {
                    if j < before.len() {
                        assert(pairs_view(fields@)[j] == before[j]);
                    }
                }
            }
        }
        i += 1;
    }
    assert(ms.subrange(0, ms.len() as int) =~= ms);
    let mut slots: Vec<(String, Slot)> = Vec::new();
    match agent_text {
        None => {},
        Some(t) => {
            if t != "null".to_owned() {
                let inner = match object_members(t.as_str()) {
                    Some(m) => m,
                    None => {
                        return Err(MergeError::AgentsNotObject);
                    },
                };
                let ghost am = pairs_view(inner@);
                let mut j: usize = 0;
                while j < inner.len()
                    invariant
                        j <= inner@.len(),
                        am == pairs_view(inner@),
                        all_json(am),
                        slots_view(slots@) == kept_slots(am.subrange(0, j as int)),
                    decreases inner.len() - j,
                {
                    let ghost before = slots_view(slots@);
                    let k = inner[j].0.clone();
                    let t = inner[j].1.clone();
                    slots.push((k, Slot::Kept(t)));
                    proof {
                        assert(k@ == am[j as int].0 && t@ == am[j as int].1);
                        assert(slots_view(slots@) =~= before.push((am[j as int].0, SlotView::Kept(am[j as int].1))));
                        assert(kept_slots(am.subrange(0, j + 1)) =~= kept_slots(am.subrange(0, j as int)).push(
                            (am[j as int].0, SlotView::Kept(am[j as int].1)),
                        ));
                    }
                    j += 1;
                }
                assert(am.subrange(0, am.len() as int) =~= am);
                proof {
                    let ks = kept_slots(am);
                    assert forall|a: int, b: int| 0 <= a < ks.len() && 0 <= b < ks.len() && a != b implies #[trigger] ks[a].0 != #[trigger] ks[b].0 by {
                        assert(ks[a].0 == am[a].0 && ks[b].0 == am[b].0);
                    }
                    assert forall|a: int| 0 <= a < ks.len() && #[trigger] ks[a].1 is Kept implies json_valid(ks[a].1->Kept_0) by {
                        assert(ks[a].1 == SlotView::Kept(am[a].1));
                    }
                }
            }
        },
    }
    let r = ConfigDoc { fields, agents: slots };
    assert(r@.agents.len() == 0 ==> r@.agents =~= Seq::<(Seq<char>, SlotView)>::empty());
    Ok(r)
}

proof fn lemma_push_json(v: Seq<(Seq<char>, Seq<char>)>, x: (Seq<char>, Seq<char>))
    requires
        all_json(v),
        json_valid(x.1),
    ensures
        all_json(v.push(x)),
{
    assert forall|j: int| 0 <= j < v.push(x).len() implies json_valid(#[trigger] v.push(x)[j].1) by {
        if j < v.len() {
            assert(v.push(x)[j] == v[j]);
        }
    }
}

fn perm_str(p: Permission) -> (r: &'static str)
    ensures
        r@ == perm_name(p),
{
    match p {
        Permission::Ask => "ask",
        Permission::Allow => "allow",
        Permission::Deny => "deny",
    }
}

fn flags_text(t: &Vec<(String, bool)>) -> (r: String)
    ensures
        r@ == object_text_of(flags_members(flag_pairs(t@))),
{
    let ghost want = flags_members(flag_pairs(t@));
    let mut ms: Vec<(String, String)> = Vec::new();
    let mut i: usize = 0;
    while i < t.len()
        invariant
            i <= t@.len(),
            want == flags_members(flag_pairs(t@)),
            pairs_view(ms@) == want.subrange(0, i as int),
            all_json(pairs_view(ms@)),
        decreases t.len() - i,
    {
        let ghost before = pairs_view(ms@);
        let k = t[i].0.clone();
        let b = bool_text(t[i].1);
        proof {
            lemma_push_json(before, (k@, b@));
        }
        let ghost kb = (k@, b@);
        ms.push((k, b));
        assert(pairs_view(ms@) =~= before.push(kb));
        assert(want[i as int] == kb);
        assert(want.subrange(0, i + 1) =~= want.subrange(0, i as int).push(want[i as int]));
        i += 1;
    }
    assert(want.subrange(0, t@.len() as int) =~= want);
    let r = object_text(&ms);
    r.unwrap()
}

fn perms_text(t: &Vec<(String, Permission)>) -> (r: String)
    ensures
        r@ == object_text_of(perms_members(perm_pairs(t@))),
{
    let ghost want = perms_members(perm_pairs(t@));
    let mut ms: Vec<(String, String)> = Vec::new();
    let mut i: usize = 0;
    while i < t.len()
        invariant
            i <= t@.len(),
            want == perms_members(perm_pairs(t@)),
            pairs_view(ms@) == want.subrange(0, i as int),
            all_json(pairs_view(ms@)),
        decreases t.len() - i,
    {
        let ghost before = pairs_view(ms@);
        let k = t[i].0.clone();
        let v = string_text(perm_str(t[i].1));
        proof {
            lemma_push_json(before, (k@, v@));
        }
        let ghost kv = (k@, v@);
        ms.push((k, v));
        assert(pairs_view(ms@) =~= before.push(kv));
        assert(want[i as int] == kv);
        assert(want.subrange(0, i + 1) =~= want.subrange(0, i as int).push(want[i as int]));
        i += 1;
    }
    assert(want.subrange(0, t@.len() as int) =~= want);
    let r = object_text(&ms);
    r.unwrap()
}

/// The JSON text written for an agent entry, when it can be written.
fn entry_text(e: &AgentEntry) -> (r: Option<String>)
    ensures
        opt_view(r) == opt_object(entry_members(e@)),
{
    let ghost ev = e@;
    let mut ms: Vec<(String, String)> = Vec::new();
    let mode = string_text(e.mode.as_str());
    ms.push(("mode".to_owned(), mode));
    let ghost a = seq![("mode"@, string_text_of(ev.mode))];
    assert(pairs_view(ms@) =~= a);
    let ghost b = match ev.model {
        Some(m) => seq![("model"@, string_text_of(m))],
        None => Seq::<(Seq<char>, Seq<char>)>::empty(),
    };
    match &e.model {
        Some(m) => ms.push(("model".to_owned(), string_text(m.as_str()))),
        None => {},
    }
    assert(pairs_view(ms@) =~= a + b);
    let ghost c = match ev.prompt {
        Some(p) => seq![("prompt"@, string_text_of(p))],
        None => Seq::<(Seq<char>, Seq<char>)>::empty(),
    };
    match &e.prompt {
        Some(p) => ms.push(("prompt".to_owned(), string_text(p.as_str()))),
        None => {},
    }
    assert(pairs_view(ms@) =~= a + b + c);
    let ghost d = match ev.tools {
        Some(t) => seq![("tools"@, object_text_of(flags_members(t)))],
        None => Seq::<(Seq<char>, Seq<char>)>::empty(),
    };
    match &e.tools {
        Some(t) => ms.push(("tools".to_owned(), flags_text(t))),
        None => {},
    }
    assert(pairs_view(ms@) =~= a + b + c + d);
    match &e.permissions {
        Some(t) => ms.push(("permissions".to_owned(), perms_text(t))),
        None => {},
    }
    assert(pairs_view(ms@) =~= entry_members(ev));
    object_text(&ms)
}

/// Writes the document as pretty-printed JSON: its members, then the
/// agent mapping under the `agent` key. Nothing is written when a value of
/// it does not read back as JSON.
pub fn render_config(doc: &ConfigDoc) -> (r: Option<String>)
    ensures
        opt_view(r) == render_text(doc@),
{
    let ghost d = doc@;
    let mut am: Vec<(String, String)> = Vec::new();
    let mut i: usize = 0;
    while i < doc.agents.len()
        invariant
            i <= doc.agents@.len(),
            d == doc@,
            forall|j: int| 0 <= j < i ==> #[trigger] slot_text(d.agents[j].1) is Some,
            pairs_view(am@) == agent_members(d.agents.subrange(0, i as int)),
        decreases doc.agents.len() - i,
    {
        let ghost before = pairs_view(am@);
        let text = match &doc.agents[i].1 {
            Slot::Kept(t) => t.clone(),
            Slot::Given(e) => match entry_text(e) {
                Some(t) => t,
                None => {
                    assert(slot_text(d.agents[i as int].1) is None);
                    return None;
                },
            },
        };
        let k = doc.agents[i].0.clone();
        assert(slot_text(d.agents[i as int].1) == Some(text@));
        let ghost kt = (k@, text@);
        am.push((k, text));
        assert(pairs_view(am@) =~= before.push(kt));
        assert(agent_members(d.agents.subrange(0, i + 1)) =~= agent_members(d.agents.subrange(0, i as int)).push(kt));
        i += 1;
    }
    assert(d.agents.subrange(0, d.agents.len() as int) =~= d.agents);
    assert(slots_ready(d.agents));
    let agent_text = match object_text(&am) {
        Some(t) => t,
        None => {
            return None;
        },
    };
    let mut ms: Vec<(String, String)> = Vec::new();
    i = 0;
    while i < doc.fields.len()
        invariant
            i <= doc.fields@.len(),
            d == doc@,
            pairs_view(ms@) == d.fields.subrange(0, i as int),
        decreases doc.fields.len() - i,
    {
        let ghost before = pairs_view(ms@);
        let k = doc.fields[i].0.clone();
        let v = doc.fields[i].1.clone();
        let ghost kv = (k@, v@);
        ms.push((k, v));
        assert(pairs_view(ms@) =~= before.push(kv));
        assert(kv == d.fields[i as int]);
        assert(d.fields.subrange(0, i + 1) =~= d.fields.subrange(0, i as int).push(kv));
        i += 1;
    }
    assert(d.fields.subrange(0, d.fields.len() as int) =~= d.fields);
    ms.push(("agent".to_owned(), agent_text));
    assert(pairs_view(ms@) =~= d.fields.push(("agent"@, object_text_of(agent_members(d.agents)))));
    pretty_text(&ms)
}

/// The prompt files that a merge of `agents` writes, in order.
pub open spec fn prompt_plan(agents: Seq<Agent>) -> Seq<FsOpView>
    decreases agents.len(),
{
    if agents.len() == 0 {
        Seq::empty()
    } else {
        let a = agents.last();
        prompt_plan(agents.drop_last()) + match a.prompt_content {
            Some(p) => seq![
                FsOpView::CreateDir { path: ".opencode/prompts"@ },
                FsOpView::Write { path: prompt_path(a.name@), content: p@ },
            ],
            None => Seq::empty(),
        }
    }
}

pub open spec fn config_path() -> Seq<char> {
    "opencode.json"@
}

/// Merges `agents` into the configuration document whose file currently
/// holds `existing`: the operations write each agent's prompt file and then
/// the whole merged document. Refused, writing nothing, when the document's
/// agent member is neither an object nor `null`.
pub fn sync_agents_to_opencode(existing: Option<String>, agents: &[Agent]) -> (r: Result<Vec<FsOp>, MergeError>)
    ensures
        match read_view(opt_view(existing)) {
            Some(d) => match render_text(merged_doc(d, agents@)) {
                Some(t) => r is Ok && op_views(r->Ok_0@) == prompt_plan(agents@).push(
                    FsOpView::Write { path: config_path(), content: t },
                ),
                None => r matches Err(MergeError::Unreadable),
            },
            None => r matches Err(MergeError::AgentsNotObject),
        },
{
    let doc = match read_config(existing) {
        Ok(d) => d,
        Err(e) => {
            return Err(e);
        },
    };
    let mut ops: Vec<FsOp> = Vec::new();
    let mut i: usize = 0;
    while i < agents.len()
        invariant
            i <= agents@.len(),
            op_views(ops@) == prompt_plan(agents@.subrange(0, i as int)),
        decreases agents.len() - i,
    {
        let a = &agents[i];
        match &a.prompt_content {
            Some(p) => {
                ops.push(FsOp::CreateDir { path: ".opencode/prompts".to_owned() });
                ops.push(FsOp::Write { path: prompt_file_of(&a.name), content: p.clone() });
            },
            None => {},
        }
        proof {
            let pre = agents@.subrange(0, i + 1);
            assert(pre.drop_last() =~= agents@.subrange(0, i as int));
            assert(op_views(ops@) =~= prompt_plan(pre));
        }
        i += 1;
    }
    assert(agents@.subrange(0, agents@.len() as int) =~= agents@);
    let merged = merge_agents(doc, agents);
    let text = match render_config(&merged) {
        Some(t) => t,
        None => {
            return Err(MergeError::Unreadable);
        },
    };
    let ghost before = op_views(ops@);
    let ghost tv = text@;
    ops.push(FsOp::Write { path: "opencode.json".to_owned(), content: text });
    assert(op_views(ops@) =~= before.push(FsOpView::Write { path: config_path(), content: tv }));
    Ok(ops)
}

} // verus!
