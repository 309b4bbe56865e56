//! The agent service: name validation, tool and permission lists, and
//! create, read, update and delete over a table of agents.

use vstd::prelude::*;
use crate::entries::{entry_map, distinct_keys, has_key, upsert, lemma_entry_map};
use crate::model::{Agent, AgentModeArg, Permission, mode_text};
use crate::slug::{is_slug_text, chars_of, string_of};

verus! {

/// A valid agent name: kebab-case (lowercase ASCII letters and digits in
/// runs joined by single hyphens) of at most 255 characters.
pub open spec fn valid_agent_name(s: Seq<char>) -> bool {
    is_slug_text(s) && s.len() <= 255
}

/// Relies on `regex::Regex::new`, which accepts this pattern, and
/// `Regex::is_match`: the anchored pattern matches the kebab-case names.
#[verifier::external_body]
fn kebab_match(pattern: &str, name: &str) -> (r: bool)
    requires
        pattern@ == "^[a-z0-9]+(-[a-z0-9]+)*$"@,
    ensures
        r == is_slug_text(name@),
{
    regex::Regex::new(pattern).unwrap().is_match(name)
}

/// Checks an agent name; the error says what is wrong with it.
pub fn validate_agent_name(name: &str) -> (r: Result<(), String>)
    ensures
        r is Ok == valid_agent_name(name@),
{
    if !kebab_match("^[a-z0-9]+(-[a-z0-9]+)*$", name) {
        return Err(
            "Agent name must be in kebab-case format (lowercase letters, numbers, and hyphens only)".to_owned(),
        );
    }
    if name.unicode_len() > 255 {
        return Err("Agent name exceeds maximum length of 255 characters".to_owned());
    }
    Ok(())
}

/// The enabled tools named in a list.
pub open spec fn tools_map(tools: Seq<String>) -> Map<Seq<char>, bool>
    decreases tools.len(),
{
    if tools.len() == 0 {
        Map::empty()
    } else {
        tools_map(tools.drop_last()).insert(tools.last()@, true)
    }
}

/// What a tool list sets: nothing for an empty list.
pub open spec fn tools_view(tools: Seq<String>) -> Option<Map<Seq<char>, bool>> {
    if tools.len() == 0 {
        None
    } else {
        Some(tools_map(tools))
    }
}

/// Turns a tool list into a tool map with every named tool enabled; an
/// empty list gives no map.
pub fn parse_tools(tools: &[String]) -> (r: Option<Vec<(String, bool)>>)
    ensures
        r is Some ==> distinct_keys(r->0@),
        match r {
            Some(v) => tools_view(tools@) == Some(entry_map(v@)),
            None => tools_view(tools@) is None,
        },
{
    if tools.len() == 0 {
        return None;
    }
    let mut v: Vec<(String, bool)> = Vec::new();
    let mut i: usize = 0;
    while i < tools.len()
        invariant
            i <= tools@.len(),
            distinct_keys(v@),
            entry_map(v@) == tools_map(tools@.subrange(0, i as int)),
        decreases tools.len() - i,
    {
        upsert(&mut v, tools[i].clone(), true);
        assert(tools@.subrange(0, i + 1).drop_last() =~= tools@.subrange(0, i as int));
        i += 1;
    }
    assert(tools@.subrange(0, tools@.len() as int) =~= tools@);
    Some(v)
}

pub open spec fn perm_value(t: Seq<char>) -> Option<Permission> {
    if t == "ask"@ {
        Some(Permission::Ask)
    } else if t == "allow"@ {
        Some(Permission::Allow)
    } else if t == "deny"@ {
        Some(Permission::Deny)
    } else {
        None
    }
}

/// `p` holds a colon at `c` and nowhere else.
pub open spec fn sole_colon(p: Seq<char>, c: int) -> bool {
    0 <= c < p.len() && p[c] == ':' && forall|j: int| 0 <= j < p.len() && j != c ==> #[trigger] p[j] != ':'
}

/// A `name:value` entry with one colon and a value of ask, allow or deny.
pub open spec fn perm_entry(p: Seq<char>) -> Option<(Seq<char>, Permission)> {
    if exists|c: int| sole_colon(p, c) {
        let c = choose|c: int| sole_colon(p, c);
        match perm_value(p.subrange(c + 1, p.len() as int)) {
            Some(v) => Some((p.subrange(0, c), v)),
            None => None,
        }
    } else {
        None
    }
}

fn chars_to_string(v: &Vec<char>, from: usize, to: usize) -> (r: String)
    requires
        from <= to <= v@.len(),
    ensures
        r@ == v@.subrange(from as int, to as int),
{
    let mut part: Vec<char> = Vec::new();
    let mut i: usize = from;
    while i < to
        invariant
            from <= i <= to,
            to <= v@.len(),
            part@ == v@.subrange(from as int, i as int),
        decreases to - i,
    {
        part.push(v[i]);
        assert(part@ =~= v@.subrange(from as int, i + 1));
        i += 1;
    }
    string_of(&part)
}

/// Reads one `name:value` permission entry; a malformed entry gives none.
pub fn parse_permission(p: &str) -> (r: Option<(String, Permission)>)
    ensures
        match r {
            Some((k, v)) => perm_entry(p@) == Some((k@, v)),
            None => perm_entry(p@) is None,
        },
{
    let cs = chars_of(p);
    let mut colon: usize = 0;
    let mut count: usize = 0;
    let mut i: usize = 0;
    while i < cs.len()
        invariant
            i <= cs@.len(),
            cs@ == p@,
            count <= i,
            count == 0 ==> forall|j: int| 0 <= j < i ==> #[trigger] cs@[j] != ':',
            count == 1 ==> colon < i && sole_colon(cs@.subrange(0, i as int), colon as int),
            count >= 2 ==> !exists|c: int| sole_colon(p@, c),
        decreases cs.len() - i,
    {
        if cs[i] == ':' {
            if count == 0 {
                colon = i;
                count = 1;
                assert(sole_colon(cs@.subrange(0, i + 1), colon as int));
            } else {
                if count == 1 {
                    assert forall|c: int| !sole_colon(p@, c) by {
                        if sole_colon(p@, c) {
                            assert(cs@.subrange(0, i as int)[colon as int] == ':');
                            assert(p@[i as int] == ':');
                            assert(p@[colon as int] == ':');
                        }
                    }
                }
                count = 2;
            }
        } else if count == 1 {
            assert(sole_colon(cs@.subrange(0, i + 1), colon as int)) by {
                assert forall|j: int| 0 <= j < i + 1 && j != colon implies #[trigger] cs@.subrange(0, i + 1)[j] != ':' by {
                    if j < i {
                        assert(cs@.subrange(0, i + 1)[j] == cs@.subrange(0, i as int)[j]);
                    }
                }
            }
        }
        i += 1;
    }
    assert(cs@.subrange(0, cs@.len() as int) =~= cs@);
    if count != 1 {
        if count == 0 {
            assert forall|c: int| !sole_colon(p@, c) by {
                if 0 <= c < p@.len() {
                    assert(cs@[c] != ':');
                }
            }
        }
        return None;
    }
    assert(sole_colon(p@, colon as int));
    proof {
        let c = choose|c: int| sole_colon(p@, c);
        assert(c == colon as int) by {
            if c != colon as int {
                assert(p@[c] == ':');
            }
        }
    }
    let value = chars_to_string(&cs, colon + 1, cs.len());
    assert(value@ == p@.subrange(colon + 1, p@.len() as int));
    let perm = if value == "ask".to_owned() {
        Permission::Ask
    } else if value == "allow".to_owned() {
        Permission::Allow
    } else if value == "deny".to_owned() {
        Permission::Deny
    } else {
        return None;
    };
    let key = chars_to_string(&cs, 0, colon);
    Some((key, perm))
}

/// The permissions set by a list of entries; malformed entries are
/// skipped and a later entry for a name wins.
pub open spec fn perms_map(ps: Seq<String>) -> Map<Seq<char>, Permission>
    decreases ps.len(),
{
    if ps.len() == 0 {
        Map::empty()
    } else {
        let m = perms_map(ps.drop_last());
        match perm_entry(ps.last()@) {
            Some((k, v)) => m.insert(k, v),
            None => m,
        }
    }
}

/// What a permission list sets: nothing if it holds no valid entry.
pub open spec fn perms_view(ps: Seq<String>) -> Option<Map<Seq<char>, Permission>> {
    if perms_map(ps).dom() == Set::<Seq<char>>::empty() {
        None
    } else {
        Some(perms_map(ps))
    }
}

proof fn lemma_empty_entries<V>(v: Seq<(String, V)>)
    ensures
        (entry_map(v).dom() == Set::<Seq<char>>::empty()) == (v.len() == 0),
{
    lemma_entry_map(v);
    if v.len() == 0 {
        assert(entry_map(v).dom() =~= Set::<Seq<char>>::empty());
    } else {
        assert(has_key(v, v[0].0@));
        assert(entry_map(v).dom().contains(v[0].0@));
    }
}

/// Turns `name:value` entries into a permission map, skipping malformed
/// entries; no valid entry gives no map.
pub fn parse_permissions(permissions: &[String]) -> (r: Option<Vec<(String, Permission)>>)
    ensures
        r is Some ==> distinct_keys(r->0@),
        match r {
            Some(v) => perms_view(permissions@) == Some(entry_map(v@)),
            None => perms_view(permissions@) is None,
        },
{
    let mut v: Vec<(String, Permission)> = Vec::new();
    let mut i: usize = 0;
    while i < permissions.len()
        invariant
            i <= permissions@.len(),
            distinct_keys(v@),
            entry_map(v@) == perms_map(permissions@.subrange(0, i as int)),
        decreases permissions.len() - i,
    {
        assert(permissions@.subrange(0, i + 1).drop_last() =~= permissions@.subrange(0, i as int));
        match parse_permission(permissions[i].as_str()) {
            Some((k, p)) => upsert(&mut v, k, p),
            None => {},
        }
        i += 1;
    }
    assert(permissions@.subrange(0, permissions@.len() as int) =~= permissions@);
    proof {
        lemma_empty_entries(v@);
    }
    if v.len() == 0 {
        None
    } else {
        Some(v)
    }
}

pub struct AgentView {
    pub id: Seq<char>,
    pub name: Seq<char>,
    pub mode: Seq<char>,
    pub model: Option<Seq<char>>,
    pub prompt: Option<Seq<char>>,
    pub tools: Option<Map<Seq<char>, bool>>,
    pub permissions: Option<Map<Seq<char>, Permission>>,
}

pub open spec fn opt_view(o: Option<String>) -> Option<Seq<char>> {
    match o {
        Some(s) => Some(s@),
        None => None,
    }
}

pub open spec fn opt_map<V>(o: Option<Vec<(String, V)>>) -> Option<Map<Seq<char>, V>> {
    match o {
        Some(v) => Some(entry_map(v@)),
        None => None,
    }
}

impl View for Agent {
    type V = AgentView;

    open spec fn view(&self) -> AgentView {
        AgentView {
            id: self.id@,
            name: self.name@,
            mode: self.mode@,
            model: opt_view(self.model),
            prompt: opt_view(self.prompt_content),
            tools: opt_map(self.tools_config),
            permissions: opt_map(self.permissions_config),
        }
    }
}

/// The record that a create stores.
pub open spec fn new_agent(
    id: Seq<char>,
    name: Seq<char>,
    mode: AgentModeArg,
    model: Option<Seq<char>>,
    prompt: Option<Seq<char>>,
    tools: Seq<String>,
    permissions: Seq<String>,
) -> AgentView {
    AgentView {
        id,
        name,
        mode: mode_text(mode),
        model,
        prompt,
        tools: tools_view(tools),
        permissions: perms_view(permissions),
    }
}

/// A partial update: each field is left as it is, set, or cleared. A clear
/// flag wins over a value; an empty tool or permission list sets nothing.
pub struct AgentUpdate {
    pub name: Option<String>,
    pub mode: Option<AgentModeArg>,
    pub model: Option<String>,
    pub clear_model: bool,
    pub prompt: Option<String>,
    pub clear_prompt: bool,
    pub tools: Vec<String>,
    pub clear_tools: bool,
    pub permissions: Vec<String>,
    pub clear_permissions: bool,
}

/// The record after an update.
pub open spec fn updated(a: AgentView, u: AgentUpdate) -> AgentView {
    AgentView {
        id: a.id,
        name: match u.name {
            Some(n) => n@,
            None => a.name,
        },
        mode: match u.mode {
            Some(m) => mode_text(m),
            None => a.mode,
        },
        model: if u.clear_model {
            None
        } else if u.model is Some {
            opt_view(u.model)
        } else {
            a.model
        },
        prompt: if u.clear_prompt {
            None
        } else if u.prompt is Some {
            opt_view(u.prompt)
        } else {
            a.prompt
        },
        tools: if u.clear_tools {
            None
        } else if u.tools@.len() > 0 {
            tools_view(u.tools@)
        } else {
            a.tools
        },
        permissions: if u.clear_permissions {
            None
        } else if u.permissions@.len() > 0 {
            perms_view(u.permissions@)
        } else {
            a.permissions
        },
    }
}

/// Clearing the model wins over a model given in the same update.
pub proof fn lemma_clear_model_wins(a: AgentView, u: AgentUpdate)
    requires
        u.clear_model,
    ensures
        updated(a, u).model is None,
{
}

/// Why an agent operation was refused; a refused operation changes nothing.
#[derive(Debug)]
pub enum AgentError {
    /// The name is not a valid agent name; the text says why.
    Validation(String),
    /// Another agent already answers to the name.
    Conflict,
    /// No agent has the given id or name.
    NotFound,
}

/// The agents, in store order.
#[derive(Debug)]
pub struct AgentTable {
    pub rows: Vec<Agent>,
}

impl View for AgentTable {
    type V = Seq<AgentView>;

    open spec fn view(&self) -> Seq<AgentView> {
        self.rows@.map_values(|a: Agent| a@)
    }
}

/// An agent answers to its id and to its name.
pub open spec fn resolves(a: AgentView, key: Seq<char>) -> bool {
    a.id == key || a.name == key
}

pub open spec fn no_match(rows: Seq<AgentView>, key: Seq<char>) -> bool {
    forall|i: int| 0 <= i < rows.len() ==> !resolves(#[trigger] rows[i], key)
}

/// Some agent already has the id.
pub open spec fn id_taken(rows: Seq<AgentView>, id: Seq<char>) -> bool {
    exists|i: int| 0 <= i < rows.len() && #[trigger] rows[i].id == id
}

/// No two agents share a name.
pub open spec fn names_unique(rows: Seq<AgentView>) -> bool {
    forall|i: int, j: int| 0 <= i < rows.len() && 0 <= j < rows.len() && i != j ==> #[trigger] rows[i].name != #[trigger] rows[j].name
}

/// After an agent is stored, an agent answers to its name, so storing
/// another agent under that name is refused as a conflict.
pub proof fn lemma_created_name_taken(rows: Seq<AgentView>, a: AgentView)
    ensures
        !no_match(rows.push(a), a.name),
{
    assert(rows.push(a)[rows.len() as int] == a);
}

/// Row `i` is the first that answers to `key`.
pub open spec fn first_match(rows: Seq<AgentView>, key: Seq<char>, i: int) -> bool {
    &&& 0 <= i < rows.len()
    &&& resolves(rows[i], key)
    &&& forall|j: int| 0 <= j < i ==> !resolves(#[trigger] rows[j], key)
}

/// Renaming row `i` to the update's name would clash with another row.
pub open spec fn rename_clash(rows: Seq<AgentView>, i: int, u: AgentUpdate) -> bool {
    match u.name {
        Some(n) => exists|j: int| 0 <= j < rows.len() && j != i && resolves(#[trigger] rows[j], n@),
        None => false,
    }
}

pub open spec fn bad_new_name(u: AgentUpdate) -> bool {
    match u.name {
        Some(n) => !valid_agent_name(n@),
        None => false,
    }
}

/// Relies on `uuid::Uuid::new_v4`, written in its hyphenated form.
#[verifier::external_body]
fn new_agent_id() -> (r: String)
    ensures
        r@.len() == 36,
{
    uuid::Uuid::new_v4().to_string()
}

impl AgentTable {
    pub fn new() -> (r: Self)
        ensures
            r@ == Seq::<AgentView>::empty(),
    {
        let r = AgentTable { rows: Vec::new() };
        assert(r@ =~= Seq::<AgentView>::empty());
        r
    }

    /// The first agent whose id or name is `key`.
    pub fn get_agent_by_id_or_name(&self, key: &str) -> (r: Option<usize>)
        ensures
            match r {
                Some(i) => first_match(self@, key@, i as int),
                None => no_match(self@, key@),
            },
    {
        let k = key.to_owned();
        let mut i: usize = 0;
        while i < self.rows.len()
            invariant
                i <= self@.len(),
                k@ == key@,
                forall|j: int| 0 <= j < i ==> !resolves(#[trigger] self@[j], key@),
            decreases self.rows.len() - i,
        {
            assert(self@[i as int] == self.rows@[i as int]@);
            if self.rows[i].id == k || self.rows[i].name == k {
                return Some(i);
            }
            i += 1;
        }
        None
    }

    /// Stores a new agent under the given id. Refused when the name is
    /// invalid, or when an agent already answers to it or has the id.
    #[verifier::loop_isolation(false)]
    pub fn create_agent_with_id(
        &mut self,
        id: String,
        name: String,
        mode: AgentModeArg,
        model: Option<String>,
        prompt: Option<String>,
        tools: &[String],
        permissions: &[String],
    ) -> (r: Result<usize, AgentError>)
        ensures
            (r matches Err(AgentError::Validation(_))) == !valid_agent_name(name@),
            (r matches Err(AgentError::Conflict)) == (valid_agent_name(name@) && (!no_match(
                old(self)@,
                name@,
            ) || id_taken(old(self)@, id@))),
            !(r matches Err(AgentError::NotFound)),
            r is Err ==> final(self)@ == old(self)@,
            r is Ok ==> r->Ok_0 == old(self)@.len() && final(self)@ == old(self)@.push(
                new_agent(id@, name@, mode, opt_view(model), opt_view(prompt), tools@, permissions@),
            ),
            names_unique(old(self)@) ==> names_unique(final(self)@),
    {
        match validate_agent_name(name.as_str()) {
            Err(e) => {
                return Err(AgentError::Validation(e));
            },
            Ok(()) => {},
        }
        if self.get_agent_by_id_or_name(name.as_str()).is_some() {
            return Err(AgentError::Conflict);
        }
        let mut j: usize = 0;
        while j < self.rows.len()
            invariant
                j <= self@.len(),
                self@ == old(self)@,
                forall|t: int| 0 <= t < j ==> #[trigger] self@[t].id != id@,
            decreases self.rows.len() - j,
        {
            assert(self@[j as int] == self.rows@[j as int]@);
            if self.rows[j].id == id {
                assert(id_taken(old(self)@, id@));
                return Err(AgentError::Conflict);
            }
            j += 1;
        }
        let tools_config = parse_tools(tools);
        let permissions_config = parse_permissions(permissions);
        let agent = Agent {
            id,
            name,
            mode: mode.as_str().to_owned(),
            model,
            prompt_content: prompt,
            tools_config,
            permissions_config,
        };
        let n = self.rows.len();
        self.rows.push(agent);
        assert(self@ =~= old(self)@.push(
            new_agent(id@, name@, mode, opt_view(model), opt_view(prompt), tools@, permissions@),
        ));
        proof {
            let rows = self@;
            assert forall|a: int, b: int| names_unique(old(self)@) && 0 <= a < rows.len() && 0 <= b < rows.len() && a != b implies #[trigger] rows[a].name != #[trigger] rows[b].name by {
                if a < n && b < n {
                    assert(rows[a] == old(self)@[a] && rows[b] == old(self)@[b]);
                } else if a < n {
                    assert(rows[a] == old(self)@[a]);
                    assert(!resolves(old(self)@[a], name@));
                } else {
                    assert(rows[b] == old(self)@[b]);
                    assert(!resolves(old(self)@[b], name@));
                }
            }
        }
        Ok(n)
    }

    /// Stores a new agent under a fresh random id; refused as
    /// `create_agent_with_id` is (an id that is already in use, which a
    /// random id makes unlikely, is refused as a conflict).
    pub fn create_agent_cli(
        &mut self,
        name: String,
        mode: AgentModeArg,
        model: Option<String>,
        prompt: Option<String>,
        tools: &[String],
        permissions: &[String],
    ) -> (r: Result<usize, AgentError>)
        ensures
            (r matches Err(AgentError::Validation(_))) == !valid_agent_name(name@),
            valid_agent_name(name@) && !no_match(old(self)@, name@) ==> r matches Err(AgentError::Conflict),
            (r matches Err(AgentError::Conflict)) ==> valid_agent_name(name@),
            (r matches Err(AgentError::Conflict)) ==> !no_match(old(self)@, name@) || exists|i: int|
                0 <= i < old(self)@.len() && #[trigger] old(self)@[i].id.len() == 36,
            !(r matches Err(AgentError::NotFound)),
            r is Err ==> final(self)@ == old(self)@,
            r is Ok ==> !id_taken(old(self)@, final(self)@[r->Ok_0 as int].id),
            r is Ok ==> r->Ok_0 == old(self)@.len() && final(self)@.len() == old(self)@.len() + 1
                && final(self)@ == old(self)@.push(final(self)@[r->Ok_0 as int])
                && final(self)@[r->Ok_0 as int] == new_agent(
                final(self)@[r->Ok_0 as int].id,
                name@,
                mode,
                opt_view(model),
                opt_view(prompt),
                tools@,
                permissions@,
            ),
            names_unique(old(self)@) ==> names_unique(final(self)@),
    {
        let id = new_agent_id();
        let ghost idv = id@;
        let r = self.create_agent_with_id(id, name, mode, model, prompt, tools, permissions);
        proof {
            if id_taken(old(self)@, idv) {
                let i = choose|i: int| 0 <= i < old(self)@.len() && #[trigger] old(self)@[i].id == idv;
                assert(old(self)@[i].id.len() == 36);
            }
        }
        r
    }

    /// Applies a partial update to the first agent that answers to `key`.
    /// Refused when no agent answers, when a new name is invalid, or when
    /// another agent already answers to it.
    #[verifier::loop_isolation(false)]
    pub fn update_agent_cli(&mut self, key: &str, u: AgentUpdate) -> (r: Result<usize, AgentError>)
        ensures
            (r matches Err(AgentError::NotFound)) == no_match(old(self)@, key@),
            (r matches Err(AgentError::Validation(_))) == (!no_match(old(self)@, key@) && bad_new_name(u)),
            (r matches Err(AgentError::Conflict)) == (!no_match(old(self)@, key@) && !bad_new_name(u)
                && exists|i: int| first_match(old(self)@, key@, i) && rename_clash(old(self)@, i, u)),
            r is Err ==> final(self)@ == old(self)@,
            r is Ok ==> first_match(old(self)@, key@, r->Ok_0 as int) && final(self)@ == old(self)@.update(
                r->Ok_0 as int,
                updated(old(self)@[r->Ok_0 as int], u),
            ),
            names_unique(old(self)@) ==> names_unique(final(self)@),
    {
        let i = match self.get_agent_by_id_or_name(key) {
            Some(i) => i,
            None => {
                return Err(AgentError::NotFound);
            },
        };
        proof {
            assert forall|a: int, b: int| first_match(old(self)@, key@, a) && first_match(old(self)@, key@, b) implies a == b by {
                if a < b {
                    assert(!resolves(old(self)@[a], key@));
                } else if b < a {
                    assert(!resolves(old(self)@[b], key@));
                }
            }
        }
        let ghost u0 = u;
        let AgentUpdate {
            name,
            mode,
            model,
            clear_model,
            prompt,
            clear_prompt,
            tools,
            clear_tools,
            permissions,
            clear_permissions,
        } = u;
        match &name {
            Some(n) => {
                match validate_agent_name(n.as_str()) {
                    Err(e) => {
                        return Err(AgentError::Validation(e));
                    },
                    Ok(()) => {},
                }
                let k = n.clone();
                let mut j: usize = 0;
                while j < self.rows.len()
                    invariant
                        j <= self@.len(),
                        self@ == old(self)@,
                        k@ == n@,
                        first_match(old(self)@, key@, i as int),
                        u0.name is Some && u0.name->0@ == n@,
                        valid_agent_name(n@),
                        forall|t: int| 0 <= t < j && t != i ==> !resolves(#[trigger] self@[t], n@),
                    decreases self.rows.len() - j,
                {
                    assert(self@[j as int] == self.rows@[j as int]@);
                    if j != i && (self.rows[j].id == k || self.rows[j].name == k) {
                        assert(resolves(old(self)@[j as int], n@));
                        assert(!no_match(old(self)@, key@));
                        assert(rename_clash(old(self)@, i as int, u0));
                        return Err(AgentError::Conflict);
                    }
                    j += 1;
                }
            },
            None => {},
        }
        let mut a = self.rows.remove(i);
        match name {
            Some(n) => {
                a.name = n;
            },
            None => {},
        }
        match mode {
            Some(m) => {
                a.mode = m.as_str().to_owned();
            },
            None => {},
        }
        if clear_model {
            a.model = None;
        } else if model.is_some() {
            a.model = model;
        }
        if clear_prompt {
            a.prompt_content = None;
        } else if prompt.is_some() {
            a.prompt_content = prompt;
        }
        if clear_tools {
            a.tools_config = None;
        } else if tools.len() > 0 {
            a.tools_config = parse_tools(tools.as_slice());
        }
        if clear_permissions {
            a.permissions_config = None;
        } else if permissions.len() > 0 {
            a.permissions_config = parse_permissions(permissions.as_slice());
        }
        assert(a@ == updated(old(self)@[i as int], u0));
        self.rows.insert(i, a);
        assert(self@ =~= old(self)@.update(i as int, updated(old(self)@[i as int], u0)));
        proof {
            let rows = self@;
            let o = old(self)@;
            assert forall|a: int, b: int| names_unique(o) && 0 <= a < rows.len() && 0 <= b < rows.len() && a != b implies #[trigger] rows[a].name != #[trigger] rows[b].name by {
                if a != i && b != i {
                    assert(rows[a] == o[a] && rows[b] == o[b]);
                } else if u0.name is Some {
                    if a == i {
                        assert(rows[b] == o[b]);
                        assert(!rename_clash(o, i as int, u0));
                        assert(!resolves(o[b], u0.name->0@));
                    } else {
                        assert(rows[a] == o[a]);
                        assert(!rename_clash(o, i as int, u0));
                        assert(!resolves(o[a], u0.name->0@));
                    }
                } else {
                    assert(rows[i as int].name == o[i as int].name);
                    if a == i {
                        assert(rows[b] == o[b]);
                    } else {
                        assert(rows[a] == o[a]);
                    }
                }
            }
        }
        Ok(i)
    }

    /// Removes the first agent that answers to `key` and hands it back.
    /// Refused, changing nothing, when no agent answers.
    pub fn delete_agent_cli(&mut self, key: &str) -> (r: Result<Agent, AgentError>)
        ensures
            r is Err == no_match(old(self)@, key@),
            r is Err ==> r->Err_0 is NotFound && final(self)@ == old(self)@,
            r is Ok ==> exists|i: int| first_match(old(self)@, key@, i) && r->Ok_0@ == old(self)@[i]
                && final(self)@ == old(self)@.remove(i),
            names_unique(old(self)@) ==> names_unique(final(self)@),
    {
        match self.get_agent_by_id_or_name(key) {
            Some(i) => {
                let a = self.rows.remove(i);
                assert(self@ =~= old(self)@.remove(i as int));
                proof {
                    let rows = self@;
                    let o = old(self)@;
                    assert forall|x: int, y: int| names_unique(o) && 0 <= x < rows.len() && 0 <= y < rows.len() && x != y implies #[trigger] rows[x].name != #[trigger] rows[y].name by {
                        let x0 = if x < i { x } else { x + 1 };
                        let y0 = if y < i { y } else { y + 1 };
                        assert(rows[x] == o[x0] && rows[y] == o[y0]);
                    }
                }
                Ok(a)
            },
            None => Err(AgentError::NotFound),
        }
    }
}

} // verus!
