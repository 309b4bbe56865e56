//! Target adapters: each maps a list of items onto the directory and file
//! layout that one tool reads. The adapters compute the file operations;
//! performing them is left to the caller.

use vstd::prelude::*;
use crate::model::{ItemKind, Item, ItemView, ToolTarget, kind_of, parse_kind};
use crate::slug::{slug_of, slugify};

verus! {

/// One filesystem operation of a sync.
#[derive(Debug, PartialEq, Eq)]
pub enum FsOp {
    /// Create a directory and its parents, if missing.
    CreateDir { path: String },
    /// Replace the file's content.
    Write { path: String, content: String },
    /// Add to the end of the file, creating it if missing.
    Append { path: String, content: String },
}

pub enum FsOpView {
    CreateDir { path: Seq<char> },
    Write { path: Seq<char>, content: Seq<char> },
    Append { path: Seq<char>, content: Seq<char> },
}

impl View for FsOp {
    type V = FsOpView;

    open spec fn view(&self) -> FsOpView {
        match self {
            FsOp::CreateDir { path } => FsOpView::CreateDir { path: path@ },
            FsOp::Write { path, content } => FsOpView::Write { path: path@, content: content@ },
            FsOp::Append { path, content } => FsOpView::Append { path: path@, content: content@ },
        }
    }
}

/// Why a sync was refused before any operation.
#[derive(Debug)]
pub enum SyncError {
    /// The item's stored kind is none of skill, rule and workflow.
    UnknownKind { id: String, item_type: String },
}

pub open spec fn op_views(ops: Seq<FsOp>) -> Seq<FsOpView> {
    ops.map_values(|o: FsOp| o@)
}

pub open spec fn item_views(items: Seq<Item>) -> Seq<ItemView> {
    items.map_values(|i: Item| i@)
}

/// The directories a target needs before any item is written.
pub open spec fn root_dirs(t: ToolTarget) -> Seq<Seq<char>> {
    match t {
        ToolTarget::Antigravity => seq![".agent/skills"@, ".agent/rules"@, ".agent/workflows"@],
        ToolTarget::Cursor => seq![".cursor/rules"@],
        ToolTarget::Windsurf => seq![".windsurf/rules"@, ".windsurf/skills"@],
        ToolTarget::Opencode => seq![".opencode/rules"@, ".opencode/skills"@],
        ToolTarget::Cline => seq![".clinerules"@, ".cline/skills"@],
        ToolTarget::Copilot => seq![".github"@],
    }
}

/// Where a target keeps skill directories.
pub open spec fn skill_root(t: ToolTarget) -> Seq<char> {
    match t {
        ToolTarget::Antigravity => ".agent/skills"@,
        ToolTarget::Windsurf => ".windsurf/skills"@,
        ToolTarget::Opencode => ".opencode/skills"@,
        ToolTarget::Cline => ".cline/skills"@,
        _ => ".cursor/rules"@,
    }
}

/// Where a target keeps single-file documents of a kind.
pub open spec fn doc_root(t: ToolTarget, k: ItemKind) -> Seq<char> {
    match t {
        ToolTarget::Antigravity => if k == ItemKind::Workflow {
            ".agent/workflows"@
        } else {
            ".agent/rules"@
        },
        ToolTarget::Windsurf => ".windsurf/rules"@,
        ToolTarget::Opencode => ".opencode/rules"@,
        ToolTarget::Cline => ".clinerules"@,
        _ => ".cursor/rules"@,
    }
}

pub open spec fn copilot_file() -> Seq<char> {
    ".github/copilot-instructions.md"@
}

/// A skill file with a name and description header.
pub open spec fn skill_doc(slug: Seq<char>, name: Seq<char>, content: Seq<char>) -> Seq<char> {
    "---\nname: "@ + slug + "\ndescription: "@ + name + "\n---\n\n"@ + content
}

/// A rule file with a description and glob header.
pub open spec fn glob_rule_doc(name: Seq<char>, content: Seq<char>) -> Seq<char> {
    "---\ndescription: "@ + name + "\nglobs: *\n---\n\n"@ + content
}

/// The block appended for one item: a heading and the body.
pub open spec fn appended_block(name: Seq<char>, content: Seq<char>) -> Seq<char> {
    "\n\n# "@ + name + "\n"@ + content + "\n"@
}

/// The operations that write one item of a known kind.
pub open spec fn item_ops(t: ToolTarget, it: ItemView, k: ItemKind) -> Seq<FsOpView> {
    let slug = slug_of(it.name);
    match t {
        ToolTarget::Copilot => seq![
            FsOpView::Append {
                path: copilot_file(),
                content: appended_block(it.name, it.content),
            },
        ],
        ToolTarget::Cursor => if k == ItemKind::Rule {
            seq![
                FsOpView::Write {
                    path: ".cursor/rules/"@ + slug + ".mdc"@,
                    content: glob_rule_doc(it.name, it.content),
                },
            ]
        } else {
            seq![FsOpView::Write { path: ".cursor/rules/"@ + slug + ".md"@, content: it.content }]
        },
        _ => if k == ItemKind::Skill {
            let dir = skill_root(t) + "/"@ + slug;
            let body = if t == ToolTarget::Antigravity {
                it.content
            } else {
                skill_doc(slug, it.name, it.content)
            };
            seq![
                FsOpView::CreateDir { path: dir },
                FsOpView::Write { path: dir + "/SKILL.md"@, content: body },
            ]
        } else {
            seq![
                FsOpView::Write {
                    path: doc_root(t, k) + "/"@ + slug + ".md"@,
                    content: it.content,
                },
            ]
        },
    }
}

pub open spec fn known(it: ItemView) -> bool {
    kind_of(it.item_type) is Some
}

/// The operations for a list of items of known kinds, in order.
pub open spec fn items_ops(t: ToolTarget, items: Seq<ItemView>) -> Seq<FsOpView>
    decreases items.len(),
{
    if items.len() == 0 {
        Seq::empty()
    } else {
        let it = items.last();
        items_ops(t, items.drop_last()) + item_ops(t, it, kind_of(it.item_type).unwrap())
    }
}

/// What a sync does before any item: create the target's directories, and
/// for the append-only target open its file for appending, creating it.
pub open spec fn root_ops(t: ToolTarget) -> Seq<FsOpView> {
    root_dirs(t).map_values(|p: Seq<char>| FsOpView::CreateDir { path: p }) + if t == ToolTarget::Copilot {
        seq![FsOpView::Append { path: copilot_file(), content: Seq::empty() }]
    } else {
        Seq::empty()
    }
}

/// Everything a sync of `items` to `t` does, in order.
pub open spec fn sync_plan(t: ToolTarget, items: Seq<ItemView>) -> Seq<FsOpView> {
    root_ops(t) + items_ops(t, items)
}

/// The content of a file before an append: nothing if it is missing.
pub open spec fn prior(files: Map<Seq<char>, Seq<char>>, path: Seq<char>) -> Seq<char> {
    if files.contains_key(path) {
        files[path]
    } else {
        Seq::empty()
    }
}

/// What one operation does to the files, path to content; directories are
/// not tracked.
pub open spec fn apply_op(files: Map<Seq<char>, Seq<char>>, op: FsOpView) -> Map<Seq<char>, Seq<char>> {
    match op {
        FsOpView::CreateDir { .. } => files,
        FsOpView::Write { path, content } => files.insert(path, content),
        FsOpView::Append { path, content } => files.insert(path, prior(files, path) + content),
    }
}

/// The files after the operations, in order.
pub open spec fn apply_ops(files: Map<Seq<char>, Seq<char>>, ops: Seq<FsOpView>) -> Map<Seq<char>, Seq<char>>
    decreases ops.len(),
{
    if ops.len() == 0 {
        files
    } else {
        apply_op(apply_ops(files, ops.drop_last()), ops.last())
    }
}

pub open spec fn no_appends(ops: Seq<FsOpView>) -> bool {
    forall|i: int| 0 <= i < ops.len() ==> !(#[trigger] ops[i] is Append)
}

/// The content of the last write to `path`, if any.
pub open spec fn last_write(ops: Seq<FsOpView>, path: Seq<char>) -> Option<Seq<char>>
    decreases ops.len(),
{
    if ops.len() == 0 {
        None
    } else {
        match ops.last() {
            FsOpView::Write { path: p, content } => if p == path {
                Some(content)
            } else {
                last_write(ops.drop_last(), path)
            },
            _ => last_write(ops.drop_last(), path),
        }
    }
}

proof fn lemma_writes_only(files: Map<Seq<char>, Seq<char>>, ops: Seq<FsOpView>)
    requires
        no_appends(ops),
    ensures
        forall|k: Seq<char>| #[trigger] apply_ops(files, ops).contains_key(k) == (files.contains_key(k)
            || last_write(ops, k) is Some),
        forall|k: Seq<char>| #[trigger] last_write(ops, k) is Some ==> apply_ops(files, ops)[k]
            == last_write(ops, k)->Some_0,
        forall|k: Seq<char>| #[trigger] last_write(ops, k) is None && files.contains_key(k)
            ==> apply_ops(files, ops)[k] == files[k],
    decreases ops.len(),
{
    if ops.len() > 0 {
        let u = ops.drop_last();
        assert forall|i: int| 0 <= i < u.len() implies !(#[trigger] u[i] is Append) by {
            assert(u[i] == ops[i]);
        }
        assert(!(ops[ops.len() - 1] is Append));
        lemma_writes_only(files, u);
        let prev = apply_ops(files, u);
        assert(apply_ops(files, ops) == apply_op(prev, ops.last()));
        assert forall|k: Seq<char>| #[trigger] last_write(ops, k) == match ops.last() {
            FsOpView::Write { path: p, content } => if p == k {
                Some(content)
            } else {
                last_write(u, k)
            },
            _ => last_write(u, k),
        } by {}
    }
}

/// Running write-only operations a second time changes no file, and they
/// never remove a file or touch one they do not write.
pub proof fn lemma_rewrite_idempotent(files: Map<Seq<char>, Seq<char>>, ops: Seq<FsOpView>)
    requires
        no_appends(ops),
    ensures
        apply_ops(apply_ops(files, ops), ops) == apply_ops(files, ops),
        forall|k: Seq<char>| files.contains_key(k) ==> #[trigger] apply_ops(files, ops).contains_key(k),
        forall|k: Seq<char>| last_write(ops, k) is None ==> (#[trigger] apply_ops(files, ops).contains_key(k)
            == files.contains_key(k) && (files.contains_key(k) ==> apply_ops(files, ops)[k] == files[k])),
{
    let once = apply_ops(files, ops);
    lemma_writes_only(files, ops);
    lemma_writes_only(once, ops);
    assert(apply_ops(once, ops) =~= once);
}

proof fn lemma_items_ops_no_appends(t: ToolTarget, items: Seq<ItemView>)
    requires
        t != ToolTarget::Copilot,
    ensures
        no_appends(items_ops(t, items)),
    decreases items.len(),
{
    if items.len() > 0 {
        lemma_items_ops_no_appends(t, items.drop_last());
        let it = items.last();
        let a = items_ops(t, items.drop_last());
        let b = item_ops(t, it, kind_of(it.item_type).unwrap());
        assert forall|i: int| 0 <= i < (a + b).len() implies !(#[trigger] (a + b)[i] is Append) by {
            if i >= a.len() {
                assert((a + b)[i] == b[i - a.len()]);
            }
        }
    }
}

/// Syncing the same items again to any target but the append-only one
/// leaves every file as the first run left it; no sync removes a file, and
/// files the sync does not write keep their content.
pub proof fn lemma_sync_rerun_stable(
    t: ToolTarget,
    files: Map<Seq<char>, Seq<char>>,
    items: Seq<ItemView>,
)
    requires
        t != ToolTarget::Copilot,
    ensures
        apply_ops(apply_ops(files, sync_plan(t, items)), sync_plan(t, items)) == apply_ops(
            files,
            sync_plan(t, items),
        ),
        forall|k: Seq<char>| files.contains_key(k) ==> #[trigger] apply_ops(files, sync_plan(t, items)).contains_key(k),
        forall|k: Seq<char>| last_write(sync_plan(t, items), k) is None ==> (#[trigger] apply_ops(files, sync_plan(t, items)).contains_key(k)
            == files.contains_key(k) && (files.contains_key(k) ==> apply_ops(files, sync_plan(t, items))[k] == files[k])),
{
    let dirs = root_ops(t);
    assert(dirs =~= root_dirs(t).map_values(|p: Seq<char>| FsOpView::CreateDir { path: p }));
    let rest = items_ops(t, items);
    lemma_items_ops_no_appends(t, items);
    let plan = sync_plan(t, items);
    assert forall|i: int| 0 <= i < plan.len() implies !(#[trigger] plan[i] is Append) by {
        if i >= dirs.len() {
            assert(plan[i] == rest[i - dirs.len()]);
        } else {
            assert(plan[i] == dirs[i]);
        }
    }
    lemma_rewrite_idempotent(files, plan);
}

/// Syncing one item twice to the append-only target leaves its file with
/// the earlier content followed by two copies of the item's block.
pub proof fn lemma_append_twice(files: Map<Seq<char>, Seq<char>>, it: ItemView)
    requires
        known(it),
    ensures
        ({
            let plan = sync_plan(ToolTarget::Copilot, seq![it]);
            let twice = apply_ops(apply_ops(files, plan), plan);
            twice.contains_key(copilot_file()) && twice[copilot_file()] == prior(files, copilot_file())
                + appended_block(it.name, it.content) + appended_block(it.name, it.content)
        }),
{
    let plan = sync_plan(ToolTarget::Copilot, seq![it]);
    let block = appended_block(it.name, it.content);
    let single = seq![it];
    assert(single.drop_last() =~= Seq::<ItemView>::empty());
    assert(single.last() == it);
    assert(items_ops(ToolTarget::Copilot, single.drop_last()) =~= Seq::<FsOpView>::empty());
    assert(items_ops(ToolTarget::Copilot, seq![it]) =~= seq![
        FsOpView::Append { path: copilot_file(), content: block },
    ]);
    let open = FsOpView::Append { path: copilot_file(), content: Seq::empty() };
    assert(root_ops(ToolTarget::Copilot) =~= seq![FsOpView::CreateDir { path: ".github"@ }, open]);
    assert(plan =~= seq![
        FsOpView::CreateDir { path: ".github"@ },
        open,
        FsOpView::Append { path: copilot_file(), content: block },
    ]);
    let p2 = plan.drop_last();
    let p1 = p2.drop_last();
    assert(p1.drop_last() =~= Seq::<FsOpView>::empty());
    let cf = copilot_file();
    assert forall|f: Map<Seq<char>, Seq<char>>| #[trigger] apply_ops(f, plan) == f.insert(cf, prior(f, cf) + block) by {
        assert(apply_ops(f, p1.drop_last()) == f);
        assert(apply_ops(f, p1) == f);
        assert(apply_ops(f, p2) == f.insert(cf, prior(f, cf) + Seq::<char>::empty()));
        assert(prior(f, cf) + Seq::<char>::empty() =~= prior(f, cf));
        assert(apply_ops(f, p2).insert(cf, prior(apply_ops(f, p2), cf) + block) =~= f.insert(cf, prior(f, cf) + block));
    }
    let once = apply_ops(files, plan);
    let twice = apply_ops(once, plan);
    assert(twice == once.insert(cf, prior(once, cf) + block));
}

fn cat(a: &str, b: &str) -> (r: String)
    ensures
        r@ == a@ + b@,
{
    let mut s = a.to_owned();
    s.append(b);
    s
}

fn root_dir_list(t: ToolTarget) -> (r: Vec<&'static str>)
    ensures
        r@.map_values(|s: &str| s@) == root_dirs(t),
{
    let r = match t {
        ToolTarget::Antigravity => vec![".agent/skills", ".agent/rules", ".agent/workflows"],
        ToolTarget::Cursor => vec![".cursor/rules"],
        ToolTarget::Windsurf => vec![".windsurf/rules", ".windsurf/skills"],
        ToolTarget::Opencode => vec![".opencode/rules", ".opencode/skills"],
        ToolTarget::Cline => vec![".clinerules", ".cline/skills"],
        ToolTarget::Copilot => vec![".github"],
    };
    assert(r@.map_values(|s: &str| s@) =~= root_dirs(t));
    r
}

fn skill_root_of(t: ToolTarget) -> (r: &'static str)
    ensures
        r@ == skill_root(t),
{
    match t {
        ToolTarget::Antigravity => ".agent/skills",
        ToolTarget::Windsurf => ".windsurf/skills",
        ToolTarget::Opencode => ".opencode/skills",
        ToolTarget::Cline => ".cline/skills",
        _ => ".cursor/rules",
    }
}

fn doc_root_of(t: ToolTarget, k: ItemKind) -> (r: &'static str)
    ensures
        r@ == doc_root(t, k),
{
    match t {
        ToolTarget::Antigravity => if k == ItemKind::Workflow {
            ".agent/workflows"
        } else {
            ".agent/rules"
        },
        ToolTarget::Windsurf => ".windsurf/rules",
        ToolTarget::Opencode => ".opencode/rules",
        ToolTarget::Cline => ".clinerules",
        _ => ".cursor/rules",
    }
}

/// Appends the operations that write one item to `ops`.
fn push_item_ops(ops: &mut Vec<FsOp>, t: ToolTarget, it: &Item, k: ItemKind)
    ensures
        op_views(final(ops)@) == op_views(old(ops)@) + item_ops(t, it@, k),
{
    let ghost before = op_views(ops@);
    let slug = slugify(it.name.as_str());
    match t {
        ToolTarget::Copilot => {
            let mut body = cat("\n\n# ", it.name.as_str());
            body.append("\n");
            body.append(it.content.as_str());
            body.append("\n");
            ops.push(FsOp::Append { path: ".github/copilot-instructions.md".to_owned(), content: body });
        },
        ToolTarget::Cursor => {
            let mut path = cat(".cursor/rules/", slug.as_str());
            if k == ItemKind::Rule {
                path.append(".mdc");
                let mut body = cat("---\ndescription: ", it.name.as_str());
                body.append("\nglobs: *\n---\n\n");
                body.append(it.content.as_str());
                ops.push(FsOp::Write { path, content: body });
            } else {
                path.append(".md");
                ops.push(FsOp::Write { path, content: it.content.clone() });
            }
        },
        _ => {
            if k == ItemKind::Skill {
                let mut dir = cat(skill_root_of(t), "/");
                dir.append(slug.as_str());
                let file = cat(dir.as_str(), "/SKILL.md");
                let body = if t == ToolTarget::Antigravity {
                    it.content.clone()
                } else {
                    let mut b = cat("---\nname: ", slug.as_str());
                    b.append("\ndescription: ");
                    b.append(it.name.as_str());
                    b.append("\n---\n\n");
                    b.append(it.content.as_str());
                    b
                };
                ops.push(FsOp::CreateDir { path: dir });
                ops.push(FsOp::Write { path: file, content: body });
            } else {
                let mut path = cat(doc_root_of(t, k), "/");
                path.append(slug.as_str());
                path.append(".md");
                ops.push(FsOp::Write { path, content: it.content.clone() });
            }
        },
    }
    assert(op_views(ops@) =~= before + item_ops(t, it@, k));
}

/// Plans a sync of `items` to the layout of `target`: the target's
/// directories first, then each item's operations in order. An item whose
/// kind is unknown refuses the whole sync before anything is planned; the
/// first such item is reported.
pub fn sync_items(items: &[Item], target: ToolTarget) -> (r: Result<Vec<FsOp>, SyncError>)
    ensures
        match r {
            Ok(ops) => (forall|i: int| 0 <= i < items@.len() ==> known(#[trigger] items@[i]@))
                && op_views(ops@) == sync_plan(target, item_views(items@)),
            Err(SyncError::UnknownKind { id, item_type }) => exists|i: int|
                0 <= i < items@.len() && !known(#[trigger] items@[i]@)
                && (forall|j: int| 0 <= j < i ==> known(#[trigger] items@[j]@))
                && id@ == items@[i].id@ && item_type@ == items@[i].item_type@,
        },
{
    let mut i: usize = 0;
    while i < items.len()
        invariant
            i <= items@.len(),
            forall|j: int| 0 <= j < i ==> known(#[trigger] items@[j]@),
        decreases items.len() - i,
    {
        if parse_kind(items[i].item_type.as_str()).is_none() {
            let id = items[i].id.clone();
            let item_type = items[i].item_type.clone();
            assert(!known(items@[i as int]@));
            assert(id@ == items@[i as int].id@ && item_type@ == items@[i as int].item_type@);
            return Err(SyncError::UnknownKind { id, item_type });
        }
        i += 1;
    }
    let dirs = root_dir_list(target);
    let mut ops: Vec<FsOp> = Vec::new();
    let mut d: usize = 0;
    while d < dirs.len()
        invariant
            d <= dirs@.len(),
            dirs@.map_values(|s: &str| s@) == root_dirs(target),
            op_views(ops@) == root_dirs(target).subrange(0, d as int).map_values(
                |p: Seq<char>| FsOpView::CreateDir { path: p },
            ),
        decreases dirs.len() - d,
    {
        let ghost before = op_views(ops@);
        let p = dirs[d].to_owned();
        ops.push(FsOp::CreateDir { path: p });
        proof {
            assert(dirs@[d as int]@ == root_dirs(target)[d as int]);
            assert(op_views(ops@) =~= before.push(FsOpView::CreateDir { path: p@ }));
            assert(op_views(ops@) =~= root_dirs(target).subrange(0, d + 1).map_values(
                |p: Seq<char>| FsOpView::CreateDir { path: p },
            ));
        }
        d += 1;
    }
    assert(root_dirs(target).subrange(0, dirs@.len() as int) =~= root_dirs(target));
    if target == ToolTarget::Copilot {
        let ghost before = op_views(ops@);
        ops.push(FsOp::Append { path: ".github/copilot-instructions.md".to_owned(), content: String::new() });
        assert(op_views(ops@) =~= before.push(FsOpView::Append { path: copilot_file(), content: Seq::empty() }));
    }
    assert(op_views(ops@) =~= root_ops(target));
    let ghost head = op_views(ops@);
    i = 0;
    while i < items.len()
        invariant
            i <= items@.len(),
            forall|j: int| 0 <= j < items@.len() ==> known(#[trigger] items@[j]@),
            head == root_ops(target),
            op_views(ops@) == head + items_ops(target, item_views(items@).subrange(0, i as int)),
        decreases items.len() - i,
    {
        let it = &items[i];
        assert(known(items@[i as int]@));
        let k = parse_kind(it.item_type.as_str()).unwrap();
        push_item_ops(&mut ops, target, it, k);
        proof {
            let pre = item_views(items@).subrange(0, i + 1);
            assert(pre.drop_last() =~= item_views(items@).subrange(0, i as int));
            assert(pre.last() == items@[i as int]@);
            assert(op_views(ops@) =~= head + items_ops(target, pre));
        }
        i += 1;
    }
    assert(item_views(items@).subrange(0, items@.len() as int) =~= item_views(items@));
    Ok(ops)
}

} // verus!
