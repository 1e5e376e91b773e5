//! Magic mount decisions: which modules and entries are collected into
//! the mount tree, when a directory needs a tmpfs, and how failures of
//! single entries are answered.

use vstd::prelude::*;

use crate::domain::{ModuleRules, MountMode};
use crate::inventory::{has_mount_block_marker, is_reserved_module_dir, spec_has_block_marker,
    spec_is_reserved_module_dir};
use crate::order::{contains_str, string_views};
use crate::text::{chars_of, has_prefix, join_strings, join_with, string_from_chars};
use crate::validation::{first_index, find_char, is_valid_module_id, lemma_first_index,
    spec_valid_module_id};

verus! {

/// A failure of the magic mount that is attributed to modules: their
/// identifiers and the message of what failed.
#[derive(Debug, Clone)]
pub struct MagicMountModuleFailure {
    pub module_ids: Vec<String>,
    pub source: String,
}

pub open spec fn spec_failure_message(ids: Seq<Seq<char>>, source: Seq<char>) -> Seq<char> {
    if ids.len() == 0 {
        "magic mount module failure: "@ + source
    } else {
        "magic mount module failure for ["@ + join_with(ids, ", "@) + "]: "@ + source
    }
}

impl MagicMountModuleFailure {
    pub fn new(module_ids: Vec<String>, source: String) -> (f: Self)
        ensures
            f.module_ids@ == module_ids@,
            f.source@ == source@,
    {
        MagicMountModuleFailure { module_ids, source }
    }

    /// The failure as text.
    pub fn message(&self) -> (m: String)
        ensures
            m@ == spec_failure_message(string_views(self.module_ids@), self.source@),
    {
        let mut v: Vec<char> = Vec::new();
        if self.module_ids.len() == 0 {
            crate::text::append_str(&mut v, "magic mount module failure: ");
        } else {
            crate::text::append_str(&mut v, "magic mount module failure for [");
            let joined = join_strings(&self.module_ids, ", ");
            crate::text::append_str(&mut v, joined.as_str());
            crate::text::append_str(&mut v, "]: ");
        }
        crate::text::append_str(&mut v, self.source.as_str());
        string_from_chars(&v)
    }
}

/// What the magic mount is told: the source named for its tmpfs, the
/// managed partitions, and whether Kasumi and the overlay fallback are on.
#[derive(Debug, Clone)]
pub struct MagicMountOptions {
    pub mount_source: String,
    pub managed_partitions: Vec<String>,
    pub use_kasumi: bool,
    pub overlay_fallback_enabled: bool,
}

/// The value after the first `'='` of a line that starts with `id`.
pub open spec fn prop_id_value(line: Seq<char>) -> Option<Seq<char>> {
    let i = first_index(line, '=');
    if has_prefix(line, "id"@) && i < line.len() {
        Some(line.skip(i + 1int))
    } else {
        None
    }
}

/// Whether `module.prop` declares an acceptable identifier: the first line
/// that starts with `id` and holds an `'='` decides by the validity of what
/// follows the `'='`; without such a line, the file is accepted unless
/// reading it stopped on an error.
pub open spec fn spec_prop_id_valid(lines: Seq<Seq<char>>, read_error: bool) -> bool
    decreases lines.len(),
{
    if lines.len() == 0 {
        !read_error
    } else {
        match prop_id_value(lines[0]) {
            Some(v) => spec_valid_module_id(v),
            None => spec_prop_id_valid(lines.drop_first(), read_error),
        }
    }
}

fn line_id_value(line: &str) -> (r: Option<String>)
    ensures
        crate::validation::opt_view(r) == prop_id_value(line@),
{
    let c = chars_of(line);
    let mut id: Vec<char> = Vec::new();
    id.push('i');
    id.push('d');
    proof {
        reveal_strlit("id");
        assert(id@ =~= "id"@);
    }
    if !crate::text::starts_with_chars(&c, &id) {
        return None;
    }
    let i = find_char(&c, '=');
    if i >= c.len() {
        return None;
    }
    proof {
        lemma_first_index(c@, '=');
    }
    let v = crate::text::slice_chars(&c, i + 1, c.len());
    assert(v@ =~= line@.skip(i + 1));
    Some(string_from_chars(&v))
}

/// Whether the lines read from `module.prop` (and whether reading stopped
/// on an error) declare an acceptable identifier.
pub fn is_valid_module_prop_id(lines: &Vec<String>, read_error: bool) -> (b: bool)
    ensures
        b == spec_prop_id_valid(string_views(lines@), read_error),
{
    let n = lines.len();
    let mut i: usize = 0;
    assert(string_views(lines@).skip(0) =~= string_views(lines@));
    while i < n
        invariant
            n == lines@.len(),
            i <= n,
            spec_prop_id_valid(string_views(lines@), read_error) == spec_prop_id_valid(
                string_views(lines@).skip(i as int),
                read_error,
            ),
        decreases n - i,
    {
        proof {
            let rest = string_views(lines@).skip(i as int);
            assert(rest[0] == lines@[i as int]@);
            assert(rest.drop_first() =~= string_views(lines@).skip(i + 1));
        }
        match line_id_value(lines[i].as_str()) {
            Some(v) => {
                return is_valid_module_id(v.as_str());
            },
            None => {},
        }
        i = i + 1;
    }
    !read_error
}

/// Whether the files directly in an overlay directory with rules below it
/// fall back to the magic mount.
pub open spec fn spec_fallback_overlay_files(
    rules: ModuleRules,
    relative: Seq<char>,
    use_kasumi: bool,
    enabled: bool,
) -> bool {
    enabled && rules.spec_effective_mode(relative, use_kasumi) == MountMode::Overlay
        && rules.spec_has_descendant_rule(relative)
}

pub fn should_fallback_overlay_files(
    rules: &ModuleRules,
    relative: &str,
    use_kasumi: bool,
    enabled: bool,
) -> (b: bool)
    ensures
        b == spec_fallback_overlay_files(*rules, relative@, use_kasumi, enabled),
{
    enabled && rules.effective_mode(relative, use_kasumi) == MountMode::Overlay
        && rules.has_descendant_rule(relative)
}

/// The kind of a node of the mount tree.
#[derive(Debug, Clone, Copy, PartialEq, Eq, Structural)]
pub enum NodeFileType {
    RegularFile,
    Directory,
    Symlink,
    Whiteout,
}

/// Where a module's partition directory is collected: into the `system`
/// node itself, into a new node under it, into a new node that replaces a
/// symlink left there, or into the node already there.
#[derive(Debug, Clone, Copy, PartialEq, Eq, Structural)]
pub enum PartitionSlot {
    System,
    Create,
    Replace,
    Reuse,
}

pub open spec fn spec_partition_slot(name: Seq<char>, existing: Option<NodeFileType>) -> PartitionSlot {
    if name == "system"@ {
        PartitionSlot::System
    } else {
        match existing {
            None => PartitionSlot::Create,
            Some(NodeFileType::Symlink) => PartitionSlot::Replace,
            Some(_) => PartitionSlot::Reuse,
        }
    }
}

/// The slot for partition directory `name`, given the node of that name
/// under `system` so far (see `spec_partition_slot`).
pub fn partition_slot(name: &str, existing: Option<NodeFileType>) -> (s: PartitionSlot)
    ensures
        s == spec_partition_slot(name@, existing),
{
    if crate::text::str_is(name, "system") {
        PartitionSlot::System
    } else {
        match existing {
            None => PartitionSlot::Create,
            Some(NodeFileType::Symlink) => PartitionSlot::Replace,
            Some(_) => PartitionSlot::Reuse,
        }
    }
}

/// What collecting does with one entry of a module directory.
#[derive(Debug, Clone, Copy, PartialEq, Eq, Structural)]
pub enum SubtreeAction {
    /// The whole directory is collected for the magic mount.
    CollectWhole,
    /// The directory is descended into, entry by entry.
    Descend,
    /// The entry becomes a leaf of the tree.
    AddLeaf,
    /// The entry is left out.
    Skip,
}

/// A directory that is magic-mounted and has no rules below it is
/// collected whole; one with rules below it is descended into; other
/// directories are left out. Another entry becomes a leaf where it is
/// magic-mounted, or falls back from the overlay, unless a node that is no
/// link already stands under its name.
pub open spec fn spec_subtree_action(
    rules: ModuleRules,
    relative: Seq<char>,
    is_dir: bool,
    use_kasumi: bool,
    overlay_file_fallback: bool,
    existing: Option<NodeFileType>,
) -> SubtreeAction {
    let mode = rules.spec_effective_mode(relative, use_kasumi);
    if is_dir {
        let below = rules.spec_has_descendant_rule(relative);
        if mode == MountMode::Magic && !below {
            SubtreeAction::CollectWhole
        } else if !below {
            SubtreeAction::Skip
        } else {
            SubtreeAction::Descend
        }
    } else if mode == MountMode::Magic || (overlay_file_fallback && mode == MountMode::Overlay) {
        match existing {
            Some(t) => if t != NodeFileType::Symlink {
                SubtreeAction::Skip
            } else {
                SubtreeAction::AddLeaf
            },
            None => SubtreeAction::AddLeaf,
        }
    } else {
        SubtreeAction::Skip
    }
}

pub fn subtree_action(
    rules: &ModuleRules,
    relative: &str,
    is_dir: bool,
    use_kasumi: bool,
    overlay_file_fallback: bool,
    existing: Option<NodeFileType>,
) -> (a: SubtreeAction)
    ensures
        a == spec_subtree_action(*rules, relative@, is_dir, use_kasumi, overlay_file_fallback, existing),
{
    let mode = rules.effective_mode(relative, use_kasumi);
    if is_dir {
        let below = rules.has_descendant_rule(relative);
        if mode == MountMode::Magic && !below {
            SubtreeAction::CollectWhole
        } else if !below {
            SubtreeAction::Skip
        } else {
            SubtreeAction::Descend
        }
    } else if mode == MountMode::Magic || (overlay_file_fallback && mode == MountMode::Overlay) {
        match existing {
            Some(t) => if t != NodeFileType::Symlink {
                SubtreeAction::Skip
            } else {
                SubtreeAction::AddLeaf
            },
            None => SubtreeAction::AddLeaf,
        }
    } else {
        SubtreeAction::Skip
    }
}

/// What reading a module's `module.prop` gave: no such file, a file that
/// could not be opened (with the error's message), or the lines read and
/// whether reading stopped on an error.
#[derive(Debug, Clone)]
pub enum PropFile {
    Missing,
    Unreadable(String),
    Lines(Vec<String>, bool),
}

/// One entry of the modules directory as collecting sees it: whether it is
/// a directory (or the error that asking gave), its name when it is UTF-8,
/// its `module.prop`, the names it holds, and the managed partitions for
/// which it holds a directory.
#[derive(Debug)]
pub struct ModuleRootEntry {
    pub is_dir: Result<bool, String>,
    pub name: Option<String>,
    pub prop: PropFile,
    pub listing: Vec<String>,
    pub partition_dirs: Vec<String>,
}

/// Whether and why a module directory is collected: `Ok(Some(id))` when
/// it is collected, `Ok(None)` when it is passed over, `Err` when a
/// question about it failed.
pub open spec fn spec_select_module(
    e: ModuleRootEntry,
    selected: Seq<Seq<char>>,
) -> Result<Option<Seq<char>>, Seq<char>> {
    match e.is_dir {
        Err(m) => Err(m@),
        Ok(false) => Ok(None),
        Ok(true) => match e.name {
            None => Ok(None),
            Some(id) => if !selected.contains(id@) {
                Ok(None)
            } else {
                match e.prop {
                    PropFile::Missing => Ok(None),
                    PropFile::Unreadable(m) => Err(m@),
                    PropFile::Lines(lines, read_error) => if !spec_prop_id_valid(
                        string_views(lines@),
                        read_error,
                    ) {
                        Ok(None)
                    } else if spec_is_reserved_module_dir(id@) || spec_has_block_marker(
                        e.listing@,
                    ) {
                        Ok(None)
                    } else if e.partition_dirs@.len() == 0 {
                        Ok(None)
                    } else {
                        Ok(Some(id@))
                    },
                }
            },
        },
    }
}

/// Decides whether a module directory is collected for the magic mount:
/// a directory with a UTF-8 name among the selected modules, with a
/// readable `module.prop` declaring an acceptable identifier, neither
/// reserved nor blocked, and holding at least one managed partition.
pub fn select_magic_module(e: &ModuleRootEntry, selected: &Vec<String>) -> (r: Result<
    Option<String>,
    String,
>)
    ensures
        match (r, spec_select_module(*e, string_views(selected@))) {
            (Ok(Some(a)), Ok(Some(b))) => a@ == b,
            (Ok(None), Ok(None)) => true,
            (Err(a), Err(b)) => a@ == b,
            _ => false,
        },
{
    match &e.is_dir {
        Err(m) => {
            return Err(m.clone());
        },
        Ok(d) => {
            if !*d {
                return Ok(None);
            }
        },
    }
    let id = match &e.name {
        None => {
            return Ok(None);
        },
        Some(n) => n,
    };
    if !contains_str(selected, id.as_str()) {
        return Ok(None);
    }
    match &e.prop {
        PropFile::Missing => Ok(None),
        PropFile::Unreadable(m) => Err(m.clone()),
        PropFile::Lines(lines, read_error) => {
            if !is_valid_module_prop_id(lines, *read_error) {
                Ok(None)
            } else if is_reserved_module_dir(id.as_str()) || has_mount_block_marker(&e.listing) {
                Ok(None)
            } else if e.partition_dirs.len() == 0 {
                Ok(None)
            } else {
                Ok(Some(id.clone()))
            }
        },
    }
}

/// The index of the last module with identifier `id`: the one whose rules
/// collecting uses.
pub open spec fn spec_rules_index(ids: Seq<Seq<char>>, id: Seq<char>) -> Option<int>
    decreases ids.len(),
{
    if ids.len() == 0 {
        None
    } else if ids.last() == id {
        Some(ids.len() - 1)
    } else {
        spec_rules_index(ids.drop_last(), id)
    }
}

pub open spec fn module_ids(ms: Seq<crate::inventory::Module>) -> Seq<Seq<char>> {
    ms.map_values(|m: crate::inventory::Module| m.id@)
}

/// Finds the module whose rules apply to `id`.
pub fn rules_index(modules: &Vec<crate::inventory::Module>, id: &str) -> (r: Option<usize>)
    ensures
        match (r, spec_rules_index(module_ids(modules@), id@)) {
            (Some(a), Some(b)) => a == b,
            (None, None) => true,
            _ => false,
        },
{
    let mut i: usize = modules.len();
    assert(module_ids(modules@).take(i as int) =~= module_ids(modules@));
    while i > 0
        invariant
            i <= modules@.len(),
            spec_rules_index(module_ids(modules@), id@) == spec_rules_index(
                module_ids(modules@).take(i as int),
                id@,
            ),
        decreases i,
    {
        proof {
            let pre = module_ids(modules@).take(i as int);
            assert(pre.last() == modules@[i - 1].id@);
            assert(pre.drop_last() =~= module_ids(modules@).take(i - 1));
        }
        if crate::text::str_is(modules[i - 1].id.as_str(), id) {
            return Some(i - 1);
        }
        i = i - 1;
    }
    assert(module_ids(modules@).take(0) =~= Seq::<Seq<char>>::empty());
    None
}

/// What the live system shows for a child of a directory being mounted:
/// the child's kind in the tree, whether its live path exists (links
/// followed), and the kind of what is there (links not followed), if
/// anything.
#[derive(Debug, Clone, Copy)]
pub struct ChildProbe {
    pub file_type: NodeFileType,
    pub live_exists: bool,
    pub live_type: Option<NodeFileType>,
}

/// Whether a child cannot be mounted over what lies at its live path and
/// so needs its parent rebuilt on a tmpfs: a link always; a whiteout when
/// something is there; anything else when nothing is there, or something
/// of another kind than the directory, or a link.
pub open spec fn spec_needs_tmpfs(c: ChildProbe, dir_type: NodeFileType) -> bool {
    match c.file_type {
        NodeFileType::Symlink => true,
        NodeFileType::Whiteout => c.live_exists,
        _ => match c.live_type {
            Some(t) => t != dir_type || t == NodeFileType::Symlink,
            None => true,
        },
    }
}

pub fn needs_tmpfs(c: &ChildProbe, dir_type: NodeFileType) -> (b: bool)
    ensures
        b == spec_needs_tmpfs(*c, dir_type),
{
    match c.file_type {
        NodeFileType::Symlink => true,
        NodeFileType::Whiteout => c.live_exists,
        _ => match c.live_type {
            Some(t) => t != dir_type || t == NodeFileType::Symlink,
            None => true,
        },
    }
}

/// How a directory of the tree is mounted: whether it gets a tmpfs of its
/// own, whether it lies on a tmpfs at all, which children are skipped, and
/// how many were skipped.
#[derive(Debug, Clone)]
pub struct DirectoryPlan {
    pub tmpfs: bool,
    pub has_tmpfs: bool,
    pub skip: Vec<bool>,
    pub ignored: usize,
}

/// Number of the first `n` children that need a tmpfs.
pub open spec fn count_needs(cs: Seq<ChildProbe>, dir_type: NodeFileType, n: int) -> nat
    decreases n,
{
    if n <= 0 {
        0
    } else {
        count_needs(cs, dir_type, n - 1) + if spec_needs_tmpfs(cs[n - 1], dir_type) {
            1nat
        } else {
            0nat
        }
    }
}

/// A directory not yet on a tmpfs gets one when it is declared replaced,
/// or when some child needs it, provided it belongs to a module; in a
/// directory that belongs to no module, the children that would need one
/// are skipped instead.
pub open spec fn plan_matches(
    p: DirectoryPlan,
    has_tmpfs: bool,
    replace: bool,
    has_module_path: bool,
    dir_type: NodeFileType,
    cs: Seq<ChildProbe>,
) -> bool {
    let any_need = exists|i: int| 0 <= i < cs.len() && spec_needs_tmpfs(#[trigger] cs[i], dir_type);
    &&& p.tmpfs == (!has_tmpfs && has_module_path && (replace || any_need))
    &&& p.has_tmpfs == (p.tmpfs || has_tmpfs)
    &&& p.skip@.len() == cs.len()
    &&& forall|i: int|
        0 <= i < cs.len() ==> p.skip@[i] == (!has_tmpfs && !has_module_path && spec_needs_tmpfs(
            #[trigger] cs[i],
            dir_type,
        ))
    &&& p.ignored == if !has_tmpfs && !has_module_path {
        count_needs(cs, dir_type, cs.len() as int)
    } else {
        0
    }
}

/// Whether some child needs a tmpfs.
pub fn any_needs_tmpfs(children: &Vec<ChildProbe>, dir_type: NodeFileType) -> (b: bool)
    ensures
        b == exists|i: int| 0 <= i < children@.len() && spec_needs_tmpfs(#[trigger] children@[i], dir_type),
{
    let mut k: usize = 0;
    while k < children.len()
        invariant
            k <= children@.len(),
            forall|j: int| 0 <= j < k ==> !spec_needs_tmpfs(#[trigger] children@[j], dir_type),
        decreases children@.len() - k,
    {
        if needs_tmpfs(&children[k], dir_type) {
            assert(spec_needs_tmpfs(children@[k as int], dir_type));
            return true;
        }
        k = k + 1;
    }
    false
}

/// Plans the mount of a directory of the tree.
pub fn plan_directory(
    has_tmpfs: bool,
    replace: bool,
    has_module_path: bool,
    dir_type: NodeFileType,
    children: &Vec<ChildProbe>,
) -> (p: DirectoryPlan)
    ensures
        plan_matches(p, has_tmpfs, replace, has_module_path, dir_type, children@),
{
    let n = children.len();
    let mut skip: Vec<bool> = Vec::new();
    let mut ignored: usize = 0;
    let mut tmpfs = false;
    if !has_tmpfs && !has_module_path {
        let mut i: usize = 0;
        while i < n
            invariant
                n == children@.len(),
                i <= n,
                skip@.len() == i,
                ignored == count_needs(children@, dir_type, i as int),
                ignored <= i,
                forall|j: int|
                    0 <= j < i ==> skip@[j] == spec_needs_tmpfs(#[trigger] children@[j], dir_type),
            decreases n - i,
        {
            let need = needs_tmpfs(&children[i], dir_type);
            skip.push(need);
            if need {
                ignored = ignored + 1;
            }
            i = i + 1;
        }
    } else {
        let mut i: usize = 0;
        while i < n
            invariant
                n == children@.len(),
                i <= n,
                skip@.len() == i,
                forall|j: int| 0 <= j < i ==> !skip@[j],
            decreases n - i,
        {
            skip.push(false);
            i = i + 1;
        }
        if !has_tmpfs {
            if replace {
                tmpfs = true;
            } else {
                tmpfs = any_needs_tmpfs(children, dir_type);
            }
        }
    }
    DirectoryPlan { tmpfs, has_tmpfs: tmpfs || has_tmpfs, skip, ignored }
}

/// An error of the magic mount: plain, or attributed to modules.
#[derive(Debug, Clone)]
pub enum MagicError {
    Plain(String),
    Module(MagicMountModuleFailure),
}

impl MagicError {
    pub open spec fn spec_message(&self) -> Seq<char> {
        match self {
            MagicError::Plain(m) => m@,
            MagicError::Module(f) => spec_failure_message(string_views(f.module_ids@), f.source@),
        }
    }

    /// The error as text.
    pub fn message(&self) -> (m: String)
        ensures
            m@ == self.spec_message(),
    {
        match self {
            MagicError::Plain(m) => m.clone(),
            MagicError::Module(f) => f.message(),
        }
    }
}

/// An error attributed to the modules of the node that failed: plain when
/// the node belongs to no module.
pub open spec fn spec_with_module_context(ids: Seq<Seq<char>>, source: Seq<char>, e: MagicError) -> bool {
    if ids.len() == 0 {
        e matches MagicError::Plain(m) && m@ == source
    } else {
        e matches MagicError::Module(f) && string_views(f.module_ids@) == ids && f.source@ == source
    }
}

pub fn with_module_context(ids: Vec<String>, source: String) -> (e: MagicError)
    ensures
        spec_with_module_context(string_views(ids@), source@, e),
{
    if ids.len() == 0 {
        MagicError::Plain(source)
    } else {
        MagicError::Module(MagicMountModuleFailure::new(ids, source))
    }
}

/// Answers the failure of one child of a directory: on a tmpfs the whole
/// directory fails, with the child's modules named; elsewhere the failure
/// is counted, its modules are marked failed and mounting goes on.
pub fn answer_child_failure(
    has_tmpfs: bool,
    ids: Vec<String>,
    source: String,
    stats: &mut crate::runtime_state::MountStatistics,
    failed: &mut Vec<String>,
) -> (r: Option<MagicError>)
    requires
        old(stats).total_mounts < usize::MAX,
        old(stats).failed_mounts < usize::MAX,
    ensures
        has_tmpfs ==> {
            &&& r matches Some(e) && spec_with_module_context(string_views(ids@), source@, e)
            &&& *final(stats) == *old(stats)
            &&& final(failed)@ == old(failed)@
        },
        !has_tmpfs ==> {
            &&& r is None
            &&& *final(stats) == (crate::runtime_state::MountStatistics {
                total_mounts: (old(stats).total_mounts + 1) as usize,
                failed_mounts: (old(stats).failed_mounts + 1) as usize,
                ..*old(stats)
            })
            &&& final(failed)@ == old(failed)@ + ids@
        },
{
    if has_tmpfs {
        return Some(with_module_context(ids, source));
    }
    stats.record_failed();
    let mut i: usize = 0;
    let ghost start = failed@;
    while i < ids.len()
        invariant
            i <= ids@.len(),
            failed@ == start + ids@.take(i as int),
        decreases ids@.len() - i,
    {
        failed.push(ids[i].clone());
        assert(failed@ =~= start + ids@.take(i + 1));
        i = i + 1;
    }
    assert(ids@.take(i as int) =~= ids@);
    None
}

/// The identifiers found for the module paths of a tree, each once, in
/// increasing order.
pub fn distinct_ids(found: &Vec<Option<String>>) -> (r: Vec<String>)
    ensures
        crate::order::strictly_sorted(string_views(r@)),
        forall|s: Seq<char>|
            string_views(r@).contains(s) <==> exists|i: int|
                0 <= i < found@.len() && crate::validation::opt_view(#[trigger] found@[i]) == Some(s),
{
    let mut all: Vec<String> = Vec::new();
    let mut i: usize = 0;
    while i < found.len()
        invariant
            i <= found@.len(),
            forall|s: Seq<char>|
                string_views(all@).contains(s) <==> exists|j: int|
                    0 <= j < i && crate::validation::opt_view(#[trigger] found@[j]) == Some(s),
        decreases found@.len() - i,
    {
        let ghost before = string_views(all@);
        match &found[i] {
            Some(id) => {
                all.push(id.clone());
                proof {
                    assert(string_views(all@) =~= before.push(id@));
                    assert forall|s: Seq<char>|
                        string_views(all@).contains(s) implies exists|j: int|
                            0 <= j < i + 1 && crate::validation::opt_view(#[trigger] found@[j]) == Some(s) by {
                        if s == id@ {
                            assert(crate::validation::opt_view(found@[i as int]) == Some(s));
                        } else {
                            let k = string_views(all@).index_of(s);
                            assert(string_views(all@)[k] == s);
                            assert(k < before.len());
                            assert(before[k] == s);
                            assert(before.contains(s));
                        }
                    }
                    assert forall|s: Seq<char>|
                        (exists|j: int| 0 <= j < i + 1 && crate::validation::opt_view(#[trigger] found@[j]) == Some(s))
                        implies string_views(all@).contains(s) by {
                        let j = choose|j: int| 0 <= j < i + 1 && crate::validation::opt_view(#[trigger] found@[j]) == Some(s);
                        if j == i {
                            assert(string_views(all@)[before.len() as int] == s);
                        } else {
                            assert(before.contains(s));
                            let k = before.index_of(s);
                            assert(string_views(all@)[k] == s);
                        }
                    }
                }
            },
            None => {
                proof {
                    assert forall|s: Seq<char>|
                        (exists|j: int| 0 <= j < i + 1 && crate::validation::opt_view(#[trigger] found@[j]) == Some(s))
                        implies string_views(all@).contains(s) by {
                        let j = choose|j: int| 0 <= j < i + 1 && crate::validation::opt_view(#[trigger] found@[j]) == Some(s);
                        assert(j != i);
                    }
                }
            },
        }
        i = i + 1;
    }
    let r = crate::order::sorted_unique(all);
    proof {
        assert forall|s: Seq<char>| string_views(r@).contains(s) <==> string_views(all@).contains(s) by {
            assert(string_views(r@).to_set().contains(s) == string_views(r@).contains(s));
            assert(string_views(all@).to_set().contains(s) == string_views(all@).contains(s));
        }
    }
    r
}

/// The modules of the paths `paths`: for each path, the identifier that
/// `extract_module_id` finds on disk, if any; each once, in increasing
/// order.
pub fn infer_module_ids(paths: &Vec<String>) -> (r: Vec<String>)
    ensures
        crate::order::strictly_sorted(string_views(r@)),
        forall|s: Seq<char>|
            string_views(r@).contains(s) ==> exists|i: int, k: int|
                0 <= i < paths@.len() && 0 <= k < crate::validation::ancestor_count(
                    crate::path::path_parts(paths@[i]@).len(),
                ) && crate::validation::ancestor_name(crate::path::path_parts(paths@[i]@), k)
                    == Some(s),
        exists|ids: Seq<Option<Seq<char>>>|
            #[trigger] crate::validation::possible_module_ids(string_views(paths@), ids)
                && string_views(r@).to_set() == crate::validation::some_values(ids),
{
    let mut found: Vec<Option<String>> = Vec::new();
    let mut i: usize = 0;
    while i < paths.len()
        invariant
            i <= paths@.len(),
            found@.len() == i,
            forall|j: int|
                0 <= j < i ==> (#[trigger] found@[j] matches Some(id) ==> exists|k: int|
                    0 <= k < crate::validation::ancestor_count(
                        crate::path::path_parts(paths@[j]@).len(),
                    ) && crate::validation::ancestor_name(crate::path::path_parts(paths@[j]@), k)
                        == Some(id@)),
            forall|j: int|
                0 <= j < i ==> crate::validation::possible_module_id(
                    paths@[j]@,
                    crate::validation::opt_view(#[trigger] found@[j]),
                ),
        decreases paths@.len() - i,
    {
        let id = crate::validation::extract_module_id(paths[i].as_str());
        found.push(id);
        i = i + 1;
    }
    let r = distinct_ids(&found);
    proof {
        let ids = found@.map_values(|o: Option<String>| crate::validation::opt_view(o));
        assert(crate::validation::possible_module_ids(string_views(paths@), ids)) by {
            assert forall|j: int| 0 <= j < ids.len() implies crate::validation::possible_module_id(
                string_views(paths@)[j],
                #[trigger] ids[j],
            ) by {
                assert(ids[j] == crate::validation::opt_view(found@[j]));
            }
        }
        assert(string_views(r@).to_set() =~= crate::validation::some_values(ids)) by {
            assert forall|x: Seq<char>| string_views(r@).to_set().contains(x)
                == crate::validation::some_values(ids).contains(x) by {
                if string_views(r@).contains(x) {
                    let j = choose|j: int|
                        0 <= j < found@.len() && crate::validation::opt_view(#[trigger] found@[j]) == Some(x);
                    assert(ids[j] == Some(x));
                }
                if crate::validation::some_values(ids).contains(x) {
                    let j = choose|j: int| 0 <= j < ids.len() && ids[j] == Some(x);
                    assert(crate::validation::opt_view(found@[j]) == Some(x));
                }
            }
        }
    }
    proof {
        assert forall|s: Seq<char>| string_views(r@).contains(s) implies exists|i: int, k: int|
            0 <= i < paths@.len() && 0 <= k < crate::validation::ancestor_count(
                crate::path::path_parts(paths@[i]@).len(),
            ) && crate::validation::ancestor_name(crate::path::path_parts(paths@[i]@), k)
                == Some(s) by {
            let j = choose|j: int|
                0 <= j < found@.len() && crate::validation::opt_view(#[trigger] found@[j]) == Some(s);
            assert(found@[j] matches Some(id) && id@ == s);
        }
    }
    r
}

/// The modules that were mounted: those of the tree that did not fail.
pub fn mounted_module_ids(inferred: Vec<String>, failed: &Vec<String>) -> (r: Vec<String>)
    ensures
        string_views(r@) == string_views(inferred@).filter(
            crate::runtime_state::not_in(string_views(failed@)),
        ),
{
    let mut v = inferred;
    crate::runtime_state::retain_not_in(&mut v, failed);
    v
}

/// The managed partitions, other than `system`, that move from under
/// `system` to the root of the tree, in the order given: those whose root
/// exists as a directory on the live system and that collecting placed
/// under `system`, each once.
pub open spec fn spec_attached(roots: Seq<(String, bool)>, under: Seq<Seq<char>>) -> Seq<Seq<char>>
    decreases roots.len(),
{
    if roots.len() == 0 {
        seq![]
    } else {
        let prev = spec_attached(roots.drop_last(), under);
        let (n, d) = roots.last();
        if n@ != "system"@ && d && under.contains(n@) && !prev.contains(n@) {
            prev.push(n@)
        } else {
            prev
        }
    }
}

/// The partitions attached to the root of the tree, or `None` when
/// collecting found nothing to mount.
pub fn attach_partitions(
    any_file: bool,
    roots: &Vec<(String, bool)>,
    under_system: &Vec<String>,
) -> (r: Option<Vec<String>>)
    ensures
        match r {
            None => !any_file,
            Some(v) => any_file && string_views(v@) == spec_attached(roots@, string_views(under_system@)),
        },
{
    if !any_file {
        return None;
    }
    let mut out: Vec<String> = Vec::new();
    let mut i: usize = 0;
    assert(roots@.take(0) =~= Seq::<(String, bool)>::empty());
    while i < roots.len()
        invariant
            i <= roots@.len(),
            string_views(out@) == spec_attached(roots@.take(i as int), string_views(under_system@)),
        decreases roots@.len() - i,
    {
        proof {
            assert(roots@.take(i + 1).drop_last() =~= roots@.take(i as int));
            assert(roots@.take(i + 1).last() == roots@[i as int]);
        }
        let name = roots[i].0.as_str();
        if !crate::text::str_is(name, "system") && roots[i].1 && contains_str(under_system, name)
            && !contains_str(&out, name) {
            let ghost before = string_views(out@);
            out.push(roots[i].0.clone());
            assert(string_views(out@) =~= before.push(name@));
        }
        i = i + 1;
    }
    assert(roots@.take(i as int) =~= roots@);
    Some(out)
}

/// What mounting a directory does, in order: build a skeleton of it on the
/// tmpfs, bind the tmpfs onto itself, mount into the existing directory,
/// stop on a replaced directory that belongs to no module (with that
/// message), mount the children, and move the finished tmpfs into place.
#[derive(Debug, Clone)]
pub struct DirectorySteps {
    pub skeleton: bool,
    pub bind_tmpfs: bool,
    pub mount_existing: bool,
    pub error: Option<String>,
    pub move_tmpfs: bool,
}

pub open spec fn replaced_root_error(path: Seq<char>) -> Seq<char> {
    "dir "@ + path + " is declared as replaced but it is root!"@
}

pub fn directory_steps(
    path: &str,
    plan: &DirectoryPlan,
    path_exists: bool,
    replace: bool,
    has_module_path: bool,
) -> (d: DirectorySteps)
    ensures
        d.skeleton == plan.has_tmpfs,
        d.bind_tmpfs == plan.tmpfs,
        d.mount_existing == (path_exists && !replace),
        match d.error {
            Some(m) => replace && !has_module_path && m@ == replaced_root_error(path@),
            None => !(replace && !has_module_path),
        },
        d.move_tmpfs == plan.tmpfs,
{
    let error = if replace && !has_module_path {
        let mut v: Vec<char> = Vec::new();
        crate::text::append_str(&mut v, "dir ");
        crate::text::append_str(&mut v, path);
        crate::text::append_str(&mut v, " is declared as replaced but it is root!");
        Some(string_from_chars(&v))
    } else {
        None
    };
    DirectorySteps {
        skeleton: plan.has_tmpfs,
        bind_tmpfs: plan.tmpfs,
        mount_existing: path_exists && !replace,
        error,
        move_tmpfs: plan.tmpfs,
    }
}

/// What mounting into an existing directory does with one of its live
/// entries.
#[derive(Debug, Clone, Copy, PartialEq, Eq, Structural)]
pub enum LiveEntryAction {
    /// The tree's node of that name is mounted.
    MountNode,
    /// The live entry is mirrored onto the tmpfs.
    Mirror,
    /// Nothing is done.
    Leave,
}

/// A live entry with a node of its name mounts that node unless the node
/// is skipped; one without is mirrored when the directory lies on a tmpfs.
pub fn live_entry_action(node_skip: Option<bool>, has_tmpfs: bool) -> (a: LiveEntryAction)
    ensures
        a == match node_skip {
            Some(true) => LiveEntryAction::Leave,
            Some(false) => LiveEntryAction::MountNode,
            None => if has_tmpfs {
                LiveEntryAction::Mirror
            } else {
                LiveEntryAction::Leave
            },
        },
{
    match node_skip {
        Some(skip) => if skip {
            LiveEntryAction::Leave
        } else {
            LiveEntryAction::MountNode
        },
        None => if has_tmpfs {
            LiveEntryAction::Mirror
        } else {
            LiveEntryAction::Leave
        },
    }
}

} // verus!
