//! Mount planning: for each module, which backend mounts which part of its
//! tree, and how the overlay layers of all modules stack up.

use vstd::prelude::*;
use crate::domain::{ModuleRules, MountMode};
use crate::flavor::BuildFlavor;
use crate::order::{string_views, strictly_sorted, sorted_unique, contains_str, copy_strings, Ranked,
    ranked_sorted, sort_ranked, insert_all};
use crate::inventory::Module;
use crate::plan::{MountPlan, OverlayOperation};
use crate::text::{chars_of, string_from_chars, views, join_with};
use crate::path::{path_parts, normalize_path, spec_normalize_path, split_parts, is_absolute};
use crate::validation::{ancestor, ancestor_name, extract_module_id, possible_module_id, opt_view};
use crate::defs::{join_name, join_path, path_exists};

verus! {

/// What a directory of a module holds, as far as planning is concerned.
#[derive(Debug, Clone, Copy, PartialEq, Eq, Structural)]
pub struct EntryState {
    pub direct_non_dir_entries: bool,
    pub has_child_dirs: bool,
    pub has_replace_marker: bool,
}

/// What planning decides for one directory: whether the module needs magic
/// mounting or Kasumi, whether the directory becomes an overlay layer, and
/// whether planning goes on below it.
#[derive(Debug, Clone, Copy, PartialEq, Eq, Structural)]
pub struct PlanDecision {
    pub magic: bool,
    pub kasumi: bool,
    pub queue_overlay: bool,
    pub descend: bool,
}

/// The decision for a directory whose rules ask for `requested`:
/// - Kasumi falls back to ignoring when it cannot be used;
/// - magic mounting is needed when the effective mode is magic and the
///   directory holds something (without the control plane, child
///   directories count only when no rule lies below);
/// - overlay directories with files of their own and rules below fall back
///   to magic mounting when fallback is enabled;
/// - Kasumi is needed when the effective mode is Kasumi and the directory
///   holds something;
/// - planning descends when rules lie below; otherwise an overlay directory
///   whose target exists is either split (its target is a partition root)
///   or becomes a layer.
pub open spec fn spec_plan_decision(
    requested: MountMode,
    use_kasumi: bool,
    overlay_fallback_enabled: bool,
    control_plane: bool,
    has_descendant_rules: bool,
    entry: EntryState,
    target_exists: bool,
    split_target: bool,
) -> PlanDecision {
    let effective = if requested == MountMode::Kasumi && !use_kasumi {
        MountMode::Ignore
    } else {
        requested
    };
    let has_any = entry.direct_non_dir_entries || entry.has_child_dirs || entry.has_replace_marker;
    let has_magic_entries = if control_plane {
        has_any
    } else {
        entry.direct_non_dir_entries || entry.has_replace_marker || (entry.has_child_dirs
            && !has_descendant_rules)
    };
    let magic = (effective == MountMode::Magic && has_magic_entries) || (effective
        == MountMode::Overlay && entry.direct_non_dir_entries && has_descendant_rules
        && overlay_fallback_enabled);
    let kasumi = effective == MountMode::Kasumi && has_any;
    if has_descendant_rules {
        PlanDecision { magic, kasumi, queue_overlay: false, descend: true }
    } else if effective == MountMode::Overlay && target_exists {
        PlanDecision { magic, kasumi, queue_overlay: !split_target, descend: split_target }
    } else {
        PlanDecision { magic, kasumi, queue_overlay: false, descend: false }
    }
}

/// With overlay fallback on, an overlay directory that holds files of its
/// own and has rules below it sends its module to the magic mount, so
/// those files are mounted; planning then goes on below it. A directory
/// whose effective mode is magic and which holds files or a replace marker
/// always needs the magic mount.
pub proof fn lemma_overlay_files_fall_back_to_magic(
    requested: MountMode,
    use_kasumi: bool,
    overlay_fallback_enabled: bool,
    control_plane: bool,
    has_descendant_rules: bool,
    entry: EntryState,
    target_exists: bool,
    split_target: bool,
)
    ensures
        requested == MountMode::Overlay && overlay_fallback_enabled && entry.direct_non_dir_entries
            && has_descendant_rules ==> ({
            let d = spec_plan_decision(
                requested,
                use_kasumi,
                overlay_fallback_enabled,
                control_plane,
                has_descendant_rules,
                entry,
                target_exists,
                split_target,
            );
            &&& d.magic
            &&& d.descend
            &&& !d.queue_overlay
        }),
        requested == MountMode::Magic && (entry.direct_non_dir_entries || entry.has_replace_marker)
            ==> spec_plan_decision(
            requested,
            use_kasumi,
            overlay_fallback_enabled,
            control_plane,
            has_descendant_rules,
            entry,
            target_exists,
            split_target,
        ).magic,
        !(requested == MountMode::Magic || requested == MountMode::Overlay) ==> !spec_plan_decision(
            requested,
            use_kasumi,
            overlay_fallback_enabled,
            control_plane,
            has_descendant_rules,
            entry,
            target_exists,
            split_target,
        ).magic,
{
}

pub fn plan_decision(
    requested: MountMode,
    use_kasumi: bool,
    overlay_fallback_enabled: bool,
    control_plane: bool,
    has_descendant_rules: bool,
    entry: EntryState,
    target_exists: bool,
    split_target: bool,
) -> (d: PlanDecision)
    ensures
        d == spec_plan_decision(
            requested,
            use_kasumi,
            overlay_fallback_enabled,
            control_plane,
            has_descendant_rules,
            entry,
            target_exists,
            split_target,
        ),
{
    let effective = if requested == MountMode::Kasumi && !use_kasumi {
        MountMode::Ignore
    } else {
        requested
    };
    let has_any = entry.direct_non_dir_entries || entry.has_child_dirs || entry.has_replace_marker;
    let has_magic_entries = if control_plane {
        has_any
    } else {
        entry.direct_non_dir_entries || entry.has_replace_marker || (entry.has_child_dirs
            && !has_descendant_rules)
    };
    let magic = (effective == MountMode::Magic && has_magic_entries) || (effective
        == MountMode::Overlay && entry.direct_non_dir_entries && has_descendant_rules
        && overlay_fallback_enabled);
    let kasumi = effective == MountMode::Kasumi && has_any;
    if has_descendant_rules {
        PlanDecision { magic, kasumi, queue_overlay: false, descend: true }
    } else if effective == MountMode::Overlay && target_exists {
        PlanDecision { magic, kasumi, queue_overlay: !split_target, descend: split_target }
    } else {
        PlanDecision { magic, kasumi, queue_overlay: false, descend: false }
    }
}

/// The final component of a path, unless there is none or it is `".."`
/// (`Path::file_name`).
pub open spec fn spec_file_name(p: Seq<char>) -> Option<Seq<char>> {
    ancestor_name(path_parts(p), 0)
}

pub fn file_name(p: &str) -> (r: Option<String>)
    ensures
        crate::validation::opt_view(r) == spec_file_name(p@),
{
    let c = chars_of(p);
    let parts = split_parts(&c);
    let n = parts.len();
    if n == 0 {
        return None;
    }
    assert(views(parts@)[n - 1] == parts@[n - 1]@);
    let last = &parts[n - 1];
    let is_up = last.len() == 2 && last[0] == '.' && last[1] == '.';
    assert(is_up == (last@ == crate::path::dot_dot())) by {
        if last@.len() == 2 && last@[0] == '.' && last@[1] == '.' {
            assert(last@ =~= crate::path::dot_dot());
        }
    }
    if is_up {
        None
    } else {
        Some(string_from_chars(last))
    }
}

/// A target is split into its children when it is `system` or a managed
/// partition.
pub open spec fn spec_split_target(resolved_target: Seq<char>, managed: Seq<Seq<char>>) -> bool {
    let name = match spec_file_name(resolved_target) {
        Some(n) => n,
        None => Seq::<char>::empty(),
    };
    name == "system"@ || managed.contains(name)
}

pub fn should_split_overlay_target(resolved_target: &str, managed: &Vec<String>) -> (b: bool)
    ensures
        b == spec_split_target(resolved_target@, string_views(managed@)),
{
    let name = match file_name(resolved_target) {
        Some(n) => n,
        None => String::new(),
    };
    crate::text::str_is(name.as_str(), "system") || contains_str(managed, name.as_str())
}


/// The target of the symbolic link at `path`, or `None` when it is not a
/// link or cannot be read (`Path::read_link`).
#[verifier::external_body]
pub(crate) fn read_link(path: &str) -> (r: Option<String>) {
    match std::path::Path::new(path).read_link() {
        Ok(target) => Some(target.to_string_lossy().into_owned()),
        Err(_) => None,
    }
}

/// The directory a relative link target is read from: the parent of the
/// link (`"/"` when it has none).
pub open spec fn link_base(path: Seq<char>) -> Seq<char> {
    let parts = path_parts(path);
    if parts.len() == 0 {
        "/"@
    } else {
        ancestor(is_absolute(path), parts, 1)
    }
}

/// Where `path` leads when reading it as a link gave `link`: the normalised
/// link target (relative targets taken from the link's directory), or the
/// normalised path itself when it is no link.
pub open spec fn spec_resolve_with(path: Seq<char>, link: Option<Seq<char>>) -> Seq<char> {
    match link {
        Some(t) => if is_absolute(t) {
            spec_normalize_path(t)
        } else {
            spec_normalize_path(join_path(link_base(path), t))
        },
        None => spec_normalize_path(path),
    }
}

fn link_base_text(path: &str) -> (r: String)
    ensures
        r@ == link_base(path@),
{
    let c = chars_of(path);
    let parts = split_parts(&c);
    if parts.len() == 0 {
        return "/".to_owned();
    }
    let absolute = c.len() > 0 && c[0] == '/';
    let n = parts.len() - 1;
    let mut prefix: Vec<Vec<char>> = Vec::new();
    let mut i: usize = 0;
    while i < n
        invariant
            i <= n,
            n + 1 == parts@.len(),
            views(prefix@) == views(parts@).take(i as int),
        decreases n - i,
    {
        let part = crate::path::copy_chars(&parts[i]);
        proof {
            crate::text::lemma_views_push(prefix@, part);
        }
        prefix.push(part);
        assert(views(prefix@) =~= views(parts@).take(i + 1));
        i = i + 1;
    }
    let t = crate::path::join(&prefix, absolute);
    string_from_chars(&t)
}

/// Where `path` leads after resolving it as a link, given what reading
/// the link returned.
pub fn resolve_link_with(path: &str, link: Option<String>) -> (r: String)
    ensures
        r@ == spec_resolve_with(path@, crate::validation::opt_view(link)),
{
    match link {
        Some(t) => {
            let tc = chars_of(t.as_str());
            if tc.len() > 0 && tc[0] == '/' {
                normalize_path(t.as_str())
            } else {
                let base = link_base_text(path);
                let joined = join_name(base.as_str(), t.as_str());
                normalize_path(joined.as_str())
            }
        },
        None => normalize_path(path),
    }
}

/// Where `path` leads after resolving it as a link, read from disk.
pub fn resolve_link_path(path: &str) -> (r: String)
    ensures
        possible_resolution(path@, r@),
{
    let link = read_link(path);
    let ghost seen = crate::validation::opt_view(link);
    let r = resolve_link_with(path, link);
    proof {
        match seen {
            Some(t) => {
                assert(r@ == spec_resolve_with(path@, Some(t)));
            },
            None => {},
        }
    }
    r
}


/// A directory of a module's tree: its name, the directory it lies in
/// (`None` for the top level; always an earlier index), what it holds, and
/// how many replace markers (`.replace` in any letter case) it holds.
#[derive(Debug, Clone)]
pub struct SourceDir {
    pub name: String,
    pub parent: Option<usize>,
    pub entry: EntryState,
    pub replace_markers: usize,
}

/// A module's tree as planning reads it: the replace markers and other
/// non-directory entries at its root, and its directories in the order
/// they are visited (breadth first).
#[derive(Debug, Clone)]
pub struct SourceTree {
    pub root_replace_markers: usize,
    pub root_files: Vec<String>,
    pub dirs: Vec<SourceDir>,
}

impl SourceTree {
    /// Every directory's parent comes before it.
    pub open spec fn wf(&self) -> bool {
        forall|i: int|
            0 <= i < self.dirs@.len() ==> ((#[trigger] self.dirs@[i]).parent matches Some(p) ==> p < i)
    }
}

/// The path of directory `i` relative to the module root.
pub open spec fn relative_of(dirs: Seq<SourceDir>, i: int) -> Seq<char>
    decreases i,
{
    if 0 <= i < dirs.len() {
        match dirs[i].parent {
            Some(p) => if p < i {
                join_path(relative_of(dirs, p as int), dirs[i].name@)
            } else {
                dirs[i].name@
            },
            None => dirs[i].name@,
        }
    } else {
        Seq::<char>::empty()
    }
}

/// The top-level directory that directory `i` lies in.
pub open spec fn top_of(dirs: Seq<SourceDir>, i: int) -> Seq<char>
    decreases i,
{
    if 0 <= i < dirs.len() {
        match dirs[i].parent {
            Some(p) => if p < i {
                top_of(dirs, p as int)
            } else {
                dirs[i].name@
            },
            None => dirs[i].name@,
        }
    } else {
        Seq::<char>::empty()
    }
}

/// The overlay layers that a module contributes over one target.
#[derive(Debug, Clone)]
pub struct OverlayGroup {
    pub target: String,
    pub partition: String,
    pub layers: Vec<String>,
}

/// What planning decided for a module.
#[derive(Debug, Clone)]
pub struct ModulePlanOutcome {
    pub overlay_groups: Vec<OverlayGroup>,
    pub magic: bool,
    pub kasumi: bool,
}

impl ModulePlanOutcome {
    pub open spec fn spec_has_mount_result(&self) -> bool {
        self.overlay_groups@.len() > 0 || self.magic || self.kasumi
    }

    /// Whether any backend has work for the module.
    pub fn has_mount_result(&self) -> (b: bool)
        ensures
            b == self.spec_has_mount_result(),
    {
        self.overlay_groups.len() > 0 || self.magic || self.kasumi
    }
}

/// What preparing a module found: whether it holds content for a managed
/// partition, the directories to mark opaque, and the plan.
#[derive(Debug, Clone)]
pub struct ModulePrepareOutcome {
    pub has_mount_content: bool,
    pub opaque_dirs: Vec<String>,
    pub plan: ModulePlanOutcome,
}

impl ModulePrepareOutcome {
    pub open spec fn spec_keep(&self) -> bool {
        self.has_mount_content && self.plan.spec_has_mount_result()
    }

    /// A module is kept when it has content and some backend mounts it.
    pub fn keep_module(&self) -> (b: bool)
        ensures
            b == self.spec_keep(),
    {
        self.has_mount_content && self.plan.has_mount_result()
    }
}

/// What planning keeps across modules: whether Kasumi can be used, whether
/// overlay fallback is on, whether the build has the control plane, the
/// managed partitions, and the link targets resolved so far.
pub struct PrepareContext {
    pub use_kasumi: bool,
    pub overlay_fallback_enabled: bool,
    pub control_plane: bool,
    pub managed_partitions: Vec<String>,
    pub target_cache: Vec<(String, String)>,
}

impl PrepareContext {
    pub fn new(
        use_kasumi: bool,
        overlay_fallback_enabled: bool,
        flavor: BuildFlavor,
        managed_partitions: Vec<String>,
    ) -> (c: Self)
        ensures
            c.use_kasumi == use_kasumi,
            c.overlay_fallback_enabled == overlay_fallback_enabled,
            c.control_plane == flavor.spec_enable_control_plane(),
            c.managed_partitions@ == managed_partitions@,
    {
        PrepareContext {
            use_kasumi,
            overlay_fallback_enabled,
            control_plane: flavor.enable_control_plane(),
            managed_partitions,
            target_cache: Vec::new(),
        }
    }

    /// Where `system_target` leads, resolving each path once: the result
    /// cached for it first, else its resolution as a link (read from disk),
    /// which is then cached.
    fn resolve_target_cached(&mut self, system_target: &str) -> (r: String)
        ensures
            final(self).use_kasumi == old(self).use_kasumi,
            final(self).overlay_fallback_enabled == old(self).overlay_fallback_enabled,
            final(self).control_plane == old(self).control_plane,
            final(self).managed_partitions@ == old(self).managed_partitions@,
            cached_at(old(self).target_cache@, system_target@) matches Some(i) ==> {
                &&& final(self).target_cache@ == old(self).target_cache@
                &&& r@ == old(self).target_cache@[i].1@
            },
            cached_at(old(self).target_cache@, system_target@) is None ==> {
                &&& possible_resolution(system_target@, r@)
                &&& final(self).target_cache@.len() == old(self).target_cache@.len() + 1
                &&& final(self).target_cache@.drop_last() == old(self).target_cache@
                &&& final(self).target_cache@.last().0@ == system_target@
                &&& final(self).target_cache@.last().1@ == r@
            },
    {
        let mut i: usize = 0;
        while i < self.target_cache.len()
            invariant
                i <= self.target_cache@.len(),
                forall|j: int| 0 <= j < i ==> self.target_cache@[j].0@ != system_target@,
            decreases self.target_cache@.len() - i,
        {
            if crate::text::str_is(self.target_cache[i].0.as_str(), system_target) {
                proof {
                    lemma_cached_at(self.target_cache@, system_target@, i as int);
                }
                return self.target_cache[i].1.clone();
            }
            i = i + 1;
        }
        proof {
            lemma_not_cached(self.target_cache@, system_target@);
        }
        let resolved = resolve_link_path(system_target);
        let ghost before = self.target_cache@;
        self.target_cache.push((system_target.to_owned(), resolved.clone()));
        assert(self.target_cache@.drop_last() =~= before);
        resolved
    }
}

/// The first place of `key` in the cache `cache`, if it is there.
pub open spec fn cached_at(cache: Seq<(String, String)>, key: Seq<char>) -> Option<int> {
    if exists|i: int| 0 <= i < cache.len() && cache[i].0@ == key {
        Some(
            choose|i: int|
                0 <= i < cache.len() && cache[i].0@ == key && forall|j: int|
                    0 <= j < i ==> cache[j].0@ != key,
        )
    } else {
        None
    }
}

proof fn lemma_first_cached(cache: Seq<(String, String)>, key: Seq<char>, i: int)
    requires
        0 <= i < cache.len(),
        cache[i].0@ == key,
    ensures
        exists|c: int|
            0 <= c < cache.len() && cache[c].0@ == key && forall|j: int| 0 <= j < c ==> cache[j].0@ != key,
    decreases i,
{
    if exists|j: int| 0 <= j < i && cache[j].0@ == key {
        let j = choose|j: int| 0 <= j < i && cache[j].0@ == key;
        lemma_first_cached(cache, key, j);
    } else {
        assert(0 <= i < cache.len() && cache[i].0@ == key && forall|j: int| 0 <= j < i ==> cache[j].0@ != key);
    }
}

/// A place found in the cache holds the key.
proof fn lemma_cached_at_bounds(cache: Seq<(String, String)>, key: Seq<char>)
    ensures
        cached_at(cache, key) matches Some(j) ==> 0 <= j < cache.len() && cache[j].0@ == key,
{
    if exists|i: int| 0 <= i < cache.len() && cache[i].0@ == key {
        let i = choose|i: int| 0 <= i < cache.len() && cache[i].0@ == key;
        lemma_first_cached(cache, key, i);
    }
}

proof fn lemma_cached_at(cache: Seq<(String, String)>, key: Seq<char>, i: int)
    requires
        0 <= i < cache.len(),
        cache[i].0@ == key,
        forall|j: int| 0 <= j < i ==> cache[j].0@ != key,
    ensures
        cached_at(cache, key) == Some(i),
{
    let c = choose|c: int|
        0 <= c < cache.len() && cache[c].0@ == key && forall|j: int| 0 <= j < c ==> cache[j].0@ != key;
    assert(0 <= i < cache.len() && cache[i].0@ == key && forall|j: int| 0 <= j < i ==> cache[j].0@ != key);
    if c < i {
        assert(cache[c].0@ != key);
    } else if c > i {
        assert(cache[i].0@ != key);
    }
}

proof fn lemma_not_cached(cache: Seq<(String, String)>, key: Seq<char>)
    requires
        forall|j: int| 0 <= j < cache.len() ==> cache[j].0@ != key,
    ensures
        cached_at(cache, key) is None,
{
}

/// `r` is where `path` can lead once resolved as a link: the link read from
/// disk, if there is one, decides.
pub open spec fn possible_resolution(path: Seq<char>, r: Seq<char>) -> bool {
    r == spec_resolve_with(path, None) || exists|t: Seq<char>| r == spec_resolve_with(path, Some(t))
}

/// What a directory hands down to the directories in it.
struct ChildContext {
    base_target: String,
    label: String,
    active: bool,
    count: bool,
    relative: String,
}

/// Whether `target` names the same path as `other`, component by
/// component.
pub open spec fn same_path(target: Seq<char>, other: Seq<char>) -> bool {
    path_parts(target) == path_parts(other) && is_absolute(target) == is_absolute(other)
}

fn same_path_exec(a: &str, b: &str) -> (r: bool)
    ensures
        r == same_path(a@, b@),
{
    let ac = chars_of(a);
    let bc = chars_of(b);
    let pa = split_parts(&ac);
    let pb = split_parts(&bc);
    let abs_a = ac.len() > 0 && ac[0] == '/';
    let abs_b = bc.len() > 0 && bc[0] == '/';
    assert(views(pa@).len() == pa@.len() && views(pb@).len() == pb@.len());
    if abs_a != abs_b || pa.len() != pb.len() {
        return false;
    }
    let mut i: usize = 0;
    while i < pa.len()
        invariant
            i <= pa@.len() == pb@.len(),
            views(pa@) == path_parts(a@),
            views(pb@) == path_parts(b@),
            forall|k: int| 0 <= k < i ==> views(pa@)[k] == views(pb@)[k],
        decreases pa@.len() - i,
    {
        assert(views(pa@)[i as int] == pa@[i as int]@);
        assert(views(pb@)[i as int] == pb@[i as int]@);
        if !crate::text::chars_eq(&pa[i], &pb[i]) {
            return false;
        }
        i = i + 1;
    }
    assert(views(pa@) =~= views(pb@));
    true
}

pub open spec fn group_view(g: OverlayGroup) -> (Seq<char>, Seq<char>, Seq<Seq<char>>) {
    (g.target@, g.partition@, string_views(g.layers@))
}

pub open spec fn groups_view(gs: Seq<OverlayGroup>) -> Seq<(Seq<char>, Seq<char>, Seq<Seq<char>>)> {
    gs.map_values(|g: OverlayGroup| group_view(g))
}

/// Index of the first group over the same path as `target`, or the number
/// of groups.
pub open spec fn first_same(
    gs: Seq<(Seq<char>, Seq<char>, Seq<Seq<char>>)>,
    target: Seq<char>,
    from: int,
) -> int
    decreases gs.len() - from,
{
    if from < 0 || from >= gs.len() {
        gs.len() as int
    } else if same_path(gs[from].0, target) {
        from
    } else {
        first_same(gs, target, from + 1)
    }
}

/// The groups after adding `layer` over `target`: to the first group over
/// the same path, or in a new group with `partition`.
pub open spec fn spec_queue(
    gs: Seq<(Seq<char>, Seq<char>, Seq<Seq<char>>)>,
    target: Seq<char>,
    partition: Seq<char>,
    layer: Seq<char>,
) -> Seq<(Seq<char>, Seq<char>, Seq<Seq<char>>)> {
    let i = first_same(gs, target, 0);
    if i < gs.len() {
        gs.update(i, (gs[i].0, gs[i].1, gs[i].2.push(layer)))
    } else {
        gs.push((target, partition, seq![layer]))
    }
}

proof fn lemma_first_same_bounds(
    gs: Seq<(Seq<char>, Seq<char>, Seq<Seq<char>>)>,
    target: Seq<char>,
    from: int,
)
    requires
        0 <= from,
    ensures
        from <= first_same(gs, target, from) <= gs.len() || (from > gs.len() && first_same(
            gs,
            target,
            from,
        ) == gs.len()),
        first_same(gs, target, from) < gs.len() ==> same_path(gs[first_same(gs, target, from)].0, target),
        forall|k: int| from <= k < first_same(gs, target, from) ==> !same_path(#[trigger] gs[k].0, target),
    decreases gs.len() - from,
{
    if from < gs.len() && !same_path(gs[from].0, target) {
        lemma_first_same_bounds(gs, target, from + 1);
    }
}

/// Adds `layer` to the group over `target` (see `spec_queue`).
pub fn queue_overlay(groups: &mut Vec<OverlayGroup>, target: &str, partition: &str, layer: &str)
    ensures
        groups_view(final(groups)@) == spec_queue(groups_view(old(groups)@), target@, partition@, layer@),
{
    let ghost gv = groups_view(groups@);
    proof {
        lemma_first_same_bounds(gv, target@, 0);
    }
    let mut i: usize = 0;
    while i < groups.len()
        invariant
            i <= groups@.len(),
            groups@ == old(groups)@,
            gv == groups_view(groups@),
            forall|k: int| 0 <= k < i ==> !same_path(#[trigger] gv[k].0, target@),
        decreases groups@.len() - i,
    {
        assert(gv[i as int].0 == groups@[i as int].target@);
        if same_path_exec(groups[i].target.as_str(), target) {
            proof {
                if first_same(gv, target@, 0) != i {
                    lemma_first_same_bounds(gv, target@, 0);
                    assert(first_same(gv, target@, 0) <= i);
                }
            }
            let mut layers = copy_strings(&groups[i].layers);
            let ghost old_layers = string_views(layers@);
            assert(old_layers.len() == layers@.len());
            layers.push(layer.to_owned());
            assert(string_views(layers@) =~= old_layers.push(layer@));
            let g = OverlayGroup {
                target: groups[i].target.clone(),
                partition: groups[i].partition.clone(),
                layers,
            };
            assert(group_view(g) == (gv[i as int].0, gv[i as int].1, gv[i as int].2.push(layer@)));
            groups.set(i, g);
            assert(groups_view(groups@) =~= spec_queue(gv, target@, partition@, layer@));
            return;
        }
        i = i + 1;
    }
    proof {
        if first_same(gv, target@, 0) < gv.len() {
            let f = first_same(gv, target@, 0);
            assert(!same_path(gv[f].0, target@));
        }
    }
    let mut layers: Vec<String> = Vec::new();
    layers.push(layer.to_owned());
    assert(string_views(layers@) =~= seq![layer@]);
    groups.push(OverlayGroup { target: target.to_owned(), partition: partition.to_owned(), layers });
    assert(groups_view(groups@) =~= spec_queue(gv, target@, partition@, layer@));
}

/// The number of replace markers in the root and in the first `n`
/// directories, as opaque directories under `tmp_root`.
pub open spec fn opaque_prefix(tree: SourceTree, tmp_root: Seq<char>, n: int) -> Seq<Seq<char>>
    decreases n,
{
    if n <= 0 {
        Seq::new(tree.root_replace_markers as nat, |k: int| tmp_root)
    } else {
        let i = n - 1;
        opaque_prefix(tree, tmp_root, i) + Seq::new(
            tree.dirs@[i].replace_markers as nat,
            |k: int| join_path(tmp_root, relative_of(tree.dirs@, i)),
        )
    }
}

/// Directory `i` holds content that counts: it lies in a managed partition
/// and holds files or a replace marker.
pub open spec fn dir_shows_content(tree: SourceTree, managed: Seq<Seq<char>>, i: int) -> bool {
    &&& managed.contains(top_of(tree.dirs@, i))
    &&& (tree.dirs@[i].entry.direct_non_dir_entries || tree.dirs@[i].replace_markers > 0)
}

pub open spec fn spec_has_mount_content(tree: SourceTree, managed: Seq<Seq<char>>) -> bool {
    ||| exists|r: int|
        0 <= r < tree.root_files@.len() && managed.contains(#[trigger] tree.root_files@[r]@)
    ||| exists|i: int| 0 <= i < tree.dirs@.len() && #[trigger] dir_shows_content(tree, managed, i)
}

/// Every layer of `gs` is the kept copy of a directory of the tree.
pub open spec fn layers_from(
    gs: Seq<(Seq<char>, Seq<char>, Seq<Seq<char>>)>,
    dirs: Seq<SourceDir>,
    final_root: Seq<char>,
) -> bool {
    forall|g: int, l: int|
        0 <= g < gs.len() && 0 <= l < gs[g].2.len() ==> exists|k: int|
            0 <= k < dirs.len() && #[trigger] gs[g].2[l] == join_path(final_root, relative_of(dirs, k))
}

proof fn lemma_queue_keeps_layers_from(
    gs: Seq<(Seq<char>, Seq<char>, Seq<Seq<char>>)>,
    target: Seq<char>,
    partition: Seq<char>,
    dirs: Seq<SourceDir>,
    final_root: Seq<char>,
    i: int,
)
    requires
        layers_from(gs, dirs, final_root),
        0 <= i < dirs.len(),
    ensures
        layers_from(
            spec_queue(gs, target, partition, join_path(final_root, relative_of(dirs, i))),
            dirs,
            final_root,
        ),
{
    let layer = join_path(final_root, relative_of(dirs, i));
    let q = spec_queue(gs, target, partition, layer);
    lemma_first_same_bounds(gs, target, 0);
    let f = first_same(gs, target, 0);
    assert forall|g: int, l: int| 0 <= g < q.len() && 0 <= l < q[g].2.len() implies exists|k: int|
        0 <= k < dirs.len() && #[trigger] q[g].2[l] == join_path(final_root, relative_of(dirs, k)) by {
        if f < gs.len() {
            if g == f {
                if l < gs[g].2.len() {
                    assert(q[g].2[l] == gs[g].2[l]);
                } else {
                    assert(q[g].2[l] == layer);
                }
            } else {
                assert(q[g].2[l] == gs[g].2[l]);
            }
        } else {
            if g < gs.len() {
                assert(q[g].2[l] == gs[g].2[l]);
            } else {
                assert(q[g].2[l] == layer);
            }
        }
    }
}

/// What was read from disk for one directory of a module's tree: whether
/// its system target exists and, where it does, where that target leads.
#[derive(Debug, Clone)]
pub struct TargetProbe {
    pub exists: bool,
    pub resolved: String,
}

pub open spec fn probe_views(probes: Seq<TargetProbe>) -> Seq<(bool, Seq<char>)> {
    Seq::new(probes.len(), |i: int| (probes[i].exists, probes[i].resolved@))
}

/// The probe of directory `i`; a directory without one reads as missing.
pub open spec fn probe_at(probes: Seq<(bool, Seq<char>)>, i: int) -> (bool, Seq<char>) {
    if 0 <= i < probes.len() {
        probes[i]
    } else {
        (false, Seq::<char>::empty())
    }
}

/// The settings that planning reads from its context.
pub struct PlanSettings {
    pub use_kasumi: bool,
    pub overlay_fallback_enabled: bool,
    pub control_plane: bool,
    pub managed: Seq<Seq<char>>,
}

pub open spec fn settings_of(ctx: PrepareContext) -> PlanSettings {
    PlanSettings {
        use_kasumi: ctx.use_kasumi,
        overlay_fallback_enabled: ctx.overlay_fallback_enabled,
        control_plane: ctx.control_plane,
        managed: string_views(ctx.managed_partitions@),
    }
}

/// One step of the walk over a module's directories: where the directory
/// starts (its system target, the partition label and whether planning is
/// active there), where its target leads, the label its children get, the
/// decision for it, and whether planning goes on below it.
pub struct WalkStep {
    pub system_target: Seq<char>,
    pub current: Seq<char>,
    pub label: Seq<char>,
    pub active: bool,
    pub next_label: Seq<char>,
    pub decision: PlanDecision,
    pub descend: bool,
}

/// The step at directory `i`, given where it starts and what was read for
/// its target: the target leads to the probed place only where planning is
/// active and the target exists; the children's label is the final name of
/// that place, if it has a non-empty one.
pub open spec fn step_from(
    rules: ModuleRules,
    tree: SourceTree,
    settings: PlanSettings,
    i: int,
    system_target: Seq<char>,
    label: Seq<char>,
    active: bool,
    probe: (bool, Seq<char>),
) -> WalkStep {
    let current = if active && probe.0 {
        probe.1
    } else {
        system_target
    };
    let next_label = if active {
        match spec_file_name(current) {
            Some(n) => if n.len() > 0 {
                n
            } else {
                label
            },
            None => label,
        }
    } else {
        label
    };
    let relative = relative_of(tree.dirs@, i);
    let decision = spec_plan_decision(
        rules.spec_mode(relative),
        settings.use_kasumi,
        settings.overlay_fallback_enabled,
        settings.control_plane,
        rules.spec_has_descendant_rule(relative),
        tree.dirs@[i].entry,
        probe.0,
        spec_split_target(current, settings.managed),
    );
    WalkStep {
        system_target,
        current,
        label,
        active,
        next_label,
        decision,
        descend: active && decision.descend,
    }
}

/// The step of the walk at directory `i`: a top-level directory starts at
/// its name under `system_root`, labelled by its name and active when it is
/// a managed partition; any other starts under where its parent's target
/// leads, with its parent's label for children and active when planning
/// goes on below its parent.
pub open spec fn walk_step(
    rules: ModuleRules,
    tree: SourceTree,
    settings: PlanSettings,
    system_root: Seq<char>,
    probes: Seq<(bool, Seq<char>)>,
    i: int,
) -> WalkStep
    decreases i,
{
    let d = tree.dirs@[i];
    let top = (join_path(system_root, d.name@), d.name@, settings.managed.contains(d.name@));
    let start = match d.parent {
        Some(p) => if 0 <= p < i {
            let s = walk_step(rules, tree, settings, system_root, probes, p as int);
            (join_path(s.current, d.name@), s.next_label, s.descend)
        } else {
            top
        },
        None => top,
    };
    step_from(rules, tree, settings, i, start.0, start.1, start.2, probe_at(probes, i))
}

/// The overlay groups after the first `n` steps: each directory decided for
/// overlay queues its kept copy over where its target leads.
pub open spec fn walk_groups(
    rules: ModuleRules,
    tree: SourceTree,
    settings: PlanSettings,
    system_root: Seq<char>,
    final_root: Seq<char>,
    probes: Seq<(bool, Seq<char>)>,
    n: int,
) -> Seq<(Seq<char>, Seq<char>, Seq<Seq<char>>)>
    decreases n,
{
    if n <= 0 {
        Seq::empty()
    } else {
        let prev = walk_groups(rules, tree, settings, system_root, final_root, probes, n - 1);
        let s = walk_step(rules, tree, settings, system_root, probes, n - 1);
        if s.active && s.decision.queue_overlay {
            spec_queue(prev, s.current, s.label, join_path(final_root, relative_of(tree.dirs@, n - 1)))
        } else {
            prev
        }
    }
}

/// Some active directory among the first `n` needs magic mounting.
pub open spec fn walk_magic(
    rules: ModuleRules,
    tree: SourceTree,
    settings: PlanSettings,
    system_root: Seq<char>,
    probes: Seq<(bool, Seq<char>)>,
    n: int,
) -> bool {
    exists|k: int|
        0 <= k < n && #[trigger] walk_step(rules, tree, settings, system_root, probes, k).active
            && walk_step(rules, tree, settings, system_root, probes, k).decision.magic
}

/// Some active directory among the first `n` needs Kasumi.
pub open spec fn walk_kasumi(
    rules: ModuleRules,
    tree: SourceTree,
    settings: PlanSettings,
    system_root: Seq<char>,
    probes: Seq<(bool, Seq<char>)>,
    n: int,
) -> bool {
    exists|k: int|
        0 <= k < n && #[trigger] walk_step(rules, tree, settings, system_root, probes, k).active
            && walk_step(rules, tree, settings, system_root, probes, k).decision.kasumi
}

proof fn lemma_walk_step_prefix(
    rules: ModuleRules,
    tree: SourceTree,
    settings: PlanSettings,
    system_root: Seq<char>,
    probes: Seq<(bool, Seq<char>)>,
    more: Seq<(bool, Seq<char>)>,
    i: int,
)
    requires
        0 <= i < probes.len() <= more.len(),
        probes == more.take(probes.len() as int),
    ensures
        walk_step(rules, tree, settings, system_root, probes, i) == walk_step(
            rules,
            tree,
            settings,
            system_root,
            more,
            i,
        ),
    decreases i,
{
    assert(probe_at(probes, i) == probe_at(more, i));
    match tree.dirs@[i].parent {
        Some(p) => if 0 <= p < i {
            lemma_walk_step_prefix(rules, tree, settings, system_root, probes, more, p as int);
        },
        None => {},
    }
}

proof fn lemma_walk_groups_prefix(
    rules: ModuleRules,
    tree: SourceTree,
    settings: PlanSettings,
    system_root: Seq<char>,
    final_root: Seq<char>,
    probes: Seq<(bool, Seq<char>)>,
    more: Seq<(bool, Seq<char>)>,
    n: int,
)
    requires
        0 <= n <= probes.len() <= more.len(),
        probes == more.take(probes.len() as int),
    ensures
        walk_groups(rules, tree, settings, system_root, final_root, probes, n) == walk_groups(
            rules,
            tree,
            settings,
            system_root,
            final_root,
            more,
            n,
        ),
    decreases n,
{
    if n > 0 {
        lemma_walk_groups_prefix(rules, tree, settings, system_root, final_root, probes, more, n - 1);
        lemma_walk_step_prefix(rules, tree, settings, system_root, probes, more, n - 1);
    }
}

/// Reading one more probe changes nothing of the steps before it.
proof fn lemma_walk_extend(
    rules: ModuleRules,
    tree: SourceTree,
    st: PlanSettings,
    system_root: Seq<char>,
    final_root: Seq<char>,
    pv: Seq<(bool, Seq<char>)>,
    probe: (bool, Seq<char>),
)
    ensures
        forall|k: int| 0 <= k < pv.len() ==> walk_step(rules, tree, st, system_root, pv, k)
            == #[trigger] walk_step(rules, tree, st, system_root, pv.push(probe), k),
        walk_groups(rules, tree, st, system_root, final_root, pv, pv.len() as int) == walk_groups(
            rules,
            tree,
            st,
            system_root,
            final_root,
            pv.push(probe),
            pv.len() as int,
        ),
        walk_magic(rules, tree, st, system_root, pv, pv.len() as int) == walk_magic(
            rules,
            tree,
            st,
            system_root,
            pv.push(probe),
            pv.len() as int,
        ),
        walk_kasumi(rules, tree, st, system_root, pv, pv.len() as int) == walk_kasumi(
            rules,
            tree,
            st,
            system_root,
            pv.push(probe),
            pv.len() as int,
        ),
{
    let next = pv.push(probe);
    let i = pv.len() as int;
    assert(pv =~= next.take(i));
    assert forall|k: int| 0 <= k < i implies walk_step(rules, tree, st, system_root, pv, k)
        == #[trigger] walk_step(rules, tree, st, system_root, next, k) by {
        lemma_walk_step_prefix(rules, tree, st, system_root, pv, next, k);
    }
    lemma_walk_groups_prefix(rules, tree, st, system_root, final_root, pv, next, i);
    if walk_magic(rules, tree, st, system_root, pv, i) {
        let k = choose|k: int|
            0 <= k < i && #[trigger] walk_step(rules, tree, st, system_root, pv, k).active
                && walk_step(rules, tree, st, system_root, pv, k).decision.magic;
        assert(walk_step(rules, tree, st, system_root, next, k).active);
    }
    if walk_magic(rules, tree, st, system_root, next, i) {
        let k = choose|k: int|
            0 <= k < i && #[trigger] walk_step(rules, tree, st, system_root, next, k).active
                && walk_step(rules, tree, st, system_root, next, k).decision.magic;
        assert(walk_step(rules, tree, st, system_root, pv, k).active);
    }
    if walk_kasumi(rules, tree, st, system_root, pv, i) {
        let k = choose|k: int|
            0 <= k < i && #[trigger] walk_step(rules, tree, st, system_root, pv, k).active
                && walk_step(rules, tree, st, system_root, pv, k).decision.kasumi;
        assert(walk_step(rules, tree, st, system_root, next, k).active);
    }
    if walk_kasumi(rules, tree, st, system_root, next, i) {
        let k = choose|k: int|
            0 <= k < i && #[trigger] walk_step(rules, tree, st, system_root, next, k).active
                && walk_step(rules, tree, st, system_root, next, k).decision.kasumi;
        assert(walk_step(rules, tree, st, system_root, pv, k).active);
    }
}

/// The flags after step `i` of the walk: set before, or set by that step.
proof fn lemma_walk_flags(
    rules: ModuleRules,
    tree: SourceTree,
    st: PlanSettings,
    system_root: Seq<char>,
    pv: Seq<(bool, Seq<char>)>,
    i: int,
    old_magic: bool,
    old_kasumi: bool,
    magic: bool,
    kasumi: bool,
)
    requires
        0 <= i,
        old_magic == walk_magic(rules, tree, st, system_root, pv, i),
        old_kasumi == walk_kasumi(rules, tree, st, system_root, pv, i),
        magic == (old_magic || (walk_step(rules, tree, st, system_root, pv, i).active
            && walk_step(rules, tree, st, system_root, pv, i).decision.magic)),
        kasumi == (old_kasumi || (walk_step(rules, tree, st, system_root, pv, i).active
            && walk_step(rules, tree, st, system_root, pv, i).decision.kasumi)),
    ensures
        magic == walk_magic(rules, tree, st, system_root, pv, i + 1),
        kasumi == walk_kasumi(rules, tree, st, system_root, pv, i + 1),
{
    if walk_magic(rules, tree, st, system_root, pv, i + 1) && !old_magic {
        let k = choose|k: int|
            0 <= k < i + 1 && #[trigger] walk_step(rules, tree, st, system_root, pv, k).active
                && walk_step(rules, tree, st, system_root, pv, k).decision.magic;
        assert(k == i);
    }
    if walk_kasumi(rules, tree, st, system_root, pv, i + 1) && !old_kasumi {
        let k = choose|k: int|
            0 <= k < i + 1 && #[trigger] walk_step(rules, tree, st, system_root, pv, k).active
                && walk_step(rules, tree, st, system_root, pv, k).decision.kasumi;
        assert(k == i);
    }
}

/// The step at directory `i` starts where the contexts of its parent (or
/// the system root, for a top-level directory) put it.
proof fn lemma_walk_step_start(
    rules: ModuleRules,
    tree: SourceTree,
    st: PlanSettings,
    system_root: Seq<char>,
    pv: Seq<(bool, Seq<char>)>,
    children: Seq<ChildContext>,
    i: int,
    start: (Seq<char>, Seq<char>, bool),
)
    requires
        tree.wf(),
        0 <= i < tree.dirs@.len(),
        children.len() == i,
        forall|k: int| 0 <= k < i ==> {
            let s = walk_step(rules, tree, st, system_root, pv, k);
            &&& (#[trigger] children[k]).base_target@ == s.current
            &&& children[k].label@ == s.next_label
            &&& children[k].active == s.descend
        },
        match tree.dirs@[i].parent {
            Some(p) => {
                &&& start.0 == join_path(children[p as int].base_target@, tree.dirs@[i].name@)
                &&& start.1 == children[p as int].label@
                &&& start.2 == children[p as int].active
            },
            None => {
                &&& start.0 == join_path(system_root, tree.dirs@[i].name@)
                &&& start.1 == tree.dirs@[i].name@
                &&& start.2 == st.managed.contains(tree.dirs@[i].name@)
            },
        },
    ensures
        walk_step(rules, tree, st, system_root, pv, i) == step_from(
            rules,
            tree,
            st,
            i,
            start.0,
            start.1,
            start.2,
            probe_at(pv, i),
        ),
{
    match tree.dirs@[i].parent {
        Some(p) => {
            assert(p < i);
            let c = children[p as int];
        },
        None => {},
    }
}

/// Without Kasumi no directory asks for it.
proof fn lemma_walk_without_kasumi(
    rules: ModuleRules,
    tree: SourceTree,
    st: PlanSettings,
    system_root: Seq<char>,
    pv: Seq<(bool, Seq<char>)>,
    n: int,
)
    requires
        !st.use_kasumi,
    ensures
        !walk_kasumi(rules, tree, st, system_root, pv, n),
{
    if walk_kasumi(rules, tree, st, system_root, pv, n) {
        let k = choose|k: int|
            0 <= k < n && #[trigger] walk_step(rules, tree, st, system_root, pv, k).active
                && walk_step(rules, tree, st, system_root, pv, k).decision.kasumi;
        let s = walk_step(rules, tree, st, system_root, pv, k);
        assert(!s.decision.kasumi);
    }
}

/// Where directory `i` starts, from the contexts of the directories before
/// it: its system target, partition label, whether planning is active,
/// whether its content counts, and its path relative to the module root.
fn walk_entry(
    tree: &SourceTree,
    children: &Vec<ChildContext>,
    system_root: &str,
    managed: &Vec<String>,
    i: usize,
) -> (r: (String, String, bool, bool, String))
    requires
        tree.wf(),
        i < tree.dirs@.len(),
        children@.len() == i,
    ensures
        ({
            let d = tree.dirs@[i as int];
            match d.parent {
                Some(p) => {
                    let c = children@[p as int];
                    &&& r.0@ == join_path(c.base_target@, d.name@)
                    &&& r.1@ == c.label@
                    &&& r.2 == c.active
                    &&& r.3 == c.count
                    &&& r.4@ == join_path(c.relative@, d.name@)
                },
                None => {
                    &&& r.0@ == join_path(system_root@, d.name@)
                    &&& r.1@ == d.name@
                    &&& r.2 == string_views(managed@).contains(d.name@)
                    &&& r.3 == r.2
                    &&& r.4@ == d.name@
                },
            }
        }),
{
    let d = &tree.dirs[i];
    match d.parent {
        Some(p) => {
            assert(p < i);
            let parent = &children[p];
            (
                join_name(parent.base_target.as_str(), d.name.as_str()),
                parent.label.clone(),
                parent.active,
                parent.count,
                join_name(parent.relative.as_str(), d.name.as_str()),
            )
        },
        None => {
            let top = contains_str(managed, d.name.as_str());
            (join_name(system_root, d.name.as_str()), d.name.clone(), top, top, d.name.clone())
        },
    }
}

/// Finishes directory `i` from where it starts and what was read for its
/// target: records the decision in `groups`, `magic` and `kasumi`, and
/// gives the context its children start from.
fn walk_finish(
    rules: &ModuleRules,
    tree: &SourceTree,
    ctx: &PrepareContext,
    i: usize,
    final_root: &str,
    start: (String, String, bool, bool, String),
    probe: (bool, String),
    groups: &mut Vec<OverlayGroup>,
    magic: &mut bool,
    kasumi: &mut bool,
) -> (c: ChildContext)
    requires
        i < tree.dirs@.len(),
        start.4@ == relative_of(tree.dirs@, i as int),
        layers_from(groups_view(old(groups)@), tree.dirs@, final_root@),
    ensures
        ({
            let s = step_from(
                *rules,
                *tree,
                settings_of(*ctx),
                i as int,
                start.0@,
                start.1@,
                start.2,
                (probe.0, probe.1@),
            );
            &&& c.base_target@ == s.current
            &&& c.label@ == s.next_label
            &&& c.active == s.descend
            &&& c.count == start.3
            &&& c.relative@ == start.4@
            &&& groups_view(final(groups)@) == (if s.active && s.decision.queue_overlay {
                spec_queue(
                    groups_view(old(groups)@),
                    s.current,
                    s.label,
                    join_path(final_root@, start.4@),
                )
            } else {
                groups_view(old(groups)@)
            })
            &&& *final(magic) == (*old(magic) || (s.active && s.decision.magic))
            &&& *final(kasumi) == (*old(kasumi) || (s.active && s.decision.kasumi))
        }),
        layers_from(groups_view(final(groups)@), tree.dirs@, final_root@),
{
    let (system_target, label, active, count, relative) = start;
    let (exists, resolved) = probe;
    let d = &tree.dirs[i];
    let current_target = if active && exists {
        resolved
    } else {
        system_target
    };
    let next_label = if active {
        match file_name(current_target.as_str()) {
            Some(n) => {
                let nc = chars_of(n.as_str());
                if nc.len() > 0 {
                    n
                } else {
                    label.clone()
                }
            },
            None => label.clone(),
        }
    } else {
        label.clone()
    };
    let final_dir = join_name(final_root, relative.as_str());
    let child_active = if active {
        let requested = rules.get_mode(relative.as_str());
        let descendant = rules.has_descendant_rule(relative.as_str());
        let split = should_split_overlay_target(current_target.as_str(), &ctx.managed_partitions);
        let decision = plan_decision(
            requested,
            ctx.use_kasumi,
            ctx.overlay_fallback_enabled,
            ctx.control_plane,
            descendant,
            d.entry,
            exists,
            split,
        );
        if decision.magic {
            *magic = true;
        }
        if decision.kasumi {
            *kasumi = true;
        }
        if decision.queue_overlay {
            let ghost pre = groups_view(groups@);
            queue_overlay(groups, current_target.as_str(), label.as_str(), final_dir.as_str());
            proof {
                lemma_queue_keeps_layers_from(
                    pre,
                    current_target@,
                    label@,
                    tree.dirs@,
                    final_root@,
                    i as int,
                );
            }
        }
        decision.descend
    } else {
        false
    };
    ChildContext { base_target: current_target, label: next_label, active: child_active, count, relative }
}

/// Plans one module from what was read for each of its directories'
/// targets (`probes`, in the order of `tree.dirs`): the overlay groups,
/// and whether magic mounting or Kasumi is needed, as the walk gives them.
pub fn plan_module_with_probes(
    rules: &ModuleRules,
    tree: &SourceTree,
    final_root: &str,
    system_root: &str,
    ctx: &PrepareContext,
    probes: &Vec<TargetProbe>,
) -> (p: ModulePlanOutcome)
    requires
        tree.wf(),
    ensures
        groups_view(p.overlay_groups@) == walk_groups(
            *rules,
            *tree,
            settings_of(*ctx),
            system_root@,
            final_root@,
            probe_views(probes@),
            tree.dirs@.len() as int,
        ),
        p.magic == walk_magic(
            *rules,
            *tree,
            settings_of(*ctx),
            system_root@,
            probe_views(probes@),
            tree.dirs@.len() as int,
        ),
        p.kasumi == walk_kasumi(
            *rules,
            *tree,
            settings_of(*ctx),
            system_root@,
            probe_views(probes@),
            tree.dirs@.len() as int,
        ),
        layers_from(groups_view(p.overlay_groups@), tree.dirs@, final_root@),
        !ctx.use_kasumi ==> !p.kasumi,
{
    let ghost st = settings_of(*ctx);
    let ghost pv = probe_views(probes@);
    let mut groups: Vec<OverlayGroup> = Vec::new();
    let mut magic = false;
    let mut kasumi = false;
    let mut children: Vec<ChildContext> = Vec::new();
    let mut i: usize = 0;
    while i < tree.dirs.len()
        invariant
            tree.wf(),
            i <= tree.dirs@.len(),
            children@.len() == i,
            st == settings_of(*ctx),
            pv == probe_views(probes@),
            forall|k: int| 0 <= k < i ==> (#[trigger] children@[k]).relative@ == relative_of(tree.dirs@, k),
            forall|k: int| 0 <= k < i ==> {
                let s = walk_step(*rules, *tree, st, system_root@, pv, k);
                &&& (#[trigger] children@[k]).base_target@ == s.current
                &&& children@[k].label@ == s.next_label
                &&& children@[k].active == s.descend
            },
            groups_view(groups@) == walk_groups(*rules, *tree, st, system_root@, final_root@, pv, i as int),
            magic == walk_magic(*rules, *tree, st, system_root@, pv, i as int),
            kasumi == walk_kasumi(*rules, *tree, st, system_root@, pv, i as int),
            layers_from(groups_view(groups@), tree.dirs@, final_root@),
        decreases tree.dirs@.len() - i,
    {
        let start = walk_entry(tree, &children, system_root, &ctx.managed_partitions, i);
        proof {
            match tree.dirs@[i as int].parent {
                Some(p) => {
                    assert(p < i);
                },
                None => {},
            }
            assert(start.4@ == relative_of(tree.dirs@, i as int));
        }
        let probe = if i < probes.len() {
            (probes[i].exists, probes[i].resolved.clone())
        } else {
            (false, String::new())
        };
        let ghost old_magic = magic;
        let ghost old_kasumi = kasumi;
        let child = walk_finish(rules, tree, ctx, i, final_root, start, probe, &mut groups, &mut magic, &mut kasumi);
        proof {
            let s = walk_step(*rules, *tree, st, system_root@, pv, i as int);
            assert(s == step_from(*rules, *tree, st, i as int, start.0@, start.1@, start.2, (probe.0, probe.1@)));
            lemma_walk_flags(*rules, *tree, st, system_root@, pv, i as int, old_magic, old_kasumi, magic, kasumi);
        }
        children.push(child);
        i = i + 1;
    }
    proof {
        if !ctx.use_kasumi {
            lemma_walk_without_kasumi(*rules, *tree, st, system_root@, pv, i as int);
        }
    }
    ModulePlanOutcome { overlay_groups: groups, magic, kasumi }
}

/// Where `target` can lead after a cached lookup: a value cached for it
/// in `cache`, or a resolution of it as a link.
pub open spec fn cached_or_resolved(cache: Seq<(String, String)>, target: Seq<char>, r: Seq<char>) -> bool {
    ||| possible_resolution(target, r)
    ||| exists|j: int| 0 <= j < cache.len() && (#[trigger] cache[j]).0@ == target && cache[j].1@ == r
}

/// What was read for each directory fits the walk: only targets of active
/// directories are read, and each was found to lead where a lookup through
/// `cache` can lead.
pub open spec fn probes_fit(
    rules: ModuleRules,
    tree: SourceTree,
    st: PlanSettings,
    system_root: Seq<char>,
    cache: Seq<(String, String)>,
    probes: Seq<(bool, Seq<char>)>,
) -> bool {
    forall|k: int|
        0 <= k < probes.len() && (#[trigger] probes[k]).0 ==> {
            let s = walk_step(rules, tree, st, system_root, probes, k);
            &&& s.active
            &&& cached_or_resolved(cache, s.system_target, probes[k].1)
        }
}

/// Plans one module whose tree is `tree`, copied to `tmp_root` and kept at
/// `final_root`, over the system tree at `system_root`. Whether each active
/// directory's system target exists, and where it leads, is read from disk
/// once per directory (the link targets through the context's cache); the
/// plan is the walk over what was read, whatever that was.
#[verifier::spinoff_prover]
#[verifier::rlimit(30)]
pub fn prepare_module(
    rules: &ModuleRules,
    tree: &SourceTree,
    tmp_root: &str,
    final_root: &str,
    system_root: &str,
    ctx: &mut PrepareContext,
) -> (o: ModulePrepareOutcome)
    requires
        tree.wf(),
    ensures
        o.has_mount_content == spec_has_mount_content(*tree, string_views(old(ctx).managed_partitions@)),
        string_views(o.opaque_dirs@) == opaque_prefix(*tree, tmp_root@, tree.dirs@.len() as int),
        layers_from(groups_view(o.plan.overlay_groups@), tree.dirs@, final_root@),
        exists|probes: Seq<(bool, Seq<char>)>|
            {
                &&& probes.len() == tree.dirs@.len()
                &&& probes_fit(
                    *rules,
                    *tree,
                    settings_of(*old(ctx)),
                    system_root@,
                    old(ctx).target_cache@,
                    probes,
                )
                &&& groups_view(o.plan.overlay_groups@) == #[trigger] walk_groups(
                    *rules,
                    *tree,
                    settings_of(*old(ctx)),
                    system_root@,
                    final_root@,
                    probes,
                    tree.dirs@.len() as int,
                )
                &&& o.plan.magic == walk_magic(
                    *rules,
                    *tree,
                    settings_of(*old(ctx)),
                    system_root@,
                    probes,
                    tree.dirs@.len() as int,
                )
                &&& o.plan.kasumi == walk_kasumi(
                    *rules,
                    *tree,
                    settings_of(*old(ctx)),
                    system_root@,
                    probes,
                    tree.dirs@.len() as int,
                )
            },
        !old(ctx).use_kasumi ==> !o.plan.kasumi,
        final(ctx).use_kasumi == old(ctx).use_kasumi,
        final(ctx).overlay_fallback_enabled == old(ctx).overlay_fallback_enabled,
        final(ctx).control_plane == old(ctx).control_plane,
        final(ctx).managed_partitions@ == old(ctx).managed_partitions@,
{
    let ghost managed = string_views(ctx.managed_partitions@);
    let ghost st = settings_of(*ctx);
    let ghost mut pv: Seq<(bool, Seq<char>)> = Seq::empty();
    let mut has_content = false;
    let mut opaque: Vec<String> = Vec::new();
    let mut groups: Vec<OverlayGroup> = Vec::new();
    let mut magic = false;
    let mut kasumi = false;
    let mut r: usize = 0;
    while r < tree.root_files.len()
        invariant
            r <= tree.root_files@.len(),
            managed == string_views(ctx.managed_partitions@),
            has_content == exists|q: int|
                0 <= q < r && managed.contains(#[trigger] tree.root_files@[q]@),
        decreases tree.root_files@.len() - r,
    {
        if contains_str(&ctx.managed_partitions, tree.root_files[r].as_str()) {
            has_content = true;
        }
        r = r + 1;
    }
    let mut m: usize = 0;
    while m < tree.root_replace_markers
        invariant
            m <= tree.root_replace_markers,
            string_views(opaque@) == Seq::new(m as nat, |k: int| tmp_root@),
        decreases tree.root_replace_markers - m,
    {
        let ghost pre = opaque@;
        assert(string_views(pre).len() == pre.len());
        opaque.push(tmp_root.to_owned());
        assert(string_views(opaque@) =~= string_views(pre).push(tmp_root@));
        assert(string_views(opaque@) =~= Seq::new((m + 1) as nat, |k: int| tmp_root@));
        m = m + 1;
    }
    assert(string_views(opaque@) =~= opaque_prefix(*tree, tmp_root@, 0));
    let mut children: Vec<ChildContext> = Vec::new();
    let mut i: usize = 0;
    while i < tree.dirs.len()
        invariant
            tree.wf(),
            i <= tree.dirs@.len(),
            children@.len() == i,
            pv.len() == i,
            managed == string_views(ctx.managed_partitions@),
            st == settings_of(*old(ctx)),
            ctx.use_kasumi == old(ctx).use_kasumi,
            ctx.overlay_fallback_enabled == old(ctx).overlay_fallback_enabled,
            ctx.control_plane == old(ctx).control_plane,
            ctx.managed_partitions@ == old(ctx).managed_partitions@,
            forall|k: int| 0 <= k < i ==> (#[trigger] children@[k]).relative@ == relative_of(tree.dirs@, k),
            forall|k: int| 0 <= k < i ==> (#[trigger] children@[k]).count == managed.contains(
                top_of(tree.dirs@, k),
            ),
            forall|k: int| 0 <= k < i ==> {
                let s = walk_step(*rules, *tree, st, system_root@, pv, k);
                &&& (#[trigger] children@[k]).base_target@ == s.current
                &&& children@[k].label@ == s.next_label
                &&& children@[k].active == s.descend
            },
            has_content == ((exists|q: int|
                0 <= q < tree.root_files@.len() && managed.contains(#[trigger] tree.root_files@[q]@))
                || exists|k: int| 0 <= k < i && #[trigger] dir_shows_content(*tree, managed, k)),
            string_views(opaque@) == opaque_prefix(*tree, tmp_root@, i as int),
            groups_view(groups@) == walk_groups(*rules, *tree, st, system_root@, final_root@, pv, i as int),
            magic == walk_magic(*rules, *tree, st, system_root@, pv, i as int),
            kasumi == walk_kasumi(*rules, *tree, st, system_root@, pv, i as int),
            layers_from(groups_view(groups@), tree.dirs@, final_root@),
            old(ctx).target_cache@.len() <= ctx.target_cache@.len(),
            forall|j: int|
                0 <= j < old(ctx).target_cache@.len() ==> #[trigger] ctx.target_cache@[j] == old(
                    ctx,
                ).target_cache@[j],
            forall|j: int|
                old(ctx).target_cache@.len() <= j < ctx.target_cache@.len() ==> possible_resolution(
                    (#[trigger] ctx.target_cache@[j]).0@,
                    ctx.target_cache@[j].1@,
                ),
            probes_fit(*rules, *tree, st, system_root@, old(ctx).target_cache@, pv),
        decreases tree.dirs@.len() - i,
    {
        let start = walk_entry(tree, &children, system_root, &ctx.managed_partitions, i);
        proof {
            match tree.dirs@[i as int].parent {
                Some(p) => {
                    assert(p < i);
                },
                None => {},
            }
            assert(start.4@ == relative_of(tree.dirs@, i as int));
            assert(start.3 == managed.contains(top_of(tree.dirs@, i as int)));
        }
        let exists = start.2 && path_exists(start.0.as_str());
        let ghost cache_before = ctx.target_cache@;
        let resolved = if exists {
            ctx.resolve_target_cached(start.0.as_str())
        } else {
            start.0.clone()
        };
        proof {
            if exists {
                assert(cached_or_resolved(old(ctx).target_cache@, start.0@, resolved@)) by {
                    match cached_at(cache_before, start.0@) {
                        Some(j) => {
                            lemma_cached_at_bounds(cache_before, start.0@);
                            if j < old(ctx).target_cache@.len() {
                                assert(old(ctx).target_cache@[j] == cache_before[j]);
                            } else {
                                assert(possible_resolution(cache_before[j].0@, cache_before[j].1@));
                            }
                        },
                        None => {},
                    }
                }
                assert forall|j: int|
                    old(ctx).target_cache@.len() <= j < ctx.target_cache@.len() implies possible_resolution(
                        (#[trigger] ctx.target_cache@[j]).0@,
                        ctx.target_cache@[j].1@,
                    ) by {
                    if j < cache_before.len() {
                        assert(ctx.target_cache@[j] == cache_before[j]);
                    }
                }
                assert forall|j: int| 0 <= j < old(ctx).target_cache@.len() implies #[trigger] ctx.target_cache@[j]
                    == old(ctx).target_cache@[j] by {
                    assert(ctx.target_cache@[j] == cache_before[j]);
                }
            }
        }
        let ghost next = pv.push((exists, resolved@));
        proof {
            lemma_walk_extend(*rules, *tree, st, system_root@, final_root@, pv, (exists, resolved@));
            pv = next;
        }
        let d = &tree.dirs[i];
        let copy_dir = join_name(tmp_root, start.4.as_str());
        let mut k: usize = 0;
        let ghost before = string_views(opaque@);
        while k < d.replace_markers
            invariant
                k <= d.replace_markers,
                copy_dir@ == join_path(tmp_root@, relative_of(tree.dirs@, i as int)),
                string_views(opaque@) == before + Seq::new(
                    k as nat,
                    |j: int| join_path(tmp_root@, relative_of(tree.dirs@, i as int)),
                ),
            decreases d.replace_markers - k,
        {
            let ghost pre = opaque@;
            assert(string_views(pre).len() == pre.len());
            opaque.push(copy_dir.clone());
            assert(string_views(opaque@) =~= string_views(pre).push(copy_dir@));
            assert(string_views(opaque@) =~= before + Seq::new(
                (k + 1) as nat,
                |j: int| join_path(tmp_root@, relative_of(tree.dirs@, i as int)),
            ));
            k = k + 1;
        }
        assert(string_views(opaque@) =~= opaque_prefix(*tree, tmp_root@, i + 1));
        let shows = start.3 && (d.entry.direct_non_dir_entries || d.replace_markers > 0);
        assert(shows == dir_shows_content(*tree, managed, i as int));
        if shows {
            has_content = true;
        }
        let ghost old_magic = magic;
        let ghost old_kasumi = kasumi;
        let ghost start_view = (start.0@, start.1@, start.2);
        assert(settings_of(*ctx) == st);
        let child = walk_finish(
            rules,
            tree,
            ctx,
            i,
            final_root,
            start,
            (exists, resolved),
            &mut groups,
            &mut magic,
            &mut kasumi,
        );
        proof {
            assert(probe_at(pv, i as int) == (exists, resolved@));
            lemma_walk_step_start(*rules, *tree, st, system_root@, pv, children@, i as int, start_view);
            lemma_walk_flags(*rules, *tree, st, system_root@, pv, i as int, old_magic, old_kasumi, magic, kasumi);
        }
        children.push(child);
        i = i + 1;
    }
    proof {
        if !old(ctx).use_kasumi {
            lemma_walk_without_kasumi(*rules, *tree, st, system_root@, pv, i as int);
        }
    }
    ModulePrepareOutcome {
        has_mount_content: has_content,
        opaque_dirs: opaque,
        plan: ModulePlanOutcome { overlay_groups: groups, magic, kasumi },
    }
}

/// The groups after merging group `g` in: its layers go after those of the
/// first group over the same path, or it is added.
pub open spec fn spec_merge_one(
    gs: Seq<(Seq<char>, Seq<char>, Seq<Seq<char>>)>,
    g: (Seq<char>, Seq<char>, Seq<Seq<char>>),
) -> Seq<(Seq<char>, Seq<char>, Seq<Seq<char>>)> {
    let i = first_same(gs, g.0, 0);
    if i < gs.len() {
        gs.update(i, (gs[i].0, gs[i].1, gs[i].2 + g.2))
    } else {
        gs.push(g)
    }
}

/// The groups after merging the groups of `src` in, one after the other.
pub open spec fn spec_merge(
    gs: Seq<(Seq<char>, Seq<char>, Seq<Seq<char>>)>,
    src: Seq<(Seq<char>, Seq<char>, Seq<Seq<char>>)>,
) -> Seq<(Seq<char>, Seq<char>, Seq<Seq<char>>)>
    decreases src.len(),
{
    if src.len() == 0 {
        gs
    } else {
        spec_merge_one(spec_merge(gs, src.drop_last()), src.last())
    }
}

fn copy_group(g: &OverlayGroup) -> (c: OverlayGroup)
    ensures
        group_view(c) == group_view(*g),
{
    OverlayGroup {
        target: g.target.clone(),
        partition: g.partition.clone(),
        layers: copy_strings(&g.layers),
    }
}

fn merge_one(groups: &mut Vec<OverlayGroup>, g: &OverlayGroup)
    ensures
        groups_view(final(groups)@) == spec_merge_one(groups_view(old(groups)@), group_view(*g)),
{
    let ghost gv = groups_view(groups@);
    proof {
        lemma_first_same_bounds(gv, g.target@, 0);
    }
    let mut i: usize = 0;
    while i < groups.len()
        invariant
            i <= groups@.len(),
            groups@ == old(groups)@,
            gv == groups_view(groups@),
            forall|k: int| 0 <= k < i ==> !same_path(#[trigger] gv[k].0, g.target@),
        decreases groups@.len() - i,
    {
        assert(gv[i as int].0 == groups@[i as int].target@);
        if same_path_exec(groups[i].target.as_str(), g.target.as_str()) {
            proof {
                lemma_first_same_bounds(gv, g.target@, 0);
                if first_same(gv, g.target@, 0) != i {
                    assert(first_same(gv, g.target@, 0) <= i);
                }
            }
            let mut layers = copy_strings(&groups[i].layers);
            let mut k: usize = 0;
            let ghost base = string_views(layers@);
            while k < g.layers.len()
                invariant
                    k <= g.layers@.len(),
                    string_views(layers@) == base + string_views(g.layers@).take(k as int),
                decreases g.layers@.len() - k,
            {
                let ghost pre = layers@;
                assert(string_views(pre).len() == pre.len());
                let x = g.layers[k].clone();
                assert(x@ == string_views(g.layers@)[k as int]);
                layers.push(x);
                assert(string_views(layers@) =~= string_views(pre).push(x@));
                assert(string_views(layers@) =~= base + string_views(g.layers@).take(k + 1));
                k = k + 1;
            }
            assert(string_views(g.layers@).take(k as int) =~= string_views(g.layers@));
            let merged = OverlayGroup {
                target: groups[i].target.clone(),
                partition: groups[i].partition.clone(),
                layers,
            };
            groups.set(i, merged);
            assert(groups_view(groups@) =~= spec_merge_one(gv, group_view(*g)));
            return;
        }
        i = i + 1;
    }
    proof {
        if first_same(gv, g.target@, 0) < gv.len() {
            let f = first_same(gv, g.target@, 0);
            assert(!same_path(gv[f].0, g.target@));
        }
    }
    groups.push(copy_group(g));
    assert(groups_view(groups@) =~= spec_merge_one(gv, group_view(*g)));
}

/// Merges the groups of `source` into `target`.
pub fn merge_overlay_groups(target: &mut Vec<OverlayGroup>, source: &Vec<OverlayGroup>)
    ensures
        groups_view(final(target)@) == spec_merge(groups_view(old(target)@), groups_view(source@)),
{
    let ghost start = groups_view(target@);
    let mut i: usize = 0;
    assert(groups_view(source@).take(0) =~= Seq::<(Seq<char>, Seq<char>, Seq<Seq<char>>)>::empty());
    while i < source.len()
        invariant
            i <= source@.len(),
            groups_view(target@) == spec_merge(start, groups_view(source@).take(i as int)),
            start == groups_view(old(target)@),
        decreases source@.len() - i,
    {
        merge_one(target, &source[i]);
        assert(groups_view(source@).take(i + 1).drop_last() =~= groups_view(source@).take(i as int));
        i = i + 1;
    }
    assert(groups_view(source@).take(i as int) =~= groups_view(source@));
}

/// The sort key of a path: components in order, separated by NUL (which
/// sorts before every other character), preceded by a NUL when the path is
/// absolute; keys sort as `Path` sorts, component by component.
pub open spec fn path_key(p: Seq<char>) -> Seq<char> {
    (if is_absolute(p) {
        seq!['\0']
    } else {
        Seq::<char>::empty()
    }) + join_with(path_parts(p), seq!['\0'])
}

pub fn path_key_chars(p: &str) -> (k: Vec<char>)
    ensures
        k@ == path_key(p@),
{
    let c = chars_of(p);
    let parts = split_parts(&c);
    let mut sep: Vec<char> = Vec::new();
    sep.push('\0');
    let joined = crate::text::join_chars(&parts, &sep);
    let mut k: Vec<char> = Vec::new();
    if c.len() > 0 && c[0] == '/' {
        k.push('\0');
    }
    crate::text::append_chars(&mut k, &joined);
    assert(k@ =~= path_key(p@));
    k
}

/// A layer with the rank of its module.
#[derive(Debug, Clone)]
pub struct RankedLayer {
    pub rank: usize,
    pub key: Vec<char>,
    pub path: String,
    pub module_id: Option<String>,
}

impl Ranked for RankedLayer {
    open spec fn rank(&self) -> nat {
        self.rank as nat
    }

    open spec fn key(&self) -> Seq<char> {
        self.key@
    }

    fn rank_exec(&self) -> (r: usize) {
        self.rank
    }

    fn key_exec(&self) -> (k: &[char]) {
        self.key.as_slice()
    }
}

/// A group with the key of its target.
#[derive(Debug, Clone)]
pub struct KeyedGroup {
    pub key: Vec<char>,
    pub group: OverlayGroup,
}

impl Ranked for KeyedGroup {
    open spec fn rank(&self) -> nat {
        0
    }

    open spec fn key(&self) -> Seq<char> {
        self.key@
    }

    fn rank_exec(&self) -> (r: usize) {
        0
    }

    fn key_exec(&self) -> (k: &[char]) {
        self.key.as_slice()
    }
}

/// The place of module `id` in `modules` (the last one when it occurs more
/// than once), or `usize::MAX` for an unknown or empty identifier.
pub open spec fn spec_module_rank(modules: Seq<Module>, id: Option<Seq<char>>) -> nat {
    match id {
        Some(s) => if s.len() > 0 && exists|i: int| 0 <= i < modules.len() && modules[i].id@ == s {
            (choose|i: int|
                0 <= i < modules.len() && modules[i].id@ == s && forall|j: int|
                    i < j < modules.len() ==> modules[j].id@ != s) as nat
        } else {
            usize::MAX as nat
        },
        None => usize::MAX as nat,
    }
}

#[verifier::rlimit(40)]
pub fn module_rank(modules: &Vec<Module>, id: &Option<String>) -> (r: usize)
    ensures
        r == spec_module_rank(modules@, crate::validation::opt_view(*id)),
{
    match id {
        Some(s) => {
            let c = chars_of(s.as_str());
            if c.len() == 0 {
                return usize::MAX;
            }
            let mut n = modules.len();
            while n > 0
                invariant
                    n <= modules@.len(),
                    crate::validation::opt_view(*id) == Some(s@),
                    s@.len() > 0,
                    forall|j: int| n <= j < modules@.len() ==> modules@[j].id@ != s@,
                decreases n,
            {
                if crate::text::str_is(modules[n - 1].id.as_str(), s.as_str()) {
                    let ghost w = (n - 1) as int;
                    assert(exists|i: int| 0 <= i < modules@.len() && modules@[i].id@ == s@);
                    assert(0 <= w < modules@.len() && modules@[w].id@ == s@ && forall|j: int|
                        w < j < modules@.len() ==> modules@[j].id@ != s@);
                    let ghost ch = choose|i: int|
                        0 <= i < modules@.len() && modules@[i].id@ == s@ && forall|j: int|
                            i < j < modules@.len() ==> modules@[j].id@ != s@;
                    assert(0 <= ch < modules@.len() && modules@[ch].id@ == s@ && forall|j: int|
                        ch < j < modules@.len() ==> modules@[j].id@ != s@);
                    assert(ch == w) by {
                        if ch < w {
                            assert(modules@[w].id@ != s@);
                        } else if ch > w {
                            assert(modules@[ch].id@ != s@);
                        }
                    }
                    assert(crate::validation::opt_view(*id) == Some(s@));
                    assert(s@.len() > 0);
                    assert(spec_module_rank(modules@, Some(s@)) == w as nat);
                    return n - 1;
                }
                n = n - 1;
            }
            usize::MAX
        },
        None => usize::MAX,
    }
}

/// The overlay groups of the kept modules, merged in module order.
pub open spec fn merged_groups(kept: Seq<(String, ModulePlanOutcome)>) -> Seq<
    (Seq<char>, Seq<char>, Seq<Seq<char>>),
>
    decreases kept.len(),
{
    if kept.len() == 0 {
        seq![]
    } else {
        spec_merge(merged_groups(kept.drop_last()), groups_view(kept.last().1.overlay_groups@))
    }
}

/// An overlay mount made from a merged group: the same target and
/// partition, and the group's layers, reordered.
pub open spec fn op_matches(op: OverlayOperation, g: (Seq<char>, Seq<char>, Seq<Seq<char>>)) -> bool {
    &&& op.target@ == g.0
    &&& op.partition_name@ == g.1
    &&& op.lowerdirs@.len() == g.2.len()
    &&& forall|x: Seq<char>| string_views(op.lowerdirs@).contains(x) <==> g.2.contains(x)
}

/// The mount comes from one of the groups.
pub open spec fn op_from_groups(op: OverlayOperation, gs: Seq<(Seq<char>, Seq<char>, Seq<Seq<char>>)>) -> bool {
    exists|j: int| 0 <= j < gs.len() && op_matches(op, #[trigger] gs[j])
}

/// Some mount comes from the group.
pub open spec fn group_has_op(g: (Seq<char>, Seq<char>, Seq<Seq<char>>), ops: Seq<OverlayOperation>) -> bool {
    exists|i: int| 0 <= i < ops.len() && op_matches(#[trigger] ops[i], g)
}

proof fn lemma_perm_contains<T>(a: Seq<T>, b: Seq<T>, y: T)
    requires
        a.to_multiset() == b.to_multiset(),
        a.contains(y),
    ensures
        b.contains(y),
{
    broadcast use vstd::seq_lib::group_to_multiset_ensures;

    assert(a.to_multiset().count(y) > 0);
}

/// The plan from the outcomes of the kept modules (in module order):
/// their overlay groups merged and sorted by target, each group's layers
/// sorted by the rank of their module (found on disk) and then by path;
/// the modules that need magic mounting or Kasumi, sorted, each once.
pub fn build_mount_plan(modules: &Vec<Module>, kept: &Vec<(String, ModulePlanOutcome)>) -> (plan: MountPlan)
    ensures
        strictly_sorted(string_views(plan.magic_module_ids@)),
        strictly_sorted(string_views(plan.kasumi_module_ids@)),
        strictly_sorted(string_views(plan.overlay_module_ids@)),
        exists|ids: Seq<Seq<Option<Seq<char>>>>|
            #[trigger] ids_explain(modules@, plan.overlay_ops@, string_views(plan.overlay_module_ids@), ids),
        forall|id: Seq<char>|
            string_views(plan.magic_module_ids@).contains(id) <==> exists|i: int|
                0 <= i < kept@.len() && (#[trigger] kept@[i]).0@ == id && kept@[i].1.magic,
        forall|id: Seq<char>|
            string_views(plan.kasumi_module_ids@).contains(id) <==> exists|i: int|
                0 <= i < kept@.len() && (#[trigger] kept@[i]).0@ == id && kept@[i].1.kasumi,
        plan.kasumi_add_rules@.len() == 0,
        plan.kasumi_merge_rules@.len() == 0,
        plan.kasumi_hide_rules@.len() == 0,
        op_targets_distinct(plan.overlay_ops@),
        forall|i: int, k: int|
            0 <= i < k < plan.overlay_ops@.len() && nul_free_parts((#[trigger] plan.overlay_ops@[i]).target@)
                && nul_free_parts((#[trigger] plan.overlay_ops@[k]).target@) ==> crate::order::lex_lt(
                path_key(plan.overlay_ops@[i].target@),
                path_key(plan.overlay_ops@[k].target@),
            ),
        plan.overlay_ops@.len() == merged_groups(kept@).len(),
        forall|i: int|
            0 <= i < plan.overlay_ops@.len() ==> op_from_groups(
                #[trigger] plan.overlay_ops@[i],
                merged_groups(kept@),
            ),
        forall|j: int|
            0 <= j < merged_groups(kept@).len() ==> group_has_op(
                #[trigger] merged_groups(kept@)[j],
                plan.overlay_ops@,
            ),
        forall|i: int, k: int|
            0 <= i < k < plan.overlay_ops@.len() ==> !crate::order::lex_lt(
                path_key((#[trigger] plan.overlay_ops@[k]).target@),
                path_key((#[trigger] plan.overlay_ops@[i]).target@),
            ),
{
    let mut merged: Vec<OverlayGroup> = Vec::new();
    let mut magic: Vec<String> = Vec::new();
    let mut kasumi: Vec<String> = Vec::new();
    let mut m: usize = 0;
    assert(kept@.take(0) =~= Seq::<(String, ModulePlanOutcome)>::empty());
    assert(groups_view(merged@) =~= Seq::<(Seq<char>, Seq<char>, Seq<Seq<char>>)>::empty());
    while m < kept.len()
        invariant
            m <= kept@.len(),
            groups_view(merged@) == merged_groups(kept@.take(m as int)),
            forall|id: Seq<char>|
                string_views(magic@).contains(id) <==> exists|i: int|
                    0 <= i < m && (#[trigger] kept@[i]).0@ == id && kept@[i].1.magic,
            forall|id: Seq<char>|
                string_views(kasumi@).contains(id) <==> exists|i: int|
                    0 <= i < m && (#[trigger] kept@[i]).0@ == id && kept@[i].1.kasumi,
        decreases kept@.len() - m,
    {
        let (id, outcome) = (&kept[m].0, &kept[m].1);
        merge_overlay_groups(&mut merged, &outcome.overlay_groups);
        proof {
            assert(kept@.take(m + 1).drop_last() =~= kept@.take(m as int));
            assert(kept@.take(m + 1).last() == kept@[m as int]);
        }
        let ghost mb = magic@;
        let ghost kb = kasumi@;
        assert(string_views(mb).len() == mb.len() && string_views(kb).len() == kb.len());
        if outcome.magic {
            magic.push(id.clone());
            assert(string_views(magic@) =~= string_views(mb).push(id@));
        }
        if outcome.kasumi {
            kasumi.push(id.clone());
            assert(string_views(kasumi@) =~= string_views(kb).push(id@));
        }
        assert forall|x: Seq<char>|
            string_views(magic@).contains(x) <==> exists|i: int|
                0 <= i < m + 1 && (#[trigger] kept@[i]).0@ == x && kept@[i].1.magic by {
            if string_views(magic@).contains(x) {
                let k = choose|k: int| 0 <= k < string_views(magic@).len() && string_views(magic@)[k] == x;
                if k < mb.len() {
                    assert(string_views(mb)[k] == x);
                    assert(string_views(mb).contains(x));
                } else {
                    assert(kept@[m as int].0@ == x && kept@[m as int].1.magic);
                }
            }
            if exists|i: int| 0 <= i < m + 1 && (#[trigger] kept@[i]).0@ == x && kept@[i].1.magic {
                let i = choose|i: int| 0 <= i < m + 1 && (#[trigger] kept@[i]).0@ == x && kept@[i].1.magic;
                if i < m {
                    assert(string_views(mb).contains(x));
                    let k = choose|k: int| 0 <= k < string_views(mb).len() && string_views(mb)[k] == x;
                    assert(string_views(magic@)[k] == x);
                } else {
                    assert(string_views(magic@)[mb.len() as int] == x);
                }
            }
        }
        assert forall|x: Seq<char>|
            string_views(kasumi@).contains(x) <==> exists|i: int|
                0 <= i < m + 1 && (#[trigger] kept@[i]).0@ == x && kept@[i].1.kasumi by {
            if string_views(kasumi@).contains(x) {
                let k = choose|k: int| 0 <= k < string_views(kasumi@).len() && string_views(kasumi@)[k] == x;
                if k < kb.len() {
                    assert(string_views(kb)[k] == x);
                    assert(string_views(kb).contains(x));
                } else {
                    assert(kept@[m as int].0@ == x && kept@[m as int].1.kasumi);
                }
            }
            if exists|i: int| 0 <= i < m + 1 && (#[trigger] kept@[i]).0@ == x && kept@[i].1.kasumi {
                let i = choose|i: int| 0 <= i < m + 1 && (#[trigger] kept@[i]).0@ == x && kept@[i].1.kasumi;
                if i < m {
                    assert(string_views(kb).contains(x));
                    let k = choose|k: int| 0 <= k < string_views(kb).len() && string_views(kb)[k] == x;
                    assert(string_views(kasumi@)[k] == x);
                } else {
                    assert(string_views(kasumi@)[kb.len() as int] == x);
                }
            }
        }
        m = m + 1;
    }
    assert(kept@.take(m as int) =~= kept@);
    let ghost mg = groups_view(merged@);
    proof {
        lemma_merged_groups_distinct(kept@);
    }
    let (ops, overlay_ids) = overlay_ops_of(modules, &merged);
    let magic_ids = sorted_unique(magic);
    let kasumi_ids = sorted_unique(kasumi);
    assert forall|x: Seq<char>| string_views(magic_ids@).contains(x) <==> string_views(magic@).contains(x) by {
        assert(string_views(magic_ids@).to_set().contains(x) == string_views(magic_ids@).contains(x));
        assert(string_views(magic@).to_set().contains(x) == string_views(magic@).contains(x));
    }
    assert forall|x: Seq<char>| string_views(kasumi_ids@).contains(x) <==> string_views(kasumi@).contains(x) by {
        assert(string_views(kasumi_ids@).to_set().contains(x) == string_views(kasumi_ids@).contains(x));
        assert(string_views(kasumi@).to_set().contains(x) == string_views(kasumi@).contains(x));
    }
    assert(mg == merged_groups(kept@));
    let ghost w = choose|ids: Seq<Seq<Option<Seq<char>>>>|
        ids_explain(modules@, ops@, string_views(overlay_ids@), ids);
    assert(ids_explain(modules@, ops@, string_views(overlay_ids@), w));
    let plan = MountPlan {
        overlay_ops: ops,
        kasumi_add_rules: Vec::new(),
        kasumi_merge_rules: Vec::new(),
        kasumi_hide_rules: Vec::new(),
        overlay_module_ids: overlay_ids,
        magic_module_ids: magic_ids,
        kasumi_module_ids: kasumi_ids,
    };
    assert(ids_explain(modules@, plan.overlay_ops@, string_views(plan.overlay_module_ids@), w));
    proof {
        lemma_ops_strictly_ascending(plan.overlay_ops@);
    }
    plan
}

/// `x` is a layer of one of the groups.
pub open spec fn has_layer(gs: Seq<(Seq<char>, Seq<char>, Seq<Seq<char>>)>, x: Seq<char>) -> bool {
    exists|g: int, l: int| 0 <= g < gs.len() && 0 <= l < gs[g].2.len() && #[trigger] gs[g].2[l] == x
}

proof fn lemma_merge_one_layers(
    gs: Seq<(Seq<char>, Seq<char>, Seq<Seq<char>>)>,
    g: (Seq<char>, Seq<char>, Seq<Seq<char>>),
    x: Seq<char>,
)
    requires
        has_layer(spec_merge_one(gs, g), x),
    ensures
        has_layer(gs, x) || g.2.contains(x),
{
    let m = spec_merge_one(gs, g);
    lemma_first_same_bounds(gs, g.0, 0);
    let f = first_same(gs, g.0, 0);
    let (a, l) = choose|a: int, l: int| 0 <= a < m.len() && 0 <= l < m[a].2.len() && #[trigger] m[a].2[l] == x;
    if f < gs.len() {
        if a == f {
            if l < gs[a].2.len() {
                assert(gs[a].2[l] == x);
            } else {
                assert(g.2[l - gs[a].2.len()] == x);
            }
        } else {
            assert(gs[a].2[l] == x);
        }
    } else {
        if a < gs.len() {
            assert(gs[a].2[l] == x);
        } else {
            assert(g.2[l] == x);
        }
    }
}

proof fn lemma_merge_layers(
    gs: Seq<(Seq<char>, Seq<char>, Seq<Seq<char>>)>,
    src: Seq<(Seq<char>, Seq<char>, Seq<Seq<char>>)>,
    x: Seq<char>,
)
    requires
        has_layer(spec_merge(gs, src), x),
    ensures
        has_layer(gs, x) || has_layer(src, x),
    decreases src.len(),
{
    if src.len() > 0 {
        lemma_merge_one_layers(spec_merge(gs, src.drop_last()), src.last(), x);
        if has_layer(spec_merge(gs, src.drop_last()), x) {
            lemma_merge_layers(gs, src.drop_last(), x);
            if has_layer(src.drop_last(), x) {
                let (a, l) = choose|a: int, l: int|
                    0 <= a < src.drop_last().len() && 0 <= l < src.drop_last()[a].2.len()
                        && #[trigger] src.drop_last()[a].2[l] == x;
                assert(src[a].2[l] == x);
            }
        } else {
            let l = choose|l: int| 0 <= l < src.last().2.len() && src.last().2[l] == x;
            assert(src[src.len() - 1].2[l] == x);
        }
    }
}

proof fn lemma_merged_layers(kept: Seq<(String, ModulePlanOutcome)>, x: Seq<char>)
    requires
        has_layer(merged_groups(kept), x),
    ensures
        exists|i: int| 0 <= i < kept.len() && #[trigger] has_layer(groups_view(kept[i].1.overlay_groups@), x),
    decreases kept.len(),
{
    if kept.len() > 0 {
        lemma_merge_layers(merged_groups(kept.drop_last()), groups_view(kept.last().1.overlay_groups@), x);
        if has_layer(merged_groups(kept.drop_last()), x) {
            lemma_merged_layers(kept.drop_last(), x);
            let i = choose|i: int|
                0 <= i < kept.drop_last().len() && #[trigger] has_layer(
                    groups_view(kept.drop_last()[i].1.overlay_groups@),
                    x,
                );
            assert(kept[i] == kept.drop_last()[i]);
        } else {
            assert(has_layer(groups_view(kept[kept.len() - 1].1.overlay_groups@), x));
        }
    }
}

fn copy_groups(gs: &Vec<OverlayGroup>) -> (c: Vec<OverlayGroup>)
    ensures
        groups_view(c@) == groups_view(gs@),
{
    let mut c: Vec<OverlayGroup> = Vec::new();
    let mut i: usize = 0;
    while i < gs.len()
        invariant
            i <= gs@.len(),
            c@.len() == i,
            groups_view(c@) == groups_view(gs@).take(i as int),
        decreases gs@.len() - i,
    {
        let ghost pre = c@;
        let g = copy_group(&gs[i]);
        c.push(g);
        assert forall|k: int| 0 <= k < i + 1 implies groups_view(c@)[k] == groups_view(gs@).take(i + 1)[k] by {
            if k < i {
                assert(c@[k] == pre[k]);
                assert(groups_view(pre)[k] == groups_view(gs@).take(i as int)[k]);
            }
        }
        assert(groups_view(c@) =~= groups_view(gs@).take(i + 1));
        i = i + 1;
    }
    assert(groups_view(gs@).take(i as int) =~= groups_view(gs@));
    c
}

/// Some group over the same path as `t` holds the layer `x`.
pub open spec fn covers(gs: Seq<(Seq<char>, Seq<char>, Seq<Seq<char>>)>, t: Seq<char>, x: Seq<char>) -> bool {
    exists|j: int| 0 <= j < gs.len() && same_path(gs[j].0, t) && (#[trigger] gs[j]).2.contains(x)
}

proof fn lemma_merge_one_keeps(
    gs: Seq<(Seq<char>, Seq<char>, Seq<Seq<char>>)>,
    g: (Seq<char>, Seq<char>, Seq<Seq<char>>),
)
    ensures
        forall|t: Seq<char>, x: Seq<char>| covers(gs, t, x) ==> #[trigger] covers(spec_merge_one(gs, g), t, x),
        forall|x: Seq<char>| g.2.contains(x) ==> #[trigger] covers(spec_merge_one(gs, g), g.0, x),
{
    lemma_first_same_bounds(gs, g.0, 0);
    let m = spec_merge_one(gs, g);
    let f = first_same(gs, g.0, 0);
    assert forall|t: Seq<char>, x: Seq<char>| covers(gs, t, x) implies #[trigger] covers(m, t, x) by {
        let j = choose|j: int| 0 <= j < gs.len() && same_path(gs[j].0, t) && (#[trigger] gs[j]).2.contains(x);
        let l = choose|l: int| 0 <= l < gs[j].2.len() && gs[j].2[l] == x;
        if f < gs.len() && j == f {
            assert(m[j].0 == gs[j].0);
            assert(m[j].2[l] == x);
            assert(m[j].2.contains(x));
        } else {
            assert(m[j] == gs[j]);
        }
    }
    assert forall|x: Seq<char>| g.2.contains(x) implies #[trigger] covers(m, g.0, x) by {
        let l = choose|l: int| 0 <= l < g.2.len() && g.2[l] == x;
        if f < gs.len() {
            assert(m[f].2[gs[f].2.len() + l] == x);
            assert(m[f].2.contains(x));
            assert(same_path(m[f].0, g.0));
        } else {
            let j = gs.len() as int;
            assert(m[j] == g);
            assert(same_path(m[j].0, g.0));
        }
    }
}

proof fn lemma_merge_keeps(
    gs: Seq<(Seq<char>, Seq<char>, Seq<Seq<char>>)>,
    src: Seq<(Seq<char>, Seq<char>, Seq<Seq<char>>)>,
)
    ensures
        forall|t: Seq<char>, x: Seq<char>| covers(gs, t, x) ==> #[trigger] covers(spec_merge(gs, src), t, x),
        forall|k: int, x: Seq<char>|
            0 <= k < src.len() && #[trigger] src[k].2.contains(x) ==> covers(spec_merge(gs, src), src[k].0, x),
    decreases src.len(),
{
    if src.len() > 0 {
        let prev = spec_merge(gs, src.drop_last());
        lemma_merge_keeps(gs, src.drop_last());
        lemma_merge_one_keeps(prev, src.last());
        assert forall|k: int, x: Seq<char>|
            0 <= k < src.len() && #[trigger] src[k].2.contains(x) implies covers(spec_merge(gs, src), src[k].0, x) by {
            if k < src.len() - 1 {
                assert(src.drop_last()[k] == src[k]);
                assert(covers(prev, src[k].0, x));
            } else {
                assert(src.last() == src[k]);
            }
        }
    }
}

proof fn lemma_merged_keeps(kept: Seq<(String, ModulePlanOutcome)>)
    ensures
        forall|q: int, k: int, x: Seq<char>|
            0 <= q < kept.len() && 0 <= k < groups_view(kept[q].1.overlay_groups@).len()
                && #[trigger] groups_view(kept[q].1.overlay_groups@)[k].2.contains(x) ==> covers(
                merged_groups(kept),
                groups_view(kept[q].1.overlay_groups@)[k].0,
                x,
            ),
    decreases kept.len(),
{
    if kept.len() > 0 {
        let prev = merged_groups(kept.drop_last());
        let src = groups_view(kept.last().1.overlay_groups@);
        lemma_merged_keeps(kept.drop_last());
        lemma_merge_keeps(prev, src);
        assert forall|q: int, k: int, x: Seq<char>|
            0 <= q < kept.len() && 0 <= k < groups_view(kept[q].1.overlay_groups@).len()
                && #[trigger] groups_view(kept[q].1.overlay_groups@)[k].2.contains(x) implies covers(
                merged_groups(kept),
                groups_view(kept[q].1.overlay_groups@)[k].0,
                x,
            ) by {
            if q < kept.len() - 1 {
                assert(kept.drop_last()[q] == kept[q]);
                assert(covers(prev, groups_view(kept[q].1.overlay_groups@)[k].0, x));
            } else {
                assert(kept.last() == kept[q]);
                assert(src[k] == groups_view(kept[q].1.overlay_groups@)[k]);
            }
        }
    }
}

/// The plans of the kept modules, with their identifiers, in module order
/// (`outcomes[i]` is the outcome of `modules[i]`).
pub open spec fn kept_plans(
    modules: Seq<Module>,
    outcomes: Seq<ModulePrepareOutcome>,
) -> Seq<(String, ModulePlanOutcome)>
    decreases outcomes.len(),
{
    if outcomes.len() == 0 {
        seq![]
    } else {
        let prev = kept_plans(modules, outcomes.drop_last());
        let n = outcomes.len() - 1;
        if outcomes[n].spec_keep() {
            prev.push((modules[n].id, outcomes[n].plan))
        } else {
            prev
        }
    }
}

proof fn lemma_merged_same_views(a: Seq<(String, ModulePlanOutcome)>, b: Seq<(String, ModulePlanOutcome)>)
    requires
        a.len() == b.len(),
        forall|q: int|
            0 <= q < a.len() ==> groups_view((#[trigger] a[q]).1.overlay_groups@) == groups_view(
                b[q].1.overlay_groups@,
            ),
    ensures
        merged_groups(a) == merged_groups(b),
    decreases a.len(),
{
    if a.len() > 0 {
        assert forall|q: int| 0 <= q < a.drop_last().len() implies groups_view(
            (#[trigger] a.drop_last()[q]).1.overlay_groups@,
        ) == groups_view(b.drop_last()[q].1.overlay_groups@) by {
            assert(a.drop_last()[q] == a[q] && b.drop_last()[q] == b[q]);
        }
        lemma_merged_same_views(a.drop_last(), b.drop_last());
        assert(groups_view(a.last().1.overlay_groups@) == groups_view(b.last().1.overlay_groups@)) by {
            assert(a.last() == a[a.len() - 1] && b.last() == b[b.len() - 1]);
        }
    }
}

proof fn lemma_kept_plans_has(modules: Seq<Module>, outcomes: Seq<ModulePrepareOutcome>, m: int)
    requires
        0 <= m < outcomes.len(),
        outcomes[m].spec_keep(),
    ensures
        exists|q: int|
            0 <= q < kept_plans(modules, outcomes).len() && (#[trigger] kept_plans(modules, outcomes)[q]).1
                == outcomes[m].plan,
    decreases outcomes.len(),
{
    let prev = kept_plans(modules, outcomes.drop_last());
    if m < outcomes.len() - 1 {
        lemma_kept_plans_has(modules, outcomes.drop_last(), m);
        let q = choose|q: int|
            0 <= q < prev.len() && (#[trigger] prev[q]).1 == outcomes.drop_last()[m].plan;
        assert(kept_plans(modules, outcomes)[q] == prev[q]);
    } else {
        assert(kept_plans(modules, outcomes)[prev.len() as int].1 == outcomes[m].plan);
    }
}

/// Every layer of every kept module's group is mounted over that group's
/// path, given mounts that cover the merged groups one for one.
proof fn lemma_every_layer_mounted(
    modules: Seq<Module>,
    outcomes: Seq<ModulePrepareOutcome>,
    ops: Seq<OverlayOperation>,
)
    requires
        forall|j: int|
            0 <= j < merged_groups(kept_plans(modules, outcomes)).len() ==> group_has_op(
                #[trigger] merged_groups(kept_plans(modules, outcomes))[j],
                ops,
            ),
    ensures
        forall|m: int, g: int, x: Seq<char>|
            0 <= m < outcomes.len() && outcomes[m].spec_keep() && 0 <= g < groups_view(
                outcomes[m].plan.overlay_groups@,
            ).len() && #[trigger] groups_view(outcomes[m].plan.overlay_groups@)[g].2.contains(x) ==> exists|o: int|
                0 <= o < ops.len() && same_path(
                    ops[o].target@,
                    groups_view(outcomes[m].plan.overlay_groups@)[g].0,
                ) && string_views((#[trigger] ops[o]).lowerdirs@).contains(x),
{
    let kp = kept_plans(modules, outcomes);
    let mg = merged_groups(kp);
    lemma_merged_keeps(kp);
    assert forall|m: int, g: int, x: Seq<char>|
        0 <= m < outcomes.len() && outcomes[m].spec_keep() && 0 <= g < groups_view(
            outcomes[m].plan.overlay_groups@,
        ).len() && #[trigger] groups_view(outcomes[m].plan.overlay_groups@)[g].2.contains(x) implies exists|o: int|
            0 <= o < ops.len() && same_path(ops[o].target@, groups_view(outcomes[m].plan.overlay_groups@)[g].0)
                && string_views((#[trigger] ops[o]).lowerdirs@).contains(x) by {
        let gv = groups_view(outcomes[m].plan.overlay_groups@);
        lemma_kept_plans_has(modules, outcomes, m);
        let q = choose|q: int| 0 <= q < kp.len() && (#[trigger] kp[q]).1 == outcomes[m].plan;
        assert(groups_view(kp[q].1.overlay_groups@)[g] == gv[g]);
        assert(covers(mg, gv[g].0, x));
        let j = choose|j: int| 0 <= j < mg.len() && same_path(mg[j].0, gv[g].0) && (#[trigger] mg[j]).2.contains(x);
        assert(group_has_op(mg[j], ops));
        let o = choose|o: int| 0 <= o < ops.len() && op_matches(#[trigger] ops[o], mg[j]);
        assert(string_views(ops[o].lowerdirs@).contains(x));
    }
}

/// Where module `id` is kept under the storage at `base`.
pub open spec fn module_final_root(base: Seq<char>, id: Seq<char>) -> Seq<char> {
    join_path(base, id)
}

/// A module's plan is the walk over its tree for some answers read from
/// disk: answers that fit the walk, each link answer a value some target
/// cache held or a resolution of the link (see `probes_fit`); its overlay
/// groups, and whether it needs magic mounting or Kasumi, are those of the
/// walk over them.
pub open spec fn module_plan_fits(
    rules: ModuleRules,
    tree: SourceTree,
    settings: PlanSettings,
    system_root: Seq<char>,
    final_root: Seq<char>,
    plan: ModulePlanOutcome,
) -> bool {
    exists|cache: Seq<(String, String)>, probes: Seq<(bool, Seq<char>)>|
        {
            &&& probes.len() == tree.dirs@.len()
            &&& #[trigger] probes_fit(rules, tree, settings, system_root, cache, probes)
            &&& groups_view(plan.overlay_groups@) == walk_groups(
                rules,
                tree,
                settings,
                system_root,
                final_root,
                probes,
                tree.dirs@.len() as int,
            )
            &&& plan.magic == walk_magic(rules, tree, settings, system_root, probes, tree.dirs@.len() as int)
            &&& plan.kasumi == walk_kasumi(rules, tree, settings, system_root, probes, tree.dirs@.len() as int)
        }
}

/// What planning all modules gives: per module, its plan as the walk over
/// its tree (see `module_plan_fits`), layers from its own directories and
/// whether it has content; the plan names exactly the kept
/// modules that need magic mounting or Kasumi (none for Kasumi when it
/// cannot be used), in order; the overlay modules are those found in the
/// layers, each mount's layers in mount order; one mount per merged target,
/// targets pairwise distinct and in path order (strictly ascending where
/// their components hold no NUL), each mount made from a
/// merged group and each merged group mounted; every layer of every kept
/// module is mounted over its group's path; no Kasumi rules yet.
pub open spec fn mount_plan_fits(
    modules: Seq<Module>,
    trees: Seq<SourceTree>,
    storage_base: Seq<char>,
    system_root: Seq<char>,
    settings: PlanSettings,
    outcomes: Seq<ModulePrepareOutcome>,
    plan: MountPlan,
) -> bool {
    &&& outcomes.len() == modules.len()
    &&& forall|i: int|
        0 <= i < modules.len() ==> #[trigger] module_plan_fits(
            modules[i].rules,
            trees[i],
            settings,
            system_root,
            module_final_root(storage_base, modules[i].id@),
            outcomes[i].plan,
        )
    &&& forall|i: int|
        0 <= i < modules.len() ==> layers_from(
            groups_view((#[trigger] outcomes[i]).plan.overlay_groups@),
            trees[i].dirs@,
            module_final_root(storage_base, modules[i].id@),
        )
    &&& forall|i: int|
        0 <= i < modules.len() ==> (#[trigger] outcomes[i]).has_mount_content == spec_has_mount_content(
            trees[i],
            settings.managed,
        )
    &&& forall|id: Seq<char>|
        string_views(plan.magic_module_ids@).contains(id) <==> exists|i: int|
            0 <= i < modules.len() && (#[trigger] modules[i]).id@ == id && outcomes[i].spec_keep()
                && outcomes[i].plan.magic
    &&& forall|id: Seq<char>|
        string_views(plan.kasumi_module_ids@).contains(id) <==> exists|i: int|
            0 <= i < modules.len() && (#[trigger] modules[i]).id@ == id && outcomes[i].spec_keep()
                && outcomes[i].plan.kasumi
    &&& !settings.use_kasumi ==> plan.kasumi_module_ids@.len() == 0
    &&& strictly_sorted(string_views(plan.magic_module_ids@))
    &&& strictly_sorted(string_views(plan.kasumi_module_ids@))
    &&& strictly_sorted(string_views(plan.overlay_module_ids@))
    &&& exists|ids: Seq<Seq<Option<Seq<char>>>>|
        #[trigger] ids_explain(modules, plan.overlay_ops@, string_views(plan.overlay_module_ids@), ids)
    &&& plan.kasumi_add_rules@.len() == 0
    &&& plan.kasumi_merge_rules@.len() == 0
    &&& plan.kasumi_hide_rules@.len() == 0
    &&& forall|o: int, x: Seq<char>|
        0 <= o < plan.overlay_ops@.len() && string_views(plan.overlay_ops@[o].lowerdirs@).contains(x)
            ==> exists|m: int, k: int|
            0 <= m < modules.len() && outcomes[m].spec_keep() && 0 <= k < trees[m].dirs@.len()
                && x == #[trigger] join_path(
                module_final_root(storage_base, modules[m].id@),
                relative_of(trees[m].dirs@, k),
            )
    &&& forall|i: int, k: int|
        0 <= i < k < plan.overlay_ops@.len() ==> !crate::order::lex_lt(
            path_key((#[trigger] plan.overlay_ops@[k]).target@),
            path_key((#[trigger] plan.overlay_ops@[i]).target@),
        )
    &&& op_targets_distinct(plan.overlay_ops@)
    &&& forall|i: int, k: int|
        0 <= i < k < plan.overlay_ops@.len() && nul_free_parts((#[trigger] plan.overlay_ops@[i]).target@)
            && nul_free_parts((#[trigger] plan.overlay_ops@[k]).target@) ==> crate::order::lex_lt(
            path_key(plan.overlay_ops@[i].target@),
            path_key(plan.overlay_ops@[k].target@),
        )
    &&& forall|m: int, g: int, x: Seq<char>|
        0 <= m < outcomes.len() && outcomes[m].spec_keep() && 0 <= g < groups_view(
            outcomes[m].plan.overlay_groups@,
        ).len() && #[trigger] groups_view(outcomes[m].plan.overlay_groups@)[g].2.contains(x) ==> exists|o: int|
            0 <= o < plan.overlay_ops@.len() && same_path(
                plan.overlay_ops@[o].target@,
                groups_view(outcomes[m].plan.overlay_groups@)[g].0,
            ) && string_views((#[trigger] plan.overlay_ops@[o]).lowerdirs@).contains(x)
    &&& plan.overlay_ops@.len() == merged_groups(kept_plans(modules, outcomes)).len()
    &&& forall|i: int|
        0 <= i < plan.overlay_ops@.len() ==> op_from_groups(
            #[trigger] plan.overlay_ops@[i],
            merged_groups(kept_plans(modules, outcomes)),
        )
    &&& forall|j: int|
        0 <= j < merged_groups(kept_plans(modules, outcomes)).len() ==> group_has_op(
            #[trigger] merged_groups(kept_plans(modules, outcomes))[j],
            plan.overlay_ops@,
        )
}

/// Plans every module over the system tree at `system_root`: each module,
/// with the tree read for it (`trees[i]` for `modules[i]`), is planned from
/// its staging under `storage_base`; the modules that are kept make up
/// the mount plan. Only kept modules are named in the plan, Kasumi
/// modules only where Kasumi can be used, and every overlay layer is a
/// directory of a kept module's final copy.
pub fn prepare_mount_plan_with_root(
    modules: &Vec<Module>,
    trees: &Vec<SourceTree>,
    storage_base: &str,
    system_root: &str,
    ctx: &mut PrepareContext,
) -> (r: (Vec<ModulePrepareOutcome>, MountPlan))
    requires
        trees@.len() == modules@.len(),
        forall|i: int| 0 <= i < trees@.len() ==> (#[trigger] trees@[i]).wf(),
    ensures
        mount_plan_fits(
            modules@,
            trees@,
            storage_base@,
            system_root@,
            settings_of(*old(ctx)),
            r.0@,
            r.1,
        ),
        final(ctx).use_kasumi == old(ctx).use_kasumi,
        final(ctx).managed_partitions@ == old(ctx).managed_partitions@,
{
    let ghost managed0 = string_views(ctx.managed_partitions@);
    let ghost use_kasumi0 = ctx.use_kasumi;
    let mut outcomes: Vec<ModulePrepareOutcome> = Vec::new();
    let mut kept: Vec<(String, ModulePlanOutcome)> = Vec::new();
    let ghost mut owner: Seq<int> = Seq::empty();
    let mut i: usize = 0;
    while i < modules.len()
        invariant
            i <= modules@.len(),
            trees@.len() == modules@.len(),
            forall|j: int| 0 <= j < trees@.len() ==> (#[trigger] trees@[j]).wf(),
            outcomes@.len() == i,
            owner.len() == kept@.len(),
            ctx.use_kasumi == use_kasumi0,
            use_kasumi0 == old(ctx).use_kasumi,
            string_views(ctx.managed_partitions@) == managed0,
            managed0 == string_views(old(ctx).managed_partitions@),
            ctx.managed_partitions@ == old(ctx).managed_partitions@,
            forall|j: int|
                0 <= j < i ==> layers_from(
                    groups_view((#[trigger] outcomes@[j]).plan.overlay_groups@),
                    trees@[j].dirs@,
                    module_final_root(storage_base@, modules@[j].id@),
                ),
            forall|j: int|
                0 <= j < i ==> (#[trigger] outcomes@[j]).has_mount_content == spec_has_mount_content(
                    trees@[j],
                    managed0,
                ),
            forall|j: int| 0 <= j < i ==> !use_kasumi0 ==> !(#[trigger] outcomes@[j]).plan.kasumi,
            ctx.overlay_fallback_enabled == old(ctx).overlay_fallback_enabled,
            ctx.control_plane == old(ctx).control_plane,
            forall|j: int|
                0 <= j < i ==> #[trigger] module_plan_fits(
                    modules@[j].rules,
                    trees@[j],
                    settings_of(*old(ctx)),
                    system_root@,
                    module_final_root(storage_base@, modules@[j].id@),
                    outcomes@[j].plan,
                ),
            forall|q: int|
                0 <= q < kept@.len() ==> {
                    let m = #[trigger] owner[q];
                    &&& 0 <= m < i
                    &&& outcomes@[m].spec_keep()
                    &&& kept@[q].0@ == modules@[m].id@
                    &&& groups_view(kept@[q].1.overlay_groups@) == groups_view(
                        outcomes@[m].plan.overlay_groups@,
                    )
                    &&& kept@[q].1.magic == outcomes@[m].plan.magic
                    &&& kept@[q].1.kasumi == outcomes@[m].plan.kasumi
                },
            forall|m: int|
                0 <= m < i && (#[trigger] outcomes@[m]).spec_keep() ==> exists|q: int|
                    0 <= q < kept@.len() && owner[q] == m,
            kept@.len() == kept_plans(modules@, outcomes@).len(),
            forall|q: int|
                0 <= q < kept@.len() ==> groups_view((#[trigger] kept@[q]).1.overlay_groups@) == groups_view(
                    kept_plans(modules@, outcomes@)[q].1.overlay_groups@,
                ),
        decreases modules@.len() - i,
    {
        let ghost owner0 = owner;
        let ghost kept0 = kept@;
        let ghost outcomes0 = outcomes@;
        let module = &modules[i];
        let staging = crate::fsplan::PreparedDir::new(storage_base, module.id.as_str());
        let ghost ctx_before = *ctx;
        let outcome = prepare_module(
            &module.rules,
            &trees[i],
            staging.tmp_path(),
            staging.final_path(),
            system_root,
            ctx,
        );
        proof {
            assert(settings_of(ctx_before) == settings_of(*old(ctx)));
            let n = trees@[i as int].dirs@.len() as int;
            let fr = module_final_root(storage_base@, modules@[i as int].id@);
            let st = settings_of(*old(ctx));
            let probes = choose|probes: Seq<(bool, Seq<char>)>|
                {
                    &&& probes.len() == trees@[i as int].dirs@.len()
                    &&& probes_fit(
                        modules@[i as int].rules,
                        trees@[i as int],
                        settings_of(ctx_before),
                        system_root@,
                        ctx_before.target_cache@,
                        probes,
                    )
                    &&& groups_view(outcome.plan.overlay_groups@) == #[trigger] walk_groups(
                        modules@[i as int].rules,
                        trees@[i as int],
                        settings_of(ctx_before),
                        system_root@,
                        fr,
                        probes,
                        n,
                    )
                    &&& outcome.plan.magic == walk_magic(
                        modules@[i as int].rules,
                        trees@[i as int],
                        settings_of(ctx_before),
                        system_root@,
                        probes,
                        n,
                    )
                    &&& outcome.plan.kasumi == walk_kasumi(
                        modules@[i as int].rules,
                        trees@[i as int],
                        settings_of(ctx_before),
                        system_root@,
                        probes,
                        n,
                    )
                };
            assert(walk_groups(modules@[i as int].rules, trees@[i as int], st, system_root@, fr, probes, n)
                == groups_view(outcome.plan.overlay_groups@));
            assert(module_plan_fits(
                modules@[i as int].rules,
                trees@[i as int],
                st,
                system_root@,
                fr,
                outcome.plan,
            ));
        }
        if outcome.keep_module() {
            let copy = ModulePlanOutcome {
                overlay_groups: copy_groups(&outcome.plan.overlay_groups),
                magic: outcome.plan.magic,
                kasumi: outcome.plan.kasumi,
            };
            kept.push((module.id.clone(), copy));
            proof {
                owner = owner.push(i as int);
            }
        }
        outcomes.push(outcome);
        proof {
            assert(outcomes@[i as int] == outcome);
            assert(outcomes@.drop_last() =~= outcomes0);
            let kp = kept_plans(modules@, outcomes@);
            let kp0 = kept_plans(modules@, outcomes0);
            assert forall|q: int|
                0 <= q < kept@.len() implies groups_view((#[trigger] kept@[q]).1.overlay_groups@) == groups_view(
                    kp[q].1.overlay_groups@,
                ) by {
                if q < kept0.len() {
                    assert(kept@[q] == kept0[q]);
                    assert(kp[q] == kp0[q]);
                }
            }
            if outcome.spec_keep() {
                assert(owner[owner.len() - 1] == i);
            }
            assert forall|m: int|
                0 <= m < i + 1 && (#[trigger] outcomes@[m]).spec_keep() implies exists|q: int|
                    0 <= q < kept@.len() && owner[q] == m by {
                if m < i {
                    let q = choose|q: int| 0 <= q < owner0.len() && owner0[q] == m;
                    assert(owner[q] == m);
                } else {
                    assert(owner[owner.len() - 1] == m);
                }
            }
        }
        i = i + 1;
    }
    let plan = build_mount_plan(modules, &kept);
    proof {
        lemma_merged_same_views(kept@, kept_plans(modules@, outcomes@));
        lemma_every_layer_mounted(modules@, outcomes@, plan.overlay_ops@);
        assert forall|id: Seq<char>|
            string_views(plan.magic_module_ids@).contains(id) <==> exists|m: int|
                0 <= m < modules@.len() && (#[trigger] modules@[m]).id@ == id && outcomes@[m].spec_keep()
                    && outcomes@[m].plan.magic by {
            if string_views(plan.magic_module_ids@).contains(id) {
                let q = choose|q: int| 0 <= q < kept@.len() && (#[trigger] kept@[q]).0@ == id && kept@[q].1.magic;
                let m = owner[q];
                assert(modules@[m].id@ == id);
            }
            if exists|m: int|
                0 <= m < modules@.len() && (#[trigger] modules@[m]).id@ == id && outcomes@[m].spec_keep()
                    && outcomes@[m].plan.magic {
                let m = choose|m: int|
                    0 <= m < modules@.len() && (#[trigger] modules@[m]).id@ == id && outcomes@[m].spec_keep()
                        && outcomes@[m].plan.magic;
                let q = choose|q: int| 0 <= q < kept@.len() && owner[q] == m;
                assert(kept@[q].0@ == id && kept@[q].1.magic);
            }
        }
        assert forall|id: Seq<char>|
            string_views(plan.kasumi_module_ids@).contains(id) <==> exists|m: int|
                0 <= m < modules@.len() && (#[trigger] modules@[m]).id@ == id && outcomes@[m].spec_keep()
                    && outcomes@[m].plan.kasumi by {
            if string_views(plan.kasumi_module_ids@).contains(id) {
                let q = choose|q: int| 0 <= q < kept@.len() && (#[trigger] kept@[q]).0@ == id && kept@[q].1.kasumi;
                let m = owner[q];
                assert(modules@[m].id@ == id);
            }
            if exists|m: int|
                0 <= m < modules@.len() && (#[trigger] modules@[m]).id@ == id && outcomes@[m].spec_keep()
                    && outcomes@[m].plan.kasumi {
                let m = choose|m: int|
                    0 <= m < modules@.len() && (#[trigger] modules@[m]).id@ == id && outcomes@[m].spec_keep()
                        && outcomes@[m].plan.kasumi;
                let q = choose|q: int| 0 <= q < kept@.len() && owner[q] == m;
                assert(kept@[q].0@ == id && kept@[q].1.kasumi);
            }
        }
        if !use_kasumi0 && plan.kasumi_module_ids@.len() > 0 {
            let id = string_views(plan.kasumi_module_ids@)[0];
            assert(string_views(plan.kasumi_module_ids@).contains(id));
            let m = choose|m: int|
                0 <= m < modules@.len() && (#[trigger] modules@[m]).id@ == id && outcomes@[m].spec_keep()
                    && outcomes@[m].plan.kasumi;
            assert(!outcomes@[m].plan.kasumi);
        }
        assert forall|o: int, x: Seq<char>|
            0 <= o < plan.overlay_ops@.len() && string_views(plan.overlay_ops@[o].lowerdirs@).contains(x)
                implies exists|m: int, k: int|
                0 <= m < modules@.len() && outcomes@[m].spec_keep() && 0 <= k < trees@[m].dirs@.len()
                    && x == #[trigger] join_path(
                    module_final_root(storage_base@, modules@[m].id@),
                    relative_of(trees@[m].dirs@, k),
                ) by {
            let mg = merged_groups(kept@);
            assert(op_from_groups(plan.overlay_ops@[o], mg));
            let j = choose|j: int| 0 <= j < mg.len() && op_matches(plan.overlay_ops@[o], #[trigger] mg[j]);
            assert(mg[j].2.contains(x));
            let l = choose|l: int| 0 <= l < mg[j].2.len() && mg[j].2[l] == x;
            assert(has_layer(mg, x));
            lemma_merged_layers(kept@, x);
            let q = choose|q: int| 0 <= q < kept@.len() && #[trigger] has_layer(groups_view(kept@[q].1.overlay_groups@), x);
            let m = owner[q];
            let gv = groups_view(outcomes@[m].plan.overlay_groups@);
            let (g, l2) = choose|g: int, l2: int| 0 <= g < gv.len() && 0 <= l2 < gv[g].2.len() && #[trigger] gv[g].2[l2] == x;
            assert(layers_from(gv, trees@[m].dirs@, module_final_root(storage_base@, modules@[m].id@)));
            let k = choose|k: int|
                0 <= k < trees@[m].dirs@.len() && #[trigger] gv[g].2[l2] == join_path(
                    module_final_root(storage_base@, modules@[m].id@),
                    relative_of(trees@[m].dirs@, k),
                );
        }
    }
    (outcomes, plan)
}

/// A layer whose module was found as `id`: its place in the mount order.
pub open spec fn layer_rank(modules: Seq<Module>, id: Option<Seq<char>>) -> nat {
    spec_module_rank(modules, id)
}

/// The layers, each with the module found for it, are in mount order: by
/// the rank of their module, then by the sort key of their path.
pub open spec fn layers_in_mount_order(
    modules: Seq<Module>,
    layers: Seq<Seq<char>>,
    ids: Seq<Option<Seq<char>>>,
) -> bool {
    forall|q: int, s: int|
        0 <= q < s < layers.len() ==> !crate::order::rank_lt(
            layer_rank(modules, #[trigger] ids[s]),
            path_key(layers[s]),
            layer_rank(modules, #[trigger] ids[q]),
            path_key(layers[q]),
        )
}

/// What holds of a layer with the module found for it.
pub open spec fn ranked_layer_ok(modules: Seq<Module>, r: RankedLayer) -> bool {
    &&& possible_module_id(r.path@, opt_view(r.module_id))
    &&& r.rank == spec_module_rank(modules, opt_view(r.module_id))
    &&& r.key@ == path_key(r.path@)
}

/// The layers of a group in mount order: by the rank of their module
/// (found on disk), then by path; with the modules found, and (as a ghost
/// value) the module found for each layer in that order.
fn lowerdirs_of(modules: &Vec<Module>, grp: &OverlayGroup) -> (r: (Vec<String>, Vec<String>, Ghost<Seq<Option<Seq<char>>>>))
    ensures
        r.0@.len() == grp.layers@.len(),
        forall|x: Seq<char>| string_views(r.0@).contains(x) <==> string_views(grp.layers@).contains(x),
        r.2@.len() == r.0@.len(),
        forall|q: int| 0 <= q < r.0@.len() ==> possible_module_id(r.0@[q]@, #[trigger] r.2@[q]),
        layers_in_mount_order(modules@, string_views(r.0@), r.2@),
        forall|x: Seq<char>|
            string_views(r.1@).contains(x) <==> exists|q: int| 0 <= q < r.2@.len() && r.2@[q] == Some(x),
{
    let mut ranked: Vec<RankedLayer> = Vec::new();
    let mut l: usize = 0;
    while l < grp.layers.len()
        invariant
            l <= grp.layers@.len(),
            ranked@.len() == l,
            forall|k: int| 0 <= k < l ==> (#[trigger] ranked@[k]).path@ == grp.layers@[k]@,
            forall|k: int| 0 <= k < l ==> ranked_layer_ok(modules@, #[trigger] ranked@[k]),
        decreases grp.layers@.len() - l,
    {
        let layer = &grp.layers[l];
        let id = extract_module_id(layer.as_str());
        let rank = module_rank(modules, &id);
        ranked.push(RankedLayer { rank, key: path_key_chars(layer.as_str()), path: layer.clone(), module_id: id });
        l = l + 1;
    }
    let ghost ranked_seq = ranked@;
    let sorted_layers = sort_ranked(ranked);
    proof {
        broadcast use vstd::seq_lib::group_to_multiset_ensures;

        assert forall|q: int| 0 <= q < sorted_layers@.len() implies ranked_layer_ok(modules@, #[trigger] sorted_layers@[q]) by {
            let y = sorted_layers@[q];
            assert(sorted_layers@.contains(y));
            lemma_perm_contains(sorted_layers@, ranked_seq, y);
            let k = ranked_seq.index_of(y);
            assert(ranked_layer_ok(modules@, ranked_seq[k]));
        }
    }
    let ghost lids = Seq::new(sorted_layers@.len(), |q: int| opt_view(sorted_layers@[q].module_id));
    let mut lowerdirs: Vec<String> = Vec::new();
    let mut ids: Vec<String> = Vec::new();
    let mut q: usize = 0;
    while q < sorted_layers.len()
        invariant
            q <= sorted_layers@.len(),
            lowerdirs@.len() == q,
            lids.len() == sorted_layers@.len(),
            forall|k: int| 0 <= k < sorted_layers@.len() ==> #[trigger] lids[k] == opt_view(sorted_layers@[k].module_id),
            forall|k: int| 0 <= k < q ==> (#[trigger] lowerdirs@[k])@ == sorted_layers@[k].path@,
            forall|x: Seq<char>|
                string_views(ids@).contains(x) <==> exists|k: int| 0 <= k < q && lids[k] == Some(x),
        decreases sorted_layers@.len() - q,
    {
        lowerdirs.push(sorted_layers[q].path.clone());
        let ghost before = ids@;
        match &sorted_layers[q].module_id {
            Some(id) => {
                ids.push(id.clone());
                proof {
                    assert(string_views(ids@) =~= string_views(before).push(id@));
                    assert forall|x: Seq<char>|
                        string_views(ids@).contains(x) <==> exists|k: int| 0 <= k < q + 1 && lids[k] == Some(x) by {
                        if string_views(ids@).contains(x) && x != id@ {
                            let j = string_views(ids@).index_of(x);
                            assert(string_views(before)[j] == x);
                            assert(string_views(before).contains(x));
                        }
                        if x == id@ {
                            assert(lids[q as int] == Some(x));
                            assert(string_views(ids@)[before.len() as int] == x);
                        }
                        if exists|k: int| 0 <= k < q + 1 && lids[k] == Some(x) {
                            let k = choose|k: int| 0 <= k < q + 1 && lids[k] == Some(x);
                            if k < q {
                                assert(string_views(before).contains(x));
                                let j = string_views(before).index_of(x);
                                assert(string_views(ids@)[j] == x);
                            } else {
                                assert(string_views(ids@)[before.len() as int] == x);
                            }
                        }
                    }
                }
            },
            None => {
                proof {
                    assert forall|x: Seq<char>|
                        string_views(ids@).contains(x) <==> exists|k: int| 0 <= k < q + 1 && lids[k] == Some(x) by {
                        if exists|k: int| 0 <= k < q + 1 && lids[k] == Some(x) {
                            let k = choose|k: int| 0 <= k < q + 1 && lids[k] == Some(x);
                            assert(k != q);
                        }
                    }
                }
            },
        }
        q = q + 1;
    }
    proof {
        broadcast use vstd::seq_lib::group_to_multiset_ensures;

        vstd::seq_lib::to_multiset_len(sorted_layers@);
        vstd::seq_lib::to_multiset_len(ranked_seq);
        assert forall|x: Seq<char>|
            string_views(lowerdirs@).contains(x) <==> string_views(grp.layers@).contains(x) by {
            if string_views(lowerdirs@).contains(x) {
                let k = string_views(lowerdirs@).index_of(x);
                assert(lowerdirs@[k]@ == x);
                let y = sorted_layers@[k];
                assert(sorted_layers@.contains(y));
                lemma_perm_contains(sorted_layers@, ranked_seq, y);
                let l2 = ranked_seq.index_of(y);
                assert(ranked_seq[l2].path@ == grp.layers@[l2]@);
                assert(string_views(grp.layers@)[l2] == x);
            }
            if string_views(grp.layers@).contains(x) {
                let l2 = string_views(grp.layers@).index_of(x);
                let y = ranked_seq[l2];
                assert(y.path@ == x);
                assert(ranked_seq.contains(y));
                lemma_perm_contains(ranked_seq, sorted_layers@, y);
                let k = sorted_layers@.index_of(y);
                assert(lowerdirs@[k]@ == x);
                assert(string_views(lowerdirs@)[k] == x);
            }
        }
        assert forall|k: int| 0 <= k < lowerdirs@.len() implies possible_module_id(lowerdirs@[k]@, #[trigger] lids[k]) by {
            assert(ranked_layer_ok(modules@, sorted_layers@[k]));
        }
        assert forall|a: int, b: int| 0 <= a < b < string_views(lowerdirs@).len() implies !crate::order::rank_lt(
            layer_rank(modules@, #[trigger] lids[b]),
            path_key(string_views(lowerdirs@)[b]),
            layer_rank(modules@, #[trigger] lids[a]),
            path_key(string_views(lowerdirs@)[a]),
        ) by {
            assert(ranked_layer_ok(modules@, sorted_layers@[a]));
            assert(ranked_layer_ok(modules@, sorted_layers@[b]));
            assert(crate::order::ranked_sorted(sorted_layers@));
            assert(!crate::order::rank_lt(
                sorted_layers@[b].rank(),
                sorted_layers@[b].key(),
                sorted_layers@[a].rank(),
                sorted_layers@[a].key(),
            ));
        }
    }
    (lowerdirs, ids, Ghost(lids))
}

/// No two groups are over the same path.
pub open spec fn targets_distinct(gs: Seq<(Seq<char>, Seq<char>, Seq<Seq<char>>)>) -> bool {
    forall|i: int, j: int| 0 <= i < j < gs.len() ==> !same_path(#[trigger] gs[i].0, #[trigger] gs[j].0)
}

/// No two mounts are over the same path.
pub open spec fn op_targets_distinct(ops: Seq<OverlayOperation>) -> bool {
    forall|i: int, j: int|
        0 <= i < j < ops.len() ==> !same_path(#[trigger] ops[i].target@, #[trigger] ops[j].target@)
}

proof fn lemma_merge_one_distinct(
    gs: Seq<(Seq<char>, Seq<char>, Seq<Seq<char>>)>,
    g: (Seq<char>, Seq<char>, Seq<Seq<char>>),
)
    requires
        targets_distinct(gs),
    ensures
        targets_distinct(spec_merge_one(gs, g)),
{
    lemma_first_same_bounds(gs, g.0, 0);
    let m = spec_merge_one(gs, g);
    let f = first_same(gs, g.0, 0);
    assert forall|i: int, j: int| 0 <= i < j < m.len() implies !same_path(#[trigger] m[i].0, #[trigger] m[j].0) by {
        if f < gs.len() {
            assert(m[i].0 == gs[i].0 && m[j].0 == gs[j].0);
        } else if j < gs.len() {
            assert(m[i].0 == gs[i].0 && m[j].0 == gs[j].0);
        } else {
            assert(m[i].0 == gs[i].0 && m[j].0 == g.0);
            assert(!same_path(gs[i].0, g.0));
        }
    }
}

proof fn lemma_merge_distinct(
    gs: Seq<(Seq<char>, Seq<char>, Seq<Seq<char>>)>,
    src: Seq<(Seq<char>, Seq<char>, Seq<Seq<char>>)>,
)
    requires
        targets_distinct(gs),
    ensures
        targets_distinct(spec_merge(gs, src)),
    decreases src.len(),
{
    if src.len() > 0 {
        lemma_merge_distinct(gs, src.drop_last());
        lemma_merge_one_distinct(spec_merge(gs, src.drop_last()), src.last());
    }
}

/// Merging the modules' groups leaves one group per path.
pub proof fn lemma_merged_groups_distinct(kept: Seq<(String, ModulePlanOutcome)>)
    ensures
        targets_distinct(merged_groups(kept)),
    decreases kept.len(),
{
    if kept.len() > 0 {
        lemma_merged_groups_distinct(kept.drop_last());
        lemma_merge_distinct(merged_groups(kept.drop_last()), groups_view(kept.last().1.overlay_groups@));
    }
}

proof fn lemma_count_two<T>(s: Seq<T>, i: int, k: int)
    requires
        0 <= i < k < s.len(),
        s[i] == s[k],
    ensures
        s.to_multiset().count(s[i]) >= 2,
    decreases s.len(),
{
    broadcast use vstd::seq_lib::group_to_multiset_ensures;

    let d = s.drop_last();
    assert(s =~= d.push(s.last()));
    if k == s.len() - 1 {
        assert(d[i] == s[i]);
        assert(d.contains(s[i]));
    } else {
        assert(d[i] == s[i] && d[k] == s[k]);
        lemma_count_two(d, i, k);
    }
}

proof fn lemma_count_at_most_one<T>(s: Seq<T>, y: T)
    requires
        forall|i: int, k: int| 0 <= i < k < s.len() ==> s[i] != s[k],
    ensures
        s.to_multiset().count(y) <= 1,
    decreases s.len(),
{
    broadcast use vstd::seq_lib::group_to_multiset_ensures;

    if s.len() > 0 {
        let d = s.drop_last();
        assert(s =~= d.push(s.last()));
        assert forall|i: int, k: int| 0 <= i < k < d.len() implies d[i] != d[k] by {
            assert(d[i] == s[i] && d[k] == s[k]);
        }
        lemma_count_at_most_one(d, y);
        if s.last() == y && d.contains(y) {
            let i = d.index_of(y);
            assert(s[i] == s[s.len() - 1]);
        }
    }
}

/// The components of `p` hold no NUL character.
pub open spec fn nul_free_parts(p: Seq<char>) -> bool {
    forall|i: int| 0 <= i < path_parts(p).len() ==> !(#[trigger] path_parts(p)[i]).contains('\0')
}

/// Every part is non-empty and holds no NUL.
spec fn clean_parts(parts: Seq<Seq<char>>) -> bool {
    forall|i: int| 0 <= i < parts.len() ==> (#[trigger] parts[i]).len() > 0 && !parts[i].contains('\0')
}

proof fn lemma_clean_drop_last(parts: Seq<Seq<char>>)
    requires
        clean_parts(parts),
        parts.len() > 0,
    ensures
        clean_parts(parts.drop_last()),
{
    assert forall|i: int| 0 <= i < parts.drop_last().len() implies (#[trigger] parts.drop_last()[i]).len() > 0
        && !parts.drop_last()[i].contains('\0') by {
        assert(parts.drop_last()[i] == parts[i]);
    }
}

proof fn lemma_join_nul(parts: Seq<Seq<char>>)
    requires
        clean_parts(parts),
    ensures
        parts.len() <= 1 ==> !join_with(parts, seq!['\0']).contains('\0'),
        parts.len() >= 2 ==> join_with(parts, seq!['\0']).contains('\0'),
        parts.len() >= 1 ==> join_with(parts, seq!['\0']).len() > 0 && join_with(parts, seq!['\0'])[0]
            == parts[0][0],
    decreases parts.len(),
{
    if parts.len() == 1 {
        assert(parts[0].len() > 0);
    } else if parts.len() >= 2 {
        lemma_clean_drop_last(parts);
        lemma_join_nul(parts.drop_last());
        let a = join_with(parts.drop_last(), seq!['\0']);
        let j = join_with(parts, seq!['\0']);
        assert(j == a + seq!['\0'] + parts.last());
        assert(j[a.len() as int] == '\0');
        assert(j[0] == a[0]);
        assert(parts.drop_last()[0] == parts[0]);
    }
}

proof fn lemma_join_injective(p: Seq<Seq<char>>, q: Seq<Seq<char>>)
    requires
        clean_parts(p),
        clean_parts(q),
        join_with(p, seq!['\0']) == join_with(q, seq!['\0']),
    ensures
        p == q,
    decreases p.len(),
{
    lemma_join_nul(p);
    lemma_join_nul(q);
    let j = join_with(p, seq!['\0']);
    if p.len() == 0 {
        assert(q.len() == 0);
        assert(p =~= q);
    } else if p.len() == 1 {
        assert(q.len() == 1);
        assert(p =~= q);
    } else {
        assert(q.len() >= 2);
        lemma_clean_drop_last(p);
        lemma_clean_drop_last(q);
        let a = join_with(p.drop_last(), seq!['\0']);
        let b = join_with(q.drop_last(), seq!['\0']);
        let l = p.last();
        let m = q.last();
        assert(j == a + seq!['\0'] + l);
        assert(j == b + seq!['\0'] + m);
        assert(p[p.len() - 1] == l && q[q.len() - 1] == m);
        if l.len() < m.len() {
            let k = (j.len() - l.len() - 1) as int;
            assert(j[k] == '\0');
            assert(m[k - (b.len() + 1)] == j[k]);
            assert(m.contains('\0'));
        } else if m.len() < l.len() {
            let k = (j.len() - m.len() - 1) as int;
            assert(j[k] == '\0');
            assert(l[k - (a.len() + 1)] == j[k]);
            assert(l.contains('\0'));
        }
        assert(l =~= j.subrange(j.len() - l.len(), j.len() as int));
        assert(m =~= j.subrange(j.len() - m.len(), j.len() as int));
        assert(a =~= j.subrange(0, a.len() as int));
        assert(b =~= j.subrange(0, b.len() as int));
        lemma_join_injective(p.drop_last(), q.drop_last());
        assert(p =~= p.drop_last().push(l));
        assert(q =~= q.drop_last().push(m));
    }
}

proof fn lemma_parts_clean(p: Seq<char>)
    requires
        nul_free_parts(p),
    ensures
        clean_parts(path_parts(p)),
{
    crate::path::lemma_parts_from_plain(p, seq![]);
    assert forall|i: int| 0 <= i < path_parts(p).len() implies (#[trigger] path_parts(p)[i]).len() > 0
        && !path_parts(p)[i].contains('\0') by {
        assert(crate::path::plain_part(path_parts(p)[i]) || path_parts(p)[i] == crate::path::dot_dot());
    }
}

/// Paths whose components hold no NUL have the same sort key only when
/// they are the same path.
pub proof fn lemma_path_key_injective(a: Seq<char>, b: Seq<char>)
    requires
        nul_free_parts(a),
        nul_free_parts(b),
        path_key(a) == path_key(b),
    ensures
        same_path(a, b),
{
    lemma_parts_clean(a);
    lemma_parts_clean(b);
    let pa = path_parts(a);
    let pb = path_parts(b);
    lemma_join_nul(pa);
    lemma_join_nul(pb);
    let ja = join_with(pa, seq!['\0']);
    let jb = join_with(pb, seq!['\0']);
    if is_absolute(a) && is_absolute(b) {
        assert(ja =~= path_key(a).drop_first());
        assert(jb =~= path_key(b).drop_first());
        lemma_join_injective(pa, pb);
    } else if !is_absolute(a) && !is_absolute(b) {
        assert(path_key(a) =~= ja);
        assert(path_key(b) =~= jb);
        lemma_join_injective(pa, pb);
    } else if is_absolute(a) {
        assert(path_key(b) =~= jb);
        assert(path_key(a)[0] == '\0');
        assert(jb.len() > 0);
        assert(pb[0].contains(jb[0]) || pb[0][0] == jb[0]);
        assert(pb[0][0] == '\0');
        assert(pb[0].contains('\0'));
    } else {
        assert(path_key(a) =~= ja);
        assert(path_key(b)[0] == '\0');
        assert(ja.len() > 0);
        assert(pa[0][0] == '\0');
        assert(pa[0].contains('\0'));
    }
}

/// Distinct mounts in path order are strictly ascending where their
/// targets' components hold no NUL.
proof fn lemma_ops_strictly_ascending(ops: Seq<OverlayOperation>)
    requires
        op_targets_distinct(ops),
        forall|i: int, k: int|
            0 <= i < k < ops.len() ==> !crate::order::lex_lt(
                path_key((#[trigger] ops[k]).target@),
                path_key((#[trigger] ops[i]).target@),
            ),
    ensures
        forall|i: int, k: int|
            0 <= i < k < ops.len() && nul_free_parts((#[trigger] ops[i]).target@) && nul_free_parts(
                (#[trigger] ops[k]).target@,
            ) ==> crate::order::lex_lt(path_key(ops[i].target@), path_key(ops[k].target@)),
{
    assert forall|i: int, k: int|
        0 <= i < k < ops.len() && nul_free_parts((#[trigger] ops[i]).target@) && nul_free_parts(
            (#[trigger] ops[k]).target@,
        ) implies crate::order::lex_lt(path_key(ops[i].target@), path_key(ops[k].target@)) by {
        crate::order::lemma_lex_total(path_key(ops[i].target@), path_key(ops[k].target@));
        if path_key(ops[i].target@) == path_key(ops[k].target@) {
            lemma_path_key_injective(ops[i].target@, ops[k].target@);
        }
    }
}

/// Overlay mounts made one by one from a sorted permutation of keyed
/// groups cover the groups one for one, in key order.
proof fn lemma_ops_cover_groups(
    mg: Seq<(Seq<char>, Seq<char>, Seq<Seq<char>>)>,
    keyed: Seq<KeyedGroup>,
    sorted: Seq<KeyedGroup>,
    ops: Seq<OverlayOperation>,
)
    requires
        keyed.len() == mg.len(),
        forall|j: int|
            0 <= j < keyed.len() ==> group_view((#[trigger] keyed[j]).group) == mg[j]
                && keyed[j].key@ == path_key(mg[j].0),
        sorted.to_multiset() == keyed.to_multiset(),
        crate::order::ranked_sorted(sorted),
        ops.len() == sorted.len(),
        forall|i: int| 0 <= i < ops.len() ==> op_matches(#[trigger] ops[i], group_view(sorted[i].group)),
        targets_distinct(mg),
    ensures
        op_targets_distinct(ops),
        ops.len() == mg.len(),
        forall|i: int| 0 <= i < ops.len() ==> op_from_groups(#[trigger] ops[i], mg),
        forall|j: int| 0 <= j < mg.len() ==> group_has_op(#[trigger] mg[j], ops),
        forall|i: int, k: int|
            0 <= i < k < ops.len() ==> !crate::order::lex_lt(
                path_key((#[trigger] ops[k]).target@),
                path_key((#[trigger] ops[i]).target@),
            ),
{
    broadcast use vstd::seq_lib::group_to_multiset_ensures;

    vstd::seq_lib::to_multiset_len(sorted);
    vstd::seq_lib::to_multiset_len(keyed);
    assert forall|a: int, b: int| 0 <= a < b < keyed.len() implies keyed[a] != keyed[b] by {
        if keyed[a] == keyed[b] {
            assert(mg[a].0 == mg[b].0);
            assert(same_path(mg[a].0, mg[b].0));
        }
    }
    assert forall|i: int, j: int|
        0 <= i < j < ops.len() implies !same_path(#[trigger] ops[i].target@, #[trigger] ops[j].target@) by {
        if same_path(ops[i].target@, ops[j].target@) {
            let yi = sorted[i];
            let yj = sorted[j];
            assert(sorted.contains(yi));
            assert(sorted.contains(yj));
            lemma_perm_contains(sorted, keyed, yi);
            lemma_perm_contains(sorted, keyed, yj);
            let a = keyed.index_of(yi);
            let b = keyed.index_of(yj);
            assert(group_view(keyed[a].group) == mg[a]);
            assert(group_view(keyed[b].group) == mg[b]);
            if a < b {
                assert(!same_path(mg[a].0, mg[b].0));
            } else if b < a {
                assert(!same_path(mg[b].0, mg[a].0));
            } else {
                lemma_count_two(sorted, i, j);
                lemma_count_at_most_one(keyed, yi);
            }
        }
    }
    assert forall|i: int| 0 <= i < ops.len() implies op_from_groups(#[trigger] ops[i], mg) by {
        let y = sorted[i];
        assert(sorted.contains(y));
        lemma_perm_contains(sorted, keyed, y);
        let j = keyed.index_of(y);
        assert(group_view(keyed[j].group) == mg[j]);
        assert(op_matches(ops[i], mg[j]));
    }
    assert forall|j: int| 0 <= j < mg.len() implies group_has_op(#[trigger] mg[j], ops) by {
        let y = keyed[j];
        assert(keyed.contains(y));
        lemma_perm_contains(keyed, sorted, y);
        let i = sorted.index_of(y);
        assert(op_matches(ops[i], group_view(sorted[i].group)));
    }
    assert forall|i: int, k: int| 0 <= i < k < ops.len() implies !crate::order::lex_lt(
        path_key((#[trigger] ops[k]).target@),
        path_key((#[trigger] ops[i]).target@),
    ) by {
        let yi = sorted[i];
        let yk = sorted[k];
        assert(sorted.contains(yi));
        assert(sorted.contains(yk));
        lemma_perm_contains(sorted, keyed, yi);
        lemma_perm_contains(sorted, keyed, yk);
        let ji = keyed.index_of(yi);
        let jk = keyed.index_of(yk);
        assert(yi.key@ == path_key(yi.group.target@));
        assert(yk.key@ == path_key(yk.group.target@));
        assert(!crate::order::rank_lt(yk.rank(), yk.key(), yi.rank(), yi.key()));
    }
}

/// `ids[i][q]` is the module found for layer `q` of mount `i`: each is
/// what `extract_module_id` can give for that layer, and each mount's
/// layers are in mount order for them.
pub open spec fn layer_ids_fit(
    modules: Seq<Module>,
    ops: Seq<OverlayOperation>,
    ids: Seq<Seq<Option<Seq<char>>>>,
) -> bool {
    &&& ids.len() == ops.len()
    &&& forall|i: int|
        0 <= i < ops.len() ==> {
            &&& (#[trigger] ids[i]).len() == ops[i].lowerdirs@.len()
            &&& forall|q: int|
                0 <= q < ids[i].len() ==> possible_module_id(ops[i].lowerdirs@[q]@, #[trigger] ids[i][q])
            &&& layers_in_mount_order(modules, string_views(ops[i].lowerdirs@), ids[i])
        }
}

/// The modules found among `ids`.
pub open spec fn found_in(ids: Seq<Seq<Option<Seq<char>>>>, x: Seq<char>) -> bool {
    exists|i: int, q: int| 0 <= i < ids.len() && 0 <= q < ids[i].len() && #[trigger] ids[i][q] == Some(x)
}

/// `ids` gives the module found for each layer of each mount (see
/// `layer_ids_fit`), and the modules involved are exactly those found.
pub open spec fn ids_explain(
    modules: Seq<Module>,
    ops: Seq<OverlayOperation>,
    involved: Seq<Seq<char>>,
    ids: Seq<Seq<Option<Seq<char>>>>,
) -> bool {
    &&& layer_ids_fit(modules, ops, ids)
    &&& forall|x: Seq<char>| involved.contains(x) <==> found_in(ids, x)
}

/// One overlay mount per merged group, in the order of their targets'
/// path keys, each made from its group; with the modules involved, sorted.
fn overlay_ops_of(modules: &Vec<Module>, merged: &Vec<OverlayGroup>) -> (r: (
    Vec<OverlayOperation>,
    Vec<String>,
))
    requires
        targets_distinct(groups_view(merged@)),
    ensures
        strictly_sorted(string_views(r.1@)),
        exists|ids: Seq<Seq<Option<Seq<char>>>>| #[trigger] ids_explain(modules@, r.0@, string_views(r.1@), ids),
        op_targets_distinct(r.0@),
        r.0@.len() == merged@.len(),
        forall|i: int| 0 <= i < r.0@.len() ==> op_from_groups(#[trigger] r.0@[i], groups_view(merged@)),
        forall|j: int|
            0 <= j < merged@.len() ==> group_has_op(#[trigger] groups_view(merged@)[j], r.0@),
        forall|i: int, k: int|
            0 <= i < k < r.0@.len() ==> !crate::order::lex_lt(
                path_key((#[trigger] r.0@[k]).target@),
                path_key((#[trigger] r.0@[i]).target@),
            ),
{
    let ghost mg = groups_view(merged@);
    let mut keyed: Vec<KeyedGroup> = Vec::new();
    let mut g: usize = 0;
    while g < merged.len()
        invariant
            g <= merged@.len(),
            keyed@.len() == g,
            forall|j: int|
                0 <= j < g ==> group_view((#[trigger] keyed@[j]).group) == group_view(merged@[j])
                    && keyed@[j].key@ == path_key(merged@[j].target@),
        decreases merged@.len() - g,
    {
        keyed.push(KeyedGroup { key: path_key_chars(merged[g].target.as_str()), group: copy_group(&merged[g]) });
        g = g + 1;
    }
    let ghost keyed_seq = keyed@;
    let sorted_groups = sort_ranked(keyed);
    let mut ops: Vec<OverlayOperation> = Vec::new();
    let mut overlay_ids: Vec<String> = Vec::new();
    let ghost mut found: Seq<Seq<Option<Seq<char>>>> = Seq::empty();
    let mut o: usize = 0;
    while o < sorted_groups.len()
        invariant
            o <= sorted_groups@.len(),
            strictly_sorted(string_views(overlay_ids@)),
            ops@.len() == o,
            forall|i: int|
                0 <= i < o ==> op_matches(#[trigger] ops@[i], group_view(sorted_groups@[i].group)),
            layer_ids_fit(modules@, ops@, found),
            forall|x: Seq<char>| string_views(overlay_ids@).contains(x) <==> found_in(found, x),
        decreases sorted_groups@.len() - o,
    {
        let grp = &sorted_groups[o].group;
        let (lowerdirs, ids, Ghost(lids)) = lowerdirs_of(modules, grp);
        let ghost before_ids = overlay_ids@;
        insert_all(&mut overlay_ids, &ids);
        let op = OverlayOperation { partition_name: grp.partition.clone(), target: grp.target.clone(), lowerdirs };
        assert(op_matches(op, group_view(sorted_groups@[o as int].group)));
        let ghost ops0 = ops@;
        let ghost found0 = found;
        ops.push(op);
        proof {
            found = found.push(lids);
            assert(ops@ == ops0.push(op));
            assert forall|i: int| 0 <= i < ops@.len() implies {
                &&& (#[trigger] found[i]).len() == ops@[i].lowerdirs@.len()
                &&& forall|q: int|
                    0 <= q < found[i].len() ==> possible_module_id(ops@[i].lowerdirs@[q]@, #[trigger] found[i][q])
                &&& layers_in_mount_order(modules@, string_views(ops@[i].lowerdirs@), found[i])
            } by {
                if i < o {
                    assert(found[i] == found0[i]);
                    assert(ops@[i] == ops0[i]);
                }
            }
            assert forall|x: Seq<char>| string_views(overlay_ids@).contains(x) <==> found_in(found, x) by {
                assert(string_views(overlay_ids@).to_set().contains(x) == string_views(overlay_ids@).contains(x));
                assert(string_views(before_ids).to_set().contains(x) == string_views(before_ids).contains(x));
                assert(string_views(ids@).to_set().contains(x) == string_views(ids@).contains(x));
                if found_in(found, x) {
                    let (i, q) = choose|i: int, q: int|
                        0 <= i < found.len() && 0 <= q < found[i].len() && #[trigger] found[i][q] == Some(x);
                    if i < o {
                        assert(found0[i][q] == Some(x));
                        assert(found_in(found0, x));
                    } else {
                        assert(lids[q] == Some(x));
                    }
                }
                if found_in(found0, x) {
                    let (i, q) = choose|i: int, q: int|
                        0 <= i < found0.len() && 0 <= q < found0[i].len() && #[trigger] found0[i][q] == Some(x);
                    assert(found[i][q] == Some(x));
                }
                if string_views(ids@).contains(x) {
                    let q = choose|q: int| 0 <= q < lids.len() && lids[q] == Some(x);
                    assert(found[o as int][q] == Some(x));
                }
            }
        }
        o = o + 1;
    }
    proof {
        lemma_ops_cover_groups(groups_view(merged@), keyed_seq, sorted_groups@, ops@);
        assert(layer_ids_fit(modules@, ops@, found));
        assert(forall|x: Seq<char>| string_views(overlay_ids@).contains(x) <==> found_in(found, x));
        assert(ids_explain(modules@, ops@, string_views(overlay_ids@), found));
    }
    let r = (ops, overlay_ids);
    assert(ids_explain(modules@, r.0@, string_views(r.1@), found));
    r
}

/// Plans every module over the live system (root `"/"`); see
/// `prepare_mount_plan_with_root`.
pub fn prepare_mount_plan(
    modules: &Vec<Module>,
    trees: &Vec<SourceTree>,
    storage_base: &str,
    ctx: &mut PrepareContext,
) -> (r: (Vec<ModulePrepareOutcome>, MountPlan))
    requires
        trees@.len() == modules@.len(),
        forall|i: int| 0 <= i < trees@.len() ==> (#[trigger] trees@[i]).wf(),
    ensures
        mount_plan_fits(
            modules@,
            trees@,
            storage_base@,
            "/"@,
            settings_of(*old(ctx)),
            r.0@,
            r.1,
        ),
        final(ctx).use_kasumi == old(ctx).use_kasumi,
        final(ctx).managed_partitions@ == old(ctx).managed_partitions@,
{
    prepare_mount_plan_with_root(modules, trees, storage_base, "/", ctx)
}

} // verus!
