//! Execution of a mount plan, as a machine that decides what to do next
//! from what the last mount attempt reported.
//!
//! The caller performs each requested action (an overlay mount, the magic
//! mounts, the Kasumi runtime) and reports its outcome back as an event.

use vstd::prelude::*;
use crate::order::{
    strictly_sorted, string_views, sorted_unique, insert_all, retain_in, copy_strings,
};
use crate::text::{join_with, join_strings, append_str, string_from_chars, has_substring,
    contains_substring};
use crate::plan::{MountPlan, OverlayOperation};
use crate::recovery::{FailureStage, ModuleStageFailure};
use crate::runtime_state::MountStatistics;
use crate::validation::{
    extract_module_id, ancestor_name, ancestor_count, opt_view, possible_module_id,
    possible_module_ids, some_values,
};
use crate::path::path_parts;
use crate::config::Config;

verus! {

/// What a finished execution mounted.
#[derive(Debug, Clone)]
pub struct ExecutionResult {
    pub overlay_module_ids: Vec<String>,
    pub overlay_partitions: Vec<String>,
    pub magic_module_ids: Vec<String>,
    pub kasumi_module_ids: Vec<String>,
    pub kasumi_runtime_enabled: bool,
    pub mount_stats: MountStatistics,
}

/// Where an execution stands.
#[derive(Debug, Clone, Copy, PartialEq, Eq, Structural)]
pub enum ExecPhase {
    Start,
    Overlay,
    Magic,
    Kasumi,
    Done,
}

/// What the last action reported.
#[derive(Debug, Clone)]
pub enum ExecEvent {
    /// Execution begins; whether the Kasumi runtime is usable and whether
    /// the kernel supports overlayfs.
    /// The modules of all overlay operations, found on disk, are the ones
    /// that fall back to magic mounting when overlayfs is missing.
    Started { kasumi_available: bool, overlay_supported: bool, fallback_candidates: Vec<String> },
    /// The overlay mount of the current operation succeeded; the modules of
    /// its layers, found on disk.
    OverlayMounted { involved: Vec<String> },
    /// The overlay mount of the current operation failed; the modules of its
    /// layers, whether the error was a symbolic-link loop, and its text.
    OverlayFailed { involved: Vec<String>, symlink_loop: bool, message: String },
    /// The magic mounts were made: the modules actually mounted, and the
    /// counters they produced.
    MagicMounted { mounted: Vec<String>, stats: MountStatistics },
    /// The magic mounts failed; the modules the failure named, and its text.
    MagicFailed { reported: Vec<String>, message: String },
    /// The Kasumi runtime was applied; whether it is now enabled.
    KasumiApplied { runtime_enabled: bool },
    /// Applying the Kasumi runtime failed.
    KasumiFailed { message: String },
}

/// What to do next.
#[derive(Debug, Clone)]
pub enum ExecAction {
    /// Mount the overlay operation of this index of the plan.
    MountOverlay(usize),
    /// Magic-mount these modules.
    MountMagic(Vec<String>),
    /// Apply the Kasumi runtime rules.
    ApplyKasumi,
    /// Execution is over.
    Finished(ExecutionResult),
    /// Execution failed for the named modules.
    Failed(ModuleStageFailure),
    /// Execution cannot go on, and no module can be blamed.
    Aborted(String),
}

/// The state of an execution.
pub struct Executor {
    phase: ExecPhase,
    next_op: usize,
    magic_ids: Vec<String>,
    overlay_ids: Vec<String>,
    overlay_partitions: Vec<String>,
    mount_stats: MountStatistics,
    fallback_allowed: bool,
    kasumi_enabled: bool,
}

/// Whether an overlay failure text marks a symbolic-link loop.
pub open spec fn spec_is_symlink_loop(messages: Seq<String>) -> bool {
    exists|i: int|
        0 <= i < messages.len() && (has_substring(#[trigger] messages[i]@,
            "Too many symbolic links"@) || has_substring(messages[i]@, "os error 40"@))
}

/// Whether any text of an error and its causes tells of a symbolic-link
/// loop (`ELOOP`).
pub fn is_symlink_loop_mount_error(messages: &Vec<String>) -> (b: bool)
    ensures
        b == spec_is_symlink_loop(messages@),
{
    let mut i: usize = 0;
    while i < messages.len()
        invariant
            i <= messages@.len(),
            forall|j: int|
                0 <= j < i ==> !(has_substring(#[trigger] messages@[j]@,
                    "Too many symbolic links"@) || has_substring(messages@[j]@, "os error 40"@)),
        decreases messages@.len() - i,
    {
        if contains_substring(messages[i].as_str(), "Too many symbolic links")
            || contains_substring(messages[i].as_str(), "os error 40") {
            return true;
        }
        i = i + 1;
    }
    false
}

/// Whether `id` names the module of one of the layers of `op`, as found on
/// disk.
pub open spec fn layer_module(op: OverlayOperation, id: Seq<char>) -> bool {
    exists|l: int, k: int|
        0 <= l < op.lowerdirs@.len() && 0 <= k < ancestor_count(
            path_parts(op.lowerdirs@[l]@).len(),
        ) && #[trigger] ancestor_name(path_parts(op.lowerdirs@[l]@), k) == Some(id)
}

/// `found` is what `collect_involved_modules` can give for `op`: the
/// identifiers found for its layers by `extract_module_id`, for some answer
/// of the disk.
pub open spec fn op_outcome(op: OverlayOperation, found: Set<Seq<char>>) -> bool {
    exists|ids: Seq<Option<Seq<char>>>|
        #[trigger] possible_module_ids(string_views(op.lowerdirs@), ids) && found == some_values(ids)
}

/// Everything in some set of `sets`.
pub open spec fn union_of(sets: Seq<Set<Seq<char>>>) -> Set<Seq<char>> {
    Set::new(|x: Seq<char>| exists|o: int| 0 <= o < sets.len() && sets[o].contains(x))
}

/// The modules whose layers `op` stacks: for each layer, the identifier
/// that `extract_module_id` finds on disk, if any; sorted, each once.
pub fn collect_involved_modules(op: &OverlayOperation) -> (r: Vec<String>)
    ensures
        strictly_sorted(string_views(r@)),
        op_outcome(*op, string_views(r@).to_set()),
        forall|id: Seq<char>| string_views(r@).contains(id) ==> layer_module(*op, id),
{
    let mut found: Vec<String> = Vec::new();
    let ghost mut ids: Seq<Option<Seq<char>>> = Seq::empty();
    let mut i: usize = 0;
    while i < op.lowerdirs.len()
        invariant
            i <= op.lowerdirs@.len(),
            ids.len() == i,
            forall|j: int|
                0 <= j < i ==> possible_module_id(op.lowerdirs@[j]@, #[trigger] ids[j]),
            string_views(found@).to_set() == some_values(ids),
            forall|id: Seq<char>| string_views(found@).contains(id) ==> layer_module(*op, id),
        decreases op.lowerdirs@.len() - i,
    {
        let r = extract_module_id(op.lowerdirs[i].as_str());
        let ghost before = found@;
        let ghost ids0 = ids;
        proof {
            ids = ids.push(opt_view(r));
        }
        match r {
            Some(id) => {
                assert(string_views(before).len() == before.len());
                found.push(id);
                assert forall|x: Seq<char>| string_views(found@).contains(x) implies layer_module(
                    *op,
                    x,
                ) by {
                    let j = choose|j: int| 0 <= j < string_views(found@).len() && string_views(found@)[j] == x;
                    if j < before.len() {
                        assert(string_views(before)[j] == x);
                    } else {
                        let k = choose|k: int|
                            0 <= k < ancestor_count(path_parts(op.lowerdirs@[i as int]@).len())
                                && ancestor_name(path_parts(op.lowerdirs@[i as int]@), k) == Some(
                                x,
                            );
                        assert(ancestor_name(path_parts(op.lowerdirs@[i as int]@), k) == Some(x));
                    }
                }
            },
            None => {},
        }
        proof {
            assert(string_views(found@).to_set() =~= some_values(ids)) by {
                assert forall|x: Seq<char>| string_views(found@).to_set().contains(x)
                    == some_values(ids).contains(x) by {
                    let fv = string_views(found@);
                    let bv = string_views(before);
                    if fv.contains(x) {
                        let m = choose|m: int| 0 <= m < fv.len() && fv[m] == x;
                        if m < bv.len() {
                            assert(bv[m] == x);
                            assert(bv.to_set().contains(x));
                            let j = choose|j: int| 0 <= j < ids0.len() && ids0[j] == Some(x);
                            assert(ids[j] == Some(x));
                        } else {
                            assert(ids[i as int] == Some(x));
                        }
                    }
                    if some_values(ids).contains(x) {
                        let j = choose|j: int| 0 <= j < ids.len() && ids[j] == Some(x);
                        if j < i {
                            assert(ids0[j] == Some(x));
                            assert(some_values(ids0).contains(x));
                            assert(bv.contains(x));
                            let m = choose|m: int| 0 <= m < bv.len() && bv[m] == x;
                            assert(fv[m] == x);
                        } else {
                            assert(fv[bv.len() as int] == x);
                        }
                    }
                }
            }
        }
        i = i + 1;
    }
    let r = sorted_unique(found);
    proof {
        assert(possible_module_ids(string_views(op.lowerdirs@), ids)) by {
            assert forall|j: int| 0 <= j < ids.len() implies possible_module_id(
                string_views(op.lowerdirs@)[j],
                #[trigger] ids[j],
            ) by {
                assert(string_views(op.lowerdirs@)[j] == op.lowerdirs@[j]@);
            }
        }
    }
    assert forall|id: Seq<char>| string_views(r@).contains(id) implies layer_module(*op, id) by {
        assert(string_views(r@).to_set().contains(id));
    }
    r
}

/// The modules of all overlay operations of `plan` (each found as
/// `collect_involved_modules` finds them), sorted, each once.
pub fn collect_overlay_modules_for_magic_fallback(plan: &MountPlan) -> (r: Vec<String>)
    ensures
        strictly_sorted(string_views(r@)),
        exists|sets: Seq<Set<Seq<char>>>|
            sets.len() == plan.overlay_ops@.len() && (forall|o: int|
                0 <= o < sets.len() ==> op_outcome(plan.overlay_ops@[o], #[trigger] sets[o]))
                && string_views(r@).to_set() == union_of(sets),
        forall|id: Seq<char>|
            string_views(r@).contains(id) ==> exists|o: int|
                0 <= o < plan.overlay_ops@.len() && layer_module(#[trigger] plan.overlay_ops@[o], id),
{
    let mut ids: Vec<String> = Vec::new();
    let ghost mut sets: Seq<Set<Seq<char>>> = Seq::empty();
    let mut o: usize = 0;
    assert(string_views(ids@).to_set() =~= union_of(sets));
    while o < plan.overlay_ops.len()
        invariant
            o <= plan.overlay_ops@.len(),
            sets.len() == o,
            forall|p: int| 0 <= p < o ==> op_outcome(plan.overlay_ops@[p], #[trigger] sets[p]),
            string_views(ids@).to_set() == union_of(sets),
            strictly_sorted(string_views(ids@)),
            forall|id: Seq<char>|
                string_views(ids@).to_set().contains(id) ==> exists|p: int|
                    0 <= p < o && layer_module(#[trigger] plan.overlay_ops@[p], id),
        decreases plan.overlay_ops@.len() - o,
    {
        let more = collect_involved_modules(&plan.overlay_ops[o]);
        let ghost before = string_views(ids@).to_set();
        let ghost sets0 = sets;
        proof {
            sets = sets.push(string_views(more@).to_set());
        }
        insert_all(&mut ids, &more);
        assert forall|id: Seq<char>| string_views(ids@).to_set().contains(id) implies exists|p: int|
            0 <= p < o + 1 && layer_module(#[trigger] plan.overlay_ops@[p], id) by {
            if before.contains(id) {
                let p = choose|p: int| 0 <= p < o && layer_module(plan.overlay_ops@[p], id);
                assert(layer_module(plan.overlay_ops@[p], id));
            } else {
                assert(string_views(more@).to_set().contains(id));
                assert(string_views(more@).contains(id));
                assert(layer_module(plan.overlay_ops@[o as int], id));
            }
        }
        assert(string_views(ids@).to_set() =~= union_of(sets)) by {
            assert forall|x: Seq<char>| string_views(ids@).to_set().contains(x)
                == union_of(sets).contains(x) by {
                if before.contains(x) {
                    assert(union_of(sets0).contains(x));
                    let p = choose|p: int| 0 <= p < sets0.len() && sets0[p].contains(x);
                    assert(sets[p].contains(x));
                    assert(union_of(sets).contains(x));
                } else if string_views(more@).to_set().contains(x) {
                    assert(sets[o as int].contains(x));
                    assert(union_of(sets).contains(x));
                }
                if union_of(sets).contains(x) {
                    let p = choose|p: int| 0 <= p < sets.len() && sets[p].contains(x);
                    if p < o {
                        assert(sets0[p].contains(x));
                        assert(union_of(sets0).contains(x));
                        assert(before.contains(x));
                    } else {
                        assert(string_views(more@).to_set().contains(x));
                    }
                }
            }
        }
        assert forall|p: int| 0 <= p < o + 1 implies op_outcome(plan.overlay_ops@[p], #[trigger] sets[p]) by {
            if p < o {
                assert(sets[p] == sets0[p]);
            }
        }
        o = o + 1;
    }
    assert forall|id: Seq<char>| string_views(ids@).contains(id) implies exists|o: int|
        0 <= o < plan.overlay_ops@.len() && layer_module(#[trigger] plan.overlay_ops@[o], id) by {
        assert(string_views(ids@).to_set().contains(id));
    }
    ids
}

/// The modules a magic-mount failure concerns: those it named, or else all
/// that were to be mounted.
pub fn resolve_magic_failure_modules(reported: &Vec<String>, need: &Vec<String>) -> (r: Vec<String>)
    ensures
        reported@.len() > 0 ==> string_views(r@) == string_views(reported@),
        reported@.len() == 0 ==> string_views(r@) == string_views(need@),
{
    if reported.len() > 0 {
        copy_strings(reported)
    } else {
        copy_strings(need)
    }
}

pub open spec fn overlay_failure_text(target: Seq<char>, message: Seq<char>) -> Seq<char> {
    "Overlay mount failed for "@ + target + ": "@ + message
}

pub open spec fn magic_failure_text(ids: Seq<Seq<char>>, message: Seq<char>) -> Seq<char> {
    "Failed to mount Magic Mount modules ["@ + join_with(ids, ", "@) + "]: "@ + message
}

pub open spec fn kasumi_failure_text(message: Seq<char>) -> Seq<char> {
    "Failed to apply Kasumi late rules: "@ + message
}

pub open spec fn kasumi_lost_text() -> Seq<char> {
    "Kasumi became unavailable before execution"@
}

pub open spec fn overlay_pending_text() -> Seq<char> {
    "[executor] overlayfs unsupported and overlay operations are pending"@
}

pub open spec fn no_fallback_text() -> Seq<char> {
    "[executor] overlayfs unsupported and no modules could be inferred for magic fallback"@
}

impl ExecutionResult {
    /// The result of an execution that ended in `exec`'s state, for `plan`.
    pub open spec fn describes(
        &self,
        exec: &Executor,
        plan: &MountPlan,
        runtime_enabled: bool,
    ) -> bool {
        &&& string_views(self.overlay_module_ids@) == exec.overlay_seq()
        &&& string_views(self.overlay_partitions@) == exec.partition_seq()
        &&& string_views(self.magic_module_ids@) == exec.magic_seq()
        &&& self.kasumi_module_ids@ == plan.kasumi_module_ids@
        &&& self.kasumi_runtime_enabled == runtime_enabled
        &&& self.mount_stats == exec.stats()
    }
}

impl Executor {
    pub closed spec fn phase(&self) -> ExecPhase {
        self.phase
    }

    pub closed spec fn next_op(&self) -> nat {
        self.next_op as nat
    }

    /// The modules headed for magic mounting, in increasing order.
    pub closed spec fn magic_seq(&self) -> Seq<Seq<char>> {
        string_views(self.magic_ids@)
    }

    /// The modules mounted through overlayfs, in increasing order.
    pub closed spec fn overlay_seq(&self) -> Seq<Seq<char>> {
        string_views(self.overlay_ids@)
    }

    /// The partitions that received an overlay, in increasing order.
    pub closed spec fn partition_seq(&self) -> Seq<Seq<char>> {
        string_views(self.overlay_partitions@)
    }

    pub closed spec fn stats(&self) -> MountStatistics {
        self.mount_stats
    }

    pub closed spec fn fallback_allowed(&self) -> bool {
        self.fallback_allowed
    }

    pub closed spec fn kasumi_enabled(&self) -> bool {
        self.kasumi_enabled
    }

    /// The id lists are kept sorted, each id once.
    pub closed spec fn wf(&self) -> bool {
        &&& strictly_sorted(string_views(self.magic_ids@))
        &&& strictly_sorted(string_views(self.overlay_ids@))
        &&& strictly_sorted(string_views(self.overlay_partitions@))
    }

    /// Everything of the state but the phase and the operation index stays.
    pub open spec fn same_sets(&self, other: &Executor) -> bool {
        &&& self.magic_seq() == other.magic_seq()
        &&& self.overlay_seq() == other.overlay_seq()
        &&& self.partition_seq() == other.partition_seq()
        &&& self.stats() == other.stats()
    }

    pub open spec fn same_config(&self, other: &Executor) -> bool {
        &&& self.fallback_allowed() == other.fallback_allowed()
        &&& self.kasumi_enabled() == other.kasumi_enabled()
    }

    /// A new execution for `config`: overlay failures fall back to magic
    /// mounting when it allows that, and Kasumi rules are applied when
    /// Kasumi is enabled.
    pub fn new(config: &Config) -> (e: Self)
        ensures
            e.wf(),
            e.phase() == ExecPhase::Start,
            e.magic_seq().len() == 0,
            e.overlay_seq().len() == 0,
            e.partition_seq().len() == 0,
            e.stats() == MountStatistics::zero(),
            e.fallback_allowed() == config.enable_overlay_fallback,
            e.kasumi_enabled() == config.kasumi.enabled,
    {
        Executor {
            phase: ExecPhase::Start,
            next_op: 0,
            magic_ids: Vec::new(),
            overlay_ids: Vec::new(),
            overlay_partitions: Vec::new(),
            mount_stats: MountStatistics::default(),
            fallback_allowed: config.enable_overlay_fallback,
            kasumi_enabled: config.kasumi.enabled,
        }
    }

    pub fn phase_of(&self) -> (p: ExecPhase)
        ensures
            p == self.phase(),
    {
        self.phase
    }

    /// After Kasumi: finish, or apply the Kasumi runtime when it is enabled.
    pub open spec fn leads_to_kasumi(&self, plan: &MountPlan, a: ExecAction) -> bool {
        if self.kasumi_enabled() {
            a is ApplyKasumi && self.phase() == ExecPhase::Kasumi
        } else {
            &&& self.phase() == ExecPhase::Done
            &&& a matches ExecAction::Finished(r) && r.describes(self, plan, false)
        }
    }

    /// After the overlays: magic-mount the modules headed there, if any.
    pub open spec fn leads_to_magic(&self, plan: &MountPlan, a: ExecAction) -> bool {
        if self.magic_seq().len() > 0 {
            &&& self.phase() == ExecPhase::Magic
            &&& a matches ExecAction::MountMagic(list) && string_views(list@) == self.magic_seq()
        } else {
            self.leads_to_kasumi(plan, a)
        }
    }

    fn result(&self, plan: &MountPlan, runtime_enabled: bool) -> (r: ExecutionResult)
        ensures
            r.describes(self, plan, runtime_enabled),
    {
        ExecutionResult {
            overlay_module_ids: copy_strings(&self.overlay_ids),
            overlay_partitions: copy_strings(&self.overlay_partitions),
            magic_module_ids: copy_strings(&self.magic_ids),
            kasumi_module_ids: plan.kasumi_module_ids.clone(),
            kasumi_runtime_enabled: runtime_enabled,
            mount_stats: self.mount_stats,
        }
    }

    fn enter_kasumi(&mut self, plan: &MountPlan) -> (a: ExecAction)
        requires
            old(self).wf(),
        ensures
            final(self).wf(),
            final(self).same_sets(old(self)),
            final(self).same_config(old(self)),
            final(self).next_op() == old(self).next_op(),
            final(self).leads_to_kasumi(plan, a),
    {
        if self.kasumi_enabled {
            self.phase = ExecPhase::Kasumi;
            ExecAction::ApplyKasumi
        } else {
            self.phase = ExecPhase::Done;
            let r = self.result(plan, false);
            ExecAction::Finished(r)
        }
    }

    fn enter_magic(&mut self, plan: &mut MountPlan) -> (a: ExecAction)
        requires
            old(self).wf(),
        ensures
            final(self).wf(),
            final(self).same_sets(old(self)),
            final(self).same_config(old(self)),
            final(self).next_op() == old(self).next_op(),
            final(self).leads_to_magic(final(plan), a),
            plan_rules_cleared(old(plan), final(plan)),
    {
        plan.clear_kasumi_rules();
        if self.magic_ids.len() > 0 {
            self.phase = ExecPhase::Magic;
            ExecAction::MountMagic(copy_strings(&self.magic_ids))
        } else {
            self.enter_kasumi(plan)
        }
    }

    /// The counters can take what `event` adds to them.
    pub open spec fn has_room(&self, event: ExecEvent) -> bool {
        match event {
            ExecEvent::OverlayMounted { .. } => self.stats().can_record_success()
                && self.stats().overlayfs_mounts < usize::MAX,
            ExecEvent::OverlayFailed { .. } => self.stats().total_mounts < usize::MAX
                && self.stats().failed_mounts < usize::MAX,
            ExecEvent::MagicMounted { mounted, stats } => MountStatistics::can_merge(
                self.stats(),
                stats,
            ),
            _ => true,
        }
    }

    /// Whether `event` is one that the current phase waits for.
    pub open spec fn spec_accepts(&self, plan: &MountPlan, event: ExecEvent) -> bool {
        &&& self.has_room(event)
        &&& match self.phase() {
            ExecPhase::Start => event is Started,
            ExecPhase::Overlay => (event is OverlayMounted || event is OverlayFailed)
                && self.next_op() < plan.overlay_ops@.len(),
            ExecPhase::Magic => event is MagicMounted || event is MagicFailed,
            ExecPhase::Kasumi => event is KasumiApplied || event is KasumiFailed,
            ExecPhase::Done => false,
        }
    }

    pub fn accepts(&self, plan: &MountPlan, event: &ExecEvent) -> (b: bool)
        ensures
            b == self.spec_accepts(plan, *event),
    {
        let room = match event {
            ExecEvent::OverlayMounted { .. } => self.mount_stats.total_mounts < usize::MAX
                && self.mount_stats.successful_mounts < usize::MAX
                && self.mount_stats.overlayfs_mounts < usize::MAX,
            ExecEvent::OverlayFailed { .. } => self.mount_stats.total_mounts < usize::MAX
                && self.mount_stats.failed_mounts < usize::MAX,
            ExecEvent::MagicMounted { mounted, stats } => {
                let a = self.mount_stats;
                a.total_mounts <= usize::MAX - stats.total_mounts && a.successful_mounts
                    <= usize::MAX - stats.successful_mounts && a.failed_mounts <= usize::MAX
                    - stats.failed_mounts && a.tmpfs_created <= usize::MAX - stats.tmpfs_created
                    && a.files_mounted <= usize::MAX - stats.files_mounted && a.dirs_mounted
                    <= usize::MAX - stats.dirs_mounted && a.symlinks_created <= usize::MAX
                    - stats.symlinks_created && a.overlayfs_mounts <= usize::MAX
                    - stats.overlayfs_mounts && a.ignored_entries <= usize::MAX
                    - stats.ignored_entries
            },
            _ => true,
        };
        let fits = match self.phase {
            ExecPhase::Start => match event {
                ExecEvent::Started { .. } => true,
                _ => false,
            },
            ExecPhase::Overlay => match event {
                ExecEvent::OverlayMounted { .. } => self.next_op < plan.overlay_ops.len(),
                ExecEvent::OverlayFailed { .. } => self.next_op < plan.overlay_ops.len(),
                _ => false,
            },
            ExecPhase::Magic => match event {
                ExecEvent::MagicMounted { .. } => true,
                ExecEvent::MagicFailed { .. } => true,
                _ => false,
            },
            ExecPhase::Kasumi => match event {
                ExecEvent::KasumiApplied { .. } => true,
                ExecEvent::KasumiFailed { .. } => true,
                _ => false,
            },
            ExecPhase::Done => false,
        };
        room && fits
    }
}

/// The counters after one successful overlay mount.
pub open spec fn stats_after_overlay(s: MountStatistics) -> MountStatistics {
    MountStatistics {
        total_mounts: (s.total_mounts + 1) as usize,
        successful_mounts: (s.successful_mounts + 1) as usize,
        overlayfs_mounts: (s.overlayfs_mounts + 1) as usize,
        ..s
    }
}

/// The counters after one failed mount.
pub open spec fn stats_after_failure(s: MountStatistics) -> MountStatistics {
    MountStatistics {
        total_mounts: (s.total_mounts + 1) as usize,
        failed_mounts: (s.failed_mounts + 1) as usize,
        ..s
    }
}

/// `after` holds what `before` holds.
pub open spec fn plan_kept(before: &MountPlan, after: &MountPlan) -> bool {
    &&& after.kasumi_add_rules@ == before.kasumi_add_rules@
    &&& after.kasumi_merge_rules@ == before.kasumi_merge_rules@
    &&& after.kasumi_hide_rules@ == before.kasumi_hide_rules@
    &&& after.overlay_ops@ == before.overlay_ops@
    &&& after.overlay_module_ids@ == before.overlay_module_ids@
    &&& after.magic_module_ids@ == before.magic_module_ids@
    &&& after.kasumi_module_ids@ == before.kasumi_module_ids@
}

/// A failure at the execute stage of the modules `ids`, for `text`.
pub open spec fn execute_failure(a: ExecAction, ids: Seq<Seq<char>>, text: Seq<char>) -> bool {
    a matches ExecAction::Failed(f) && f.stage == FailureStage::Execute && string_views(
        f.module_ids@,
    ) == ids && f.source@ == text
}

impl Executor {
    /// After the current overlay operation: the next one, or else what
    /// follows the overlays.
    pub open spec fn moves_past_op(
        &self,
        pre: &Executor,
        plan_pre: &MountPlan,
        plan_post: &MountPlan,
        a: ExecAction,
    ) -> bool {
        if pre.next_op() + 1 < plan_pre.overlay_ops@.len() {
            &&& self.phase() == ExecPhase::Overlay
            &&& self.next_op() == pre.next_op() + 1
            &&& a matches ExecAction::MountOverlay(i) && i == pre.next_op() + 1
            &&& plan_kept(plan_pre, plan_post)
        } else {
            &&& self.leads_to_magic(plan_post, a)
            &&& plan_rules_cleared(plan_pre, plan_post)
        }
    }

    /// The execution stops with nothing else changed.
    pub open spec fn stops(&self, pre: &Executor, plan_pre: &MountPlan, plan_post: &MountPlan) -> bool {
        &&& self.phase() == ExecPhase::Done
        &&& self.same_sets(pre)
        &&& plan_kept(plan_pre, plan_post)
    }

    /// What `Started` does. Kasumi counts as available only when the
    /// configuration enables it and the event reports it usable; planned
    /// Kasumi modules fail the execution otherwise.
    pub open spec fn on_started(
        &self,
        pre: &Executor,
        plan_pre: &MountPlan,
        plan_post: &MountPlan,
        kasumi_available: bool,
        overlay_supported: bool,
        candidates: Seq<Seq<char>>,
        a: ExecAction,
    ) -> bool {
        let magic0 = string_views(plan_pre.magic_module_ids@).to_set();
        let ops = plan_pre.overlay_ops@.len();
        &&& self.overlay_seq() == pre.overlay_seq()
        &&& self.partition_seq() == pre.partition_seq()
        &&& self.stats() == pre.stats()
        &&& if !(kasumi_available && pre.kasumi_enabled()) && plan_pre.kasumi_module_ids@.len() > 0 {
            &&& self.phase() == ExecPhase::Done
            &&& self.magic_seq().to_set() == magic0
            &&& plan_kept(plan_pre, plan_post)
            &&& execute_failure(a, string_views(plan_pre.kasumi_module_ids@), kasumi_lost_text())
        } else if overlay_supported && ops > 0 {
            &&& self.phase() == ExecPhase::Overlay
            &&& self.next_op() == 0
            &&& self.magic_seq().to_set() == magic0
            &&& a matches ExecAction::MountOverlay(i) && i == 0
            &&& plan_kept(plan_pre, plan_post)
        } else if overlay_supported || ops == 0 {
            &&& self.magic_seq().to_set() == magic0
            &&& self.leads_to_magic(plan_post, a)
            &&& plan_rules_cleared(plan_pre, plan_post)
        } else if !pre.fallback_allowed() {
            &&& self.phase() == ExecPhase::Done
            &&& self.magic_seq().to_set() == magic0
            &&& a matches ExecAction::Aborted(m) && m@ == overlay_pending_text()
            &&& plan_kept(plan_pre, plan_post)
        } else if candidates.len() == 0 {
            &&& self.phase() == ExecPhase::Done
            &&& self.magic_seq().to_set() == magic0
            &&& a matches ExecAction::Aborted(m) && m@ == no_fallback_text()
            &&& plan_kept(plan_pre, plan_post)
        } else {
            &&& self.magic_seq().to_set() == magic0 + candidates.to_set()
            &&& self.leads_to_magic(plan_post, a)
            &&& plan_rules_cleared(plan_pre, plan_post)
        }
    }

    /// What `OverlayMounted` does.
    pub open spec fn on_overlay_mounted(
        &self,
        pre: &Executor,
        plan_pre: &MountPlan,
        plan_post: &MountPlan,
        involved: Seq<Seq<char>>,
        a: ExecAction,
    ) -> bool {
        let op = plan_pre.overlay_ops@[pre.next_op() as int];
        &&& self.partition_seq().to_set() == pre.partition_seq().to_set().insert(
            op.partition_name@,
        )
        &&& self.overlay_seq().to_set() == pre.overlay_seq().to_set() + involved.to_set()
        &&& self.magic_seq() == pre.magic_seq()
        &&& self.stats() == stats_after_overlay(pre.stats())
        &&& self.moves_past_op(pre, plan_pre, plan_post, a)
    }

    /// What `OverlayFailed` does: a symbolic-link loop with known modules
    /// sends them to magic mounting when fallback is allowed; any other
    /// failure ends the execution.
    pub open spec fn on_overlay_failed(
        &self,
        pre: &Executor,
        plan_pre: &MountPlan,
        plan_post: &MountPlan,
        involved: Seq<Seq<char>>,
        symlink_loop: bool,
        message: Seq<char>,
        a: ExecAction,
    ) -> bool {
        let op = plan_pre.overlay_ops@[pre.next_op() as int];
        if symlink_loop && pre.fallback_allowed() && involved.len() > 0 {
            &&& self.magic_seq().to_set() == pre.magic_seq().to_set() + involved.to_set()
            &&& self.overlay_seq() == pre.overlay_seq()
            &&& self.partition_seq() == pre.partition_seq()
            &&& self.stats() == stats_after_failure(pre.stats())
            &&& self.moves_past_op(pre, plan_pre, plan_post, a)
        } else {
            &&& self.stops(pre, plan_pre, plan_post)
            &&& execute_failure(a, involved, overlay_failure_text(op.target@, message))
        }
    }

    /// What `MagicMounted` does.
    pub open spec fn on_magic_mounted(
        &self,
        pre: &Executor,
        plan_pre: &MountPlan,
        plan_post: &MountPlan,
        mounted: Seq<Seq<char>>,
        stats: MountStatistics,
        a: ExecAction,
    ) -> bool {
        &&& self.magic_seq().to_set() == pre.magic_seq().to_set().intersect(mounted.to_set())
        &&& self.overlay_seq() == pre.overlay_seq()
        &&& self.partition_seq() == pre.partition_seq()
        &&& self.stats() == MountStatistics::sum(pre.stats(), stats)
        &&& plan_kept(plan_pre, plan_post)
        &&& self.leads_to_kasumi(plan_post, a)
    }

    /// Moves the execution on by one event and says what to do next.
    pub fn execute(&mut self, plan: &mut MountPlan, event: ExecEvent) -> (a: ExecAction)
        requires
            old(self).wf(),
            old(self).spec_accepts(old(plan), event),
        ensures
            final(self).wf(),
            final(self).same_config(old(self)),
            event matches ExecEvent::Started { kasumi_available, overlay_supported, fallback_candidates }
                ==> final(self).on_started(
                old(self),
                old(plan),
                final(plan),
                kasumi_available,
                overlay_supported,
                string_views(fallback_candidates@),
                a,
            ),
            event matches ExecEvent::OverlayMounted { involved } ==> final(self).on_overlay_mounted(
                old(self),
                old(plan),
                final(plan),
                string_views(involved@),
                a,
            ),
            event matches ExecEvent::OverlayFailed { involved, symlink_loop, message }
                ==> final(self).on_overlay_failed(
                old(self),
                old(plan),
                final(plan),
                string_views(involved@),
                symlink_loop,
                message@,
                a,
            ),
            event matches ExecEvent::MagicMounted { mounted, stats } ==> final(self).on_magic_mounted(
                old(self),
                old(plan),
                final(plan),
                string_views(mounted@),
                stats,
                a,
            ),
            event matches ExecEvent::MagicFailed { reported, message } ==> {
                let ids = if reported@.len() > 0 {
                    string_views(reported@)
                } else {
                    old(self).magic_seq()
                };
                &&& final(self).stops(old(self), old(plan), final(plan))
                &&& execute_failure(a, ids, magic_failure_text(ids, message@))
            },
            event matches ExecEvent::KasumiApplied { runtime_enabled } ==> {
                &&& final(self).stops(old(self), old(plan), final(plan))
                &&& a matches ExecAction::Finished(r) && r.describes(
                    final(self),
                    final(plan),
                    runtime_enabled,
                )
            },
            event matches ExecEvent::KasumiFailed { message } ==> {
                &&& final(self).stops(old(self), old(plan), final(plan))
                &&& execute_failure(
                    a,
                    string_views(old(plan).kasumi_module_ids@),
                    kasumi_failure_text(message@),
                )
            },
    {
        match event {
            ExecEvent::Started { kasumi_available, overlay_supported, fallback_candidates } => {
                self.magic_ids = sorted_unique(copy_strings(&plan.magic_module_ids));
                if !(kasumi_available && self.kasumi_enabled) && plan.kasumi_module_ids.len() > 0 {
                    self.phase = ExecPhase::Done;
                    let f = ModuleStageFailure::new(
                        FailureStage::Execute,
                        copy_strings(&plan.kasumi_module_ids),
                        "Kasumi became unavailable before execution".to_owned(),
                    );
                    return ExecAction::Failed(f);
                }
                if overlay_supported && plan.overlay_ops.len() > 0 {
                    self.phase = ExecPhase::Overlay;
                    self.next_op = 0;
                    return ExecAction::MountOverlay(0);
                }
                if overlay_supported || plan.overlay_ops.len() == 0 {
                    return self.enter_magic(plan);
                }
                if !self.fallback_allowed {
                    self.phase = ExecPhase::Done;
                    return ExecAction::Aborted(
                        "[executor] overlayfs unsupported and overlay operations are pending".to_owned(),
                    );
                }
                if fallback_candidates.len() == 0 {
                    self.phase = ExecPhase::Done;
                    return ExecAction::Aborted(
                        "[executor] overlayfs unsupported and no modules could be inferred for magic fallback".to_owned(),
                    );
                }
                insert_all(&mut self.magic_ids, &fallback_candidates);
                self.enter_magic(plan)
            },
            ExecEvent::OverlayMounted { involved } => {
                let mut one: Vec<String> = Vec::new();
                one.push(plan.overlay_ops[self.next_op].partition_name.clone());
                proof {
                    let x = plan.overlay_ops@[self.next_op as int].partition_name@;
                    assert(string_views(one@) =~= seq![x]);
                    assert(string_views(one@)[0] == x);
                    assert(string_views(one@).to_set() =~= set![x]);
                }
                let ghost pre_parts = string_views(self.overlay_partitions@).to_set();
                insert_all(&mut self.overlay_partitions, &one);
                assert(string_views(self.overlay_partitions@).to_set() =~= pre_parts.insert(
                    plan.overlay_ops@[self.next_op as int].partition_name@,
                ));
                insert_all(&mut self.overlay_ids, &involved);
                self.mount_stats.record_overlay_mount();
                self.after_op(plan)
            },
            ExecEvent::OverlayFailed { involved, symlink_loop, message } => {
                if symlink_loop && self.fallback_allowed && involved.len() > 0 {
                    self.mount_stats.record_failed();
                    insert_all(&mut self.magic_ids, &involved);
                    self.after_op(plan)
                } else {
                    self.phase = ExecPhase::Done;
                    let mut v: Vec<char> = Vec::new();
                    append_str(&mut v, "Overlay mount failed for ");
                    append_str(&mut v, plan.overlay_ops[self.next_op].target.as_str());
                    append_str(&mut v, ": ");
                    append_str(&mut v, message.as_str());
                    let f = ModuleStageFailure::new(
                        FailureStage::Execute,
                        copy_strings(&involved),
                        string_from_chars(&v),
                    );
                    ExecAction::Failed(f)
                }
            },
            ExecEvent::MagicMounted { mounted, stats } => {
                self.mount_stats.merge(&stats);
                retain_in(&mut self.magic_ids, &mounted);
                self.enter_kasumi(plan)
            },
            ExecEvent::MagicFailed { reported, message } => {
                let ids = resolve_magic_failure_modules(&reported, &self.magic_ids);
                self.phase = ExecPhase::Done;
                let mut v: Vec<char> = Vec::new();
                append_str(&mut v, "Failed to mount Magic Mount modules [");
                let joined = join_strings(&ids, ", ");
                append_str(&mut v, joined.as_str());
                append_str(&mut v, "]: ");
                append_str(&mut v, message.as_str());
                ExecAction::Failed(ModuleStageFailure::new(FailureStage::Execute, ids, string_from_chars(&v)))
            },
            ExecEvent::KasumiApplied { runtime_enabled } => {
                self.phase = ExecPhase::Done;
                ExecAction::Finished(self.result(plan, runtime_enabled))
            },
            ExecEvent::KasumiFailed { message } => {
                self.phase = ExecPhase::Done;
                let mut v: Vec<char> = Vec::new();
                append_str(&mut v, "Failed to apply Kasumi late rules: ");
                append_str(&mut v, message.as_str());
                ExecAction::Failed(
                    ModuleStageFailure::new(
                        FailureStage::Execute,
                        copy_strings(&plan.kasumi_module_ids),
                        string_from_chars(&v),
                    ),
                )
            },
        }
    }

    fn after_op(&mut self, plan: &mut MountPlan) -> (a: ExecAction)
        requires
            old(self).wf(),
            old(self).next_op() < old(plan).overlay_ops@.len(),
        ensures
            final(self).wf(),
            final(self).same_sets(old(self)),
            final(self).same_config(old(self)),
            final(self).moves_past_op(old(self), old(plan), final(plan), a),
    {
        let n = plan.overlay_ops.len();
        assert(self.next_op < n);
        if self.next_op < n - 1 {
            self.next_op = self.next_op + 1;
            self.phase = ExecPhase::Overlay;
            ExecAction::MountOverlay(self.next_op)
        } else {
            self.enter_magic(plan)
        }
    }
}

/// `after` is `before` with its Kasumi rules dropped.
pub open spec fn plan_rules_cleared(before: &MountPlan, after: &MountPlan) -> bool {
    &&& after.kasumi_add_rules@.len() == 0
    &&& after.kasumi_merge_rules@.len() == 0
    &&& after.kasumi_hide_rules@.len() == 0
    &&& after.overlay_ops@ == before.overlay_ops@
    &&& after.overlay_module_ids@ == before.overlay_module_ids@
    &&& after.magic_module_ids@ == before.magic_module_ids@
    &&& after.kasumi_module_ids@ == before.kasumi_module_ids@
}

} // verus!
