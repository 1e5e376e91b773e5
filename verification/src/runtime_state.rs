//! Counters and summaries recorded while mounting, and the runtime state
//! derived from an execution.

use vstd::prelude::*;
use crate::order::{strictly_sorted, string_views, sorted_unique, contains_str, copy_strings,
    insert_all};
use crate::executor::ExecutionResult;
use crate::inventory::{ModuleDirEntry, spec_is_reserved_module_dir, is_reserved_module_dir, listing_has,
    dir_contains_entry_case_insensitive};
use crate::storage::StorageMode;
use crate::defs::SKIP_MOUNT_FILE_NAME;

verus! {

/// Counters kept while mounting. Each successful or failed mount counts
/// once in `total_mounts`; tmpfs creations and ignored entries are kept
/// apart.
#[derive(Debug, Clone, Copy, PartialEq, Eq, Structural)]
pub struct MountStatistics {
    pub total_mounts: usize,
    pub successful_mounts: usize,
    pub failed_mounts: usize,
    pub tmpfs_created: usize,
    pub files_mounted: usize,
    pub dirs_mounted: usize,
    pub symlinks_created: usize,
    pub overlayfs_mounts: usize,
    pub ignored_entries: usize,
}

impl Default for MountStatistics {
    fn default() -> (s: Self)
        ensures
            s == MountStatistics::zero(),
    {
        MountStatistics {
            total_mounts: 0,
            successful_mounts: 0,
            failed_mounts: 0,
            tmpfs_created: 0,
            files_mounted: 0,
            dirs_mounted: 0,
            symlinks_created: 0,
            overlayfs_mounts: 0,
            ignored_entries: 0,
        }
    }
}

impl MountStatistics {
    pub open spec fn zero() -> MountStatistics {
        MountStatistics {
            total_mounts: 0,
            successful_mounts: 0,
            failed_mounts: 0,
            tmpfs_created: 0,
            files_mounted: 0,
            dirs_mounted: 0,
            symlinks_created: 0,
            overlayfs_mounts: 0,
            ignored_entries: 0,
        }
    }

    /// Every mount counted in the total either succeeded or failed, and
    /// every success is a file, a directory, a symlink or an overlay.
    pub open spec fn consistent(&self) -> bool {
        &&& self.total_mounts == self.successful_mounts + self.failed_mounts
        &&& self.successful_mounts == self.files_mounted + self.dirs_mounted
            + self.symlinks_created + self.overlayfs_mounts
    }

    /// Room for one more successful mount.
    pub open spec fn can_record_success(&self) -> bool {
        &&& self.total_mounts < usize::MAX
        &&& self.successful_mounts < usize::MAX
    }

    pub fn record_file(&mut self)
        requires
            old(self).can_record_success(),
            old(self).files_mounted < usize::MAX,
        ensures
            *final(self) == (MountStatistics {
                total_mounts: (old(self).total_mounts + 1) as usize,
                successful_mounts: (old(self).successful_mounts + 1) as usize,
                files_mounted: (old(self).files_mounted + 1) as usize,
                ..*old(self)
            }),
            old(self).consistent() ==> final(self).consistent(),
    {
        self.total_mounts = self.total_mounts + 1;
        self.successful_mounts = self.successful_mounts + 1;
        self.files_mounted = self.files_mounted + 1;
    }

    pub fn record_dir(&mut self)
        requires
            old(self).can_record_success(),
            old(self).dirs_mounted < usize::MAX,
        ensures
            *final(self) == (MountStatistics {
                total_mounts: (old(self).total_mounts + 1) as usize,
                successful_mounts: (old(self).successful_mounts + 1) as usize,
                dirs_mounted: (old(self).dirs_mounted + 1) as usize,
                ..*old(self)
            }),
            old(self).consistent() ==> final(self).consistent(),
    {
        self.total_mounts = self.total_mounts + 1;
        self.successful_mounts = self.successful_mounts + 1;
        self.dirs_mounted = self.dirs_mounted + 1;
    }

    pub fn record_symlink(&mut self)
        requires
            old(self).can_record_success(),
            old(self).symlinks_created < usize::MAX,
        ensures
            *final(self) == (MountStatistics {
                total_mounts: (old(self).total_mounts + 1) as usize,
                successful_mounts: (old(self).successful_mounts + 1) as usize,
                symlinks_created: (old(self).symlinks_created + 1) as usize,
                ..*old(self)
            }),
            old(self).consistent() ==> final(self).consistent(),
    {
        self.total_mounts = self.total_mounts + 1;
        self.successful_mounts = self.successful_mounts + 1;
        self.symlinks_created = self.symlinks_created + 1;
    }

    pub fn record_failed(&mut self)
        requires
            old(self).total_mounts < usize::MAX,
            old(self).failed_mounts < usize::MAX,
        ensures
            *final(self) == (MountStatistics {
                total_mounts: (old(self).total_mounts + 1) as usize,
                failed_mounts: (old(self).failed_mounts + 1) as usize,
                ..*old(self)
            }),
            old(self).consistent() ==> final(self).consistent(),
    {
        self.total_mounts = self.total_mounts + 1;
        self.failed_mounts = self.failed_mounts + 1;
    }

    pub fn record_tmpfs(&mut self)
        requires
            old(self).tmpfs_created < usize::MAX,
        ensures
            *final(self) == (MountStatistics {
                tmpfs_created: (old(self).tmpfs_created + 1) as usize,
                ..*old(self)
            }),
            old(self).consistent() ==> final(self).consistent(),
    {
        self.tmpfs_created = self.tmpfs_created + 1;
    }

    pub fn record_overlay_mount(&mut self)
        requires
            old(self).can_record_success(),
            old(self).overlayfs_mounts < usize::MAX,
        ensures
            *final(self) == (MountStatistics {
                total_mounts: (old(self).total_mounts + 1) as usize,
                successful_mounts: (old(self).successful_mounts + 1) as usize,
                overlayfs_mounts: (old(self).overlayfs_mounts + 1) as usize,
                ..*old(self)
            }),
            old(self).consistent() ==> final(self).consistent(),
    {
        self.total_mounts = self.total_mounts + 1;
        self.successful_mounts = self.successful_mounts + 1;
        self.overlayfs_mounts = self.overlayfs_mounts + 1;
    }

    pub fn record_ignored(&mut self)
        requires
            old(self).ignored_entries < usize::MAX,
        ensures
            *final(self) == (MountStatistics {
                ignored_entries: (old(self).ignored_entries + 1) as usize,
                ..*old(self)
            }),
            old(self).consistent() ==> final(self).consistent(),
    {
        self.ignored_entries = self.ignored_entries + 1;
    }

    /// Every counter of `a` and `b` added fits in a `usize`.
    pub open spec fn can_merge(a: MountStatistics, b: MountStatistics) -> bool {
        &&& a.total_mounts + b.total_mounts <= usize::MAX
        &&& a.successful_mounts + b.successful_mounts <= usize::MAX
        &&& a.failed_mounts + b.failed_mounts <= usize::MAX
        &&& a.tmpfs_created + b.tmpfs_created <= usize::MAX
        &&& a.files_mounted + b.files_mounted <= usize::MAX
        &&& a.dirs_mounted + b.dirs_mounted <= usize::MAX
        &&& a.symlinks_created + b.symlinks_created <= usize::MAX
        &&& a.overlayfs_mounts + b.overlayfs_mounts <= usize::MAX
        &&& a.ignored_entries + b.ignored_entries <= usize::MAX
    }

    /// The counters of `a` and `b` added one by one.
    pub open spec fn sum(a: MountStatistics, b: MountStatistics) -> MountStatistics {
        MountStatistics {
            total_mounts: (a.total_mounts + b.total_mounts) as usize,
            successful_mounts: (a.successful_mounts + b.successful_mounts) as usize,
            failed_mounts: (a.failed_mounts + b.failed_mounts) as usize,
            tmpfs_created: (a.tmpfs_created + b.tmpfs_created) as usize,
            files_mounted: (a.files_mounted + b.files_mounted) as usize,
            dirs_mounted: (a.dirs_mounted + b.dirs_mounted) as usize,
            symlinks_created: (a.symlinks_created + b.symlinks_created) as usize,
            overlayfs_mounts: (a.overlayfs_mounts + b.overlayfs_mounts) as usize,
            ignored_entries: (a.ignored_entries + b.ignored_entries) as usize,
        }
    }

    /// Adds every counter of `other` to this one.
    pub fn merge(&mut self, other: &Self)
        requires
            MountStatistics::can_merge(*old(self), *other),
        ensures
            *final(self) == MountStatistics::sum(*old(self), *other),
    {
        self.total_mounts = self.total_mounts + other.total_mounts;
        self.successful_mounts = self.successful_mounts + other.successful_mounts;
        self.failed_mounts = self.failed_mounts + other.failed_mounts;
        self.tmpfs_created = self.tmpfs_created + other.tmpfs_created;
        self.files_mounted = self.files_mounted + other.files_mounted;
        self.dirs_mounted = self.dirs_mounted + other.dirs_mounted;
        self.symlinks_created = self.symlinks_created + other.symlinks_created;
        self.overlayfs_mounts = self.overlayfs_mounts + other.overlayfs_mounts;
        self.ignored_entries = self.ignored_entries + other.ignored_entries;
    }
}

/// Merging two consistent sets of counters gives consistent counters, and
/// merging is the same in either order; merging zero counters changes
/// nothing.
pub proof fn lemma_merge_laws(a: MountStatistics, b: MountStatistics)
    requires
        MountStatistics::can_merge(a, b),
    ensures
        a.consistent() && b.consistent() ==> MountStatistics::sum(a, b).consistent(),
        MountStatistics::can_merge(b, a),
        MountStatistics::sum(a, b) == MountStatistics::sum(b, a),
        MountStatistics::sum(a, MountStatistics::zero()) == a,
{
}

/// How many modules each backend mounted.
#[derive(Debug, Clone, Copy, PartialEq, Eq, Structural)]
pub struct ModuleModeStats {
    pub overlayfs: usize,
    pub magicmount: usize,
    pub kasumi: usize,
}

impl Default for ModuleModeStats {
    fn default() -> (s: Self)
        ensures
            s.overlayfs == 0 && s.magicmount == 0 && s.kasumi == 0,
    {
        ModuleModeStats { overlayfs: 0, magicmount: 0, kasumi: 0 }
    }
}

/// What is known of the Kasumi backend at run time.
#[derive(Debug, Clone)]
pub struct KasumiRuntimeInfo {
    pub status: String,
    pub available: bool,
    pub lkm_loaded: bool,
    pub lkm_autoload: bool,
    pub lkm_kmi_override: String,
    pub lkm_current_kmi: String,
    pub lkm_dir: String,
    pub protocol_version: Option<i32>,
    pub feature_bits: Option<i32>,
    pub feature_names: Vec<String>,
    pub hooks: Vec<String>,
    pub rule_count: usize,
    pub user_hide_rule_count: usize,
    pub mirror_path: String,
}

impl KasumiRuntimeInfo {
    pub open spec fn is_empty_spec(&self) -> bool {
        &&& self.status@ == Seq::<char>::empty()
        &&& !self.available
        &&& !self.lkm_loaded
        &&& !self.lkm_autoload
        &&& self.lkm_kmi_override@ == Seq::<char>::empty()
        &&& self.lkm_current_kmi@ == Seq::<char>::empty()
        &&& self.lkm_dir@ == Seq::<char>::empty()
        &&& self.protocol_version.is_none()
        &&& self.feature_bits.is_none()
        &&& self.feature_names@.len() == 0
        &&& self.hooks@.len() == 0
        &&& self.rule_count == 0
        &&& self.user_hide_rule_count == 0
        &&& self.mirror_path@ == Seq::<char>::empty()
    }
}

impl Default for KasumiRuntimeInfo {
    fn default() -> (k: Self)
        ensures
            k.is_empty_spec(),
    {
        KasumiRuntimeInfo {
            status: String::new(),
            available: false,
            lkm_loaded: false,
            lkm_autoload: false,
            lkm_kmi_override: String::new(),
            lkm_current_kmi: String::new(),
            lkm_dir: String::new(),
            protocol_version: None,
            feature_bits: None,
            feature_names: Vec::new(),
            hooks: Vec::new(),
            rule_count: 0,
            user_hide_rule_count: 0,
            mirror_path: String::new(),
        }
    }
}

/// What is known of the daemon at run time.
#[derive(Debug, Clone)]
pub struct DaemonRuntimeInfo {
    pub alive: bool,
    pub socket_path: String,
    pub last_refresh_ts: u64,
}

impl Default for DaemonRuntimeInfo {
    fn default() -> (d: Self)
        ensures
            !d.alive && d.socket_path@ == Seq::<char>::empty() && d.last_refresh_ts == 0,
    {
        DaemonRuntimeInfo { alive: false, socket_path: String::new(), last_refresh_ts: 0 }
    }
}


/// Keeps the strings not in `ids`.
pub open spec fn not_in(ids: Seq<Seq<char>>) -> spec_fn(Seq<char>) -> bool {
    |s: Seq<char>| !ids.contains(s)
}

pub open spec fn pair_view(p: (String, String)) -> (Seq<char>, Seq<char>) {
    let (k, v) = p;
    (k@, v@)
}

pub open spec fn pair_views(v: Seq<(String, String)>) -> Seq<(Seq<char>, Seq<char>)> {
    v.map_values(|p: (String, String)| pair_view(p))
}

/// Keeps the pairs whose key is not in `ids`.
pub open spec fn key_not_in(ids: Seq<Seq<char>>) -> spec_fn((Seq<char>, Seq<char>)) -> bool {
    |p: (Seq<char>, Seq<char>)| !ids.contains(p.0)
}

/// Drops from `v` the strings that occur in `ids`, keeping the order.
pub fn retain_not_in(v: &mut Vec<String>, ids: &Vec<String>)
    ensures
        string_views(final(v)@) == string_views(old(v)@).filter(not_in(string_views(ids@))),
{
    let ghost src = string_views(v@);
    let ghost keep = not_in(string_views(ids@));
    let mut out: Vec<String> = Vec::new();
    let mut i: usize = 0;
    assert(src.take(0) =~= Seq::<Seq<char>>::empty());
    assert(Seq::<Seq<char>>::empty().filter(keep) =~= Seq::<Seq<char>>::empty()) by {
        reveal(Seq::filter);
    }
    while i < v.len()
        invariant
            i <= v@.len(),
            src == string_views(v@),
            keep == not_in(string_views(ids@)),
            string_views(out@) == src.take(i as int).filter(keep),
        decreases v@.len() - i,
    {
        let found = contains_str(ids, v[i].as_str());
        proof {
            src.take(i as int).lemma_filter_push(src[i as int], keep);
            assert(src.take(i + 1) =~= src.take(i as int).push(src[i as int]));
        }
        if !found {
            let x = v[i].clone();
            let ghost before = out@;
            assert(string_views(before).len() == before.len());
            out.push(x);
            assert(string_views(out@) =~= string_views(before).push(src[i as int]));
        }
        i = i + 1;
    }
    assert(src.take(i as int) =~= src);
    *v = out;
}

/// Drops from `v` the pairs whose key occurs in `ids`, keeping the order.
pub fn retain_keys_not_in(v: &mut Vec<(String, String)>, ids: &Vec<String>)
    ensures
        pair_views(final(v)@) == pair_views(old(v)@).filter(key_not_in(string_views(ids@))),
{
    let ghost src = pair_views(v@);
    let ghost keep = key_not_in(string_views(ids@));
    let mut out: Vec<(String, String)> = Vec::new();
    let mut i: usize = 0;
    assert(src.take(0) =~= Seq::<(Seq<char>, Seq<char>)>::empty());
    assert(Seq::<(Seq<char>, Seq<char>)>::empty().filter(keep) =~= Seq::<
        (Seq<char>, Seq<char>),
    >::empty()) by {
        reveal(Seq::filter);
    }
    while i < v.len()
        invariant
            i <= v@.len(),
            src == pair_views(v@),
            keep == key_not_in(string_views(ids@)),
            pair_views(out@) == src.take(i as int).filter(keep),
        decreases v@.len() - i,
    {
        let key = v[i].0.clone();
        let value = v[i].1.clone();
        assert(pair_view(v@[i as int]) == (key@, value@));
        let found = contains_str(ids, key.as_str());
        proof {
            src.take(i as int).lemma_filter_push(src[i as int], keep);
            assert(src.take(i + 1) =~= src.take(i as int).push(src[i as int]));
        }
        if !found {
            let ghost before = out@;
            assert(pair_views(before).len() == before.len());
            out.push((key, value));
            assert(pair_views(out@) =~= pair_views(before).push(src[i as int]));
        }
        i = i + 1;
    }
    assert(src.take(i as int) =~= src);
    *v = out;
}

/// How many modules each backend mounted in `result`.
pub fn collect_mode_stats(result: &ExecutionResult) -> (s: ModuleModeStats)
    ensures
        s.overlayfs == result.overlay_module_ids@.len(),
        s.magicmount == result.magic_module_ids@.len(),
        s.kasumi == result.kasumi_module_ids@.len(),
{
    ModuleModeStats {
        overlayfs: result.overlay_module_ids.len(),
        magicmount: result.magic_module_ids.len(),
        kasumi: result.kasumi_module_ids.len(),
    }
}

/// The mounts to report as active: the overlaid partitions, and `"kasumi"`
/// when its runtime is enabled; sorted, each once.
pub open spec fn spec_active_mounts(result: ExecutionResult) -> Set<Seq<char>> {
    let parts = string_views(result.overlay_partitions@).to_set();
    if result.kasumi_runtime_enabled {
        parts.insert("kasumi"@)
    } else {
        parts
    }
}

pub fn collect_active_mounts(result: &ExecutionResult) -> (r: Vec<String>)
    ensures
        strictly_sorted(string_views(r@)),
        string_views(r@).to_set() == spec_active_mounts(*result),
{
    let mut all = copy_strings(&result.overlay_partitions);
    if result.kasumi_runtime_enabled {
        let ghost before = string_views(all@);
        assert(before.len() == all@.len());
        all.push("kasumi".to_owned());
        assert(string_views(all@) =~= before.push("kasumi"@));
        proof {
            before.lemma_push_to_set_commute("kasumi"@);
        }
    }
    sorted_unique(all)
}

/// The modules of the listing that asked not to be mounted: directories,
/// not reserved, holding a `skip_mount` entry (in any letter case).
pub open spec fn spec_skips_mount(e: ModuleDirEntry) -> bool {
    &&& e.is_dir
    &&& !spec_is_reserved_module_dir(e.name@)
    &&& listing_has(e.entries@, SKIP_MOUNT_FILE_NAME@)
}

pub fn collect_skip_mount_modules(entries: &Vec<ModuleDirEntry>) -> (r: Vec<String>)
    ensures
        strictly_sorted(string_views(r@)),
        forall|id: Seq<char>|
            string_views(r@).contains(id) <==> exists|i: int|
                0 <= i < entries@.len() && spec_skips_mount(#[trigger] entries@[i]) && entries@[i].name@
                    == id,
{
    let mut ids: Vec<String> = Vec::new();
    let mut i: usize = 0;
    while i < entries.len()
        invariant
            i <= entries@.len(),
            forall|id: Seq<char>|
                string_views(ids@).contains(id) <==> exists|j: int|
                    0 <= j < i && spec_skips_mount(#[trigger] entries@[j]) && entries@[j].name@ == id,
        decreases entries@.len() - i,
    {
        let e = &entries[i];
        if e.is_dir && !is_reserved_module_dir(e.name.as_str())
            && dir_contains_entry_case_insensitive(&e.entries, SKIP_MOUNT_FILE_NAME) {
            let ghost before = ids@;
            assert(string_views(before).len() == before.len());
            ids.push(e.name.clone());
            assert(string_views(ids@) =~= string_views(before).push(e.name@));
            assert forall|id: Seq<char>|
                string_views(ids@).contains(id) <==> exists|j: int|
                    0 <= j < i + 1 && spec_skips_mount(#[trigger] entries@[j]) && entries@[j].name@
                        == id by {
                if string_views(ids@).contains(id) {
                    if id != e.name@ {
                        let k = choose|k: int| 0 <= k < string_views(ids@).len() && string_views(ids@)[k] == id;
                        assert(string_views(before)[k] == id);
                        assert(string_views(before).contains(id));
                    } else {
                        assert(spec_skips_mount(entries@[i as int]));
                    }
                }
                if exists|j: int|
                    0 <= j < i + 1 && spec_skips_mount(#[trigger] entries@[j]) && entries@[j].name@
                        == id {
                    let j = choose|j: int|
                        0 <= j < i + 1 && spec_skips_mount(#[trigger] entries@[j]) && entries@[j].name@
                            == id;
                    if j == i {
                        assert(string_views(ids@)[before.len() as int] == id);
                    } else {
                        assert(string_views(before).contains(id));
                        let k = choose|k: int| 0 <= k < string_views(before).len() && string_views(before)[k] == id;
                        assert(string_views(ids@)[k] == id);
                    }
                }
            }
        } else {
            assert forall|id: Seq<char>|
                string_views(ids@).contains(id) <==> exists|j: int|
                    0 <= j < i + 1 && spec_skips_mount(#[trigger] entries@[j]) && entries@[j].name@
                        == id by {
                if exists|j: int|
                    0 <= j < i + 1 && spec_skips_mount(#[trigger] entries@[j]) && entries@[j].name@
                        == id {
                    let j = choose|j: int|
                        0 <= j < i + 1 && spec_skips_mount(#[trigger] entries@[j]) && entries@[j].name@
                            == id;
                    assert(j != i);
                }
            }
        }
        i = i + 1;
    }
    let r = sorted_unique(ids);
    assert forall|id: Seq<char>| string_views(r@).contains(id) <==> string_views(ids@).contains(id) by {
        assert(string_views(r@).to_set().contains(id) == string_views(r@).contains(id));
        assert(string_views(ids@).to_set().contains(id) == string_views(ids@).contains(id));
    }
    r
}


/// What a mount run leaves for the daemon and the user interface.
#[derive(Debug, Clone)]
pub struct RuntimeState {
    pub timestamp: u64,
    pub pid: u32,
    pub storage_mode: String,
    pub mount_point: String,
    pub overlay_modules: Vec<String>,
    pub magic_modules: Vec<String>,
    pub kasumi_modules: Vec<String>,
    pub mount_error_modules: Vec<String>,
    /// Per module, why its mount failed; keys in increasing order.
    pub mount_error_reasons: Vec<(String, String)>,
    pub skip_mount_modules: Vec<String>,
    /// Modules that the runtime reports as blacklisted.
    pub blacklisted_modules: Vec<String>,
    pub active_mounts: Vec<String>,
    pub tmpfs_xattr_supported: bool,
    pub mount_stats: MountStatistics,
    pub mode_stats: ModuleModeStats,
    pub kasumi: KasumiRuntimeInfo,
    pub daemon: DaemonRuntimeInfo,
}

impl RuntimeState {
    /// The modules mounted by any backend.
    pub open spec fn spec_mounted(&self) -> Set<Seq<char>> {
        string_views(self.overlay_modules@).to_set() + string_views(self.magic_modules@).to_set()
            + string_views(self.kasumi_modules@).to_set()
    }

    /// A state for one mount run, taken at `timestamp` by process `pid`;
    /// no errors or skipped modules recorded yet, and no daemon.
    pub fn new(
        storage_mode: String,
        mount_point: String,
        overlay_modules: Vec<String>,
        magic_modules: Vec<String>,
        kasumi_modules: Vec<String>,
        active_mounts: Vec<String>,
        mount_stats: MountStatistics,
        mode_stats: ModuleModeStats,
        kasumi: KasumiRuntimeInfo,
        timestamp: u64,
        pid: u32,
        tmpfs_xattr_supported: bool,
    ) -> (st: Self)
        ensures
            st.timestamp == timestamp,
            st.pid == pid,
            st.storage_mode@ == storage_mode@,
            st.mount_point@ == mount_point@,
            st.overlay_modules@ == overlay_modules@,
            st.magic_modules@ == magic_modules@,
            st.kasumi_modules@ == kasumi_modules@,
            st.active_mounts@ == active_mounts@,
            st.mount_error_modules@.len() == 0,
            st.mount_error_reasons@.len() == 0,
            st.skip_mount_modules@.len() == 0,
            st.blacklisted_modules@.len() == 0,
            st.tmpfs_xattr_supported == tmpfs_xattr_supported,
            st.mount_stats == mount_stats,
            st.mode_stats == mode_stats,
            st.kasumi == kasumi,
            !st.daemon.alive && st.daemon.socket_path@.len() == 0 && st.daemon.last_refresh_ts == 0,
    {
        RuntimeState {
            timestamp,
            pid,
            storage_mode,
            mount_point,
            overlay_modules,
            magic_modules,
            kasumi_modules,
            mount_error_modules: Vec::new(),
            mount_error_reasons: Vec::new(),
            skip_mount_modules: Vec::new(),
            blacklisted_modules: Vec::new(),
            active_mounts,
            tmpfs_xattr_supported,
            mount_stats,
            mode_stats,
            kasumi,
            daemon: DaemonRuntimeInfo::default(),
        }
    }

    /// The modules mounted by any backend, sorted, each once.
    pub fn mounted_module_ids(&self) -> (r: Vec<String>)
        ensures
            strictly_sorted(string_views(r@)),
            string_views(r@).to_set() == self.spec_mounted(),
    {
        let mut all: Vec<String> = Vec::new();
        insert_all(&mut all, &self.overlay_modules);
        insert_all(&mut all, &self.magic_modules);
        insert_all(&mut all, &self.kasumi_modules);
        assert(string_views(all@).to_set() =~= self.spec_mounted());
        all
    }

    /// Forgets the mount errors of modules that are now mounted.
    pub fn clear_recovered_mount_errors(&mut self)
        ensures
            string_views(final(self).mount_error_modules@) == string_views(
                old(self).mount_error_modules@,
            ).filter(not_in(string_views(old(self).mounted_ids_seq()))),
            pair_views(final(self).mount_error_reasons@) == pair_views(
                old(self).mount_error_reasons@,
            ).filter(key_not_in(string_views(old(self).mounted_ids_seq()))),
            *final(self) == (RuntimeState {
                mount_error_modules: final(self).mount_error_modules,
                mount_error_reasons: final(self).mount_error_reasons,
                ..*old(self)
            }),
    {
        let mounted = self.mounted_module_ids();
        proof {
            self.lemma_mounted_seq(mounted@);
        }
        retain_not_in(&mut self.mount_error_modules, &mounted);
        retain_keys_not_in(&mut self.mount_error_reasons, &mounted);
    }

    /// The mounted modules as one sequence: those of each backend in turn.
    pub open spec fn mounted_ids_seq(&self) -> Seq<String> {
        self.overlay_modules@ + self.magic_modules@ + self.kasumi_modules@
    }

    proof fn lemma_mounted_seq(&self, m: Seq<String>)
        requires
            string_views(m).to_set() == self.spec_mounted(),
        ensures
            forall|s: Seq<char>|
                string_views(m).contains(s) == string_views(self.mounted_ids_seq()).contains(s),
            not_in(string_views(m)) == not_in(string_views(self.mounted_ids_seq())),
            key_not_in(string_views(m)) == key_not_in(string_views(self.mounted_ids_seq())),
    {
        let all = self.mounted_ids_seq();
        assert(string_views(all) =~= string_views(self.overlay_modules@) + string_views(
            self.magic_modules@,
        ) + string_views(self.kasumi_modules@));
        assert forall|s: Seq<char>|
            string_views(m).contains(s) == string_views(all).contains(s) by {
            assert(string_views(m).to_set().contains(s) == string_views(m).contains(s));
            assert(string_views(all).contains(s) == (string_views(self.overlay_modules@).contains(s)
                || string_views(self.magic_modules@).contains(s) || string_views(
                self.kasumi_modules@,
            ).contains(s))) by {
                let a = string_views(self.overlay_modules@);
                let b = string_views(self.magic_modules@);
                let c = string_views(self.kasumi_modules@);
                if string_views(all).contains(s) {
                    let k = choose|k: int| 0 <= k < (a + b + c).len() && (a + b + c)[k] == s;
                    if k < a.len() {
                        assert(a[k] == s);
                    } else if k < a.len() + b.len() {
                        assert(b[k - a.len()] == s);
                    } else {
                        assert(c[k - a.len() - b.len()] == s);
                    }
                }
                if a.contains(s) {
                    let k = choose|k: int| 0 <= k < a.len() && a[k] == s;
                    assert((a + b + c)[k] == s);
                }
                if b.contains(s) {
                    let k = choose|k: int| 0 <= k < b.len() && b[k] == s;
                    assert((a + b + c)[a.len() + k] == s);
                }
                if c.contains(s) {
                    let k = choose|k: int| 0 <= k < c.len() && c[k] == s;
                    assert((a + b + c)[a.len() + b.len() + k] == s);
                }
            }
        }
        assert(not_in(string_views(m)) =~= not_in(string_views(all)));
        assert(key_not_in(string_views(m)) =~= key_not_in(string_views(all)));
    }

    /// Records whether the daemon is alive, where it listens, and when this
    /// was refreshed.
    pub fn set_daemon_state(&mut self, alive: bool, socket_path: String, refreshed_at: u64)
        ensures
            final(self).daemon.alive == alive,
            final(self).daemon.socket_path@ == socket_path@,
            final(self).daemon.last_refresh_ts == refreshed_at,
            final(self).overlay_modules@ == old(self).overlay_modules@,
            final(self).magic_modules@ == old(self).magic_modules@,
            final(self).kasumi_modules@ == old(self).kasumi_modules@,
            final(self).mount_error_modules@ == old(self).mount_error_modules@,
            final(self).mount_stats == old(self).mount_stats,
    {
        self.daemon.alive = alive;
        self.daemon.socket_path = socket_path;
        self.daemon.last_refresh_ts = refreshed_at;
    }

    /// Whether `st` is the state after an execution: what `result`
    /// mounted, the errors of `previous` for modules still not mounted, the
    /// modules that asked to be skipped, and the daemon information of
    /// `previous`.
    pub open spec fn built_from(
        st: RuntimeState,
        storage_mode: StorageMode,
        mount_point: Seq<char>,
        result: ExecutionResult,
        previous: RuntimeState,
        kasumi: KasumiRuntimeInfo,
        skip_mount_modules: Seq<String>,
        timestamp: u64,
        pid: u32,
        tmpfs_xattr_supported: bool,
    ) -> bool {
        &&& st.timestamp == timestamp
        &&& st.pid == pid
        &&& st.storage_mode@ == storage_mode.spec_as_str()
        &&& st.mount_point@ == mount_point
        &&& string_views(st.overlay_modules@) == string_views(result.overlay_module_ids@)
        &&& string_views(st.magic_modules@) == string_views(result.magic_module_ids@)
        &&& string_views(st.kasumi_modules@) == string_views(result.kasumi_module_ids@)
        &&& strictly_sorted(string_views(st.active_mounts@))
        &&& string_views(st.active_mounts@).to_set() == spec_active_mounts(result)
        &&& st.mount_stats == result.mount_stats
        &&& st.mode_stats.overlayfs == result.overlay_module_ids@.len()
        &&& st.mode_stats.magicmount == result.magic_module_ids@.len()
        &&& st.mode_stats.kasumi == result.kasumi_module_ids@.len()
        &&& st.kasumi == kasumi
        &&& st.tmpfs_xattr_supported == tmpfs_xattr_supported
        &&& string_views(st.mount_error_modules@) == string_views(previous.mount_error_modules@).filter(
            not_in(string_views(st.mounted_ids_seq())),
        )
        &&& pair_views(st.mount_error_reasons@) == pair_views(previous.mount_error_reasons@).filter(
            key_not_in(string_views(st.mounted_ids_seq())),
        )
        &&& st.skip_mount_modules@ == skip_mount_modules
        &&& st.blacklisted_modules@.len() == 0
        &&& st.daemon == previous.daemon
    }

    /// The state after an execution (see `built_from`).
    pub fn build_from_execution(
        storage_mode: StorageMode,
        mount_point: &str,
        result: &ExecutionResult,
        previous: RuntimeState,
        kasumi: KasumiRuntimeInfo,
        skip_mount_modules: Vec<String>,
        timestamp: u64,
        pid: u32,
        tmpfs_xattr_supported: bool,
    ) -> (st: Self)
        ensures
            Self::built_from(
                st,
                storage_mode,
                mount_point@,
                *result,
                previous,
                kasumi,
                skip_mount_modules@,
                timestamp,
                pid,
                tmpfs_xattr_supported,
            ),
    {
        let mut st = RuntimeState::new(
            storage_mode.as_str().to_owned(),
            mount_point.to_owned(),
            copy_strings(&result.overlay_module_ids),
            copy_strings(&result.magic_module_ids),
            copy_strings(&result.kasumi_module_ids),
            collect_active_mounts(result),
            result.mount_stats,
            collect_mode_stats(result),
            kasumi,
            timestamp,
            pid,
            tmpfs_xattr_supported,
        );
        st.mount_error_modules = previous.mount_error_modules;
        st.mount_error_reasons = previous.mount_error_reasons;
        st.clear_recovered_mount_errors();
        st.skip_mount_modules = skip_mount_modules;
        st.daemon = previous.daemon;
        st
    }
}

} // verus!
