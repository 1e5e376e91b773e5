//! The configuration model: every field with its documented default.

use vstd::prelude::*;

use crate::defs;
use crate::domain::{DefaultMode, ModuleRules, MountMode};

verus! {

/// Where overlay upper and work directories live.
#[derive(Debug, Clone, Copy, PartialEq, Eq, Structural)]
pub enum OverlayMode {
    Tmpfs,
    Ext4,
}

impl Default for OverlayMode {
    fn default() -> (m: Self)
        ensures
            m == OverlayMode::Ext4,
    {
        OverlayMode::Ext4
    }
}

/// A `/proc/<pid>/maps` rewrite rule.
#[derive(Debug, Clone)]
pub struct KasumiMapsRuleConfig {
    pub target_ino: u64,
    pub target_dev: u64,
    pub spoofed_ino: u64,
    pub spoofed_dev: u64,
    pub spoofed_pathname: String,
}

/// A stat metadata spoof rule.
#[derive(Debug, Clone)]
pub struct KasumiKstatRuleConfig {
    pub target_ino: u64,
    pub target_pathname: String,
    pub spoofed_ino: u64,
    pub spoofed_dev: u64,
    pub spoofed_nlink: u32,
    pub spoofed_size: i64,
    pub spoofed_atime_sec: i64,
    pub spoofed_atime_nsec: i64,
    pub spoofed_mtime_sec: i64,
    pub spoofed_mtime_nsec: i64,
    pub spoofed_ctime_sec: i64,
    pub spoofed_ctime_nsec: i64,
    pub spoofed_blksize: u64,
    pub spoofed_blocks: u64,
    pub is_static: bool,
}

/// Structured `uname` spoof values; empty fields are left alone.
#[derive(Debug, Clone)]
pub struct KasumiUnameConfig {
    pub sysname: String,
    pub nodename: String,
    pub release: String,
    pub version: String,
    pub machine: String,
    pub domainname: String,
}

impl KasumiUnameConfig {
    pub open spec fn is_empty_spec(&self) -> bool {
        &&& self.sysname@.len() == 0
        &&& self.nodename@.len() == 0
        &&& self.release@.len() == 0
        &&& self.version@.len() == 0
        &&& self.machine@.len() == 0
        &&& self.domainname@.len() == 0
    }

    pub fn empty() -> (u: Self)
        ensures
            u.is_empty_spec(),
    {
        KasumiUnameConfig {
            sysname: String::new(),
            nodename: String::new(),
            release: String::new(),
            version: String::new(),
            machine: String::new(),
            domainname: String::new(),
        }
    }
}

/// Whether `uname` spoofing applies per process or globally.
#[derive(Debug, Clone, Copy, PartialEq, Eq, Structural)]
pub enum KasumiUnameMode {
    Scoped,
    Global,
}

impl KasumiUnameMode {
    pub open spec fn spec_name(self) -> Seq<char> {
        match self {
            KasumiUnameMode::Scoped => "scoped"@,
            KasumiUnameMode::Global => "global"@,
        }
    }

    pub fn name(self) -> (s: &'static str)
        ensures
            s@ == self.spec_name(),
    {
        match self {
            KasumiUnameMode::Scoped => "scoped",
            KasumiUnameMode::Global => "global",
        }
    }

    /// Reads a mode name; only `"scoped"` and `"global"` are accepted.
    pub fn parse(mode: &str) -> (r: Option<KasumiUnameMode>)
        ensures
            r matches Some(m) ==> m.spec_name() == mode@,
            r is None ==> mode@ != "scoped"@ && mode@ != "global"@,
    {
        if crate::text::str_is(mode, "scoped") {
            Some(KasumiUnameMode::Scoped)
        } else if crate::text::str_is(mode, "global") {
            Some(KasumiUnameMode::Global)
        } else {
            None
        }
    }
}

/// Mount hiding, globally or for paths matching a pattern.
#[derive(Debug, Clone)]
pub struct KasumiMountHideConfig {
    pub enabled: bool,
    pub path_pattern: String,
}

/// `statfs` spoofing for one path.
#[derive(Debug, Clone)]
pub struct KasumiStatfsSpoofConfig {
    pub enabled: bool,
    pub path: String,
    pub spoof_f_type: u64,
}

/// Settings of the Kasumi backend.
#[derive(Debug, Clone)]
pub struct KasumiConfig {
    pub enabled: bool,
    pub lkm_autoload: bool,
    pub lkm_dir: String,
    pub lkm_kmi_override: String,
    pub mirror_path: String,
    pub enable_kernel_debug: bool,
    pub enable_stealth: bool,
    pub enable_hidexattr: bool,
    pub enable_mount_hide: bool,
    pub enable_maps_spoof: bool,
    pub enable_statfs_spoof: bool,
    pub enable_selinux_fix: bool,
    pub mount_hide: KasumiMountHideConfig,
    pub statfs_spoof: KasumiStatfsSpoofConfig,
    pub hide_uids: Vec<u32>,
    pub uname_mode: KasumiUnameMode,
    pub uname: KasumiUnameConfig,
    pub cmdline_value: String,
    pub kstat_rules: Vec<KasumiKstatRuleConfig>,
    pub maps_rules: Vec<KasumiMapsRuleConfig>,
}

impl KasumiConfig {
    /// The documented defaults: disabled, autoloading its module from the
    /// module's `kasumi_lkm` directory, mirroring under `/dev/kasumi_mirror`,
    /// every feature off and no rules.
    pub open spec fn is_default_spec(&self) -> bool {
        &&& !self.enabled
        &&& self.lkm_autoload
        &&& self.lkm_dir@ == defs::KASUMI_LKM_DIR@
        &&& self.lkm_kmi_override@.len() == 0
        &&& self.mirror_path@ == defs::KASUMI_MIRROR_DIR@
        &&& !self.enable_kernel_debug
        &&& !self.enable_stealth
        &&& !self.enable_hidexattr
        &&& !self.enable_mount_hide
        &&& !self.enable_maps_spoof
        &&& !self.enable_statfs_spoof
        &&& !self.enable_selinux_fix
        &&& !self.mount_hide.enabled
        &&& self.mount_hide.path_pattern@.len() == 0
        &&& !self.statfs_spoof.enabled
        &&& self.statfs_spoof.path@.len() == 0
        &&& self.statfs_spoof.spoof_f_type == 0
        &&& self.hide_uids@.len() == 0
        &&& self.uname_mode == KasumiUnameMode::Scoped
        &&& self.uname.is_empty_spec()
        &&& self.cmdline_value@.len() == 0
        &&& self.kstat_rules@.len() == 0
        &&& self.maps_rules@.len() == 0
    }
}

impl Default for KasumiConfig {
    fn default() -> (c: Self)
        ensures
            c.is_default_spec(),
    {
        KasumiConfig {
            enabled: false,
            lkm_autoload: true,
            lkm_dir: defs::KASUMI_LKM_DIR.to_owned(),
            lkm_kmi_override: String::new(),
            mirror_path: defs::KASUMI_MIRROR_DIR.to_owned(),
            enable_kernel_debug: false,
            enable_stealth: false,
            enable_hidexattr: false,
            enable_mount_hide: false,
            enable_maps_spoof: false,
            enable_statfs_spoof: false,
            enable_selinux_fix: false,
            mount_hide: KasumiMountHideConfig { enabled: false, path_pattern: String::new() },
            statfs_spoof: KasumiStatfsSpoofConfig {
                enabled: false,
                path: String::new(),
                spoof_f_type: 0,
            },
            hide_uids: Vec::new(),
            uname_mode: KasumiUnameMode::Scoped,
            uname: KasumiUnameConfig::empty(),
            cmdline_value: String::new(),
            kstat_rules: Vec::new(),
            maps_rules: Vec::new(),
        }
    }
}

/// When the daemon starts.
#[derive(Debug, Clone, Copy, PartialEq, Eq, Structural)]
pub enum DaemonStartupMode {
    OnDemand,
    Persistent,
}

impl DaemonStartupMode {
    pub open spec fn spec_name(self) -> Seq<char> {
        match self {
            DaemonStartupMode::OnDemand => "on-demand"@,
            DaemonStartupMode::Persistent => "persistent"@,
        }
    }

    /// The mode as configuration files spell it.
    pub fn as_str(self) -> (s: &'static str)
        ensures
            s@ == self.spec_name(),
    {
        match self {
            DaemonStartupMode::OnDemand => "on-demand",
            DaemonStartupMode::Persistent => "persistent",
        }
    }
}

/// The module blacklist file's content.
#[derive(Debug, Clone)]
pub struct BlacklistConfig {
    pub blacklist: Vec<String>,
}

/// The whole configuration.
#[derive(Debug, Clone)]
pub struct Config {
    pub moduledir: String,
    pub mountsource: String,
    pub overlay_mode: OverlayMode,
    pub disable_umount: bool,
    pub enable_overlay_fallback: bool,
    pub default_mode: DefaultMode,
    pub kasumi: KasumiConfig,
    pub rules: Vec<(String, ModuleRules)>,
    pub daemon_startup_mode: DaemonStartupMode,
    pub module_blacklist: Vec<String>,
}

impl Config {
    /// The documented defaults, with the given mount source tag.
    pub open spec fn is_default_spec(&self, mountsource: Seq<char>) -> bool {
        &&& self.moduledir@ == defs::MODULES_DIR@
        &&& self.mountsource@ == mountsource
        &&& self.overlay_mode == OverlayMode::Ext4
        &&& !self.disable_umount
        &&& !self.enable_overlay_fallback
        &&& self.default_mode == DefaultMode::Overlay
        &&& self.kasumi.is_default_spec()
        &&& self.rules@.len() == 0
        &&& self.daemon_startup_mode == DaemonStartupMode::OnDemand
        &&& self.module_blacklist@.len() == 0
    }

    /// The default configuration for a root manager identified by
    /// `mountsource` (`"KSU"` or `"APatch"`).
    pub fn with_mount_source(mountsource: String) -> (c: Config)
        ensures
            c.is_default_spec(mountsource@),
    {
        Config {
            moduledir: defs::MODULES_DIR.to_owned(),
            mountsource,
            overlay_mode: OverlayMode::Ext4,
            disable_umount: false,
            enable_overlay_fallback: false,
            default_mode: DefaultMode::Overlay,
            kasumi: KasumiConfig::default(),
            rules: Vec::new(),
            daemon_startup_mode: DaemonStartupMode::OnDemand,
            module_blacklist: Vec::new(),
        }
    }

    /// No two rule entries are for the same module.
    pub open spec fn rule_keys_unique(&self) -> bool {
        forall|i: int, j: int|
            0 <= i < j < self.rules@.len() ==> (#[trigger] self.rules@[i]).0@ != (#[trigger] self.rules@[j]).0@
    }

    /// The index of the first rule entry for `module_id`.
    pub open spec fn rule_index(&self, module_id: Seq<char>) -> Option<int> {
        if exists|i: int| 0 <= i < self.rules@.len() && self.rules@[i].0@ == module_id {
            Some(
                choose|i: int|
                    0 <= i < self.rules@.len() && self.rules@[i].0@ == module_id && forall|j: int|
                        0 <= j < i ==> self.rules@[j].0@ != module_id,
            )
        } else {
            None
        }
    }

    /// The position of the first rule entry for `module_id`.
    pub fn find_rules(&self, module_id: &str) -> (r: Option<usize>)
        ensures
            match r {
                Some(i) => {
                    &&& i < self.rules@.len()
                    &&& self.rules@[i as int].0@ == module_id@
                    &&& forall|j: int| 0 <= j < i ==> self.rules@[j].0@ != module_id@
                },
                None => forall|j: int| 0 <= j < self.rules@.len() ==> self.rules@[j].0@ != module_id@,
            },
    {
        let mut i: usize = 0;
        while i < self.rules.len()
            invariant
                i <= self.rules@.len(),
                forall|j: int| 0 <= j < i ==> self.rules@[j].0@ != module_id@,
            decreases self.rules@.len() - i,
        {
            if crate::text::str_is(self.rules[i].0.as_str(), module_id) {
                return Some(i);
            }
            i = i + 1;
        }
        None
    }
}

/// A copy of a module's rules with the same contents.
pub fn copy_rules(r: &ModuleRules) -> (c: ModuleRules)
    ensures
        c.default_mode == r.default_mode,
        c.entries() == r.entries(),
        c.paths@.len() == r.paths@.len(),
{
    let mut paths: Vec<(String, MountMode)> = Vec::new();
    let mut i: usize = 0;
    while i < r.paths.len()
        invariant
            i <= r.paths@.len(),
            paths@.len() == i,
            forall|j: int| 0 <= j < i ==> #[trigger] paths@[j].0@ == r.paths@[j].0@ && paths@[j].1 == r.paths@[j].1,
        decreases r.paths@.len() - i,
    {
        let k = r.paths[i].0.clone();
        paths.push((k, r.paths[i].1));
        i = i + 1;
    }
    let c = ModuleRules { default_mode: r.default_mode, paths };
    assert(c.entries() =~= r.entries());
    c
}

} // verus!
