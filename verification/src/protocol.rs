//! The commands of the daemon protocol and the names they travel under.

use vstd::prelude::*;

use crate::api::ModuleApplyEntry;

verus! {

/// Health, lifecycle, storage and system information commands.
#[derive(Debug, Clone)]
pub enum SystemCommand {
    Ping,
    WebuiStart,
    Shutdown,
    Init,
    Status,
    ApiStorage,
    ApiMountStats,
    ApiMountTopology,
    ApiPartitions,
    ApiSystemInfo,
    ApiVersion,
    ApiKernelUname,
    ApiOpenUrl { url: String },
    ApiReboot,
    ClearMountErrors,
}

impl SystemCommand {
    pub open spec fn spec_wire_type(&self) -> Seq<char> {
        match self {
            SystemCommand::Ping => "ping"@,
            SystemCommand::WebuiStart => "webui-start"@,
            SystemCommand::Shutdown => "shutdown"@,
            SystemCommand::Init => "init"@,
            SystemCommand::Status => "status"@,
            SystemCommand::ApiStorage => "api-storage"@,
            SystemCommand::ApiMountStats => "api-mount-stats"@,
            SystemCommand::ApiMountTopology => "api-mount-topology"@,
            SystemCommand::ApiPartitions => "api-partitions"@,
            SystemCommand::ApiSystemInfo => "api-system-info"@,
            SystemCommand::ApiVersion => "api-version"@,
            SystemCommand::ApiKernelUname => "api-kernel-uname"@,
            SystemCommand::ApiOpenUrl { .. } => "api-open-url"@,
            SystemCommand::ApiReboot => "api-reboot"@,
            SystemCommand::ClearMountErrors => "clear-mount-errors"@,
        }
    }

    /// The `"type"` tag the command carries on the wire.
    pub fn wire_type(&self) -> (s: &'static str)
        ensures
            s@ == self.spec_wire_type(),
    {
        match self {
            SystemCommand::Ping => "ping",
            SystemCommand::WebuiStart => "webui-start",
            SystemCommand::Shutdown => "shutdown",
            SystemCommand::Init => "init",
            SystemCommand::Status => "status",
            SystemCommand::ApiStorage => "api-storage",
            SystemCommand::ApiMountStats => "api-mount-stats",
            SystemCommand::ApiMountTopology => "api-mount-topology",
            SystemCommand::ApiPartitions => "api-partitions",
            SystemCommand::ApiSystemInfo => "api-system-info",
            SystemCommand::ApiVersion => "api-version",
            SystemCommand::ApiKernelUname => "api-kernel-uname",
            SystemCommand::ApiOpenUrl { .. } => "api-open-url",
            SystemCommand::ApiReboot => "api-reboot",
            SystemCommand::ClearMountErrors => "clear-mount-errors",
        }
    }
}

/// Module listing and bulk changes.
#[derive(Debug, Clone)]
pub enum ModulesCommand {
    /// Lists the modules of a directory, or those of the runtime state.
    List { path: Option<String> },
    /// Applies changes to modules.
    Apply { modules: Vec<ModuleApplyEntry> },
}

impl ModulesCommand {
    pub open spec fn spec_wire_type(&self) -> Seq<char> {
        match self {
            ModulesCommand::List { .. } => "api-modules-list"@,
            ModulesCommand::Apply { .. } => "api-modules-apply"@,
        }
    }

    /// The `"type"` tag the command carries on the wire.
    pub fn wire_type(&self) -> (s: &'static str)
        ensures
            s@ == self.spec_wire_type(),
    {
        match self {
            ModulesCommand::List { .. } => "api-modules-list",
            ModulesCommand::Apply { .. } => "api-modules-apply",
        }
    }
}


/// Reading and changing the configuration. Payloads are JSON text.
#[derive(Debug, Clone)]
pub enum ConfigCommand {
    Get,
    Replace { config: String },
    Patch { patch: String, apply_runtime: bool },
    Reset,
}

/// Kasumi: module, rules, user hide rules, `uname` and maps spoofing.
#[derive(Debug, Clone)]
pub enum KasumiCommand {
    Status,
    List,
    Version,
    Features,
    Hooks,
    ApplyConfigRuntime,
    Clear,
    ReleaseConnection,
    InvalidateCache,
    FixMounts,
    RestoreUnameGlobal,
    SetUname { mode: String, release: String, version: String },
    ClearUname { mode: String },
    RuleAdd { target: String, source: String, file_type: Option<i32> },
    RuleMerge { target: String, source: String },
    RuleHide { path: String },
    RuleDelete { path: String },
    RuleAddDir { target_base: String, source_dir: String },
    RuleRemoveDir { target_base: String, source_dir: String },
    HideList,
    HideAdd { path: String },
    HideRemove { path: String },
    HideApply,
    LkmStatus,
    LkmLoad,
    LkmUnload,
    ApiLkm,
    ApiHooks,
    MapsAdd { rule: String },
    MapsClear,
}

/// Several commands in one round trip.
#[derive(Debug)]
pub enum BatchCommand {
    Batch { commands: Vec<DaemonCommand> },
}

/// A command of the daemon protocol.
#[derive(Debug)]
pub enum DaemonCommand {
    System(SystemCommand),
    Config(ConfigCommand),
    Modules(ModulesCommand),
    Kasumi(KasumiCommand),
    Batch(BatchCommand),
}

} // verus!
