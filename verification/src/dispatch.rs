//! What the daemon does for each command: a short program of effects that
//! the server performs one by one, reporting each outcome back, and the
//! reply it ends with.

use vstd::prelude::*;

use crate::config::KasumiUnameMode;
use crate::protocol::{
    BatchCommand, ConfigCommand, DaemonCommand, KasumiCommand, ModulesCommand, SystemCommand,
};

verus! {

/// A payload that the server builds from its state.
#[derive(Debug, Clone, Copy, PartialEq, Eq, Structural)]
pub enum Payload {
    WebuiSession,
    Init,
    Status,
    Storage,
    MountStats,
    MountTopology,
    Partitions,
    SystemInfo,
    Version,
    KernelUname,
    Config,
    ModulesList,
    KasumiStatus,
    KasumiVersion,
    KasumiFeatures,
    Hooks,
    HideRules,
    Lkm,
}

/// What a live Kasumi is required for.
#[derive(Debug, Clone, Copy, PartialEq, Eq, Structural)]
pub enum LiveNeed {
    ReadHooks,
    ApplyHideRules,
}

/// One thing the server does. Those marked "reports a flag" answer with
/// `DispatchEvent::Flag`; the others with `DispatchEvent::Done`.
#[derive(Debug, Clone, Copy, PartialEq, Eq, Structural)]
pub enum Effect {
    /// Builds the payload and keeps it for the reply.
    BuildPayload(Payload),
    SetShutdown,
    OpenUrl,
    Reboot,
    RemoveErrorMarkers,
    ClearErrorState,
    SaveState,
    BroadcastState,
    /// Decodes the command's configuration payload; it becomes the
    /// working configuration.
    DecodeConfig,
    /// Applies the command's patch to the configuration file; the result
    /// becomes the working configuration.
    PatchConfigFile,
    UseDefaultConfig,
    /// Reads the configuration file, bypassing the cache.
    ReloadConfig,
    /// Reads the configuration through the cache.
    LoadConfig,
    SaveConfig,
    CacheConfig,
    /// Applies the working configuration to the running Kasumi and
    /// invalidates its cached status; reports a flag: applied.
    ApplyRuntime,
    /// Refreshes the runtime snapshot with the working configuration.
    Refresh,
    /// Refreshes the runtime snapshot with the running configuration.
    RefreshCurrent,
    ApplyModules,
    /// Reports a flag: whether Kasumi can be operated.
    CheckCanOperate,
    /// Fails unless Kasumi is live.
    RequireLive(LiveNeed),
    ListRules,
    /// Adds the command's path to the user hide rules; reports a flag:
    /// whether it was added.
    AddUserHideRule,
    /// Removes the command's path from the user hide rules; reports a
    /// flag: whether it was removed.
    RemoveUserHideRule,
    ApplyUserHideRules,
    HidePath,
    LoadLkm,
    UnloadLkm,
    ClearRules,
    ReleaseConnection,
    InvalidateStatusCache,
    FixMounts,
    RestoreUnameGlobal,
    /// Sets the spoofed `uname` in the mode, with the command's release
    /// and version (`true`) or with both empty (`false`).
    ApplyUname(KasumiUnameMode, bool),
    DetectFileType,
    /// Adds the command's rule, with its file type or the detected one.
    AddRule,
    AddMergeRule,
    DeleteRule,
    AddRulesFromDir,
    RemoveRulesFromDir,
    AddMapsRule,
    ClearMapsRules,
    /// Runs each command of the batch through its own dispatch, without
    /// notifying event subscribers, and keeps each result.
    RunBatch,
    RefreshSnapshot,
}

/// A fixed message that a reply carries.
#[derive(Debug, Clone, Copy, PartialEq, Eq, Structural)]
pub enum Notice {
    LkmLoaded,
    LkmUnloaded,
    RulesCleared,
    ConnectionReleased,
    StatusCacheInvalidated,
    MountsFixed,
    UnameGlobalRestored,
}

impl Notice {
    pub open spec fn spec_text(self) -> Seq<char> {
        match self {
            Notice::LkmLoaded => "Kasumi LKM loaded."@,
            Notice::LkmUnloaded => "Kasumi LKM unloaded."@,
            Notice::RulesCleared => "Kasumi rules cleared."@,
            Notice::ConnectionReleased => "Released cached Kasumi client connection."@,
            Notice::StatusCacheInvalidated => "Invalidated cached Kasumi status."@,
            Notice::MountsFixed => "Kasumi mount ordering fixed."@,
            Notice::UnameGlobalRestored => "Kasumi global uname restored."@,
        }
    }

    /// The message's text.
    pub fn text(self) -> (s: &'static str)
        ensures
            s@ == self.spec_text(),
    {
        match self {
            Notice::LkmLoaded => "Kasumi LKM loaded.",
            Notice::LkmUnloaded => "Kasumi LKM unloaded.",
            Notice::RulesCleared => "Kasumi rules cleared.",
            Notice::ConnectionReleased => "Released cached Kasumi client connection.",
            Notice::StatusCacheInvalidated => "Invalidated cached Kasumi status.",
            Notice::MountsFixed => "Kasumi mount ordering fixed.",
            Notice::UnameGlobalRestored => "Kasumi global uname restored.",
        }
    }
}

/// The reply a command ends with.
#[derive(Debug, Clone, Copy, PartialEq, Eq, Structural)]
pub enum Response {
    Pong,
    /// The payload built last.
    Payload,
    ShutdownAck,
    Opened,
    RebootAck,
    /// How many error entries were cleared and markers removed.
    ErrorsCleared,
    /// Saved, with the working configuration.
    Saved,
    /// Saved, with whether it was applied to the running Kasumi.
    SavedApplied(bool),
    /// Saved, with the working configuration and its maps rule count.
    MapsSaved,
    /// What applying the modules returned.
    ModulesApplied,
    /// The rules listed, parsed.
    RuleListing,
    /// No rules: Kasumi cannot be operated.
    EmptyListing,
    Applied(bool),
    /// Whether the hide rule was added, with its path.
    HideAdded,
    Removed(bool),
    /// How many hide rules were applied and how many failed.
    HideApplied,
    Message(Notice),
    UnameApplied(KasumiUnameMode),
    UnameCleared(KasumiUnameMode),
    /// The rule, with the file type used.
    RuleAdded,
    RuleMerged,
    RuleHidden,
    RuleDeleted,
    DirRulesApplied,
    DirRulesRemoved,
    /// Each batch command's result.
    BatchResults,
}

/// Why a command is refused before anything is done.
#[derive(Debug, Clone, Copy, PartialEq, Eq, Structural)]
pub enum Rejection {
    /// The `uname` mode is neither `"scoped"` nor `"global"`.
    InvalidUnameMode,
}

/// One instruction of a command's program.
#[derive(Debug, Clone, Copy, PartialEq, Eq, Structural)]
pub enum Instr {
    Do(Effect),
    /// Performed only when the last flag reported was set.
    DoIfFlag(Effect),
    Reply(Response),
    /// The first reply when the last flag reported was set, else the second.
    ReplyByFlag(Response, Response),
    Reject(Rejection),
}

/// What the server is asked to do next.
#[derive(Debug, Clone, Copy, PartialEq, Eq, Structural)]
pub enum DispatchAction {
    Perform(Effect),
    Reply(Response),
    Reject(Rejection),
    /// The last effect failed: its error is the answer.
    Fail,
    /// The program is over.
    Idle,
}

/// How the last effect went.
#[derive(Debug, Clone, Copy, PartialEq, Eq, Structural)]
pub enum DispatchEvent {
    Done,
    Flag(bool),
    Failed,
}

pub open spec fn payload_of(p: Payload) -> Seq<Instr> {
    seq![Instr::Do(Effect::BuildPayload(p)), Instr::Reply(Response::Payload)]
}

/// The effect, a refresh with the running configuration, and the reply.
pub open spec fn refreshed(e: Effect, r: Response) -> Seq<Instr> {
    seq![Instr::Do(e), Instr::Do(Effect::RefreshCurrent), Instr::Reply(r)]
}

/// The program of a system command.
pub open spec fn system_program(c: SystemCommand) -> Seq<Instr> {
    match c {
        SystemCommand::Ping => seq![Instr::Reply(Response::Pong)],
        SystemCommand::WebuiStart => payload_of(Payload::WebuiSession),
        SystemCommand::Shutdown => seq![Instr::Do(Effect::SetShutdown), Instr::Reply(Response::ShutdownAck)],
        SystemCommand::Init => payload_of(Payload::Init),
        SystemCommand::Status => payload_of(Payload::Status),
        SystemCommand::ApiStorage => payload_of(Payload::Storage),
        SystemCommand::ApiMountStats => payload_of(Payload::MountStats),
        SystemCommand::ApiMountTopology => payload_of(Payload::MountTopology),
        SystemCommand::ApiPartitions => payload_of(Payload::Partitions),
        SystemCommand::ApiSystemInfo => payload_of(Payload::SystemInfo),
        SystemCommand::ApiVersion => payload_of(Payload::Version),
        SystemCommand::ApiKernelUname => payload_of(Payload::KernelUname),
        SystemCommand::ApiOpenUrl { .. } => seq![Instr::Do(Effect::OpenUrl), Instr::Reply(Response::Opened)],
        SystemCommand::ApiReboot => seq![Instr::Do(Effect::Reboot), Instr::Reply(Response::RebootAck)],
        SystemCommand::ClearMountErrors => seq![
            Instr::Do(Effect::RemoveErrorMarkers),
            Instr::Do(Effect::ClearErrorState),
            Instr::Do(Effect::SaveState),
            Instr::Do(Effect::BroadcastState),
            Instr::Reply(Response::ErrorsCleared),
        ],
    }
}

/// The program of a configuration command: a new configuration is saved,
/// cached and used for the refresh; a patch is applied to the running
/// Kasumi only when asked, and reported as not applied otherwise.
pub open spec fn config_program(c: ConfigCommand) -> Seq<Instr> {
    match c {
        ConfigCommand::Get => payload_of(Payload::Config),
        ConfigCommand::Replace { .. } => seq![
            Instr::Do(Effect::DecodeConfig),
            Instr::Do(Effect::SaveConfig),
            Instr::Do(Effect::CacheConfig),
            Instr::Do(Effect::Refresh),
            Instr::Reply(Response::Saved),
        ],
        ConfigCommand::Patch { apply_runtime, .. } => if apply_runtime {
            seq![
                Instr::Do(Effect::PatchConfigFile),
                Instr::Do(Effect::CacheConfig),
                Instr::Do(Effect::ApplyRuntime),
                Instr::Do(Effect::Refresh),
                Instr::ReplyByFlag(Response::SavedApplied(true), Response::SavedApplied(false)),
            ]
        } else {
            seq![
                Instr::Do(Effect::PatchConfigFile),
                Instr::Do(Effect::CacheConfig),
                Instr::Do(Effect::Refresh),
                Instr::Reply(Response::SavedApplied(false)),
            ]
        },
        ConfigCommand::Reset => seq![
            Instr::Do(Effect::UseDefaultConfig),
            Instr::Do(Effect::SaveConfig),
            Instr::Do(Effect::ApplyRuntime),
            Instr::Do(Effect::CacheConfig),
            Instr::Do(Effect::Refresh),
            Instr::Reply(Response::Saved),
        ],
    }
}

pub open spec fn modules_program(c: ModulesCommand) -> Seq<Instr> {
    match c {
        ModulesCommand::List { .. } => payload_of(Payload::ModulesList),
        ModulesCommand::Apply { .. } => seq![
            Instr::Do(Effect::ApplyModules),
            Instr::Do(Effect::ReloadConfig),
            Instr::Do(Effect::CacheConfig),
            Instr::Do(Effect::Refresh),
            Instr::Reply(Response::ModulesApplied),
        ],
    }
}

/// The program of a `uname` command whose mode is `mode`.
pub open spec fn uname_program(mode: Seq<char>, set: bool) -> Seq<Instr> {
    if mode == "scoped"@ {
        if set {
            refreshed(Effect::ApplyUname(KasumiUnameMode::Scoped, true), Response::UnameApplied(KasumiUnameMode::Scoped))
        } else {
            refreshed(Effect::ApplyUname(KasumiUnameMode::Scoped, false), Response::UnameCleared(KasumiUnameMode::Scoped))
        }
    } else if mode == "global"@ {
        if set {
            refreshed(Effect::ApplyUname(KasumiUnameMode::Global, true), Response::UnameApplied(KasumiUnameMode::Global))
        } else {
            refreshed(Effect::RestoreUnameGlobal, Response::UnameCleared(KasumiUnameMode::Global))
        }
    } else {
        seq![Instr::Reject(Rejection::InvalidUnameMode)]
    }
}

/// The program of a Kasumi command. Rules are listed only when Kasumi can
/// be operated (an empty listing otherwise); a user hide rule is hidden at
/// once only when it was added and Kasumi can be operated; a maps rule
/// change is saved, cached and applied before the refresh.
pub open spec fn kasumi_program(c: KasumiCommand) -> Seq<Instr> {
    match c {
        KasumiCommand::Status => payload_of(Payload::KasumiStatus),
        KasumiCommand::List => seq![
            Instr::Do(Effect::CheckCanOperate),
            Instr::DoIfFlag(Effect::ListRules),
            Instr::ReplyByFlag(Response::RuleListing, Response::EmptyListing),
        ],
        KasumiCommand::Version => payload_of(Payload::KasumiVersion),
        KasumiCommand::Features => payload_of(Payload::KasumiFeatures),
        KasumiCommand::Hooks => payload_of(Payload::Hooks),
        KasumiCommand::ApplyConfigRuntime => seq![
            Instr::Do(Effect::ApplyRuntime),
            Instr::Do(Effect::RefreshCurrent),
            Instr::ReplyByFlag(Response::Applied(true), Response::Applied(false)),
        ],
        KasumiCommand::Clear => refreshed(Effect::ClearRules, Response::Message(Notice::RulesCleared)),
        KasumiCommand::ReleaseConnection => refreshed(
            Effect::ReleaseConnection,
            Response::Message(Notice::ConnectionReleased),
        ),
        KasumiCommand::InvalidateCache => refreshed(
            Effect::InvalidateStatusCache,
            Response::Message(Notice::StatusCacheInvalidated),
        ),
        KasumiCommand::FixMounts => refreshed(Effect::FixMounts, Response::Message(Notice::MountsFixed)),
        KasumiCommand::RestoreUnameGlobal => refreshed(
            Effect::RestoreUnameGlobal,
            Response::Message(Notice::UnameGlobalRestored),
        ),
        KasumiCommand::SetUname { mode, .. } => uname_program(mode@, true),
        KasumiCommand::ClearUname { mode } => uname_program(mode@, false),
        KasumiCommand::RuleAdd { file_type, .. } => match file_type {
            Some(_) => refreshed(Effect::AddRule, Response::RuleAdded),
            None => seq![Instr::Do(Effect::DetectFileType)] + refreshed(Effect::AddRule, Response::RuleAdded),
        },
        KasumiCommand::RuleMerge { .. } => refreshed(Effect::AddMergeRule, Response::RuleMerged),
        KasumiCommand::RuleHide { .. } => refreshed(Effect::HidePath, Response::RuleHidden),
        KasumiCommand::RuleDelete { .. } => refreshed(Effect::DeleteRule, Response::RuleDeleted),
        KasumiCommand::RuleAddDir { .. } => refreshed(Effect::AddRulesFromDir, Response::DirRulesApplied),
        KasumiCommand::RuleRemoveDir { .. } => refreshed(Effect::RemoveRulesFromDir, Response::DirRulesRemoved),
        KasumiCommand::HideList => payload_of(Payload::HideRules),
        KasumiCommand::HideAdd { .. } => seq![
            Instr::Do(Effect::AddUserHideRule),
            Instr::DoIfFlag(Effect::CheckCanOperate),
            Instr::DoIfFlag(Effect::HidePath),
            Instr::Do(Effect::RefreshCurrent),
            Instr::Reply(Response::HideAdded),
        ],
        KasumiCommand::HideRemove { .. } => seq![
            Instr::Do(Effect::RemoveUserHideRule),
            Instr::Do(Effect::RefreshCurrent),
            Instr::ReplyByFlag(Response::Removed(true), Response::Removed(false)),
        ],
        KasumiCommand::HideApply => seq![
            Instr::Do(Effect::RequireLive(LiveNeed::ApplyHideRules)),
            Instr::Do(Effect::ApplyUserHideRules),
            Instr::Do(Effect::RefreshCurrent),
            Instr::Reply(Response::HideApplied),
        ],
        KasumiCommand::LkmStatus => payload_of(Payload::Lkm),
        KasumiCommand::LkmLoad => seq![
            Instr::Do(Effect::LoadLkm),
            Instr::Do(Effect::InvalidateStatusCache),
            Instr::Do(Effect::RefreshCurrent),
            Instr::Reply(Response::Message(Notice::LkmLoaded)),
        ],
        KasumiCommand::LkmUnload => seq![
            Instr::Do(Effect::UnloadLkm),
            Instr::Do(Effect::InvalidateStatusCache),
            Instr::Do(Effect::RefreshCurrent),
            Instr::Reply(Response::Message(Notice::LkmUnloaded)),
        ],
        KasumiCommand::ApiLkm => payload_of(Payload::Lkm),
        KasumiCommand::ApiHooks => seq![
            Instr::Do(Effect::RequireLive(LiveNeed::ReadHooks)),
            Instr::Do(Effect::BuildPayload(Payload::Hooks)),
            Instr::Reply(Response::Payload),
        ],
        KasumiCommand::MapsAdd { .. } => seq![
            Instr::Do(Effect::AddMapsRule),
            Instr::Do(Effect::CacheConfig),
            Instr::Do(Effect::ApplyRuntime),
            Instr::Do(Effect::Refresh),
            Instr::Reply(Response::MapsSaved),
        ],
        KasumiCommand::MapsClear => seq![
            Instr::Do(Effect::LoadConfig),
            Instr::Do(Effect::ClearMapsRules),
            Instr::Do(Effect::SaveConfig),
            Instr::Do(Effect::CacheConfig),
            Instr::Do(Effect::ApplyRuntime),
            Instr::Do(Effect::Refresh),
            Instr::Reply(Response::MapsSaved),
        ],
    }
}

/// The program of a command.
pub open spec fn spec_program(c: DaemonCommand) -> Seq<Instr> {
    match c {
        DaemonCommand::System(s) => system_program(s),
        DaemonCommand::Config(k) => config_program(k),
        DaemonCommand::Modules(m) => modules_program(m),
        DaemonCommand::Kasumi(k) => kasumi_program(k),
        DaemonCommand::Batch(_) => seq![
            Instr::Do(Effect::RunBatch),
            Instr::Do(Effect::RefreshSnapshot),
            Instr::Reply(Response::BatchResults),
        ],
    }
}

/// From instruction `pc` on, with the last flag `flag`: where the program
/// goes on and what the server does next. Conditional effects whose flag
/// is clear are skipped; a reply or a rejection ends the program.
pub open spec fn spec_run(program: Seq<Instr>, pc: int, flag: bool) -> (int, DispatchAction)
    decreases program.len() - pc,
{
    if pc < 0 || pc >= program.len() {
        (program.len() as int, DispatchAction::Idle)
    } else {
        match program[pc] {
            Instr::Do(e) => (pc + 1, DispatchAction::Perform(e)),
            Instr::DoIfFlag(e) => if flag {
                (pc + 1, DispatchAction::Perform(e))
            } else {
                spec_run(program, pc + 1, flag)
            },
            Instr::Reply(r) => (program.len() as int, DispatchAction::Reply(r)),
            Instr::ReplyByFlag(a, b) => (program.len() as int, DispatchAction::Reply(if flag { a } else { b })),
            Instr::Reject(j) => (program.len() as int, DispatchAction::Reject(j)),
        }
    }
}

fn p1(a: Instr) -> (r: Vec<Instr>)
    ensures
        r@ == seq![a],
{
    let mut v: Vec<Instr> = Vec::new();
    v.push(a);
    v
}

fn p2(a: Instr, b: Instr) -> (r: Vec<Instr>)
    ensures
        r@ == seq![a, b],
{
    let mut v = p1(a);
    v.push(b);
    v
}

fn p3(a: Instr, b: Instr, c: Instr) -> (r: Vec<Instr>)
    ensures
        r@ == seq![a, b, c],
{
    let mut v = p2(a, b);
    v.push(c);
    v
}

fn p4(a: Instr, b: Instr, c: Instr, d: Instr) -> (r: Vec<Instr>)
    ensures
        r@ == seq![a, b, c, d],
{
    let mut v = p3(a, b, c);
    v.push(d);
    v
}

fn p5(a: Instr, b: Instr, c: Instr, d: Instr, e: Instr) -> (r: Vec<Instr>)
    ensures
        r@ == seq![a, b, c, d, e],
{
    let mut v = p4(a, b, c, d);
    v.push(e);
    v
}

fn p6(a: Instr, b: Instr, c: Instr, d: Instr, e: Instr, f: Instr) -> (r: Vec<Instr>)
    ensures
        r@ == seq![a, b, c, d, e, f],
{
    let mut v = p5(a, b, c, d, e);
    v.push(f);
    v
}

fn p7(a: Instr, b: Instr, c: Instr, d: Instr, e: Instr, f: Instr, g: Instr) -> (r: Vec<Instr>)
    ensures
        r@ == seq![a, b, c, d, e, f, g],
{
    let mut v = p6(a, b, c, d, e, f);
    v.push(g);
    v
}

fn payload(p: Payload) -> (r: Vec<Instr>)
    ensures
        r@ == payload_of(p),
{
    p2(Instr::Do(Effect::BuildPayload(p)), Instr::Reply(Response::Payload))
}

fn refresh_after(e: Effect, r: Response) -> (v: Vec<Instr>)
    ensures
        v@ == refreshed(e, r),
{
    p3(Instr::Do(e), Instr::Do(Effect::RefreshCurrent), Instr::Reply(r))
}

fn system_instrs(c: &SystemCommand) -> (v: Vec<Instr>)
    ensures
        v@ == system_program(*c),
{
    match c {
        SystemCommand::Ping => p1(Instr::Reply(Response::Pong)),
        SystemCommand::WebuiStart => payload(Payload::WebuiSession),
        SystemCommand::Shutdown => p2(Instr::Do(Effect::SetShutdown), Instr::Reply(Response::ShutdownAck)),
        SystemCommand::Init => payload(Payload::Init),
        SystemCommand::Status => payload(Payload::Status),
        SystemCommand::ApiStorage => payload(Payload::Storage),
        SystemCommand::ApiMountStats => payload(Payload::MountStats),
        SystemCommand::ApiMountTopology => payload(Payload::MountTopology),
        SystemCommand::ApiPartitions => payload(Payload::Partitions),
        SystemCommand::ApiSystemInfo => payload(Payload::SystemInfo),
        SystemCommand::ApiVersion => payload(Payload::Version),
        SystemCommand::ApiKernelUname => payload(Payload::KernelUname),
        SystemCommand::ApiOpenUrl { .. } => p2(Instr::Do(Effect::OpenUrl), Instr::Reply(Response::Opened)),
        SystemCommand::ApiReboot => p2(Instr::Do(Effect::Reboot), Instr::Reply(Response::RebootAck)),
        SystemCommand::ClearMountErrors => p5(
            Instr::Do(Effect::RemoveErrorMarkers),
            Instr::Do(Effect::ClearErrorState),
            Instr::Do(Effect::SaveState),
            Instr::Do(Effect::BroadcastState),
            Instr::Reply(Response::ErrorsCleared),
        ),
    }
}

fn config_instrs(c: &ConfigCommand) -> (v: Vec<Instr>)
    ensures
        v@ == config_program(*c),
{
    match c {
        ConfigCommand::Get => payload(Payload::Config),
        ConfigCommand::Replace { .. } => p5(
            Instr::Do(Effect::DecodeConfig),
            Instr::Do(Effect::SaveConfig),
            Instr::Do(Effect::CacheConfig),
            Instr::Do(Effect::Refresh),
            Instr::Reply(Response::Saved),
        ),
        ConfigCommand::Patch { apply_runtime, .. } => if *apply_runtime {
            p5(
                Instr::Do(Effect::PatchConfigFile),
                Instr::Do(Effect::CacheConfig),
                Instr::Do(Effect::ApplyRuntime),
                Instr::Do(Effect::Refresh),
                Instr::ReplyByFlag(Response::SavedApplied(true), Response::SavedApplied(false)),
            )
        } else {
            p4(
                Instr::Do(Effect::PatchConfigFile),
                Instr::Do(Effect::CacheConfig),
                Instr::Do(Effect::Refresh),
                Instr::Reply(Response::SavedApplied(false)),
            )
        },
        ConfigCommand::Reset => p6(
            Instr::Do(Effect::UseDefaultConfig),
            Instr::Do(Effect::SaveConfig),
            Instr::Do(Effect::ApplyRuntime),
            Instr::Do(Effect::CacheConfig),
            Instr::Do(Effect::Refresh),
            Instr::Reply(Response::Saved),
        ),
    }
}

fn modules_instrs(c: &ModulesCommand) -> (v: Vec<Instr>)
    ensures
        v@ == modules_program(*c),
{
    match c {
        ModulesCommand::List { .. } => payload(Payload::ModulesList),
        ModulesCommand::Apply { .. } => p5(
            Instr::Do(Effect::ApplyModules),
            Instr::Do(Effect::ReloadConfig),
            Instr::Do(Effect::CacheConfig),
            Instr::Do(Effect::Refresh),
            Instr::Reply(Response::ModulesApplied),
        ),
    }
}

fn uname_instrs(mode: &str, set: bool) -> (v: Vec<Instr>)
    ensures
        v@ == uname_program(mode@, set),
{
    proof {
        reveal_strlit("scoped");
        reveal_strlit("global");
    }
    match KasumiUnameMode::parse(mode) {
        Some(KasumiUnameMode::Scoped) => if set {
            refresh_after(
                Effect::ApplyUname(KasumiUnameMode::Scoped, true),
                Response::UnameApplied(KasumiUnameMode::Scoped),
            )
        } else {
            refresh_after(
                Effect::ApplyUname(KasumiUnameMode::Scoped, false),
                Response::UnameCleared(KasumiUnameMode::Scoped),
            )
        },
        Some(KasumiUnameMode::Global) => {
            assert("global"@[0] != "scoped"@[0]);
            assert(mode@ != "scoped"@);
            if set {
                refresh_after(
                    Effect::ApplyUname(KasumiUnameMode::Global, true),
                    Response::UnameApplied(KasumiUnameMode::Global),
                )
            } else {
                refresh_after(Effect::RestoreUnameGlobal, Response::UnameCleared(KasumiUnameMode::Global))
            }
        },
        None => p1(Instr::Reject(Rejection::InvalidUnameMode)),
    }
}

fn kasumi_instrs(c: &KasumiCommand) -> (v: Vec<Instr>)
    ensures
        v@ == kasumi_program(*c),
{
    match c {
        KasumiCommand::Status => payload(Payload::KasumiStatus),
        KasumiCommand::List => p3(
            Instr::Do(Effect::CheckCanOperate),
            Instr::DoIfFlag(Effect::ListRules),
            Instr::ReplyByFlag(Response::RuleListing, Response::EmptyListing),
        ),
        KasumiCommand::Version => payload(Payload::KasumiVersion),
        KasumiCommand::Features => payload(Payload::KasumiFeatures),
        KasumiCommand::Hooks => payload(Payload::Hooks),
        KasumiCommand::ApplyConfigRuntime => p3(
            Instr::Do(Effect::ApplyRuntime),
            Instr::Do(Effect::RefreshCurrent),
            Instr::ReplyByFlag(Response::Applied(true), Response::Applied(false)),
        ),
        KasumiCommand::Clear => refresh_after(Effect::ClearRules, Response::Message(Notice::RulesCleared)),
        KasumiCommand::ReleaseConnection => refresh_after(
            Effect::ReleaseConnection,
            Response::Message(Notice::ConnectionReleased),
        ),
        KasumiCommand::InvalidateCache => refresh_after(
            Effect::InvalidateStatusCache,
            Response::Message(Notice::StatusCacheInvalidated),
        ),
        KasumiCommand::FixMounts => refresh_after(Effect::FixMounts, Response::Message(Notice::MountsFixed)),
        KasumiCommand::RestoreUnameGlobal => refresh_after(
            Effect::RestoreUnameGlobal,
            Response::Message(Notice::UnameGlobalRestored),
        ),
        KasumiCommand::SetUname { mode, .. } => uname_instrs(mode.as_str(), true),
        KasumiCommand::ClearUname { mode } => uname_instrs(mode.as_str(), false),
        KasumiCommand::RuleAdd { file_type, .. } => match file_type {
            Some(_) => refresh_after(Effect::AddRule, Response::RuleAdded),
            None => {
                let v = p4(
                    Instr::Do(Effect::DetectFileType),
                    Instr::Do(Effect::AddRule),
                    Instr::Do(Effect::RefreshCurrent),
                    Instr::Reply(Response::RuleAdded),
                );
                assert(v@ =~= seq![Instr::Do(Effect::DetectFileType)] + refreshed(Effect::AddRule, Response::RuleAdded));
                v
            },
        },
        KasumiCommand::RuleMerge { .. } => refresh_after(Effect::AddMergeRule, Response::RuleMerged),
        KasumiCommand::RuleHide { .. } => refresh_after(Effect::HidePath, Response::RuleHidden),
        KasumiCommand::RuleDelete { .. } => refresh_after(Effect::DeleteRule, Response::RuleDeleted),
        KasumiCommand::RuleAddDir { .. } => refresh_after(Effect::AddRulesFromDir, Response::DirRulesApplied),
        KasumiCommand::RuleRemoveDir { .. } => refresh_after(
            Effect::RemoveRulesFromDir,
            Response::DirRulesRemoved,
        ),
        KasumiCommand::HideList => payload(Payload::HideRules),
        KasumiCommand::HideAdd { .. } => p5(
            Instr::Do(Effect::AddUserHideRule),
            Instr::DoIfFlag(Effect::CheckCanOperate),
            Instr::DoIfFlag(Effect::HidePath),
            Instr::Do(Effect::RefreshCurrent),
            Instr::Reply(Response::HideAdded),
        ),
        KasumiCommand::HideRemove { .. } => p3(
            Instr::Do(Effect::RemoveUserHideRule),
            Instr::Do(Effect::RefreshCurrent),
            Instr::ReplyByFlag(Response::Removed(true), Response::Removed(false)),
        ),
        KasumiCommand::HideApply => p4(
            Instr::Do(Effect::RequireLive(LiveNeed::ApplyHideRules)),
            Instr::Do(Effect::ApplyUserHideRules),
            Instr::Do(Effect::RefreshCurrent),
            Instr::Reply(Response::HideApplied),
        ),
        KasumiCommand::LkmStatus => payload(Payload::Lkm),
        KasumiCommand::LkmLoad => p4(
            Instr::Do(Effect::LoadLkm),
            Instr::Do(Effect::InvalidateStatusCache),
            Instr::Do(Effect::RefreshCurrent),
            Instr::Reply(Response::Message(Notice::LkmLoaded)),
        ),
        KasumiCommand::LkmUnload => p4(
            Instr::Do(Effect::UnloadLkm),
            Instr::Do(Effect::InvalidateStatusCache),
            Instr::Do(Effect::RefreshCurrent),
            Instr::Reply(Response::Message(Notice::LkmUnloaded)),
        ),
        KasumiCommand::ApiLkm => payload(Payload::Lkm),
        KasumiCommand::ApiHooks => p3(
            Instr::Do(Effect::RequireLive(LiveNeed::ReadHooks)),
            Instr::Do(Effect::BuildPayload(Payload::Hooks)),
            Instr::Reply(Response::Payload),
        ),
        KasumiCommand::MapsAdd { .. } => p5(
            Instr::Do(Effect::AddMapsRule),
            Instr::Do(Effect::CacheConfig),
            Instr::Do(Effect::ApplyRuntime),
            Instr::Do(Effect::Refresh),
            Instr::Reply(Response::MapsSaved),
        ),
        KasumiCommand::MapsClear => p7(
            Instr::Do(Effect::LoadConfig),
            Instr::Do(Effect::ClearMapsRules),
            Instr::Do(Effect::SaveConfig),
            Instr::Do(Effect::CacheConfig),
            Instr::Do(Effect::ApplyRuntime),
            Instr::Do(Effect::Refresh),
            Instr::Reply(Response::MapsSaved),
        ),
    }
}

/// The program of `command` (see `spec_program`).
pub fn program_of(command: &DaemonCommand) -> (v: Vec<Instr>)
    ensures
        v@ == spec_program(*command),
{
    match command {
        DaemonCommand::System(s) => system_instrs(s),
        DaemonCommand::Config(k) => config_instrs(k),
        DaemonCommand::Modules(m) => modules_instrs(m),
        DaemonCommand::Kasumi(k) => kasumi_instrs(k),
        DaemonCommand::Batch(_) => p3(
            Instr::Do(Effect::RunBatch),
            Instr::Do(Effect::RefreshSnapshot),
            Instr::Reply(Response::BatchResults),
        ),
    }
}

/// A command being carried out: its program, the next instruction, and
/// the last flag reported.
pub struct Dispatch {
    pub program: Vec<Instr>,
    pub pc: usize,
    pub flag: bool,
}

/// Starts carrying out `command`: its program, from the first instruction,
/// with no flag set. The first step is taken with `DispatchEvent::Done`.
pub fn dispatch_command(command: &DaemonCommand) -> (d: Dispatch)
    ensures
        d.program@ == spec_program(*command),
        d.pc == 0,
        !d.flag,
{
    Dispatch { program: program_of(command), pc: 0, flag: false }
}

impl Dispatch {
    /// What to do after `event`: a failure ends the command with its
    /// error; a flag replaces the last one; then the program runs on
    /// (see `spec_run`).
    pub fn step(&mut self, event: DispatchEvent) -> (a: DispatchAction)
        ensures
            final(self).program@ == old(self).program@,
            final(self).pc <= final(self).program@.len(),
            match event {
                DispatchEvent::Failed => {
                    &&& a == DispatchAction::Fail
                    &&& final(self).pc == old(self).program@.len()
                    &&& final(self).flag == old(self).flag
                },
                DispatchEvent::Flag(b) => {
                    &&& final(self).flag == b
                    &&& (final(self).pc as int, a) == spec_run(old(self).program@, old(self).pc as int, b)
                },
                DispatchEvent::Done => {
                    &&& final(self).flag == old(self).flag
                    &&& (final(self).pc as int, a) == spec_run(
                        old(self).program@,
                        old(self).pc as int,
                        old(self).flag,
                    )
                },
            },
    {
        match event {
            DispatchEvent::Failed => {
                self.pc = self.program.len();
                return DispatchAction::Fail;
            },
            DispatchEvent::Flag(b) => {
                self.flag = b;
            },
            DispatchEvent::Done => {},
        }
        let n = self.program.len();
        if self.pc > n {
            self.pc = n;
        }
        while self.pc < n
            invariant
                n == self.program@.len(),
                event != DispatchEvent::Failed,
                self.program@ == old(self).program@,
                self.pc <= n,
                self.flag == (match event {
                    DispatchEvent::Flag(b) => b,
                    _ => old(self).flag,
                }),
                spec_run(self.program@, self.pc as int, self.flag) == spec_run(
                    old(self).program@,
                    old(self).pc as int,
                    self.flag,
                ),
            decreases n - self.pc,
        {
            let instr = self.program[self.pc];
            match instr {
                Instr::Do(e) => {
                    self.pc = self.pc + 1;
                    return DispatchAction::Perform(e);
                },
                Instr::DoIfFlag(e) => {
                    self.pc = self.pc + 1;
                    if self.flag {
                        return DispatchAction::Perform(e);
                    }
                },
                Instr::Reply(r) => {
                    self.pc = n;
                    return DispatchAction::Reply(r);
                },
                Instr::ReplyByFlag(x, y) => {
                    self.pc = n;
                    return DispatchAction::Reply(if self.flag { x } else { y });
                },
                Instr::Reject(j) => {
                    self.pc = n;
                    return DispatchAction::Reject(j);
                },
            }
        }
        DispatchAction::Idle
    }
}

/// Adding a user hide rule hides its path at once only when the rule was
/// added and Kasumi was then found operable; otherwise the command goes
/// straight to the refresh.
pub proof fn lemma_hide_add_hides_only_when_added_and_operable(path: String)
    ensures
        ({
            let p = spec_program(DaemonCommand::Kasumi(KasumiCommand::HideAdd { path }));
            &&& spec_run(p, 0, false) == (1int, DispatchAction::Perform(Effect::AddUserHideRule))
            &&& spec_run(p, 1, false) == (4int, DispatchAction::Perform(Effect::RefreshCurrent))
            &&& spec_run(p, 1, true) == (2int, DispatchAction::Perform(Effect::CheckCanOperate))
            &&& spec_run(p, 2, false) == (4int, DispatchAction::Perform(Effect::RefreshCurrent))
            &&& spec_run(p, 2, true) == (3int, DispatchAction::Perform(Effect::HidePath))
        }),
{
    let p = spec_program(DaemonCommand::Kasumi(KasumiCommand::HideAdd { path }));
    assert(spec_run(p, 3, false) == (4int, DispatchAction::Perform(Effect::RefreshCurrent)));
    assert(spec_run(p, 2, false) == spec_run(p, 3, false));
}

/// Rules are listed only when Kasumi can be operated; otherwise the reply
/// is an empty listing.
pub proof fn lemma_list_only_when_operable()
    ensures
        ({
            let p = spec_program(DaemonCommand::Kasumi(KasumiCommand::List));
            &&& spec_run(p, 0, false) == (1int, DispatchAction::Perform(Effect::CheckCanOperate))
            &&& spec_run(p, 1, true) == (2int, DispatchAction::Perform(Effect::ListRules))
            &&& spec_run(p, 1, false) == (3int, DispatchAction::Reply(Response::EmptyListing))
            &&& spec_run(p, 2, true) == (3int, DispatchAction::Reply(Response::RuleListing))
        }),
{
    let p = spec_program(DaemonCommand::Kasumi(KasumiCommand::List));
    assert(spec_run(p, 2, false) == (3int, DispatchAction::Reply(Response::EmptyListing)));
}

/// A configuration patch reaches the running Kasumi only when asked to;
/// otherwise it is reported as not applied.
pub proof fn lemma_patch_applies_only_when_asked(patch: String, apply_runtime: bool)
    ensures
        ({
            let p = spec_program(DaemonCommand::Config(ConfigCommand::Patch { patch, apply_runtime }));
            &&& p.contains(Instr::Do(Effect::ApplyRuntime)) <==> apply_runtime
            &&& !apply_runtime ==> p.last() == Instr::Reply(Response::SavedApplied(false))
        }),
{
    let p = spec_program(DaemonCommand::Config(ConfigCommand::Patch { patch, apply_runtime }));
    if apply_runtime {
        assert(p[2] == Instr::Do(Effect::ApplyRuntime));
    } else {
        assert(!p.contains(Instr::Do(Effect::ApplyRuntime))) by {
            if p.contains(Instr::Do(Effect::ApplyRuntime)) {
                let k = choose|k: int| 0 <= k < p.len() && p[k] == Instr::Do(Effect::ApplyRuntime);
                assert(k < 4);
            }
        }
    }
}

/// The instruction answers the command: a reply or a rejection.
pub open spec fn is_answer(i: Instr) -> bool {
    i is Reply || i is ReplyByFlag || i is Reject
}

/// Every command's program ends with its answer, and nothing before the end
/// answers: each command is answered exactly once, after all its effects.
pub proof fn lemma_programs_answer_once(c: DaemonCommand)
    ensures
        spec_program(c).len() > 0,
        is_answer(spec_program(c).last()),
        forall|k: int| 0 <= k < spec_program(c).len() - 1 ==> !is_answer(#[trigger] spec_program(c)[k]),
{
    let p = spec_program(c);
    match c {
        DaemonCommand::Kasumi(KasumiCommand::SetUname { mode, .. }) => {
            assert(p == uname_program(mode@, true));
        },
        DaemonCommand::Kasumi(KasumiCommand::ClearUname { mode }) => {
            assert(p == uname_program(mode@, false));
        },
        DaemonCommand::Kasumi(KasumiCommand::RuleAdd { file_type, .. }) => {
            if file_type is None {
                assert(p =~= seq![
                    Instr::Do(Effect::DetectFileType),
                    Instr::Do(Effect::AddRule),
                    Instr::Do(Effect::RefreshCurrent),
                    Instr::Reply(Response::RuleAdded),
                ]);
            }
        },
        _ => {},
    }
}

} // verus!
