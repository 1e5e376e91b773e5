use hybrid_mount::config::KasumiUnameMode;
use hybrid_mount::dispatch::{
    dispatch_command, DispatchAction, DispatchEvent, Effect, Notice, Payload, Rejection, Response,
};
use hybrid_mount::protocol::{
    BatchCommand, ConfigCommand, DaemonCommand, KasumiCommand, ModulesCommand, SystemCommand,
};

/// Runs a command, answering each effect from `answers` (a flag, or done).
fn run(command: DaemonCommand, answers: &[(Effect, DispatchEvent)]) -> (Vec<Effect>, DispatchAction) {
    let mut d = dispatch_command(&command);
    let mut performed = Vec::new();
    let mut action = d.step(DispatchEvent::Done);
    loop {
        match action {
            DispatchAction::Perform(e) => {
                performed.push(e);
                let event = answers
                    .iter()
                    .find(|(x, _)| *x == e)
                    .map(|(_, ev)| *ev)
                    .unwrap_or(DispatchEvent::Done);
                action = d.step(event);
            }
            other => return (performed, other),
        }
    }
}

fn hide_add() -> DaemonCommand {
    DaemonCommand::Kasumi(KasumiCommand::HideAdd { path: "/system/app/x".to_string() })
}

#[test]
fn hide_add_hides_only_added_rules_when_operable() {
    let (done, reply) = run(
        hide_add(),
        &[(Effect::AddUserHideRule, DispatchEvent::Flag(true)), (Effect::CheckCanOperate, DispatchEvent::Flag(true))],
    );
    assert_eq!(done, vec![Effect::AddUserHideRule, Effect::CheckCanOperate, Effect::HidePath, Effect::RefreshCurrent]);
    assert_eq!(reply, DispatchAction::Reply(Response::HideAdded));

    let (done, _) = run(
        hide_add(),
        &[(Effect::AddUserHideRule, DispatchEvent::Flag(true)), (Effect::CheckCanOperate, DispatchEvent::Flag(false))],
    );
    assert_eq!(done, vec![Effect::AddUserHideRule, Effect::CheckCanOperate, Effect::RefreshCurrent]);

    let (done, _) = run(hide_add(), &[(Effect::AddUserHideRule, DispatchEvent::Flag(false))]);
    assert_eq!(done, vec![Effect::AddUserHideRule, Effect::RefreshCurrent]);
}

#[test]
fn kasumi_list_is_empty_when_not_operable() {
    let (done, reply) = run(DaemonCommand::Kasumi(KasumiCommand::List), &[(Effect::CheckCanOperate, DispatchEvent::Flag(false))]);
    assert_eq!(done, vec![Effect::CheckCanOperate]);
    assert_eq!(reply, DispatchAction::Reply(Response::EmptyListing));
    let (done, reply) = run(DaemonCommand::Kasumi(KasumiCommand::List), &[(Effect::CheckCanOperate, DispatchEvent::Flag(true))]);
    assert_eq!(done, vec![Effect::CheckCanOperate, Effect::ListRules]);
    assert_eq!(reply, DispatchAction::Reply(Response::RuleListing));
}

#[test]
fn config_patch_applies_runtime_only_when_asked() {
    let patch = |apply_runtime| DaemonCommand::Config(ConfigCommand::Patch { patch: "{}".to_string(), apply_runtime });
    let (done, reply) = run(patch(false), &[]);
    assert_eq!(done, vec![Effect::PatchConfigFile, Effect::CacheConfig, Effect::Refresh]);
    assert_eq!(reply, DispatchAction::Reply(Response::SavedApplied(false)));
    let (done, reply) = run(patch(true), &[(Effect::ApplyRuntime, DispatchEvent::Flag(true))]);
    assert_eq!(done, vec![Effect::PatchConfigFile, Effect::CacheConfig, Effect::ApplyRuntime, Effect::Refresh]);
    assert_eq!(reply, DispatchAction::Reply(Response::SavedApplied(true)));
}

#[test]
fn maps_commands_save_cache_apply_and_refresh_in_order() {
    let (done, reply) = run(DaemonCommand::Kasumi(KasumiCommand::MapsClear), &[]);
    assert_eq!(
        done,
        vec![
            Effect::LoadConfig,
            Effect::ClearMapsRules,
            Effect::SaveConfig,
            Effect::CacheConfig,
            Effect::ApplyRuntime,
            Effect::Refresh
        ]
    );
    assert_eq!(reply, DispatchAction::Reply(Response::MapsSaved));
    let (done, _) = run(DaemonCommand::Kasumi(KasumiCommand::MapsAdd { rule: "{}".to_string() }), &[]);
    assert_eq!(done, vec![Effect::AddMapsRule, Effect::CacheConfig, Effect::ApplyRuntime, Effect::Refresh]);
}

#[test]
fn uname_modes_are_checked_before_anything_is_done() {
    let (done, reply) = run(DaemonCommand::Kasumi(KasumiCommand::ClearUname { mode: "local".to_string() }), &[]);
    assert!(done.is_empty());
    assert_eq!(reply, DispatchAction::Reject(Rejection::InvalidUnameMode));
    let (done, reply) = run(DaemonCommand::Kasumi(KasumiCommand::ClearUname { mode: "global".to_string() }), &[]);
    assert_eq!(done, vec![Effect::RestoreUnameGlobal, Effect::RefreshCurrent]);
    assert_eq!(reply, DispatchAction::Reply(Response::UnameCleared(KasumiUnameMode::Global)));
    let set = KasumiCommand::SetUname { mode: "scoped".to_string(), release: "6.1".to_string(), version: String::new() };
    let (done, _) = run(DaemonCommand::Kasumi(set), &[]);
    assert_eq!(done, vec![Effect::ApplyUname(KasumiUnameMode::Scoped, true), Effect::RefreshCurrent]);
}

#[test]
fn failures_end_the_command() {
    let mut d = dispatch_command(&DaemonCommand::Kasumi(KasumiCommand::LkmLoad));
    assert_eq!(d.step(DispatchEvent::Done), DispatchAction::Perform(Effect::LoadLkm));
    assert_eq!(d.step(DispatchEvent::Failed), DispatchAction::Fail);
    assert_eq!(d.step(DispatchEvent::Done), DispatchAction::Idle);
    let (done, reply) = run(DaemonCommand::Kasumi(KasumiCommand::LkmLoad), &[]);
    assert_eq!(done, vec![Effect::LoadLkm, Effect::InvalidateStatusCache, Effect::RefreshCurrent]);
    assert_eq!(reply, DispatchAction::Reply(Response::Message(Notice::LkmLoaded)));
    assert_eq!(Notice::LkmLoaded.text(), "Kasumi LKM loaded.");
}

#[test]
fn other_commands_follow_their_programs() {
    let (done, reply) = run(DaemonCommand::System(SystemCommand::Ping), &[]);
    assert!(done.is_empty());
    assert_eq!(reply, DispatchAction::Reply(Response::Pong));
    let (done, _) = run(DaemonCommand::System(SystemCommand::Status), &[]);
    assert_eq!(done, vec![Effect::BuildPayload(Payload::Status)]);
    let (done, _) = run(DaemonCommand::Modules(ModulesCommand::Apply { modules: Vec::new() }), &[]);
    assert_eq!(done, vec![Effect::ApplyModules, Effect::ReloadConfig, Effect::CacheConfig, Effect::Refresh]);
    let add = KasumiCommand::RuleAdd { target: "/a".to_string(), source: "/b".to_string(), file_type: None };
    let (done, _) = run(DaemonCommand::Kasumi(add), &[]);
    assert_eq!(done, vec![Effect::DetectFileType, Effect::AddRule, Effect::RefreshCurrent]);
    let (done, reply) = run(DaemonCommand::Batch(BatchCommand::Batch { commands: Vec::new() }), &[]);
    assert_eq!(done, vec![Effect::RunBatch, Effect::RefreshSnapshot]);
    assert_eq!(reply, DispatchAction::Reply(Response::BatchResults));
}
