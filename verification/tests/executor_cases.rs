use hybrid_mount::config::Config;
use hybrid_mount::executor::{
    collect_involved_modules, is_symlink_loop_mount_error, resolve_magic_failure_modules,
    ExecAction, ExecEvent, ExecPhase, Executor,
};
use hybrid_mount::plan::{MountPlan, OverlayOperation};
use hybrid_mount::recovery::FailureStage;
use hybrid_mount::runtime_state::MountStatistics;

fn strings(v: &[&str]) -> Vec<String> {
    v.iter().map(|s| s.to_string()).collect()
}

fn op(partition: &str, target: &str, layers: &[&str]) -> OverlayOperation {
    OverlayOperation {
        partition_name: partition.to_string(),
        target: target.to_string(),
        lowerdirs: strings(layers),
    }
}

fn plan_with(ops: Vec<OverlayOperation>, magic: &[&str], kasumi: &[&str]) -> MountPlan {
    let mut plan = MountPlan::empty();
    plan.overlay_ops = ops;
    plan.magic_module_ids = strings(magic);
    plan.kasumi_module_ids = strings(kasumi);
    plan
}

fn config(fallback: bool, kasumi: bool) -> Config {
    let mut c = Config::with_mount_source("KSU".to_string());
    c.enable_overlay_fallback = fallback;
    c.kasumi.enabled = kasumi;
    c
}

fn step(exec: &mut Executor, plan: &mut MountPlan, event: ExecEvent) -> ExecAction {
    assert!(exec.accepts(plan, &event));
    exec.execute(plan, event)
}

fn started(kasumi_available: bool, overlay_supported: bool, fallback: &[&str]) -> ExecEvent {
    ExecEvent::Started {
        kasumi_available,
        overlay_supported,
        fallback_candidates: strings(fallback),
    }
}

#[test]
fn execution_mounts_each_overlay_then_finishes() {
    let mut plan = plan_with(
        vec![op("system", "/system/bin", &["/s/a/system/bin"]), op("vendor", "/vendor/etc", &["/s/b/vendor/etc"])],
        &[],
        &[],
    );
    let mut exec = Executor::new(&config(false, false));
    assert_eq!(exec.phase_of(), ExecPhase::Start);
    assert!(matches!(step(&mut exec, &mut plan, started(false, true, &[])), ExecAction::MountOverlay(0)));
    assert_eq!(exec.phase_of(), ExecPhase::Overlay);
    let a = step(&mut exec, &mut plan, ExecEvent::OverlayMounted { involved: strings(&["a"]) });
    assert!(matches!(a, ExecAction::MountOverlay(1)));
    let a = step(&mut exec, &mut plan, ExecEvent::OverlayMounted { involved: strings(&["b"]) });
    match a {
        ExecAction::Finished(r) => {
            assert_eq!(r.overlay_module_ids, strings(&["a", "b"]));
            assert_eq!(r.overlay_partitions, strings(&["system", "vendor"]));
            assert!(r.magic_module_ids.is_empty());
            assert!(!r.kasumi_runtime_enabled);
            assert_eq!(r.mount_stats.overlayfs_mounts, 2);
            assert_eq!(r.mount_stats.successful_mounts, 2);
            assert_eq!(r.mount_stats.total_mounts, 2);
        }
        other => panic!("unexpected action {other:?}"),
    }
    assert_eq!(exec.phase_of(), ExecPhase::Done);
    assert!(!exec.accepts(&plan, &ExecEvent::KasumiApplied { runtime_enabled: true }));
}

#[test]
fn overlay_failure_without_loop_fails_the_involved_modules() {
    let mut plan = plan_with(vec![op("system", "/system/bin", &["/s/a/system/bin"])], &[], &[]);
    let mut exec = Executor::new(&config(true, false));
    step(&mut exec, &mut plan, started(false, true, &[]));
    let a = step(
        &mut exec,
        &mut plan,
        ExecEvent::OverlayFailed {
            involved: strings(&["a"]),
            symlink_loop: false,
            message: "EBUSY".to_string(),
        },
    );
    match a {
        ExecAction::Failed(f) => {
            assert_eq!(f.stage, FailureStage::Execute);
            assert_eq!(f.module_ids, strings(&["a"]));
            assert_eq!(f.source, "Overlay mount failed for /system/bin: EBUSY");
        }
        other => panic!("unexpected action {other:?}"),
    }
}

#[test]
fn symlink_loop_falls_back_to_magic_when_allowed() {
    let mut plan = plan_with(vec![op("system", "/system/bin", &["/s/a/system/bin"])], &["z"], &[]);
    let mut exec = Executor::new(&config(true, false));
    step(&mut exec, &mut plan, started(false, true, &[]));
    let a = step(
        &mut exec,
        &mut plan,
        ExecEvent::OverlayFailed {
            involved: strings(&["a"]),
            symlink_loop: true,
            message: "Too many symbolic links".to_string(),
        },
    );
    match a {
        ExecAction::MountMagic(ids) => assert_eq!(ids, strings(&["a", "z"])),
        other => panic!("unexpected action {other:?}"),
    }
    assert_eq!(exec.phase_of(), ExecPhase::Magic);
    let mut stats = MountStatistics::default();
    stats.files_mounted = 3;
    let a = step(&mut exec, &mut plan, ExecEvent::MagicMounted { mounted: strings(&["a"]), stats });
    match a {
        ExecAction::Finished(r) => {
            assert_eq!(r.magic_module_ids, strings(&["a"]));
            assert!(r.overlay_module_ids.is_empty());
            assert_eq!(r.mount_stats.failed_mounts, 1);
            assert_eq!(r.mount_stats.total_mounts, 1);
            assert_eq!(r.mount_stats.files_mounted, 3);
        }
        other => panic!("unexpected action {other:?}"),
    }
}

#[test]
fn symlink_loop_without_fallback_fails() {
    let mut plan = plan_with(vec![op("system", "/system/bin", &["/s/a/system/bin"])], &[], &[]);
    let mut exec = Executor::new(&config(false, false));
    step(&mut exec, &mut plan, started(false, true, &[]));
    let a = step(
        &mut exec,
        &mut plan,
        ExecEvent::OverlayFailed {
            involved: strings(&["a"]),
            symlink_loop: true,
            message: "loop".to_string(),
        },
    );
    assert!(matches!(a, ExecAction::Failed(ref f) if f.module_ids == strings(&["a"])));
}

#[test]
fn missing_overlayfs_uses_fallback_candidates_or_aborts() {
    let plan0 = plan_with(vec![op("system", "/system/bin", &["/s/a/system/bin"])], &[], &[]);

    let mut plan = plan0.clone();
    let mut exec = Executor::new(&config(true, false));
    let a = step(&mut exec, &mut plan, started(false, false, &["a"]));
    assert!(matches!(a, ExecAction::MountMagic(ref ids) if *ids == strings(&["a"])));

    let mut plan = plan0.clone();
    let mut exec = Executor::new(&config(true, false));
    let a = step(&mut exec, &mut plan, started(false, false, &[]));
    assert!(matches!(a, ExecAction::Aborted(ref m)
        if m == "[executor] overlayfs unsupported and no modules could be inferred for magic fallback"));

    let mut plan = plan0;
    let mut exec = Executor::new(&config(false, false));
    let a = step(&mut exec, &mut plan, started(false, false, &["a"]));
    assert!(matches!(a, ExecAction::Aborted(ref m)
        if m == "[executor] overlayfs unsupported and overlay operations are pending"));
}

#[test]
fn planned_kasumi_modules_fail_when_kasumi_is_gone() {
    let mut plan = plan_with(Vec::new(), &[], &["k"]);
    let mut exec = Executor::new(&config(false, true));
    let a = step(&mut exec, &mut plan, started(false, true, &[]));
    match a {
        ExecAction::Failed(f) => {
            assert_eq!(f.module_ids, strings(&["k"]));
            assert_eq!(f.source, "Kasumi became unavailable before execution");
        }
        other => panic!("unexpected action {other:?}"),
    }
}

#[test]
fn kasumi_runtime_is_applied_last_when_enabled() {
    let mut plan = plan_with(Vec::new(), &[], &["k"]);
    let mut exec = Executor::new(&config(false, true));
    let a = step(&mut exec, &mut plan, started(true, true, &[]));
    assert!(matches!(a, ExecAction::ApplyKasumi));
    assert_eq!(exec.phase_of(), ExecPhase::Kasumi);
    let a = step(&mut exec, &mut plan, ExecEvent::KasumiApplied { runtime_enabled: true });
    match a {
        ExecAction::Finished(r) => {
            assert!(r.kasumi_runtime_enabled);
            assert_eq!(r.kasumi_module_ids, strings(&["k"]));
        }
        other => panic!("unexpected action {other:?}"),
    }

    let mut plan = plan_with(Vec::new(), &[], &["k"]);
    let mut exec = Executor::new(&config(false, true));
    step(&mut exec, &mut plan, started(true, true, &[]));
    let a = step(&mut exec, &mut plan, ExecEvent::KasumiFailed { message: "boom".to_string() });
    assert!(matches!(a, ExecAction::Failed(ref f)
        if f.module_ids == strings(&["k"]) && f.source == "Failed to apply Kasumi late rules: boom"));
}

#[test]
fn magic_failure_names_reported_or_all_modules() {
    let mut plan = plan_with(Vec::new(), &["a", "b"], &[]);
    let mut exec = Executor::new(&config(false, false));
    step(&mut exec, &mut plan, started(false, true, &[]));
    let a = step(
        &mut exec,
        &mut plan,
        ExecEvent::MagicFailed { reported: Vec::new(), message: "bad".to_string() },
    );
    assert!(matches!(a, ExecAction::Failed(ref f)
        if f.module_ids == strings(&["a", "b"])
            && f.source == "Failed to mount Magic Mount modules [a, b]: bad"));

    assert_eq!(resolve_magic_failure_modules(&strings(&["b"]), &strings(&["a", "b"])), strings(&["b"]));
    assert_eq!(resolve_magic_failure_modules(&Vec::new(), &strings(&["a", "b"])), strings(&["a", "b"]));
}

#[test]
fn symlink_loop_is_recognised_in_any_cause() {
    assert!(is_symlink_loop_mount_error(&strings(&["mount", "Too many symbolic links encountered"])));
    assert!(is_symlink_loop_mount_error(&strings(&["x (os error 40)"])));
    assert!(!is_symlink_loop_mount_error(&strings(&["os error 4", "busy"])));
}

#[test]
fn involved_modules_are_read_from_layer_paths() {
    let o = op("system", "/system/bin", &["/nonexistent/x/system/bin"]);
    assert!(collect_involved_modules(&o).is_empty());
}

#[test]
fn planned_kasumi_modules_fail_when_kasumi_is_disabled() {
    let mut plan = plan_with(Vec::new(), &[], &["foo"]);
    let mut exec = Executor::new(&config(false, false));
    let a = step(&mut exec, &mut plan, started(true, true, &[]));
    match a {
        ExecAction::Failed(f) => {
            assert!(matches!(f.stage, FailureStage::Execute));
            assert_eq!(f.module_ids, strings(&["foo"]));
            assert_eq!(f.source, "Kasumi became unavailable before execution");
        }
        other => panic!("unexpected action {other:?}"),
    }
    assert_eq!(plan.kasumi_module_ids, strings(&["foo"]));
}
