use hybrid_mount::prepare::prepare_mount_plan_with_root;
use hybrid_mount::prepare::{plan_module_with_probes, TargetProbe};
use hybrid_mount::domain::{ModuleRules, MountMode};
use hybrid_mount::flavor::BuildFlavor;
use hybrid_mount::inventory::Module;
use hybrid_mount::plan::MountPlan;
use hybrid_mount::prepare::{
    prepare_module, prepare_mount_plan, EntryState, ModulePrepareOutcome, PrepareContext,
    SourceDir, SourceTree,
};
use tempfile::{Builder, TempDir};

fn strings(v: &[&str]) -> Vec<String> {
    v.iter().map(|s| s.to_string()).collect()
}

fn make_module(id: &str, default_mode: MountMode, rules: &[(&str, MountMode)]) -> Module {
    Module {
        id: id.to_string(),
        source_path: format!("/data/adb/modules/{id}"),
        rules: ModuleRules {
            default_mode,
            paths: rules.iter().map(|(p, m)| (p.to_string(), *m)).collect(),
        },
    }
}

fn dir(name: &str, parent: Option<usize>, files: bool, dirs: bool, markers: usize) -> SourceDir {
    SourceDir {
        name: name.to_string(),
        parent,
        entry: EntryState {
            direct_non_dir_entries: files,
            has_child_dirs: dirs,
            has_replace_marker: markers > 0,
        },
        replace_markers: markers,
    }
}

fn tree(dirs: Vec<SourceDir>) -> SourceTree {
    SourceTree { root_replace_markers: 0, root_files: Vec::new(), dirs }
}

/// A module holding `system/bin/sh`.
fn shell_tree() -> SourceTree {
    tree(vec![dir("system", None, false, true, 0), dir("bin", Some(0), true, false, 0)])
}

/// A stand-in for the live root: a temporary directory holding `system`
/// and, inside it, the given directories.
struct SystemRoot {
    children: Vec<TempDir>,
    system: TempDir,
    root: TempDir,
}

impl SystemRoot {
    fn new(children: &[&str]) -> SystemRoot {
        let root = tempfile::tempdir().unwrap();
        let system = Builder::new().prefix("system").rand_bytes(0).tempdir_in(root.path()).unwrap();
        let children = children
            .iter()
            .map(|c| Builder::new().prefix(*c).rand_bytes(0).tempdir_in(system.path()).unwrap())
            .collect();
        SystemRoot { children, system, root }
    }

    fn path(&self) -> String {
        let _ = (&self.children, &self.system);
        self.root.path().to_string_lossy().into_owned()
    }
}

const STORAGE: &str = "/nonexistent_storage";

/// Plans each module over `system_root` as a mount run does, and returns
/// the plan together with each module's preparation outcome.
fn prepare_with_root(
    modules: &[(Module, SourceTree)],
    system_root: &str,
    use_kasumi: bool,
) -> (MountPlan, Vec<ModulePrepareOutcome>) {
    let mut ctx = PrepareContext::new(use_kasumi, false, BuildFlavor::Full, strings(&["system"]));
    let list: Vec<Module> = modules.iter().map(|(m, _)| m.clone()).collect();
    let trees: Vec<SourceTree> = modules.iter().map(|(_, t)| t.clone()).collect();
    let (outcomes, plan) = if system_root == "/" {
        prepare_mount_plan(&list, &trees, STORAGE, &mut ctx)
    } else {
        prepare_mount_plan_with_root(&list, &trees, STORAGE, system_root, &mut ctx)
    };
    (plan, outcomes)
}

#[test]
fn prepare_prepare_mount_plan_builds_overlay_op_from_prepared_storage() {
    let root = SystemRoot::new(&["bin"]);
    let sysroot = root.path();
    let module = make_module("foo", MountMode::Overlay, &[]);
    let (plan, outcomes) = prepare_with_root(&[(module, shell_tree())], &sysroot, false);

    assert_eq!(plan.overlay_ops.len(), 1);
    assert_eq!(plan.magic_module_ids, Vec::<String>::new());
    assert_eq!(plan.kasumi_module_ids, Vec::<String>::new());
    assert!(outcomes[0].keep_module());
    assert_eq!(plan.overlay_ops[0].target, format!("{sysroot}/system/bin"));
    assert_eq!(plan.overlay_ops[0].lowerdirs, vec![format!("{STORAGE}/foo/system/bin")]);
}

#[test]
fn prepare_prepare_mount_plan_marks_magic_modules_without_overlay() {
    let root = SystemRoot::new(&["bin"]);
    let module = make_module("foo", MountMode::Overlay, &[("system/bin", MountMode::Magic)]);
    let (plan, outcomes) = prepare_with_root(&[(module, shell_tree())], &root.path(), false);

    assert!(plan.overlay_ops.is_empty());
    assert_eq!(plan.magic_module_ids, vec!["foo".to_string()]);
    assert_eq!(plan.kasumi_module_ids, Vec::<String>::new());
    assert!(outcomes[0].keep_module());
}

#[test]
fn prepare_prepare_mount_plan_ignores_kasumi_when_unavailable() {
    let root = SystemRoot::new(&["bin"]);
    let module = make_module("foo", MountMode::Kasumi, &[]);
    let (plan, outcomes) = prepare_with_root(&[(module, shell_tree())], &root.path(), false);

    assert!(plan.overlay_ops.is_empty());
    assert!(plan.magic_module_ids.is_empty());
    assert!(plan.kasumi_module_ids.is_empty());
    assert!(!outcomes[0].keep_module());
}

#[test]
fn prepare_prepare_mount_plan_drops_modules_without_plan_results() {
    let root = SystemRoot::new(&["bin"]);
    let module = make_module("foo", MountMode::Ignore, &[]);
    let (plan, outcomes) = prepare_with_root(&[(module, shell_tree())], &root.path(), false);

    assert!(plan.overlay_ops.is_empty());
    assert!(plan.magic_module_ids.is_empty());
    assert!(plan.kasumi_module_ids.is_empty());
    assert!(!outcomes[0].keep_module());
}

#[test]
fn prepare_prepare_mount_plan_skips_replace_marker_entries() {
    let root = SystemRoot::new(&["bin"]);
    let module = make_module("foo", MountMode::Overlay, &[]);
    let source = tree(vec![dir("system", None, false, true, 1), dir("bin", Some(0), true, false, 0)]);
    let (plan, outcomes) = prepare_with_root(&[(module, source)], &root.path(), false);

    assert!(!plan.overlay_ops.is_empty());
    assert!(outcomes[0].keep_module());
    assert_eq!(outcomes[0].opaque_dirs, vec![format!("{STORAGE}/.tmp_foo/system")]);
}

#[test]
fn prepare_prepare_mount_plan_keeps_replace_only_overlay_dir() {
    let root = SystemRoot::new(&["app"]);
    let sysroot = root.path();
    let module = make_module("foo", MountMode::Overlay, &[]);
    let source = tree(vec![dir("system", None, false, true, 0), dir("app", Some(0), false, false, 1)]);
    let (plan, outcomes) = prepare_with_root(&[(module, source)], &sysroot, false);

    assert_eq!(plan.overlay_ops.len(), 1);
    assert_eq!(plan.overlay_ops[0].target, format!("{sysroot}/system/app"));
    assert!(outcomes[0].keep_module());
    assert_eq!(outcomes[0].opaque_dirs, vec![format!("{STORAGE}/.tmp_foo/system/app")]);
}

#[test]
fn prepare_prepare_mount_plan_marks_magic_for_replace_only_dir() {
    let root = SystemRoot::new(&[]);
    let module = make_module("foo", MountMode::Magic, &[]);
    let source = tree(vec![dir("system", None, false, false, 1)]);
    let (plan, outcomes) = prepare_with_root(&[(module, source)], &root.path(), false);

    assert!(plan.overlay_ops.is_empty());
    assert_eq!(plan.magic_module_ids, vec!["foo".to_string()]);
    assert!(outcomes[0].keep_module());
    assert_eq!(outcomes[0].opaque_dirs, vec![format!("{STORAGE}/.tmp_foo/system")]);
}

#[test]
fn planning_from_probes_follows_the_walk() {
    let module = make_module("m", MountMode::Overlay, &[]);
    let ctx = PrepareContext::new(false, false, BuildFlavor::Lite, strings(&["system", "vendor"]));
    let probes = vec![
        TargetProbe { exists: true, resolved: "/system".to_string() },
        TargetProbe { exists: true, resolved: "/system/bin".to_string() },
    ];
    let plan = plan_module_with_probes(&module.rules, &shell_tree(), "/final/m", "/", &ctx, &probes);
    assert_eq!(plan.overlay_groups.len(), 1);
    assert_eq!(plan.overlay_groups[0].target, "/system/bin");
    assert_eq!(plan.overlay_groups[0].partition, "system");
    assert_eq!(plan.overlay_groups[0].layers, strings(&["/final/m/system/bin"]));
    assert!(!plan.magic && !plan.kasumi);

    // A target that leads elsewhere is planned where it leads, under the
    // label of the place it leads to.
    let probes = vec![
        TargetProbe { exists: true, resolved: "/system".to_string() },
        TargetProbe { exists: true, resolved: "/vendor/bin".to_string() },
    ];
    let plan = plan_module_with_probes(&module.rules, &shell_tree(), "/final/m", "/", &ctx, &probes);
    assert_eq!(plan.overlay_groups[0].target, "/vendor/bin");
    assert_eq!(plan.overlay_groups[0].partition, "system");

    // A missing target plans nothing; missing probes read as missing.
    let probes = vec![TargetProbe { exists: true, resolved: "/system".to_string() }];
    let plan = plan_module_with_probes(&module.rules, &shell_tree(), "/final/m", "/", &ctx, &probes);
    assert!(plan.overlay_groups.is_empty());
}

#[test]
fn planning_all_modules_keeps_only_modules_with_content() {
    let modules = vec![
        make_module("a", MountMode::Magic, &[]),
        make_module("b", MountMode::Magic, &[]),
        make_module("c", MountMode::Kasumi, &[]),
    ];
    let empty = tree(vec![dir("system", None, false, false, 0)]);
    let trees = vec![shell_tree(), empty, shell_tree()];
    let mut ctx = PrepareContext::new(false, false, BuildFlavor::Lite, strings(&["system"]));
    let (outcomes, plan) = prepare_mount_plan_with_root(&modules, &trees, "/storage", "/", &mut ctx);
    assert_eq!(outcomes.len(), 3);
    assert!(outcomes[0].keep_module());
    assert!(!outcomes[1].keep_module());
    assert!(!outcomes[2].plan.kasumi);
    assert_eq!(plan.magic_module_ids, strings(&["a"]));
    assert!(plan.kasumi_module_ids.is_empty());
    assert!(plan.overlay_ops.is_empty());
}

#[test]
fn modules_over_one_target_share_one_mount() {
    let modules = vec![
        (make_module("a", MountMode::Overlay, &[]), shell_tree()),
        (make_module("b", MountMode::Overlay, &[]), shell_tree()),
    ];
    let sys = SystemRoot::new(&["bin"]);
    let (plan, _) = prepare_with_root(&modules, &sys.path(), false);
    assert_eq!(plan.overlay_ops.len(), 1);
    assert_eq!(plan.overlay_ops[0].lowerdirs.len(), 2);
    let targets: Vec<&String> = plan.overlay_ops.iter().map(|o| &o.target).collect();
    let mut unique = targets.clone();
    unique.sort();
    unique.dedup();
    assert_eq!(targets.len(), unique.len());
    for op in &plan.overlay_ops {
        for id in ["a", "b"] {
            assert!(op.lowerdirs.iter().any(|l| l.contains(&format!("/{id}/"))), "{op:?}");
        }
    }
}
