use hybrid_mount::api::{
    build_runtime_modules_payload, build_scanned_modules_payload, build_version_payload,
    collect_mount_error_marker_modules, contains_mount_commands, has_suspicious_shell_commands,
    plan_module_apply, read_module_metadata, runtime_module_ids, set_module_rules, DirProbe,
    DisableMarker, ModuleApplyEntry, ModuleProbe, ScannedEntry, ScriptProbe,
};
use hybrid_mount::compile::{
    build_dtype, compile_rules, EntryMeta, MirrorEntry, MirrorKind, ModuleMirror, PartitionMirror,
};
use hybrid_mount::config::Config;
use hybrid_mount::daemon::should_wake_daemon;
use hybrid_mount::domain::{DefaultMode, ModuleRules, MountMode};
use hybrid_mount::executor::ExecutionResult;
use hybrid_mount::finalization::finalize_with;
use hybrid_mount::flavor::BuildFlavor;
use hybrid_mount::inventory::{load_module_rules, Module};
use hybrid_mount::magic::{partition_slot, PartitionSlot,
    answer_child_failure, attach_partitions, directory_steps, distinct_ids,
    is_valid_module_prop_id, live_entry_action, plan_directory, rules_index,
    select_magic_module, should_fallback_overlay_files, subtree_action, with_module_context,
    ChildProbe, LiveEntryAction, MagicError, MagicMountModuleFailure, ModuleRootEntry,
    NodeFileType, PropFile, SubtreeAction,
};
use hybrid_mount::mountinfo::is_mounted_in;
use hybrid_mount::plan::MountPlan;
use hybrid_mount::prepare::{
    prepare_module, build_mount_plan, EntryState, ModulePlanOutcome, OverlayGroup,
    PrepareContext, SourceDir, SourceTree,
};
use hybrid_mount::recovery::{
    flatten_error_text, FailureStage, ModuleStageFailure, RecoveryAction, RecoveryDecision,
    RecoveryEvent, RecoveryMachine, RecoveryPhase,
};
use hybrid_mount::runtime_state::{KasumiRuntimeInfo, ModuleModeStats, MountStatistics, RuntimeState};
use hybrid_mount::storage::{SizeTally, StorageMode};

fn strings(v: &[&str]) -> Vec<String> {
    v.iter().map(|s| s.to_string()).collect()
}

fn rules(default_mode: MountMode, paths: &[(&str, MountMode)]) -> ModuleRules {
    ModuleRules {
        default_mode,
        paths: paths.iter().map(|(k, v)| (k.to_string(), *v)).collect(),
    }
}

fn empty_state() -> RuntimeState {
    RuntimeState::new(
        "tmpfs".to_string(),
        "/mnt/x".to_string(),
        Vec::new(),
        Vec::new(),
        Vec::new(),
        Vec::new(),
        MountStatistics::default(),
        ModuleModeStats::default(),
        KasumiRuntimeInfo::default(),
        1,
        2,
        false,
    )
}

fn entry(relative: &str, kind: MirrorKind, mode: Option<u32>, target_is_dir: bool) -> MirrorEntry {
    MirrorEntry {
        relative: relative.to_string(),
        source: format!("/mirror/m/{relative}"),
        kind,
        meta: mode.map(|m| EntryMeta { mode: m, rdev: 0 }),
        target: format!("/{relative}"),
        target_is_dir,
    }
}

fn kasumi_module(id: &str, paths: &[(&str, MountMode)]) -> Module {
    Module {
        id: id.to_string(),
        source_path: format!("/data/adb/modules/{id}"),
        rules: rules(MountMode::Kasumi, paths),
    }
}

fn plan_with_kasumi(ids: &[&str]) -> MountPlan {
    let mut plan = MountPlan::empty();
    plan.kasumi_module_ids = strings(ids);
    plan
}

#[test]
fn dtype_follows_file_mode() {
    assert_eq!(build_dtype(EntryMeta { mode: 0o100644, rdev: 0 }), (8, false));
    assert_eq!(build_dtype(EntryMeta { mode: 0o120777, rdev: 0 }), (10, false));
    assert_eq!(build_dtype(EntryMeta { mode: 0o040755, rdev: 0 }), (4, false));
    assert_eq!(build_dtype(EntryMeta { mode: 0o020000, rdev: 0 }), (0, true));
    assert_eq!(build_dtype(EntryMeta { mode: 0o020000, rdev: 5 }), (2, false));
    assert_eq!(build_dtype(EntryMeta { mode: 0o010644, rdev: 0 }), (1, false));
}

#[test]
fn compile_merges_live_directories_and_skips_their_contents() {
    let mut config = Config::with_mount_source("KSU".to_string());
    config.kasumi.mirror_path = "/mirror".to_string();
    let mirror = ModuleMirror {
        module: kasumi_module("m", &[]),
        root_exists: true,
        partitions: vec![PartitionMirror {
            name: "system".to_string(),
            root_is_dir: true,
            resolved_root: "/mirror/m/system".to_string(),
            entries: vec![
                entry("system/lib", MirrorKind::Directory, Some(0o040755), true),
                entry("system/lib/a.so", MirrorKind::Other, Some(0o100644), false),
                entry("system/bin", MirrorKind::Directory, Some(0o040755), false),
                entry("system/bin/tool", MirrorKind::Other, Some(0o100755), false),
                entry("system/bin/.REPLACE", MirrorKind::Other, Some(0o100644), false),
                entry("system/bin/gone", MirrorKind::Other, Some(0o020000), false),
            ],
        }],
    };
    let compiled = compile_rules(&vec![mirror], &plan_with_kasumi(&["m"]), &config).unwrap();
    assert_eq!(compiled.merge_rules.len(), 1);
    assert_eq!(compiled.merge_rules[0].target, "/system/lib");
    assert_eq!(compiled.merge_rules[0].source, "/mirror/m/system/lib");
    assert_eq!(compiled.add_rules.len(), 1);
    assert_eq!(compiled.add_rules[0].target, "/system/bin/tool");
    assert_eq!(compiled.add_rules[0].file_type, 8);
    assert_eq!(compiled.hide_rules, strings(&["/system/bin/gone"]));
}

#[test]
fn compile_ignores_modules_kasumi_does_not_serve() {
    let config = Config::with_mount_source("KSU".to_string());
    let mirror = ModuleMirror {
        module: kasumi_module("other", &[]),
        root_exists: false,
        partitions: Vec::new(),
    };
    let compiled = compile_rules(&vec![mirror], &plan_with_kasumi(&[]), &config).unwrap();
    assert!(compiled.add_rules.is_empty());
    assert!(compiled.merge_rules.is_empty());
    assert!(compiled.hide_rules.is_empty());
}

#[test]
fn compile_reports_missing_mirror_and_unreadable_metadata() {
    let mut config = Config::with_mount_source("KSU".to_string());
    config.kasumi.mirror_path = "/mirror".to_string();
    let missing = ModuleMirror {
        module: kasumi_module("m", &[]),
        root_exists: false,
        partitions: Vec::new(),
    };
    let err = compile_rules(&vec![missing], &plan_with_kasumi(&["m"]), &config).unwrap_err();
    assert_eq!(err, "missing Kasumi mirror content for module m at /mirror/m");

    let unreadable = ModuleMirror {
        module: kasumi_module("m", &[]),
        root_exists: true,
        partitions: vec![PartitionMirror {
            name: "system".to_string(),
            root_is_dir: true,
            resolved_root: "/mirror/m/system".to_string(),
            entries: vec![entry("system/x", MirrorKind::Other, None, false)],
        }],
    };
    let err = compile_rules(&vec![unreadable], &plan_with_kasumi(&["m"]), &config).unwrap_err();
    assert_eq!(err, "failed to read metadata for kasumi source /mirror/m/system/x");
}

#[test]
fn compile_walks_each_resolved_partition_root_once_and_respects_path_rules() {
    let config = Config::with_mount_source("KSU".to_string());
    let walk = vec![
        entry("system/a", MirrorKind::Other, Some(0o100644), false),
        entry("system/b", MirrorKind::Other, Some(0o100644), false),
    ];
    let mirror = ModuleMirror {
        module: kasumi_module("m", &[("system/b", MountMode::Overlay)]),
        root_exists: true,
        partitions: vec![
            PartitionMirror {
                name: "system".to_string(),
                root_is_dir: true,
                resolved_root: "/same".to_string(),
                entries: walk.clone(),
            },
            PartitionMirror {
                name: "vendor".to_string(),
                root_is_dir: true,
                resolved_root: "/same".to_string(),
                entries: walk,
            },
        ],
    };
    let compiled = compile_rules(&vec![mirror], &plan_with_kasumi(&["m"]), &config).unwrap();
    assert_eq!(compiled.add_rules.len(), 1);
    assert_eq!(compiled.add_rules[0].target, "/system/a");
}

#[test]
fn magic_failure_message_names_modules() {
    let plain = MagicMountModuleFailure::new(Vec::new(), "boom".to_string());
    assert_eq!(plain.message(), "magic mount module failure: boom");
    let named = MagicMountModuleFailure::new(strings(&["a", "b"]), "boom".to_string());
    assert_eq!(named.message(), "magic mount module failure for [a, b]: boom");
    match with_module_context(Vec::new(), "x".to_string()) {
        MagicError::Plain(m) => assert_eq!(m, "x"),
        MagicError::Module(_) => panic!("expected a plain error"),
    }
    let e = with_module_context(strings(&["m"]), "x".to_string());
    assert_eq!(e.message(), "magic mount module failure for [m]: x");
}

#[test]
fn module_prop_id_check_takes_first_id_line() {
    assert!(is_valid_module_prop_id(&strings(&["name=x", "id=good_id"]), false));
    assert!(!is_valid_module_prop_id(&strings(&["id=1bad"]), false));
    assert!(!is_valid_module_prop_id(&strings(&["identity=a"]), false));
    assert!(is_valid_module_prop_id(&strings(&["name=x"]), false));
    assert!(!is_valid_module_prop_id(&strings(&["name=x"]), true));
    assert!(is_valid_module_prop_id(&strings(&["id=ok", "id=1bad"]), true));
}

#[test]
fn overlay_files_fall_back_only_with_rules_below() {
    let r = rules(MountMode::Overlay, &[("system/bin/tool", MountMode::Magic)]);
    assert!(should_fallback_overlay_files(&r, "system/bin", false, true));
    assert!(!should_fallback_overlay_files(&r, "system/bin", false, false));
    assert!(!should_fallback_overlay_files(&r, "system/etc", false, true));
}

#[test]
fn subtree_actions_follow_rules() {
    let r = rules(MountMode::Magic, &[("system/app/x", MountMode::Overlay)]);
    assert_eq!(subtree_action(&r, "system/lib", true, false, false, None), SubtreeAction::CollectWhole);
    assert_eq!(subtree_action(&r, "system/app", true, false, false, None), SubtreeAction::Descend);
    assert_eq!(subtree_action(&r, "system/app/x", true, false, false, None), SubtreeAction::Skip);
    assert_eq!(subtree_action(&r, "system/file", false, false, false, None), SubtreeAction::AddLeaf);
    assert_eq!(
        subtree_action(&r, "system/file", false, false, false, Some(NodeFileType::RegularFile)),
        SubtreeAction::Skip
    );
    assert_eq!(
        subtree_action(&r, "system/file", false, false, false, Some(NodeFileType::Symlink)),
        SubtreeAction::AddLeaf
    );
    assert_eq!(subtree_action(&r, "system/app/x", false, false, true, None), SubtreeAction::AddLeaf);
    assert_eq!(subtree_action(&r, "system/app/x", false, false, false, None), SubtreeAction::Skip);
}

fn root_entry(name: &str, prop: PropFile) -> ModuleRootEntry {
    ModuleRootEntry {
        is_dir: Ok(true),
        name: Some(name.to_string()),
        prop,
        listing: strings(&["module.prop", "system"]),
        partition_dirs: strings(&["system"]),
    }
}

#[test]
fn magic_module_selection() {
    let selected = strings(&["mod_a"]);
    let ok = root_entry("mod_a", PropFile::Lines(strings(&["id=mod_a"]), false));
    assert_eq!(select_magic_module(&ok, &selected), Ok(Some("mod_a".to_string())));

    let other = root_entry("mod_b", PropFile::Lines(strings(&["id=mod_b"]), false));
    assert_eq!(select_magic_module(&other, &selected), Ok(None));

    let no_prop = root_entry("mod_a", PropFile::Missing);
    assert_eq!(select_magic_module(&no_prop, &selected), Ok(None));

    let unreadable = root_entry("mod_a", PropFile::Unreadable("denied".to_string()));
    assert_eq!(select_magic_module(&unreadable, &selected), Err("denied".to_string()));

    let mut blocked = root_entry("mod_a", PropFile::Lines(strings(&["id=mod_a"]), false));
    blocked.listing.push("Disable".to_string());
    assert_eq!(select_magic_module(&blocked, &selected), Ok(None));

    let mut untouched = root_entry("mod_a", PropFile::Lines(strings(&["id=mod_a"]), false));
    untouched.partition_dirs.clear();
    assert_eq!(select_magic_module(&untouched, &selected), Ok(None));

    let mut failing = root_entry("mod_a", PropFile::Missing);
    failing.is_dir = Err("io".to_string());
    assert_eq!(select_magic_module(&failing, &selected), Err("io".to_string()));
}

#[test]
fn rules_of_the_last_module_with_an_id_apply() {
    let modules = vec![
        kasumi_module("a", &[]),
        kasumi_module("b", &[]),
        kasumi_module("a", &[]),
    ];
    assert_eq!(rules_index(&modules, "a"), Some(2));
    assert_eq!(rules_index(&modules, "b"), Some(1));
    assert_eq!(rules_index(&modules, "c"), None);
}

fn probe(file_type: NodeFileType, live_exists: bool, live_type: Option<NodeFileType>) -> ChildProbe {
    ChildProbe { file_type, live_exists, live_type }
}

#[test]
fn directory_plan_decides_tmpfs() {
    let same = probe(NodeFileType::Directory, true, Some(NodeFileType::Directory));
    let link = probe(NodeFileType::Symlink, false, None);
    let calm = plan_directory(false, false, true, NodeFileType::Directory, &vec![same]);
    assert!(!calm.tmpfs && !calm.has_tmpfs);

    let needs = plan_directory(false, false, true, NodeFileType::Directory, &vec![same, link]);
    assert!(needs.tmpfs && needs.has_tmpfs);
    assert_eq!(needs.skip, vec![false, false]);

    let replaced = plan_directory(false, true, true, NodeFileType::Directory, &vec![]);
    assert!(replaced.tmpfs);

    let inherited = plan_directory(true, true, true, NodeFileType::Directory, &vec![link]);
    assert!(!inherited.tmpfs && inherited.has_tmpfs);

    let root = plan_directory(false, false, false, NodeFileType::Directory, &vec![same, link, link]);
    assert!(!root.tmpfs && !root.has_tmpfs);
    assert_eq!(root.skip, vec![false, true, true]);
    assert_eq!(root.ignored, 2);

    let whiteout_gone = probe(NodeFileType::Whiteout, false, None);
    let new_file = probe(NodeFileType::RegularFile, false, None);
    let plan = plan_directory(false, false, true, NodeFileType::Directory, &vec![whiteout_gone]);
    assert!(!plan.tmpfs);
    let plan = plan_directory(false, false, true, NodeFileType::Directory, &vec![new_file]);
    assert!(plan.tmpfs);
}

#[test]
fn directory_steps_and_live_entries() {
    let plan = plan_directory(false, true, false, NodeFileType::Directory, &vec![]);
    let steps = directory_steps("/system/app", &plan, true, true, false);
    assert_eq!(
        steps.error.as_deref(),
        Some("dir /system/app is declared as replaced but it is root!")
    );
    assert!(!steps.mount_existing);
    let plan = plan_directory(false, false, true, NodeFileType::Directory, &vec![]);
    let steps = directory_steps("/system/app", &plan, true, false, true);
    assert!(steps.mount_existing && steps.error.is_none() && !steps.move_tmpfs);

    assert_eq!(live_entry_action(Some(true), true), LiveEntryAction::Leave);
    assert_eq!(live_entry_action(Some(false), false), LiveEntryAction::MountNode);
    assert_eq!(live_entry_action(None, true), LiveEntryAction::Mirror);
    assert_eq!(live_entry_action(None, false), LiveEntryAction::Leave);
}

#[test]
fn child_failures_abort_on_tmpfs_and_are_counted_elsewhere() {
    let mut stats = MountStatistics::default();
    let mut failed: Vec<String> = Vec::new();
    let aborted = answer_child_failure(true, strings(&["m"]), "x".to_string(), &mut stats, &mut failed);
    assert!(matches!(aborted, Some(MagicError::Module(_))));
    assert_eq!(stats.failed_mounts, 0);
    assert!(failed.is_empty());

    let counted = answer_child_failure(false, strings(&["m"]), "x".to_string(), &mut stats, &mut failed);
    assert!(counted.is_none());
    assert_eq!(stats.failed_mounts, 1);
    assert_eq!(stats.total_mounts, 1);
    assert_eq!(failed, strings(&["m"]));
}

#[test]
fn module_ids_of_a_tree_are_sorted_and_distinct() {
    let found = vec![Some("b".to_string()), None, Some("a".to_string()), Some("b".to_string())];
    assert_eq!(distinct_ids(&found), strings(&["a", "b"]));
}

#[test]
fn managed_partitions_attach_to_the_root() {
    let roots = vec![
        ("system".to_string(), true),
        ("vendor".to_string(), true),
        ("odm".to_string(), false),
        ("product".to_string(), true),
    ];
    let under = strings(&["vendor", "odm"]);
    assert_eq!(attach_partitions(true, &roots, &under), Some(strings(&["vendor"])));
    assert_eq!(attach_partitions(false, &roots, &under), None);
}

fn exec_result(overlay: &[&str], magic: &[&str]) -> ExecutionResult {
    ExecutionResult {
        overlay_module_ids: strings(overlay),
        overlay_partitions: strings(&["system"]),
        magic_module_ids: strings(magic),
        kasumi_module_ids: Vec::new(),
        kasumi_runtime_enabled: false,
        mount_stats: MountStatistics::default(),
    }
}

#[test]
fn finalize_writes_description_and_state() {
    let config = Config::with_mount_source("KSU".to_string());
    let result = exec_result(&["a", "b"], &["c"]);
    let out = finalize_with(
        &config,
        BuildFlavor::Full,
        StorageMode::Ext4,
        "/mnt/base",
        &result,
        Some("id=hybrid_mount\ndescription=old\n".to_string()),
        1,
        empty_state(),
        KasumiRuntimeInfo::default(),
        strings(&["skipped"]),
        10,
        20,
        true,
    );
    let desc = out.description.unwrap();
    assert!(desc.starts_with("id=hybrid_mount\ndescription="));
    assert!(desc.contains("Overlay:2"));
    assert!(desc.contains("Magic:1"));
    assert!(desc.contains("Blacklist:1"));
    assert!(desc.ends_with('\n'));
    assert_eq!(out.state.mount_point, "/mnt/base");
    assert_eq!(out.state.storage_mode, "ext4");
    assert_eq!(out.state.skip_mount_modules, strings(&["skipped"]));
    assert_eq!(out.state.timestamp, 10);

    let none = finalize_with(
        &config,
        BuildFlavor::Full,
        StorageMode::Tmpfs,
        "/mnt/base",
        &result,
        None,
        0,
        empty_state(),
        KasumiRuntimeInfo::default(),
        Vec::new(),
        0,
        0,
        false,
    );
    assert!(none.description.is_none());
}

#[test]
fn module_metadata_reads_known_keys() {
    let m = read_module_metadata(
        "mod",
        Some("# comment\nname = My Module \nversion=v2\nauthor=\nunknown=x\ndescription=Does things\n"),
    );
    assert_eq!(m.name, "My Module");
    assert_eq!(m.version, "v2");
    assert_eq!(m.author, "unknown");
    assert_eq!(m.description, "Does things");

    let d = read_module_metadata("mod", None);
    assert_eq!(d.name, "mod");
    assert_eq!(d.version, "unknown");
    assert_eq!(d.description, "No description");

    assert_eq!(build_version_payload(&d, "1.2.3").version, "1.2.3");
    assert_eq!(build_version_payload(&m, "1.2.3").version, "v2");
}

#[test]
fn mount_commands_in_scripts() {
    assert!(contains_mount_commands("mount -o bind /a /b"));
    assert!(contains_mount_commands("  \\mkdir -p /data/x"));
    assert!(contains_mount_commands("busybox mount /a /b"));
    assert!(contains_mount_commands("my_bind_helper x"));
    assert!(!contains_mount_commands("# mount /a /b\necho hi"));
    assert!(!contains_mount_commands("busybox echo mount"));
    assert!(!contains_mount_commands("echo mounted"));

    let scripts = vec![
        ScriptProbe {
            name: "service.SH".to_string(),
            is_file: true,
            len: 20,
            content: Some("touch /data/flag".to_string()),
        },
    ];
    assert!(has_suspicious_shell_commands(&scripts));
    let big = vec![ScriptProbe {
        name: "service.sh".to_string(),
        is_file: true,
        len: 300 * 1024,
        content: Some("mount /a /b".to_string()),
    }];
    assert!(!has_suspicious_shell_commands(&big));
    let hidden = vec![ScriptProbe {
        name: ".sh".to_string(),
        is_file: true,
        len: 10,
        content: Some("mount /a /b".to_string()),
    }];
    assert!(!has_suspicious_shell_commands(&hidden));
}

#[test]
fn runtime_modules_payload_keeps_runtime_and_rules_without_metadata() {
    let mut config = Config::with_mount_source("KSU".to_string());
    config.moduledir = "/modules".to_string();
    config.default_mode = DefaultMode::Magic;
    config.rules.push(("alpha".to_string(), rules(MountMode::Overlay, &[])));

    let mut state = empty_state();
    state.overlay_modules = strings(&["alpha"]);

    let ids = runtime_module_ids(&config, &state, &Vec::new());
    let probed: Vec<(String, ModuleProbe)> = ids
        .iter()
        .map(|id| (id.clone(), ModuleProbe { listing: Vec::new(), suspicious: false }))
        .collect();
    let modules = build_runtime_modules_payload(&config, BuildFlavor::Full, &state, &probed);
    assert_eq!(modules.len(), 1);

    let module = &modules[0];
    assert_eq!(module.id, "alpha");
    assert_eq!(module.mode, MountMode::Overlay);
    assert!(module.is_mounted);
    assert!(module.enabled);
    assert_eq!(module.source_path, "/modules/alpha");
    assert_eq!(module.rules.default_mode, MountMode::Overlay);
}

#[test]
fn runtime_modules_payload_includes_mount_error_marker_modules() {
    let mut config = Config::with_mount_source("KSU".to_string());
    config.moduledir = "/modules".to_string();
    let state = empty_state();
    let markers = collect_mount_error_marker_modules(&vec![
        DirProbe {
            name: "broken".to_string(),
            is_dir: true,
            listing: strings(&["MOUNT_ERROR"]),
        },
        DirProbe { name: "fine".to_string(), is_dir: true, listing: Vec::new() },
    ]);
    assert_eq!(markers, strings(&["broken"]));
    let ids = runtime_module_ids(&config, &state, &markers);
    assert_eq!(ids, strings(&["broken"]));
    let probed = vec![(
        "broken".to_string(),
        ModuleProbe { listing: strings(&["MOUNT_ERROR"]), suspicious: false },
    )];
    let modules = build_runtime_modules_payload(&config, BuildFlavor::Full, &state, &probed);
    let module = &modules[0];
    assert_eq!(module.id, "broken");
    assert!(!module.is_mounted);
    assert_eq!(module.mount_error.as_deref(), Some("mount_error marker present"));
}

#[test]
fn scanned_payload_is_sorted_and_marks_blacklist() {
    let mut config = Config::with_mount_source("KSU".to_string());
    config.module_blacklist = strings(&["zeta"]);
    let mut state = empty_state();
    state.magic_modules = strings(&["beta"]);
    state.mount_error_modules = strings(&["beta"]);
    state.mount_error_reasons = vec![("beta".to_string(), "busy".to_string())];
    let plain = ModuleProbe { listing: Vec::new(), suspicious: true };
    let entries = vec![
        ScannedEntry { name: "zeta".to_string(), is_dir: true, probe: plain.clone() },
        ScannedEntry { name: "beta".to_string(), is_dir: true, probe: plain.clone() },
        ScannedEntry { name: "lost+found".to_string(), is_dir: true, probe: plain.clone() },
        ScannedEntry { name: "file".to_string(), is_dir: false, probe: plain },
    ];
    let list = build_scanned_modules_payload(&config, BuildFlavor::Full, &state, "/src", &entries);
    assert_eq!(list.len(), 2);
    assert_eq!(list[0].id, "beta");
    assert_eq!(list[0].mode, MountMode::Magic);
    assert!(list[0].is_mounted);
    assert_eq!(list[0].mount_error.as_deref(), Some("busy"));
    assert!(list[0].suggest_ignore);
    assert_eq!(list[0].source_path, "/src/beta");
    assert_eq!(list[1].id, "zeta");
    assert_eq!(list[1].mode, MountMode::Ignore);
    assert!(!list[1].enabled);
    assert_eq!(list[1].mount_error.as_deref(), Some("blacklisted"));
}

#[test]
fn module_apply_plans_and_refusals() {
    let entry = ModuleApplyEntry {
        id: "mod_a".to_string(),
        enabled: Some(false),
        source_path: None,
        rules: rules(MountMode::Magic, &[]),
    };
    let plan = plan_module_apply(&entry, "/data/adb/modules", None, None).unwrap();
    assert_eq!(plan.target_dir, "/data/adb/modules/mod_a");
    assert_eq!(plan.marker, DisableMarker::Create);

    let bad = ModuleApplyEntry { id: "1bad".to_string(), ..entry.clone() };
    assert_eq!(
        plan_module_apply(&bad, "/m", None, None).unwrap_err(),
        "Invalid module ID: '1bad'. Must match /^[a-zA-Z][a-zA-Z0-9._-]+$/"
    );

    let outside = ModuleApplyEntry {
        source_path: Some("/tmp/x".to_string()),
        enabled: Some(true),
        ..entry.clone()
    };
    assert_eq!(
        plan_module_apply(&outside, "/m", Some(Ok("/tmp/x".to_string())), None).unwrap_err(),
        "source_path '/tmp/x' is outside moduledir '/m'"
    );
    assert_eq!(
        plan_module_apply(&outside, "/m", Some(Err("gone".to_string())), None).unwrap_err(),
        "failed to canonicalize source_path /tmp/x"
    );
    let inside = ModuleApplyEntry { source_path: Some("/m/mod_a".to_string()), ..outside };
    let plan = plan_module_apply(&inside, "/m", Some(Ok("/real/m/mod_a".to_string())), Some("/real/m".to_string()))
        .unwrap();
    assert_eq!(plan.target_dir, "/m/mod_a");
    assert_eq!(plan.marker, DisableMarker::Remove);
    assert!(plan_module_apply(&inside, "/m", Some(Ok("/real/mod".to_string())), Some("/real/m".to_string())).is_err());

    let mut config = Config::with_mount_source("KSU".to_string());
    set_module_rules(&mut config, "mod_a", rules(MountMode::Magic, &[]));
    set_module_rules(&mut config, "mod_b", rules(MountMode::Overlay, &[]));
    set_module_rules(&mut config, "mod_a", rules(MountMode::Kasumi, &[]));
    assert_eq!(config.rules.len(), 2);
    assert_eq!(config.rules[0].0, "mod_a");
    assert_eq!(config.rules[0].1.default_mode, MountMode::Kasumi);
}

#[test]
fn rules_written_are_the_rules_read_back() {
    let mut config = Config::with_mount_source("KSU".to_string());
    config.default_mode = DefaultMode::Overlay;
    set_module_rules(&mut config, "mod_b", rules(MountMode::Overlay, &[("system/app", MountMode::Magic)]));
    let before_b = load_module_rules(&config, "mod_b", None);
    set_module_rules(
        &mut config,
        "mod_a",
        rules(MountMode::Magic, &[("system/bin", MountMode::Ignore)]),
    );
    let a = load_module_rules(&config, "mod_a", None);
    assert_eq!(a.default_mode, MountMode::Magic);
    assert_eq!(a.paths, vec![("system/bin".to_string(), MountMode::Ignore)]);
    let b = load_module_rules(&config, "mod_b", None);
    assert_eq!(b.default_mode, before_b.default_mode);
    assert_eq!(b.paths, before_b.paths);
    assert_eq!(load_module_rules(&config, "mod_c", None).default_mode, MountMode::Overlay);
}

fn failure(ids: &[&str]) -> ModuleStageFailure {
    ModuleStageFailure::new(FailureStage::Execute, strings(ids), "cause".to_string())
}

#[test]
fn recovery_marks_named_modules_and_retries() {
    let mut m = RecoveryMachine::new();
    let a = m.step(RecoveryEvent::AttemptFailed {
        failure: Some(failure(&["bad"])),
        message: "top\ncause".to_string(),
    });
    match a {
        RecoveryAction::MarkModules { stage, source, module_ids } => {
            assert_eq!(stage, "execute");
            assert_eq!(source, "cause");
            assert_eq!(module_ids, strings(&["bad"]));
        }
        other => panic!("unexpected {other:?}"),
    }
    let a = m.step(RecoveryEvent::Marked { newly_marked: 1 });
    assert!(matches!(a, RecoveryAction::DecideNewlyMarked(ref s) if s == "execute"));
    let a = m.step(RecoveryEvent::Decided(RecoveryDecision::InspectModules));
    assert!(matches!(a, RecoveryAction::StartAttempt));
    assert_eq!(m.phase, RecoveryPhase::Attempting);
    assert!(matches!(m.step(RecoveryEvent::AttemptOk), RecoveryAction::Complete));
    assert_eq!(m.phase, RecoveryPhase::Done);
}

#[test]
fn recovery_gives_up_without_new_marks() {
    let mut m = RecoveryMachine::new();
    let a = m.step(RecoveryEvent::AttemptFailed {
        failure: Some(failure(&[])),
        message: "top\ncause".to_string(),
    });
    assert!(matches!(a, RecoveryAction::DecideUnattributed(ref s) if s == "execute"));
    let a = m.step(RecoveryEvent::Decided(RecoveryDecision::InspectModules));
    assert!(matches!(a, RecoveryAction::MarkModules { .. }));
    let a = m.step(RecoveryEvent::Marked { newly_marked: 0 });
    match a {
        RecoveryAction::Unrecoverable(text) => assert_eq!(text, "top -> cause"),
        other => panic!("unexpected {other:?}"),
    }
    assert_eq!(m.phase, RecoveryPhase::Failed);

    let mut m = RecoveryMachine::new();
    let a = m.step(RecoveryEvent::AttemptFailed { failure: None, message: "a\nb\nc".to_string() });
    assert!(matches!(a, RecoveryAction::Unrecoverable(ref t) if t == "a -> b -> c"));

    let mut m = RecoveryMachine::new();
    m.step(RecoveryEvent::AttemptFailed { failure: Some(failure(&[])), message: String::new() });
    assert!(matches!(
        m.step(RecoveryEvent::Decided(RecoveryDecision::AbortRetryLimit)),
        RecoveryAction::AbortRetryLimit
    ));
    assert_eq!(flatten_error_text("no breaks"), "no breaks");
}

#[test]
fn mount_points_match_without_trailing_slashes() {
    let points = strings(&["/", "/system", "/data/adb/x"]);
    assert!(is_mounted_in("/system/", &points));
    assert!(is_mounted_in("/", &points));
    assert!(!is_mounted_in("/vendor", &points));
    assert!(!is_mounted_in("/data/adb", &points));
}

#[test]
fn daemon_wakes_only_for_missing_socket() {
    assert!(should_wake_daemon(None, "connect: No such file or directory (os error 2)"));
    assert!(should_wake_daemon(Some("0"), "Connection refused"));
    assert!(!should_wake_daemon(Some("yes"), "Connection refused"));
    assert!(!should_wake_daemon(None, "timed out"));
}

#[test]
fn size_tally_counts_hard_links_once() {
    let mut t = SizeTally::new();
    assert!(t.record_file(1, 10, 8));
    assert!(!t.record_file(1, 10, 8));
    assert!(t.record_file(2, 10, 1));
    assert_eq!(t.total, 9 * 512);
}

#[test]
fn policy_precedence_path_then_module_then_global() {
    let mut config = Config::with_mount_source("KSU".to_string());
    config.default_mode = DefaultMode::Magic;
    config.rules.push((
        "m".to_string(),
        rules(MountMode::Overlay, &[("system/bin", MountMode::Ignore), ("system/bin/tool", MountMode::Kasumi)]),
    ));
    let r = load_module_rules(&config, "m", None);
    assert_eq!(r.get_mode("system/bin/tool"), MountMode::Kasumi);
    assert_eq!(r.get_mode("system/bin/other"), MountMode::Ignore);
    assert_eq!(r.get_mode("system/etc/hosts"), MountMode::Overlay);
    let g = load_module_rules(&config, "unlisted", None);
    assert_eq!(g.get_mode("system/etc/hosts"), MountMode::Magic);
    assert_eq!(r.effective_mode("system/bin/tool", false), MountMode::Ignore);
    assert_eq!(r.effective_mode("system/bin/tool", true), MountMode::Kasumi);
}

fn group(target: &str, layers: &[&str]) -> OverlayGroup {
    OverlayGroup {
        target: target.to_string(),
        partition: "system".to_string(),
        layers: strings(layers),
    }
}

#[test]
fn mount_plan_merges_groups_by_target_and_orders_them() {
    let modules = vec![kasumi_module("a", &[]), kasumi_module("b", &[])];
    let kept = vec![
        (
            "a".to_string(),
            ModulePlanOutcome {
                overlay_groups: vec![group("/system/etc", &["/nowhere/a/system/etc"])],
                magic: true,
                kasumi: false,
            },
        ),
        (
            "b".to_string(),
            ModulePlanOutcome {
                overlay_groups: vec![
                    group("/system/bin", &["/nowhere/b/system/bin"]),
                    group("/system/etc", &["/nowhere/b/system/etc"]),
                ],
                magic: false,
                kasumi: true,
            },
        ),
    ];
    let plan = build_mount_plan(&modules, &kept);
    assert_eq!(plan.overlay_ops.len(), 2);
    assert_eq!(plan.overlay_ops[0].target, "/system/bin");
    assert_eq!(plan.overlay_ops[0].lowerdirs, strings(&["/nowhere/b/system/bin"]));
    assert_eq!(plan.overlay_ops[1].target, "/system/etc");
    assert_eq!(
        plan.overlay_ops[1].lowerdirs,
        strings(&["/nowhere/a/system/etc", "/nowhere/b/system/etc"])
    );
    assert_eq!(plan.magic_module_ids, strings(&["a"]));
    assert_eq!(plan.kasumi_module_ids, strings(&["b"]));
    assert!(plan.overlay_module_ids.is_empty());
}

fn source_dir(name: &str, parent: Option<usize>, files: bool, dirs: bool, markers: usize) -> SourceDir {
    SourceDir {
        name: name.to_string(),
        parent,
        entry: EntryState {
            direct_non_dir_entries: files,
            has_child_dirs: dirs,
            has_replace_marker: markers > 0,
        },
        replace_markers: markers,
    }
}

#[test]
fn module_preparation_layers_existing_overlay_dirs() {
    let root = tempfile::tempdir().unwrap();
    let system = tempfile::Builder::new().prefix("system").rand_bytes(0).tempdir_in(root.path()).unwrap();
    let _etc = tempfile::Builder::new().prefix("etc").rand_bytes(0).tempdir_in(system.path()).unwrap();
    let system_root = root.path().to_string_lossy().into_owned();
    let tree = SourceTree {
        root_replace_markers: 0,
        root_files: strings(&["module.prop"]),
        dirs: vec![
            source_dir("system", None, false, true, 0),
            source_dir("etc", Some(0), true, false, 1),
            source_dir("vendor", None, true, false, 0),
        ],
    };
    let mut ctx = PrepareContext::new(false, false, BuildFlavor::Full, strings(&["system"]));
    let out = prepare_module(
        &rules(MountMode::Overlay, &[]),
        &tree,
        "/tmp/copy",
        "/final",
        &system_root,
        &mut ctx,
    );
    assert!(out.has_mount_content);
    assert_eq!(out.opaque_dirs, strings(&["/tmp/copy/system/etc"]));
    assert!(!out.plan.magic);
    assert!(!out.plan.kasumi);
    assert_eq!(out.plan.overlay_groups.len(), 1);
    assert_eq!(out.plan.overlay_groups[0].target, format!("{system_root}/system/etc"));
    assert_eq!(out.plan.overlay_groups[0].partition, "system");
    assert_eq!(out.plan.overlay_groups[0].layers, strings(&["/final/system/etc"]));

    let mut ctx = PrepareContext::new(false, false, BuildFlavor::Full, strings(&["system"]));
    let magic = prepare_module(
        &rules(MountMode::Magic, &[]),
        &tree,
        "/tmp/copy",
        "/final",
        &system_root,
        &mut ctx,
    );
    assert!(magic.plan.magic);
    assert!(magic.plan.overlay_groups.is_empty());
}

#[test]
fn recovery_gives_up_after_its_last_attempt() {
    let mut m = RecoveryMachine::new();
    assert_eq!(m.attempt, 1);
    let mut aborted = false;
    for _ in 0..10 {
        m.step(RecoveryEvent::AttemptFailed { failure: Some(failure(&[])), message: String::new() });
        let d = m.decision();
        match m.step(RecoveryEvent::Decided(d)) {
            RecoveryAction::StartAttempt => assert_eq!(d, RecoveryDecision::RetryUnattributed),
            RecoveryAction::AbortRetryLimit => {
                aborted = true;
                break;
            }
            other => panic!("unexpected {other:?}"),
        }
    }
    assert!(aborted);
    assert_eq!(m.attempt, hybrid_mount::recovery::MAX_ATTEMPTS);
    assert_eq!(m.phase, RecoveryPhase::Failed);
}

#[test]
fn partition_directories_go_to_their_slots() {
    assert_eq!(partition_slot("system", None), PartitionSlot::System);
    assert_eq!(partition_slot("system", Some(NodeFileType::Symlink)), PartitionSlot::System);
    assert_eq!(partition_slot("vendor", None), PartitionSlot::Create);
    assert_eq!(partition_slot("vendor", Some(NodeFileType::Symlink)), PartitionSlot::Replace);
    assert_eq!(partition_slot("vendor", Some(NodeFileType::Directory)), PartitionSlot::Reuse);
}
