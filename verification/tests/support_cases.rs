use hybrid_mount::config::Config;
use hybrid_mount::defs::MODULES_IMG_FILE;
use hybrid_mount::domain::{ModuleRules, MountMode};
use hybrid_mount::flavor::{BuildFlavor, ReleaseMetadata, DEFAULT_NANO_UPDATE_JSON};
use hybrid_mount::fsplan::{
    is_managed_partition_path, prune_empty_dirs, prune_orphaned_children, sync_dir, PreparedDir,
    SyncEntry,
};
use hybrid_mount::kasumi::{KasumiFeatureBits, KasumiStatus};
use hybrid_mount::kasumi_api::{
    build_features_payload, build_kasumi_version_payload, build_lkm_payload,
    extract_active_module_ids, extract_module_id_from_source, mismatch_message,
    parse_kasumi_rule_listing, LkmStatus,
};
use hybrid_mount::partitions::{managed_partition_names, managed_partition_set};
use hybrid_mount::runtime_state::{KasumiRuntimeInfo, ModuleModeStats, MountStatistics, RuntimeState};
use hybrid_mount::storage::{cleanup_artifacts, StorageMode};
use hybrid_mount::storage_setup::{setup, SetupAction, SetupEvent};
use hybrid_mount::umount::UmountRegistry;

fn strings(v: &[&str]) -> Vec<String> {
    v.iter().map(|s| s.to_string()).collect()
}

fn state_with_kasumi(modules: &[&str]) -> RuntimeState {
    RuntimeState::new(
        "tmpfs".to_string(),
        "/mnt/hm_x".to_string(),
        Vec::new(),
        Vec::new(),
        strings(modules),
        Vec::new(),
        MountStatistics::default(),
        ModuleModeStats::default(),
        KasumiRuntimeInfo::default(),
        1,
        2,
        false,
    )
}

#[test]
fn flavors_differ_in_what_they_ship() {
    assert!(BuildFlavor::Full.includes_kasumi_lkm());
    assert!(!BuildFlavor::Lite.includes_kasumi_lkm());
    assert!(BuildFlavor::Lite.includes_webui());
    assert!(!BuildFlavor::Nano.includes_webui());
    assert_eq!(BuildFlavor::Full.zip_stem("v1.2"), "Hybrid-Mount-v1.2");
    assert_eq!(BuildFlavor::Lite.zip_stem("v1.2"), "Hybrid-Mount-lite-v1.2");
    assert_eq!(BuildFlavor::Nano.zip_stem("v1.2"), "Hybrid-Mount-nano-v1.2");
}

#[test]
fn staging_paths_sit_beside_the_module_tree() {
    let d = PreparedDir::new("/mnt/hm_x", "foo");
    assert_eq!(d.tmp_path(), "/mnt/hm_x/.tmp_foo");
    assert_eq!(d.final_path(), "/mnt/hm_x/foo");
    assert_eq!(d.backup_path(), "/mnt/hm_x/.backup_foo");
    let d = PreparedDir::new("/mnt/", "foo");
    assert_eq!(d.final_path(), "/mnt/foo");
}

#[test]
fn orphans_are_entries_of_no_active_module() {
    let entries = strings(&["a", ".tmp_b", "b", "lost+found", "gone", "hybrid_mount"]);
    let r = prune_orphaned_children(&entries, &strings(&["a", "b"]), &strings(&["lost+found", "hybrid_mount"]));
    assert_eq!(r, strings(&["gone"]));
    assert_eq!(prune_empty_dirs(&strings(&["/x/a/b", "/x/a"])), strings(&["/x/a/b", "/x/a"]));
}

#[test]
fn copying_a_tree_reports_content_and_opaque_dirs() {
    let managed = strings(&["system", "vendor"]);
    assert!(is_managed_partition_path("system/bin", &managed));
    assert!(is_managed_partition_path("vendor", &managed));
    assert!(!is_managed_partition_path("systemx/bin", &managed));
    assert!(!is_managed_partition_path("", &managed));

    let e = |parent: &str, name: &str, is_dir: bool| SyncEntry {
        parent: parent.to_string(),
        name: name.to_string(),
        is_dir,
    };
    let s = sync_dir(
        "/dst",
        &managed,
        &vec![e("", "system", true), e("system", "bin", true), e("system", ".REPLACE", false), e("", ".replace", false)],
    );
    assert!(s.has_mount_content);
    assert_eq!(s.opaque_dirs, strings(&["/dst/system", "/dst"]));
    assert_eq!(s.copied, strings(&["system", "system/bin"]));

    let s = sync_dir("/dst", &managed, &vec![e("", "module.prop", false), e("", "system", true)]);
    assert!(!s.has_mount_content);
    assert!(s.opaque_dirs.is_empty());

    let s = sync_dir("/dst", &managed, &vec![e("system/etc", "hosts", false)]);
    assert!(s.has_mount_content);
    assert_eq!(s.copied, strings(&["system/etc/hosts"]));
}

#[test]
fn umount_registry_keeps_each_normalised_path_once() {
    let mut r = UmountRegistry::new();
    r.send_umountable(false, "/system/bin");
    assert!(r.paths().is_empty());
    r.send_umountable(true, "/system//bin/");
    r.send_umountable(true, "/system/bin");
    r.send_umountable(true, "/system/lib64/foo");
    r.send_umountable(true, "/product/app");
    assert_eq!(r.paths(), strings(&["/system/bin", "/product/app"]));
}

#[test]
fn only_ext4_storage_leaves_an_image() {
    assert_eq!(cleanup_artifacts(StorageMode::Ext4), vec![MODULES_IMG_FILE]);
    assert!(cleanup_artifacts(StorageMode::Tmpfs).is_empty());
}

#[test]
fn daemon_state_update_keeps_the_mount_record() {
    let mut st = state_with_kasumi(&["k"]);
    st.set_daemon_state(true, "/run/sock".to_string(), 99);
    assert!(st.daemon.alive);
    assert_eq!(st.daemon.socket_path, "/run/sock");
    assert_eq!(st.daemon.last_refresh_ts, 99);
    assert_eq!(st.kasumi_modules, strings(&["k"]));
}

#[test]
fn kasumi_requests_are_found_in_default_or_rules() {
    let r = ModuleRules { default_mode: MountMode::Overlay, paths: Vec::new() };
    assert!(!r.requests_kasumi());
    let r = ModuleRules {
        default_mode: MountMode::Overlay,
        paths: vec![("system/app".to_string(), MountMode::Kasumi)],
    };
    assert!(r.requests_kasumi());
    assert!(ModuleRules::with_default(MountMode::Kasumi).requests_kasumi());
}

#[test]
fn partition_set_is_the_sorted_name_list() {
    assert_eq!(managed_partition_set(), managed_partition_names());
}

#[test]
fn rule_listing_is_parsed_line_by_line() {
    let listing = "Kasumi Protocol: 3\nKasumi Enabled: 1\n\n  add /system/bin/sh /data/adb/modules/foo/system/bin/sh 8\nmerge /system/etc /dev/kasumi_mirror/bar/system/etc\nhide /system/xbin/su\nInject  a  b\nadd /x /y nope\n";
    let rules = parse_kasumi_rule_listing(listing);
    assert_eq!(rules.len(), 5);
    assert_eq!(rules[0].rule_type, "ADD");
    assert_eq!(rules[0].target.as_deref(), Some("/system/bin/sh"));
    assert_eq!(rules[0].source.as_deref(), Some("/data/adb/modules/foo/system/bin/sh"));
    assert_eq!(rules[0].file_type, Some(8));
    assert_eq!(rules[1].rule_type, "MERGE");
    assert_eq!(rules[1].file_type, None);
    assert_eq!(rules[2].rule_type, "HIDE");
    assert_eq!(rules[2].path.as_deref(), Some("/system/xbin/su"));
    assert_eq!(rules[3].rule_type, "INJECT");
    assert_eq!(rules[3].path.as_deref(), Some("a"));
    assert_eq!(rules[4].file_type, None);

    let other = parse_kasumi_rule_listing("stealth on now\nflag\n");
    assert_eq!(other[0].rule_type, "STEALTH");
    assert_eq!(other[0].args.as_deref(), Some("on now"));
    assert_eq!(other[1].args, None);

    assert_eq!(
        extract_active_module_ids(&rules, "/dev/kasumi_mirror/"),
        strings(&["bar", "foo"])
    );
    assert_eq!(
        extract_module_id_from_source("/data/adb/modules/foo/x", "/m"),
        Some("foo".to_string())
    );
    assert_eq!(extract_module_id_from_source("/data/adb/modules//x", "/m"), None);
    assert_eq!(extract_module_id_from_source("/elsewhere/foo", "/m"), None);
}

#[test]
fn version_report_explains_protocol_mismatch() {
    assert_eq!(
        mismatch_message(KasumiStatus::KernelNotSupported, Some(2), 3).as_deref(),
        Some("kernel protocol 2 is not compatible with userspace api3")
    );
    assert_eq!(
        mismatch_message(KasumiStatus::ModuleTooOld, None, 3).as_deref(),
        Some("kernel protocol 0 is newer than userspace api3")
    );
    assert_eq!(
        mismatch_message(KasumiStatus::Available, Some(4), 3).as_deref(),
        Some("protocol mismatch: userspace api3, kernel api4")
    );
    assert_eq!(mismatch_message(KasumiStatus::Available, Some(3), 3), None);
    assert_eq!(mismatch_message(KasumiStatus::NotPresent, Some(9), 3), None);

    let mut config = Config::with_mount_source("KSU".to_string());
    let state = state_with_kasumi(&[]);
    let p = build_kasumi_version_payload(&config, &state, 3, KasumiStatus::Available, Some(4), "");
    assert_eq!(p.kernel_version, 0);
    assert!(!p.kasumi_available && !p.protocol_mismatch);
    assert_eq!(p.mount_base, "/mnt/hm_x");

    config.kasumi.enabled = true;
    config.kasumi.mirror_path = "/mirror".to_string();
    let p = build_kasumi_version_payload(
        &config,
        &state,
        3,
        KasumiStatus::Available,
        Some(4),
        "add /a /mirror/m1/a 8\nadd /b /mirror/m1/b 8\n",
    );
    assert_eq!(p.kernel_version, 4);
    assert!(p.kasumi_available);
    assert!(p.protocol_mismatch);
    assert_eq!(p.active_modules, strings(&["m1"]));
    assert_eq!(p.mirror_path, "/mirror");

    let recorded = state_with_kasumi(&["z", "y", "z"]);
    let p = build_kasumi_version_payload(&config, &recorded, 3, KasumiStatus::NotPresent, None, "");
    assert_eq!(p.active_modules, strings(&["y", "z"]));
    assert!(!p.protocol_mismatch);
    assert_eq!(p.mismatch_message, None);
}

#[test]
fn feature_and_loader_reports_copy_what_was_read() {
    let bits = KasumiFeatureBits {
        kstat_spoof: 1,
        uname_spoof: 2,
        cmdline_spoof: 4,
        selinux_bypass: 8,
        merge_dir: 16,
        mount_hide: 32,
        maps_spoof: 64,
        statfs_spoof: 128,
        fake_mountinfo: 256,
        selinux_fix: 512,
    };
    let f = build_features_payload(Some(2 | 4), &bits);
    assert_eq!(f.bitmask, 6);
    assert_eq!(f.names, strings(&["uname_spoof", "cmdline_spoof"]));
    let f = build_features_payload(None, &bits);
    assert_eq!(f.bitmask, 0);
    assert!(f.names.is_empty());

    let status = LkmStatus {
        loaded: true,
        module_name: Some("kasumi_lkm".to_string()),
        autoload: false,
        kmi_override: String::new(),
        current_kmi: "android14-6.1".to_string(),
        search_dir: "/data/adb/kasumi".to_string(),
        module_file: None,
    };
    let p = build_lkm_payload(status, Some("boom".to_string()));
    assert!(p.loaded);
    assert_eq!(p.module_name.as_deref(), Some("kasumi_lkm"));
    assert_eq!(p.current_kmi, "android14-6.1");
    assert_eq!(p.last_error.as_deref(), Some("boom"));
}

fn run_setup(
    flavor: BuildFlavor,
    force_ext4: bool,
    events: Vec<SetupEvent>,
) -> Vec<SetupAction> {
    let (mut machine, first) = setup("/mnt/hm_x", "/data/adb/modules", force_ext4, "KSU", false, flavor);
    let mut actions = vec![first];
    for e in events {
        assert!(machine.accepts(&e));
        actions.push(machine.step(e));
    }
    actions
}

#[test]
fn storage_prefers_tmpfs_with_working_xattrs() {
    let actions = run_setup(
        BuildFlavor::Lite,
        false,
        vec![
            SetupEvent::ImagesReset(Ok(())),
            SetupEvent::Detached,
            SetupEvent::TmpfsMounted(true),
            SetupEvent::XattrProbed(Some(true)),
            SetupEvent::Finalized,
        ],
    );
    assert!(matches!(&actions[0], SetupAction::ResetImages { pattern } if pattern == "/data/adb/hybrid-mount/modules.img*"));
    assert!(matches!(&actions[1], SetupAction::DetachExisting { target } if target == "/mnt/hm_x"));
    assert!(matches!(&actions[2], SetupAction::MountTmpfs { target, source } if target == "/mnt/hm_x" && source == "KSU"));
    assert!(matches!(&actions[3], SetupAction::ProbeOverlayXattr { .. }));
    assert!(matches!(&actions[4], SetupAction::FinalizeMount { register_umount: true, .. }));
    match &actions[5] {
        SetupAction::Ready(h) => {
            assert_eq!(h.mode(), StorageMode::Tmpfs);
            assert_eq!(h.mount_point(), "/mnt/hm_x");
        }
        other => panic!("unexpected {other:?}"),
    }
}

#[test]
fn storage_falls_back_to_ext4() {
    let actions = run_setup(
        BuildFlavor::Full,
        false,
        vec![
            SetupEvent::ImagesReset(Ok(())),
            SetupEvent::Detached,
            SetupEvent::TmpfsMounted(true),
            SetupEvent::XattrProbed(None),
            SetupEvent::TmpfsUnmounted,
            SetupEvent::Ext4Ready(Ok(())),
            SetupEvent::Finalized,
        ],
    );
    assert!(matches!(&actions[4], SetupAction::UnmountTmpfs { .. }));
    assert!(matches!(&actions[5], SetupAction::SetupExt4 { image, sources, .. }
        if image == "/data/adb/hybrid-mount/modules.img" && *sources == strings(&["/data/adb/modules"])));
    assert!(matches!(&actions[7], SetupAction::Ready(h) if h.mode() == StorageMode::Ext4));

    let nano = run_setup(BuildFlavor::Nano, false, vec![SetupEvent::ImagesReset(Ok(())), SetupEvent::Detached]);
    assert!(matches!(&nano[2], SetupAction::SetupExt4 { .. }));
    let forced = run_setup(BuildFlavor::Full, true, vec![SetupEvent::ImagesReset(Ok(())), SetupEvent::Detached]);
    assert!(matches!(&forced[2], SetupAction::SetupExt4 { .. }));
    let no_tmpfs = run_setup(
        BuildFlavor::Full,
        false,
        vec![SetupEvent::ImagesReset(Ok(())), SetupEvent::Detached, SetupEvent::TmpfsMounted(false)],
    );
    assert!(matches!(&no_tmpfs[3], SetupAction::SetupExt4 { .. }));
}

#[test]
fn storage_setup_errors_end_it() {
    let bad_glob = run_setup(BuildFlavor::Full, false, vec![SetupEvent::ImagesReset(Err("bad pattern".to_string()))]);
    assert!(matches!(&bad_glob[1], SetupAction::Fail(m) if m == "bad pattern"));
    let (mut machine, _) = setup("/m", "/d", true, "KSU", true, BuildFlavor::Full);
    machine.step(SetupEvent::ImagesReset(Ok(())));
    assert!(!machine.accepts(&SetupEvent::Finalized));
    machine.step(SetupEvent::Detached);
    let a = machine.step(SetupEvent::Ext4Ready(Err("mkfs failed".to_string())));
    assert!(matches!(a, SetupAction::Fail(ref m) if m == "mkfs failed"));
    assert!(!machine.accepts(&SetupEvent::Finalized));
}

#[test]
fn flavor_names_and_update_manifests_fall_back_to_defaults() {
    let meta = ReleaseMetadata {
        name: "Hybrid Mount".to_string(),
        lite_name: Some("  ".to_string()),
        nano_name: Some("HM Nano".to_string()),
        update: "https://example.com/update.json".to_string(),
        lite_update: Some("https://example.com/lite.json".to_string()),
        nano_update: None,
    };
    assert_eq!(BuildFlavor::Full.module_name(&meta), "Hybrid Mount");
    assert_eq!(BuildFlavor::Lite.module_name(&meta), "Hybrid Mount Lite");
    assert_eq!(BuildFlavor::Nano.module_name(&meta), "HM Nano");
    assert_eq!(BuildFlavor::Full.update_json(&meta), "https://example.com/update.json");
    assert_eq!(BuildFlavor::Lite.update_json(&meta), "https://example.com/lite.json");
    assert_eq!(BuildFlavor::Nano.update_json(&meta), DEFAULT_NANO_UPDATE_JSON);
    assert!(DEFAULT_NANO_UPDATE_JSON.ends_with("/update-nano.json"));
}
